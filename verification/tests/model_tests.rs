use recipe_printer::model::{
    TandoorFood, TandoorIngredient, TandoorRecipe, TandoorStep,
};

fn recipe_with(
    servings: Option<u32>,
    servings_text: Option<&str>,
    working_time: Option<u32>,
    waiting_time: Option<u32>,
) -> TandoorRecipe {
    TandoorRecipe {
        id: 9,
        name: "Bread".to_owned(),
        working_time,
        waiting_time,
        servings,
        servings_text: servings_text.map(|s| s.to_owned()),
        steps: Vec::new(),
    }
}

fn food_only(id: u32, name: &str, note: &str) -> TandoorIngredient {
    TandoorIngredient {
        id: 0,
        amount_centi: 0,
        unit: None,
        food: Some(TandoorFood { id, name: name.to_owned(), plural_name: None }),
        note: note.to_owned(),
    }
}

fn step_of(ingredients: Vec<TandoorIngredient>) -> TandoorStep {
    TandoorStep {
        instruction: "mix".to_owned(),
        ingredients,
        name: String::new(),
        time: 0,
        step_recipe_data: None,
    }
}

#[test]
fn servings_with_default_label() {
    let r = recipe_with(Some(4), None, None, None);
    assert_eq!(r.get_servings(), "4 servings");
}

#[test]
fn servings_with_custom_label() {
    let r = recipe_with(Some(4), Some("loaves"), None, None);
    assert_eq!(r.get_servings(), "4 loaves");
}

#[test]
fn servings_with_empty_label_falls_back() {
    let r = recipe_with(Some(2), Some(""), None, None);
    assert_eq!(r.get_servings(), "2 servings");
}

#[test]
fn servings_absent_gives_empty_text() {
    let r = recipe_with(None, Some("loaves"), None, None);
    assert_eq!(r.get_servings(), "");
}

#[test]
fn duration_lines() {
    let both = recipe_with(None, None, Some(30), Some(90));
    assert_eq!(both.get_duration(), "30 min working time\n90 min waiting time\n");
    let only_working = recipe_with(None, None, Some(15), Some(0));
    assert_eq!(only_working.get_duration(), "15 min working time\n");
    let neither = recipe_with(None, None, Some(0), None);
    assert_eq!(neither.get_duration(), "");
}

#[test]
fn instruction_without_subrecipe() {
    let s = step_of(Vec::new());
    let (text, note) = s.instruction();
    assert_eq!(text, "mix");
    assert!(note.is_none());
}

#[test]
fn instruction_with_subrecipe() {
    let mut s = step_of(Vec::new());
    s.step_recipe_data = Some(recipe_with(None, None, None, None));
    let (text, note) = s.instruction();
    assert_eq!(text, "Create recipe \"Bread\". mix");
    assert_eq!(note.unwrap(), "Note: Recipe depends on other recipe (Bread - ID: 9)");
}

#[test]
fn aggregation_is_stable_on_ties() {
    let mut r = recipe_with(None, None, None, None);
    r.steps = vec![
        step_of(vec![food_only(5, "egg", "from step one")]),
        step_of(vec![food_only(2, "milk", "")]),
        step_of(vec![food_only(5, "egg", "from step three")]),
    ];
    let agg = r.get_all_ingredients();
    assert_eq!(agg.len(), 3);
    assert_eq!(agg[0].food.as_ref().unwrap().id, 2);
    assert_eq!(agg[1].food.as_ref().unwrap().id, 5);
    assert_eq!(agg[1].note, "from step one");
    assert_eq!(agg[2].food.as_ref().unwrap().id, 5);
    assert_eq!(agg[2].note, "from step three");
}

#[test]
fn aggregation_drops_foodless_ingredients() {
    let foodless = TandoorIngredient {
        id: 0,
        amount_centi: 150,
        unit: None,
        food: None,
        note: "placeholder".to_owned(),
    };
    let mut r = recipe_with(None, None, None, None);
    r.steps = vec![step_of(vec![foodless, food_only(1, "salt", "")])];
    let agg = r.get_all_ingredients();
    assert_eq!(agg.len(), 1);
    assert_eq!(agg[0].food.as_ref().unwrap().name, "salt");
}
