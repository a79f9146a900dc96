use recipe_printer::model::{
    TandoorFood, TandoorIngredient, TandoorRecipe, TandoorStep, TandoorUnit,
};
use recipe_printer::render::{
    render, CutMode, Directive, IngredientDisplay, JustifyMode, RenderConfig,
};

fn written_lines(directives: &[Directive]) -> Vec<String> {
    let mut out = Vec::new();
    for d in directives {
        if let Directive::WriteLn(s) = d {
            out.push(s.clone());
        }
    }
    out
}

fn config(display: IngredientDisplay, columns: u32) -> RenderConfig {
    RenderConfig {
        instance: "https://recipes.example.com".to_owned(),
        ingredient_display: display,
        stats: false,
        qr: false,
        cut_mode: CutMode::NoCut,
        columns,
    }
}

fn sample_recipe() -> TandoorRecipe {
    TandoorRecipe {
        id: 42,
        name: "Sauté Café".to_owned(),
        working_time: None,
        waiting_time: None,
        servings: None,
        servings_text: None,
        steps: vec![TandoorStep {
            instruction: "Mix well".to_owned(),
            ingredients: vec![TandoorIngredient {
                id: 0,
                amount_centi: 150,
                unit: Some(TandoorUnit {
                    id: 1,
                    name: "cup".to_owned(),
                    plural_name: Some("cups".to_owned()),
                }),
                food: Some(TandoorFood {
                    id: 1,
                    name: "flour".to_owned(),
                    plural_name: None,
                }),
                note: String::new(),
            }],
            name: String::new(),
            time: 0,
            step_recipe_data: None,
        }],
    }
}

#[test]
fn end_to_end_scenario() {
    let r = sample_recipe();
    let (directives, notes) = render(&r, &config(IngredientDisplay::Step, 20));
    assert!(notes.is_empty());
    let lines = written_lines(&directives);
    assert_eq!(lines, vec!["Saute Cafe", "Step 1", "- 1 1/2 cups flour", "Mix well"]);
}

#[test]
fn foodless_ingredient_rendered_nowhere() {
    let mut r = sample_recipe();
    r.steps[0].ingredients.push(TandoorIngredient {
        id: 0,
        amount_centi: 300,
        unit: None,
        food: None,
        note: "ghost entry".to_owned(),
    });
    let (directives, _) = render(&r, &config(IngredientDisplay::Both, 42));
    for line in written_lines(&directives) {
        assert!(!line.contains("ghost entry"));
        assert!(!line.contains("- 3"));
    }
}

#[test]
fn summary_mode_emits_heading_and_aggregate() {
    let r = sample_recipe();
    let (directives, _) = render(&r, &config(IngredientDisplay::Summary, 42));
    let lines = written_lines(&directives);
    assert_eq!(lines, vec!["Saute Cafe", "Ingredients", "- 1 1/2 cups flour", "Step 1", "Mix well"]);
}

#[test]
fn omit_mode_hides_all_ingredients() {
    let r = sample_recipe();
    let (directives, _) = render(&r, &config(IngredientDisplay::Omit, 42));
    let lines = written_lines(&directives);
    assert_eq!(lines, vec!["Saute Cafe", "Step 1", "Mix well"]);
}

#[test]
fn stats_block_when_enabled() {
    let mut r = sample_recipe();
    r.servings = Some(4);
    r.working_time = Some(30);
    let mut cfg = config(IngredientDisplay::Omit, 42);
    cfg.stats = true;
    let (directives, _) = render(&r, &cfg);
    let lines = written_lines(&directives);
    assert_eq!(lines[1], "4 servings");
    assert_eq!(lines[2], "30 min working time\n");
}

#[test]
fn step_heading_with_name_and_time() {
    let mut r = sample_recipe();
    r.steps[0].name = "Dough".to_owned();
    r.steps[0].time = 5;
    let (directives, _) = render(&r, &config(IngredientDisplay::Omit, 42));
    let lines = written_lines(&directives);
    assert_eq!(lines[1], "Step 1: Dough");
    assert_eq!(lines[2], "(5 min)");
    let mut saw_right_then_left = false;
    for w in directives.windows(3) {
        if let [Directive::Align(JustifyMode::Right), Directive::WriteLn(t), Directive::Align(JustifyMode::Left)] =
            w
        {
            assert_eq!(t, "(5 min)");
            saw_right_then_left = true;
        }
    }
    assert!(saw_right_then_left);
}

#[test]
fn qr_payload_references_recipe_id() {
    let mut cfg = config(IngredientDisplay::Omit, 42);
    cfg.qr = true;
    let r = sample_recipe();
    let (directives, _) = render(&r, &cfg);
    let mut payload = None;
    for d in &directives {
        if let Directive::QrCode(p) = d {
            payload = Some(p.clone());
        }
    }
    assert_eq!(payload.unwrap(), "https://recipes.example.com/recipe/42");
}

#[test]
fn cut_modes_close_the_stream() {
    let r = sample_recipe();
    for (mode, expect) in [
        (CutMode::Full, Some(Directive::FullCut)),
        (CutMode::Partial, Some(Directive::PartialCut)),
        (CutMode::Pause, Some(Directive::Pause)),
        (CutMode::NoCut, None),
    ] {
        let mut cfg = config(IngredientDisplay::Omit, 42);
        cfg.cut_mode = mode;
        let (directives, _) = render(&r, &cfg);
        assert!(matches!(directives.last(), Some(Directive::Print)));
        let before_last = &directives[directives.len() - 2];
        match expect {
            Some(d) => assert!(*before_last == d),
            None => assert!(matches!(before_last, Directive::Feed)),
        }
    }
}

#[test]
fn subrecipe_note_is_surfaced() {
    let mut r = sample_recipe();
    r.steps[0].step_recipe_data = Some(TandoorRecipe {
        id: 7,
        name: "Starter".to_owned(),
        working_time: None,
        waiting_time: None,
        servings: None,
        servings_text: None,
        steps: Vec::new(),
    });
    let (directives, notes) = render(&r, &config(IngredientDisplay::Omit, 42));
    assert_eq!(notes, vec!["Note: Recipe depends on other recipe (Starter - ID: 7)"]);
    let lines = written_lines(&directives);
    assert_eq!(lines[2], "Create recipe \"Starter\". Mix well");
}

#[test]
fn title_wraps_to_half_width() {
    let mut r = sample_recipe();
    r.name = "A Very Long Recipe Name".to_owned();
    let (directives, _) = render(&r, &config(IngredientDisplay::Omit, 20));
    let lines = written_lines(&directives);
    assert_eq!(lines[0], "A Very\nLong\nRecipe\nName");
}
