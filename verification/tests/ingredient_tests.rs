use recipe_printer::model::{TandoorFood, TandoorIngredient, TandoorUnit};

fn ing(
    amount_centi: u64,
    unit: Option<(&str, Option<&str>)>,
    food: Option<(u32, &str, Option<&str>)>,
    note: &str,
) -> TandoorIngredient {
    TandoorIngredient {
        id: 1,
        amount_centi,
        unit: unit.map(|(n, p)| TandoorUnit {
            id: 1,
            name: n.to_owned(),
            plural_name: p.map(|s| s.to_owned()),
        }),
        food: food.map(|(id, n, p)| TandoorFood {
            id,
            name: n.to_owned(),
            plural_name: p.map(|s| s.to_owned()),
        }),
        note: note.to_owned(),
    }
}

#[test]
fn fraction_glyphs_bare() {
    assert_eq!(ing(13, None, None, "").pretty_print(), "- 1/8 ");
    assert_eq!(ing(25, None, None, "").pretty_print(), "- 1/4 ");
    assert_eq!(ing(33, None, None, "").pretty_print(), "- 1/3 ");
    assert_eq!(ing(50, None, None, "").pretty_print(), "- 1/2 ");
    assert_eq!(ing(67, None, None, "").pretty_print(), "- 2/3 ");
    assert_eq!(ing(75, None, None, "").pretty_print(), "- 3/4 ");
}

#[test]
fn fraction_glyph_with_whole_prefix() {
    assert_eq!(ing(150, None, None, "").pretty_print(), "- 1 1/2 ");
    assert_eq!(ing(275, None, None, "").pretty_print(), "- 2 3/4 ");
    assert_eq!(ing(1033, None, None, "").pretty_print(), "- 10 1/3 ");
}

#[test]
fn zero_amount_gives_no_amount_text() {
    assert_eq!(
        ing(0, None, Some((7, "salt", None)), "").pretty_print(),
        "- salt"
    );
}

#[test]
fn fallback_prints_raw_decimal() {
    assert_eq!(ing(230, None, None, "").pretty_print(), "- 2.3 ");
    assert_eq!(ing(200, None, None, "").pretty_print(), "- 2 ");
    assert_eq!(ing(5, None, None, "").pretty_print(), "- 0.05 ");
    assert_eq!(ing(237, None, None, "").pretty_print(), "- 2.37 ");
    assert_eq!(ing(40, None, None, "").pretty_print(), "- 0.4 ");
}

#[test]
fn unit_pluralization() {
    let two = ing(200, Some(("cup", Some("cups"))), Some((1, "flour", None)), "");
    assert_eq!(two.pretty_print(), "- 2 cups flour");
    let one = ing(100, Some(("cup", Some("cups"))), Some((1, "flour", None)), "");
    assert_eq!(one.pretty_print(), "- 1 cup flour");
    let no_plural = ing(200, Some(("dash", None)), Some((1, "salt", None)), "");
    assert_eq!(no_plural.pretty_print(), "- 2 dash salt");
}

#[test]
fn food_pluralization_with_zero_amount() {
    let i = ing(0, Some(("cup", Some("cups"))), Some((3, "apple", Some("apples"))), "");
    assert_eq!(i.pretty_print(), "- apples");
    let one = ing(100, None, Some((3, "apple", Some("apples"))), "");
    assert_eq!(one.pretty_print(), "- 1 apple");
}

#[test]
fn note_in_parentheses() {
    let i = ing(100, None, Some((3, "onion", None)), "finely diced");
    assert_eq!(i.pretty_print(), "- 1 onion (finely diced)");
}

#[test]
fn inclusion_requires_food() {
    assert!(!ing(150, Some(("cup", None)), None, "note").included());
    assert!(ing(0, None, Some((1, "salt", None)), "").included());
}
