use recipe_printer::wrap::format_text;

#[test]
fn wraps_greedily_to_width() {
    assert_eq!(format_text("hello world foo", 11), "hello world\nfoo");
    assert_eq!(format_text("a bb ccc dddd", 5), "a bb\nccc\ndddd");
}

#[test]
fn width_zero_skips_wrapping() {
    assert_eq!(format_text("hello world foo", 0), "hello world foo");
    assert_eq!(format_text("two\nlines kept", 0), "two\nlines kept");
}

#[test]
fn round_trip_preserves_words() {
    let original = "the quick brown fox jumps over the lazy dog";
    let wrapped = format_text(original, 10);
    let rejoined = wrapped
        .split_whitespace()
        .collect::<Vec<&str>>()
        .join(" ");
    assert_eq!(rejoined, original);
}

#[test]
fn long_word_stands_alone_unbroken() {
    assert_eq!(format_text("a extraordinarily b", 5), "a\nextraordinarily\nb");
}

#[test]
fn transliterates_to_ascii() {
    assert_eq!(format_text("Sauté Café", 0), "Saute Cafe");
    assert_eq!(format_text("Æneid étude", 0), "AEneid etude");
}

#[test]
fn whitespace_only_text_wraps_to_nothing() {
    assert_eq!(format_text("   \t \n ", 10), "");
    assert_eq!(format_text("", 10), "");
}

#[test]
fn collapses_whitespace_when_wrapping() {
    assert_eq!(format_text("a   b\t\tc", 10), "a b c");
}
