use todo_app::input::{parse_choice, parse_description, parse_id, MenuChoice};

#[test]
fn choices_one_to_five() {
    assert_eq!(parse_choice("1\n"), Some(MenuChoice::Add));
    assert_eq!(parse_choice("2"), Some(MenuChoice::List));
    assert_eq!(parse_choice("  3  \r\n"), Some(MenuChoice::Delete));
    assert_eq!(parse_choice("\t4\n"), Some(MenuChoice::MarkDone));
    assert_eq!(parse_choice("5\n"), Some(MenuChoice::Quit));
}

#[test]
fn other_choices_are_rejected() {
    assert_eq!(parse_choice("6\n"), None);
    assert_eq!(parse_choice("0"), None);
    assert_eq!(parse_choice("12"), None);
    assert_eq!(parse_choice("1 2"), None);
    assert_eq!(parse_choice(""), None);
    assert_eq!(parse_choice("   \n"), None);
    assert_eq!(parse_choice("a"), None);
}

#[test]
fn ids_are_read_in_decimal() {
    assert_eq!(parse_id("1\n"), Some(1));
    assert_eq!(parse_id("  42 \r\n"), Some(42));
    assert_eq!(parse_id("007"), Some(7));
    assert_eq!(parse_id("+9"), Some(9));
    assert_eq!(parse_id("0"), Some(0));
    assert_eq!(parse_id("18446744073709551615"), Some(18446744073709551615));
}

#[test]
fn invalid_ids_are_rejected() {
    assert_eq!(parse_id(""), None);
    assert_eq!(parse_id("\n"), None);
    assert_eq!(parse_id("+"), None);
    assert_eq!(parse_id("-1"), None);
    assert_eq!(parse_id("1a"), None);
    assert_eq!(parse_id("1 2"), None);
    assert_eq!(parse_id("abc"), None);
    assert_eq!(parse_id("18446744073709551616"), None);
    assert_eq!(parse_id("99999999999999999999999"), None);
}

#[test]
fn descriptions_are_trimmed() {
    assert_eq!(parse_description("  Buy milk \r\n"), "Buy milk");
    assert_eq!(parse_description("Walk dog\n"), "Walk dog");
    assert_eq!(parse_description("a  b"), "a  b");
    assert_eq!(parse_description(" \t\n"), "");
    assert_eq!(parse_description("Ünïcödé ✓\n"), "Ünïcödé ✓");
}
