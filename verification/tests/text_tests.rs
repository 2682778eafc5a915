use todo_list::command::{parse_command, Command};
use todo_list::text::{lower_input, normalize_input, parse_index, trim_input};

#[test]
fn parse_command_knows_every_word() {
    assert_eq!(parse_command("add"), Command::Add);
    assert_eq!(parse_command("list"), Command::List);
    assert_eq!(parse_command("done"), Command::Done);
    assert_eq!(parse_command("undone"), Command::Undone);
    assert_eq!(parse_command("delete"), Command::Delete);
    assert_eq!(parse_command("menu"), Command::Menu);
    assert_eq!(parse_command("exit"), Command::Exit);
}

#[test]
fn parse_command_maps_everything_else_to_empty() {
    assert_eq!(parse_command(""), Command::Empty);
    assert_eq!(parse_command("Add"), Command::Empty);
    assert_eq!(parse_command("remove"), Command::Empty);
    assert_eq!(parse_command("add "), Command::Empty);
}

#[test]
fn normalize_then_parse() {
    assert_eq!(parse_command(&normalize_input("  ADD \n")), Command::Add);
    assert_eq!(parse_command(&normalize_input("Exit")), Command::Exit);
    assert_eq!(parse_command(&normalize_input(" unknown ")), Command::Empty);
}

#[test]
fn trim_strips_surrounding_whitespace() {
    assert_eq!(trim_input("  buy milk \n"), "buy milk");
    assert_eq!(trim_input("\t\r\n"), "");
    assert_eq!(trim_input("inner  space"), "inner  space");
    assert_eq!(trim_input(""), "");
}

#[test]
fn trim_matches_unicode_whitespace() {
    assert_eq!(trim_input("\u{a0}x\u{a0}"), "x");
    assert_eq!(trim_input("\u{2028}\u{3000}y\u{205f}"), "y");
    assert_eq!(trim_input(" 1\u{a0}"), "1");
    assert_eq!(trim_input("  buy milk \u{85}"), "buy milk".to_string());
    assert_eq!(trim_input("a\u{a0}b"), "a\u{a0}b");
}

#[test]
fn index_line_with_unicode_whitespace_parses() {
    assert_eq!(parse_index(&trim_input(" 1\u{a0}")), Some(1));
}

#[test]
fn lower_folds_ascii_only() {
    assert_eq!(lower_input("AbC xYz"), "abc xyz");
    assert_eq!(lower_input("\u{c9}t\u{e9}"), "\u{c9}t\u{e9}");
}

#[test]
fn parse_index_accepts_integers() {
    assert_eq!(parse_index("5"), Some(5));
    assert_eq!(parse_index("0"), Some(0));
    assert_eq!(parse_index("+7"), Some(7));
    assert_eq!(parse_index("-3"), Some(-3));
    assert_eq!(parse_index("2147483647"), Some(2147483647));
    assert_eq!(parse_index("-2147483648"), Some(-2147483648));
    assert_eq!(parse_index("007"), Some(7));
}

#[test]
fn parse_index_rejects_everything_else() {
    assert_eq!(parse_index(""), None);
    assert_eq!(parse_index("abc"), None);
    assert_eq!(parse_index("12x"), None);
    assert_eq!(parse_index(" 5"), None);
    assert_eq!(parse_index("+"), None);
    assert_eq!(parse_index("-"), None);
    assert_eq!(parse_index("2147483648"), None);
    assert_eq!(parse_index("-2147483649"), None);
    assert_eq!(parse_index("99999999999999999999"), None);
    assert_eq!(parse_index("1.5"), None);
}
