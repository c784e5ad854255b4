use kernel_core::shell::{parse_command, parse_u8, split_whitespace, trim, Command, InputEffect, Shell};
use kernel_core::vga::Color;

fn chars(s: &str) -> Vec<char> {
    s.chars().collect()
}

fn run(line: &str) -> Command {
    parse_command(&trim(&chars(line)))
}

#[test]
fn known_commands() {
    assert_eq!(run(""), Command::Empty);
    assert_eq!(run("   "), Command::Empty);
    assert_eq!(run("help"), Command::Help);
    assert_eq!(run("  ver\t"), Command::Version);
    assert_eq!(run("cls"), Command::Clear);
    assert_eq!(run("uptime"), Command::Uptime);
    assert_eq!(run("free"), Command::Free);
    assert_eq!(run("color"), Command::ColorHelp);
    assert_eq!(run("helpme"), Command::Unknown);
}

#[test]
fn color_command_is_validated() {
    assert_eq!(run("color 14 0"), Command::SetColor(Color::Yellow, Color::Black));
    assert_eq!(run("color  +15   1 "), Command::SetColor(Color::White, Color::Blue));
    assert_eq!(run("color 16 0"), Command::BadColor(16, 0));
    assert_eq!(run("color 1 300"), Command::Ignored);
    assert_eq!(run("color a b"), Command::Ignored);
    assert_eq!(run("color 1"), Command::Ignored);
}

#[test]
fn numbers_parse_like_u8() {
    assert_eq!(parse_u8(&chars("255")), Some(255));
    assert_eq!(parse_u8(&chars("0007")), Some(7));
    assert_eq!(parse_u8(&chars("+3")), Some(3));
    assert_eq!(parse_u8(&chars("256")), None);
    assert_eq!(parse_u8(&chars("99999999999")), None);
    assert_eq!(parse_u8(&chars("+")), None);
    assert_eq!(parse_u8(&chars("")), None);
    assert_eq!(parse_u8(&chars("-1")), None);
}

#[test]
fn whitespace_splits_words() {
    let ws = split_whitespace(&chars(" a\u{3000}bc  d "));
    assert_eq!(ws, vec![chars("a"), chars("bc"), chars("d")]);
    assert_eq!(trim(&chars("\u{a0} x y \n")), chars("x y"));
}

#[test]
fn typing_and_erasing_a_line() {
    let mut sh = Shell::new();
    assert!(matches!(sh.input('\x08'), InputEffect::Nothing));
    for c in "verx".chars() {
        assert!(matches!(sh.input(c), InputEffect::Echo(e) if e == c));
    }
    assert!(matches!(sh.input('\x08'), InputEffect::Erase));
    match sh.input('\n') {
        InputEffect::Run(cmd, text) => {
            assert_eq!(cmd, Command::Version);
            assert_eq!(text, chars("ver"));
        }
        _ => panic!("a newline finishes the line"),
    }
    match sh.input('\n') {
        InputEffect::Run(cmd, _) => assert_eq!(cmd, Command::Empty),
        _ => panic!("a newline finishes the line"),
    }
}
