use rsh::shell::parse_input;
use rsh::utils::parser::split_words;

#[test]
fn command_and_arguments_in_order() {
    let parsed = parse_input("ls -la /tmp");
    assert_eq!(parsed, Some(("ls", vec!["-la", "/tmp"])));
}

#[test]
fn empty_line_has_no_command() {
    assert_eq!(parse_input(""), None);
}

#[test]
fn whitespace_only_lines_have_no_command() {
    assert_eq!(parse_input(" "), None);
    assert_eq!(parse_input("   \t  "), None);
    assert_eq!(parse_input("\n\r\t \u{b}\u{c}"), None);
    assert_eq!(parse_input("\u{3000}\u{a0}\u{2003}"), None);
}

#[test]
fn command_without_arguments() {
    assert_eq!(parse_input("pwd"), Some(("pwd", vec![])));
    assert_eq!(parse_input("  pwd  "), Some(("pwd", vec![])));
}

#[test]
fn runs_of_whitespace_separate_words() {
    assert_eq!(
        parse_input("\techo   one\t\ttwo \n"),
        Some(("echo", vec!["one", "two"]))
    );
}

#[test]
fn quotes_are_ordinary_characters() {
    assert_eq!(
        parse_input("echo \"a b\" 'c'"),
        Some(("echo", vec!["\"a", "b\"", "'c'"]))
    );
}

#[test]
fn words_beyond_ascii() {
    assert_eq!(
        parse_input("écho\u{3000}naïve\u{2028}日本"),
        Some(("écho", vec!["naïve", "日本"]))
    );
}

#[test]
fn split_words_agrees_with_std() {
    let lines = ["", " a", "a ", "a b  c", "\u{85}x\u{1680}y", "no-space", " \t "];
    for line in lines {
        let expected: Vec<&str> = line.split_whitespace().collect();
        assert_eq!(split_words(line), expected);
    }
}

#[test]
fn parsing_twice_gives_the_same_result() {
    let first = parse_input("cat a b");
    let second = parse_input("cat a b");
    assert_eq!(first, second);
    assert_eq!(first, Some(("cat", vec!["a", "b"])));
}
