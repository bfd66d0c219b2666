use rsh::utils::text::{eq_ignoring_ascii_case, has_prefix, is_space, order_of, Standing};

#[test]
fn whitespace_is_what_std_says() {
    let mut n: u32 = 0;
    while n < 0x3100 {
        if let Some(c) = char::from_u32(n) {
            assert_eq!(is_space(c), c.is_whitespace());
        }
        n += 1;
    }
    assert!(!is_space('a'));
    assert!(is_space(' '));
    assert!(is_space('\u{3000}'));
    assert!(!is_space('\u{200b}'));
}

#[test]
fn prefixes() {
    assert!(has_prefix("less", "l"));
    assert!(has_prefix("less", ""));
    assert!(has_prefix("less", "less"));
    assert!(!has_prefix("less", "lesser"));
    assert!(!has_prefix("cat", "l"));
    assert!(!has_prefix("", "l"));
}

#[test]
fn lexicographic_order() {
    assert_eq!(order_of("cat", "ls"), Standing::Before);
    assert_eq!(order_of("ls", "cat"), Standing::After);
    assert_eq!(order_of("ls", "ls"), Standing::Same);
    assert_eq!(order_of("l", "ls"), Standing::Before);
    assert_eq!(order_of("ls", "l"), Standing::After);
    assert_eq!(order_of("", ""), Standing::Same);
    assert_eq!(order_of("", "a"), Standing::Before);
    assert_eq!(order_of("Z", "a"), Standing::Before);
}

#[test]
fn order_agrees_with_std() {
    let words = ["", "a", "ab", "b", "B", "é", "日本", "z", "aa"];
    for a in words {
        for b in words {
            let expected = if a < b {
                Standing::Before
            } else if a == b {
                Standing::Same
            } else {
                Standing::After
            };
            assert_eq!(order_of(a, b), expected);
        }
    }
}

#[test]
fn ascii_case_is_ignored() {
    assert!(eq_ignoring_ascii_case("exit", "EXIT"));
    assert!(eq_ignoring_ascii_case("ExIt", "exit"));
    assert!(!eq_ignoring_ascii_case("exit", "exits"));
    assert!(!eq_ignoring_ascii_case("exit", "exit "));
    assert!(!eq_ignoring_ascii_case("é", "É"));
    assert!(!eq_ignoring_ascii_case("@", "`"));
    assert!(!eq_ignoring_ascii_case("[", "{"));
}
