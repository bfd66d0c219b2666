use rsh::shell::completer::{choose_directory, directory_to_list, insert_name};

#[test]
fn a_directory_is_listed_itself() {
    assert_eq!(directory_to_list("/usr/local", true), "/usr/local");
    assert_eq!(choose_directory("src", true, Some("")), "src");
}

#[test]
fn a_partial_name_lists_its_parent() {
    assert_eq!(directory_to_list("src/ma", false), "src");
    assert_eq!(directory_to_list("/usr/lo", false), "/usr");
    assert_eq!(choose_directory("src/ma", false, Some("src")), "src");
}

#[test]
fn a_name_without_parent_lists_the_current_directory() {
    assert_eq!(directory_to_list("ma", false), ".");
    assert_eq!(directory_to_list("", false), ".");
    assert_eq!(choose_directory("ma", false, Some("")), ".");
    assert_eq!(choose_directory("", false, None), ".");
}

#[test]
fn insertion_keeps_order_and_skips_what_is_there() {
    let mut names: Vec<String> = Vec::new();
    insert_name(&mut names, "ls");
    insert_name(&mut names, "cat");
    insert_name(&mut names, "zsh");
    insert_name(&mut names, "ls");
    insert_name(&mut names, "grep");
    assert_eq!(names, vec!["cat", "grep", "ls", "zsh"]);
}
