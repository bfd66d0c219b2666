use rsh::shell::completer::{CompletionCandidate, DirEntry, EntryKind, FilePathAndCommandCompleter};

fn file(name: &str) -> DirEntry {
    DirEntry { name: name.to_string(), kind: EntryKind::File }
}

fn dir(name: &str) -> DirEntry {
    DirEntry { name: name.to_string(), kind: EntryKind::Directory }
}

fn plain(text: &str) -> CompletionCandidate {
    CompletionCandidate { display: text.to_string(), replacement: text.to_string() }
}

fn sample() -> FilePathAndCommandCompleter {
    FilePathAndCommandCompleter::new(&vec![vec![file("ls"), file("less"), file("cat")]])
}

#[test]
fn name_in_two_path_segments_is_kept_once() {
    let listings = vec![
        vec![file("ls"), file("cat")],
        vec![file("grep"), file("ls")],
    ];
    let completer = FilePathAndCommandCompleter::new(&listings);
    assert_eq!(
        completer.commands(),
        &vec!["cat".to_string(), "grep".to_string(), "ls".to_string()]
    );
}

#[test]
fn empty_search_path_gives_empty_registry() {
    let completer = FilePathAndCommandCompleter::new(&vec![]);
    assert!(completer.commands().is_empty());
    let two_empty = FilePathAndCommandCompleter::new(&vec![vec![], vec![]]);
    assert!(two_empty.commands().is_empty());
}

#[test]
fn only_regular_files_are_indexed() {
    let listings = vec![vec![
        dir("lib"),
        file("sh"),
        DirEntry { name: "link".to_string(), kind: EntryKind::Other },
    ]];
    assert_eq!(
        FilePathAndCommandCompleter::load_commands_from_path(&listings),
        vec!["sh".to_string()]
    );
}

#[test]
fn registry_is_sorted() {
    let listings = vec![vec![file("zip"), file("awk"), file("ls"), file("Make"), file("awk")]];
    assert_eq!(
        FilePathAndCommandCompleter::load_commands_from_path(&listings),
        vec!["Make".to_string(), "awk".to_string(), "ls".to_string(), "zip".to_string()]
    );
}

#[test]
fn first_word_completes_to_commands_with_that_prefix() {
    let (start, candidates) = sample().complete("l", 1, &vec![]);
    assert_eq!(start, 0);
    assert!(candidates.contains(&plain("ls")));
    assert!(candidates.contains(&plain("less")));
    assert!(!candidates.contains(&plain("cat")));
    assert_eq!(candidates, vec![plain("less"), plain("ls")]);
}

#[test]
fn first_word_also_offers_the_listing() {
    let entries = vec![dir("lib"), file("log")];
    let (start, candidates) = sample().complete("l", 1, &entries);
    assert_eq!(start, 0);
    assert_eq!(
        candidates,
        vec![plain("less"), plain("ls"), plain("lib/"), plain("log")]
    );
}

#[test]
fn first_word_is_replaced_from_where_it_starts() {
    let (start, candidates) = sample().complete("  ca", 4, &vec![]);
    assert_eq!(start, 2);
    assert_eq!(candidates, vec![plain("cat")]);
}

#[test]
fn blank_line_offers_every_command_from_zero() {
    let entries = vec![file("readme")];
    let all = vec![plain("cat"), plain("less"), plain("ls")];
    assert_eq!(sample().complete("", 0, &entries), (0, all.clone()));
    assert_eq!(sample().complete("   ", 3, &entries), (0, all.clone()));
    assert_eq!(sample().complete("ls -l", 0, &entries), (0, all));
}

#[test]
fn directory_gets_a_marker_and_file_gets_none() {
    let entries = vec![dir("bin"), file("readme")];
    let candidates = FilePathAndCommandCompleter::complete_path(&entries);
    assert_eq!(candidates, vec![plain("bin/"), plain("readme")]);
}

#[test]
fn empty_listing_gives_no_candidates() {
    assert_eq!(FilePathAndCommandCompleter::complete_path(&vec![]), vec![]);
}

#[test]
fn later_word_completes_to_the_listing_only() {
    let entries = vec![dir("bin"), file("readme")];
    let (start, candidates) = sample().complete("ls re", 5, &entries);
    assert_eq!(start, 3);
    assert_eq!(candidates, vec![plain("bin/"), plain("readme")]);
}

#[test]
fn cursor_after_whitespace_completes_an_empty_word() {
    let entries = vec![file("readme")];
    let (start, candidates) = sample().complete("ls ", 3, &entries);
    assert_eq!(start, 3);
    assert_eq!(candidates, vec![plain("readme")]);
}

#[test]
fn only_the_text_before_the_cursor_counts() {
    let entries = vec![file("readme")];
    let (start, candidates) = sample().complete("le file", 2, &entries);
    assert_eq!(start, 0);
    assert_eq!(candidates, vec![plain("less"), plain("readme")]);
}

#[test]
fn positions_count_bytes() {
    let entries = vec![file("x")];
    let line = "écho naï";
    assert_eq!(line.len(), 10);
    let (start, candidates) = sample().complete(line, 10, &entries);
    assert_eq!(start, 6);
    assert_eq!(candidates, vec![plain("x")]);
    assert_eq!(&line[start..10], "naï");
    let (first, _) = sample().complete("  é", 4, &entries);
    assert_eq!(first, 2);
    let (wide, _) = sample().complete("é\u{3000}日本", 11, &entries);
    assert_eq!(wide, 5);
}

#[test]
fn word_under_the_cursor() {
    assert_eq!(FilePathAndCommandCompleter::path_to_complete("", 0), None);
    assert_eq!(FilePathAndCommandCompleter::path_to_complete("  ", 2), None);
    assert_eq!(FilePathAndCommandCompleter::path_to_complete("l", 1), Some("l"));
    assert_eq!(FilePathAndCommandCompleter::path_to_complete("ls /usr/lo", 10), Some("/usr/lo"));
    assert_eq!(FilePathAndCommandCompleter::path_to_complete("ls /usr/lo", 6), Some("/us"));
    assert_eq!(FilePathAndCommandCompleter::path_to_complete("ls ", 3), Some(""));
    assert_eq!(FilePathAndCommandCompleter::path_to_complete("ls dé", 6), Some("dé"));
}

#[test]
fn no_hint_is_given() {
    assert_eq!(sample().hint("l", 1), None);
    assert_eq!(sample().hint("", 0), None);
}

#[test]
fn completing_twice_gives_the_same_result() {
    let entries = vec![dir("bin")];
    let completer = sample();
    let first = completer.complete("c", 1, &entries);
    let second = completer.complete("c", 1, &entries);
    assert_eq!(first, second);
    assert_eq!(first, (0, vec![plain("cat"), plain("bin/")]));
}
