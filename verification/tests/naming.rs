use trash_rs::naming::disambiguate;
use trash_rs::path::{file_name, join, new_item_name, parent, starts_with_path, u64_string};

#[test]
fn file_name_of_nested_path() {
    assert_eq!(file_name("/home/user/notes.txt"), "notes.txt");
    assert_eq!(file_name("/d"), "d");
    assert_eq!(file_name("plain"), "plain");
}

#[test]
fn parent_of_nested_path() {
    assert_eq!(parent("/home/user/notes.txt"), Some("/home/user".to_string()));
    assert_eq!(parent("/d"), Some("/".to_string()));
    assert_eq!(parent("plain"), None);
}

#[test]
fn join_inserts_separator() {
    assert_eq!(join("/tmp/trash", "notes.txt"), "/tmp/trash/notes.txt");
    assert_eq!(join("/", "x"), "/x");
}

#[test]
fn starts_with_respects_component_boundary() {
    assert!(starts_with_path("/tmp/trash/x", "/tmp/trash"));
    assert!(starts_with_path("/tmp/trash", "/tmp/trash"));
    assert!(!starts_with_path("/tmp/trashy/x", "/tmp/trash"));
    assert!(!starts_with_path("/tmp", "/tmp/trash"));
}

#[test]
fn u64_string_renders_decimal() {
    assert_eq!(u64_string(0), "0");
    assert_eq!(u64_string(7), "7");
    assert_eq!(u64_string(120), "120");
}

#[test]
fn counter_replaces_extension() {
    // The known quirk: the counter replaces the extension outright.
    assert_eq!(new_item_name("/tmp/report.txt", 1), "/tmp/report.1");
    assert_eq!(new_item_name("/tmp/report.txt", 12), "/tmp/report.12");
}

#[test]
fn counter_appends_when_no_extension() {
    assert_eq!(new_item_name("/tmp/notes", 2), "/tmp/notes.2");
}

#[test]
fn counter_on_dotfile_keeps_name() {
    assert_eq!(new_item_name("/a/.bashrc", 1), "/a/.bashrc.1");
}

#[test]
fn counter_replaces_last_extension_only() {
    assert_eq!(new_item_name("/a/x.tar.gz", 3), "/a/x.tar.3");
}

#[test]
fn disambiguate_returns_first_free() {
    let taken: Vec<String> = Vec::new();
    let (cand, count) = disambiguate("/t/notes.txt", &taken);
    assert_eq!(cand, "/t/notes.1");
    assert_eq!(count, 1);
}

#[test]
fn disambiguate_skips_taken_candidates() {
    let taken = vec!["/t/notes.1".to_string(), "/t/notes.2".to_string()];
    let (cand, count) = disambiguate("/t/notes.txt", &taken);
    assert_eq!(cand, "/t/notes.3");
    assert_eq!(count, 3);
}

#[test]
fn disambiguate_never_returns_taken_path() {
    // Collision monotonicity, run concretely: resolving against a taken set
    // that grows by each result walks a strictly increasing counter sequence.
    let mut taken = vec!["/t/d.1".to_string()];
    let mut last_count = 0u64;
    for _ in 0..3 {
        let (cand, count) = disambiguate("/t/d", &taken);
        assert!(!taken.contains(&cand));
        assert!(count > last_count);
        last_count = count;
        taken.push(cand);
    }
    assert_eq!(taken.last().unwrap(), "/t/d.4");
}
