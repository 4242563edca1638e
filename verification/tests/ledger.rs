use trash_rs::codec::{parse_history, serialize_history};
use trash_rs::trash::{HistoryPair, Trash, TrashError};

fn pair(a: &str, b: &str) -> HistoryPair {
    HistoryPair(a.to_string(), b.to_string())
}

#[test]
fn parse_empty_ledger() {
    let h = parse_history("[]").unwrap();
    assert_eq!(h.len(), 0);
}

#[test]
fn serialize_empty_ledger() {
    assert_eq!(serialize_history(&Vec::new()), "[]");
}

#[test]
fn serialize_one_pair() {
    let h = vec![vec![pair("/cwd/notes.txt", "/staging/notes.txt")]];
    assert_eq!(
        serialize_history(&h),
        "[[[\"/cwd/notes.txt\",\"/staging/notes.txt\"]]]"
    );
}

#[test]
fn parse_round_trips_serialized_ledger() {
    let h = vec![
        vec![pair("/cwd/notes.txt", "/staging/notes.txt")],
        Vec::new(),
        vec![pair("/a/b", "/t/b"), pair("/a/c", "/t/c")],
    ];
    let text = serialize_history(&h);
    let back = parse_history(&text).unwrap();
    assert_eq!(back, h);
}

#[test]
fn parse_round_trips_escaped_paths() {
    let odd = "/dir with \"quotes\"/back\\slash/tab\there/ctl\u{1}char";
    let h = vec![vec![pair(odd, "/staging/x")]];
    let text = serialize_history(&h);
    let back = parse_history(&text).unwrap();
    assert_eq!(back, h);
}

#[test]
fn parse_accepts_pretty_printed_ledger() {
    let text = "[\n  [\n    [\n      \"/a/b\",\n      \"/t/b\"\n    ]\n  ]\n]";
    let h = parse_history(text).unwrap();
    assert_eq!(h, vec![vec![pair("/a/b", "/t/b")]]);
}

#[test]
fn serialize_escapes_quotes_and_controls() {
    let h = vec![vec![pair("/a \"b\"", "/c\\d"), pair("/e\u{1}f", "/g")]];
    assert_eq!(
        serialize_history(&h),
        "[[[\"/a \\\"b\\\"\",\"/c\\\\d\"],[\"/e\\u0001f\",\"/g\"]]]"
    );
}

#[test]
fn parse_accepts_short_escapes() {
    let h = parse_history("[[[\"a\\n\\t\\/\\bq\",\"x\"]]]").unwrap();
    assert_eq!(h, vec![vec![pair("a\n\t/\u{8}q", "x")]]);
}

#[test]
fn parse_rejects_raw_control_character() {
    let r = parse_history("[[[\"a\u{1}b\",\"x\"]]]");
    assert!(matches!(r, Err(TrashError::Serialization(_))));
}

#[test]
fn parse_rejects_unicode_escape_beyond_controls() {
    // Escapes the serializer never writes are not accepted back.
    let r = parse_history("[[[\"a\\u0041b\",\"x\"]]]");
    assert!(matches!(r, Err(TrashError::Serialization(_))));
}

#[test]
fn parse_rejects_garbage() {
    let r = parse_history("not a ledger");
    assert!(matches!(r, Err(TrashError::Serialization(_))));
}

#[test]
fn parse_rejects_trailing_content() {
    let r = parse_history("[] []");
    assert!(matches!(r, Err(TrashError::Serialization(_))));
}

#[test]
fn trash_new_loads_ledger() {
    let t = Trash::new(
        "/data/trash-history.json".to_string(),
        "/tmp/trash".to_string(),
        "[[[\"/a/b\",\"/t/b\"]]]",
    )
    .unwrap();
    assert_eq!(t.batches(), &vec![vec![pair("/a/b", "/t/b")]]);
    assert!(!t.is_explain());
}

#[test]
fn trash_new_rejects_malformed_ledger() {
    let r = Trash::new(
        "/data/trash-history.json".to_string(),
        "/tmp/trash".to_string(),
        "{\"oops\": 1}",
    );
    assert!(matches!(r, Err(TrashError::Serialization(_))));
}

#[test]
fn ledger_text_round_trips_through_trash() {
    let hist = vec![vec![pair("/a/b", "/t/b")]];
    let t = Trash::from_parts(hist.clone(), "/h".to_string(), "/t".to_string());
    let text = t.ledger_text();
    let back = parse_history(&text).unwrap();
    assert_eq!(back, hist);
}

#[test]
fn undo_fails_on_empty_history() {
    let mut t = Trash::from_parts(Vec::new(), "/h".to_string(), "/t".to_string());
    let r = t.undo_start();
    assert!(matches!(r, Err(TrashError::NoHistory)));
    assert!(t.batches().is_empty());
    // And again: failing never mutates anything, so it keeps failing.
    let r2 = t.undo_start();
    assert!(matches!(r2, Err(TrashError::NoHistory)));
    assert!(t.batches().is_empty());
}

#[test]
fn commit_then_undo_returns_batch() {
    let mut t = Trash::from_parts(
        vec![vec![pair("/old/a", "/t/a")]],
        "/h".to_string(),
        "/t".to_string(),
    );
    let batch = vec![pair("/cwd/notes.txt", "/t/notes.txt")];
    t.commit_batch(batch.clone());
    assert_eq!(t.batches().len(), 2);
    let popped = t.undo_start().unwrap();
    assert_eq!(popped, batch);
    assert_eq!(t.batches(), &vec![vec![pair("/old/a", "/t/a")]]);
}

#[test]
fn undo_finish_keeps_unresolved_pairs() {
    let mut t = Trash::from_parts(
        vec![vec![pair("/a/x", "/t/x"), pair("/a/y", "/t/y")]],
        "/h".to_string(),
        "/t".to_string(),
    );
    let batch = t.undo_start().unwrap();
    // Say the second pair could not be restored.
    let unresolved = vec![batch[1].clone()];
    t.undo_finish(unresolved);
    assert_eq!(t.batches(), &vec![vec![pair("/a/y", "/t/y")]]);
}

#[test]
fn undo_finish_drops_fully_restored_batch() {
    let mut t = Trash::from_parts(
        vec![vec![pair("/a/x", "/t/x")]],
        "/h".to_string(),
        "/t".to_string(),
    );
    t.undo_start().unwrap();
    t.undo_finish(Vec::new());
    assert!(t.batches().is_empty());
}

#[test]
fn toggle_explain_sets_dry_run() {
    let mut t = Trash::from_parts(Vec::new(), "/h".to_string(), "/t".to_string());
    assert!(!t.is_explain());
    assert!(t.should_clean_staging());
    t.toggle_explain();
    assert!(t.is_explain());
    // A dry run never prunes the staging area.
    assert!(!t.should_clean_staging());
}

#[test]
fn excluded_targets() {
    let t = Trash::from_parts(
        Vec::new(),
        "/data/trash-history.json".to_string(),
        "/tmp/trash".to_string(),
    );
    assert!(t.is_excluded("/data/trash-history.json"));
    assert!(t.is_excluded("/tmp/trash/staged.txt"));
    assert!(t.is_excluded("/tmp/trash"));
    assert!(!t.is_excluded("/tmp/trashy/file"));
    assert!(!t.is_excluded("/home/user/notes.txt"));
}

#[test]
fn view_reports_batches_in_order() {
    let t = Trash::from_parts(
        vec![vec![pair("/a/b", "/t/b")], Vec::new()],
        "/h".to_string(),
        "/t".to_string(),
    );
    let lines = t.view();
    assert_eq!(lines, vec!["# 1".to_string(), "Moved /a/b to /t/b".to_string(), "# 2".to_string()]);
}

#[test]
fn view_of_empty_history_is_empty() {
    let t = Trash::from_parts(Vec::new(), "/h".to_string(), "/t".to_string());
    assert!(t.view().is_empty());
}

#[test]
fn batch_order_survives_persistence() {
    // Order within a batch round-trips stably through the persisted form.
    let h = vec![vec![
        pair("/a/1", "/t/1"),
        pair("/a/2", "/t/2"),
        pair("/a/3", "/t/3"),
    ]];
    let back = parse_history(&serialize_history(&h)).unwrap();
    assert_eq!(back[0][0].0, "/a/1");
    assert_eq!(back[0][1].0, "/a/2");
    assert_eq!(back[0][2].0, "/a/3");
}

#[test]
fn fmt_err_prefixes_message() {
    assert_eq!(TrashError::NoHistory.fmt_err(), "trash error: No history found!");
    assert_eq!(
        TrashError::Io("disk on fire".to_string()).fmt_err(),
        "trash error: disk on fire"
    );
    assert_eq!(
        TrashError::Serialization("bad ledger".to_string()).fmt_err(),
        "trash error: bad ledger"
    );
    assert_eq!(
        TrashError::Pattern("bad glob".to_string()).fmt_err(),
        "trash error: bad glob"
    );
    assert_eq!(
        TrashError::UnresolvableAppPaths("no data dir".to_string()).fmt_err(),
        "trash error: no data dir"
    );
}
