use trash_rs::move_files::Traversal;
use trash_rs::naming::disambiguate;
use trash_rs::trash::{HistoryPair, Trash};

fn pair(a: &str, b: &str) -> HistoryPair {
    HistoryPair(a.to_string(), b.to_string())
}

// Remove a single existing file: the staging area gains it under its own
// name and the batch records exactly that pair.
#[test]
fn remove_single_file() {
    let mut t = Traversal::new("/cwd/notes.txt".to_string(), "/staging".to_string(), false);
    let entry = t.pop().unwrap();
    assert_eq!(entry.item, "/cwd/notes.txt");
    let dest = entry.destination();
    assert_eq!(dest, "/staging/notes.txt");
    // The driver finds no collision and reports the completed move.
    t.record_move(entry.item, dest);
    assert!(t.pop().is_none());
    let (batch, dirs) = t.finish(true);
    assert_eq!(batch, vec![pair("/cwd/notes.txt", "/staging/notes.txt")]);
    assert!(dirs.is_empty());
}

// Remove a second file of the same name after the first was trashed: the
// collision makes the second staged copy `notes.1`, and two sequential
// undos pop the batches most recent first.
#[test]
fn remove_same_name_twice() {
    let mut t = Traversal::new("/cwd/notes.txt".to_string(), "/staging".to_string(), false);
    let entry = t.pop().unwrap();
    let mut dest = entry.destination();
    // The driver sees "/staging/notes.txt" already occupied.
    let taken = vec!["/staging/notes.txt".to_string()];
    let (fresh, count) = disambiguate(&dest, &taken);
    assert_eq!(fresh, "/staging/notes.1");
    assert_eq!(count, 1);
    dest = fresh;
    t.record_move(entry.item, dest);
    let (batch2, _) = t.finish(true);
    assert_eq!(batch2, vec![pair("/cwd/notes.txt", "/staging/notes.1")]);

    let batch1 = vec![pair("/cwd/notes.txt", "/staging/notes.txt")];
    let mut trash = Trash::from_parts(
        vec![batch1.clone()],
        "/h".to_string(),
        "/staging".to_string(),
    );
    trash.commit_batch(batch2.clone());
    let first_undo = trash.undo_start().unwrap();
    assert_eq!(first_undo, batch2);
    trash.undo_finish(Vec::new());
    let second_undo = trash.undo_start().unwrap();
    assert_eq!(second_undo, batch1);
}

// Remove a directory tree: children are traversed breadth-first, every
// file lands under the staged copy of its own parent, and both directories
// wait on the deferred-deletion list until the traversal has drained.
#[test]
fn remove_directory_tree() {
    let mut t = Traversal::new("/cwd/proj".to_string(), "/staging".to_string(), false);

    let root = t.pop().unwrap();
    let root_dest = root.destination();
    assert_eq!(root_dest, "/staging/proj");
    // The driver reads the directory and hands its children over.
    t.enqueue_children(
        root.item,
        root_dest,
        vec!["/cwd/proj/a.txt".to_string(), "/cwd/proj/sub".to_string()],
    );

    let a = t.pop().unwrap();
    assert_eq!(a.item, "/cwd/proj/a.txt");
    let a_dest = a.destination();
    assert_eq!(a_dest, "/staging/proj/a.txt");
    t.record_move(a.item, a_dest);

    let sub = t.pop().unwrap();
    assert_eq!(sub.item, "/cwd/proj/sub");
    let sub_dest = sub.destination();
    assert_eq!(sub_dest, "/staging/proj/sub");
    t.enqueue_children(sub.item, sub_dest, vec!["/cwd/proj/sub/b.txt".to_string()]);

    let b = t.pop().unwrap();
    let b_dest = b.destination();
    assert_eq!(b_dest, "/staging/proj/sub/b.txt");
    t.record_move(b.item, b_dest);

    assert!(t.pop().is_none());
    let (batch, dirs) = t.finish(true);
    assert_eq!(
        batch,
        vec![
            pair("/cwd/proj/a.txt", "/staging/proj/a.txt"),
            pair("/cwd/proj/sub/b.txt", "/staging/proj/sub/b.txt"),
        ]
    );
    // Original directory locations are removed only after the queue drained.
    assert_eq!(dirs, vec!["/cwd/proj".to_string(), "/cwd/proj/sub".to_string()]);
}

// Trash two different directories both named `d`: the second is
// disambiguated, both children stay recoverable, and undo restores each to
// its own original parent.
#[test]
fn directory_children_survive_disambiguation() {
    let mut t1 = Traversal::new("/cwd/one/d".to_string(), "/staging".to_string(), false);
    let d1 = t1.pop().unwrap();
    let d1_dest = d1.destination();
    assert_eq!(d1_dest, "/staging/d");
    t1.enqueue_children(d1.item, d1_dest, vec!["/cwd/one/d/a.txt".to_string()]);
    let f1 = t1.pop().unwrap();
    let f1_dest = f1.destination();
    t1.record_move(f1.item, f1_dest);
    let (batch1, _) = t1.finish(true);

    let mut t2 = Traversal::new("/cwd/two/d".to_string(), "/staging".to_string(), false);
    let d2 = t2.pop().unwrap();
    let mut d2_dest = d2.destination();
    // The driver sees "/staging/d" already occupied by the first tree.
    let taken = vec!["/staging/d".to_string()];
    let (fresh, _) = disambiguate(&d2_dest, &taken);
    assert_eq!(fresh, "/staging/d.1");
    d2_dest = fresh;
    t2.enqueue_children(d2.item, d2_dest, vec!["/cwd/two/d/a.txt".to_string()]);
    let f2 = t2.pop().unwrap();
    let f2_dest = f2.destination();
    t2.record_move(f2.item, f2_dest);
    let (batch2, _) = t2.finish(true);

    // The two staged copies do not collide.
    assert_eq!(batch1, vec![pair("/cwd/one/d/a.txt", "/staging/d/a.txt")]);
    assert_eq!(batch2, vec![pair("/cwd/two/d/a.txt", "/staging/d.1/a.txt")]);

    // Undo drives each staged file back to its own original parent.
    let mut trash = Trash::from_parts(
        vec![batch1, batch2],
        "/h".to_string(),
        "/staging".to_string(),
    );
    let undo2 = trash.undo_start().unwrap();
    assert_eq!(undo2[0].0, "/cwd/two/d/a.txt");
    assert_eq!(undo2[0].1, "/staging/d.1/a.txt");
    trash.undo_finish(Vec::new());
    let undo1 = trash.undo_start().unwrap();
    assert_eq!(undo1[0].0, "/cwd/one/d/a.txt");
    assert_eq!(undo1[0].1, "/staging/d/a.txt");
}

// A dry run plans the same traversal but records no pairs — and even after
// draining cleanly it is handed nothing to delete, so a dry run over a
// directory cannot remove the original tree.
#[test]
fn explain_traversal_records_and_deletes_nothing() {
    let mut t = Traversal::new("/cwd/proj".to_string(), "/staging".to_string(), true);
    assert!(t.is_explain());
    let root = t.pop().unwrap();
    let dest = root.destination();
    t.enqueue_children(root.item, dest, vec!["/cwd/proj/a.txt".to_string()]);
    let child = t.pop().unwrap();
    // The driver skips the move in explain mode and reports nothing.
    let _ = child.destination();
    assert!(t.pop().is_none());
    let (batch, dirs) = t.finish(true);
    assert!(batch.is_empty());
    assert!(dirs.is_empty());
}

// An aborted traversal keeps every recorded pair but is handed nothing to
// delete: the deferred directories may still hold unreached files.
#[test]
fn aborted_traversal_withholds_deletions() {
    let mut t = Traversal::new("/cwd/proj".to_string(), "/staging".to_string(), false);
    let root = t.pop().unwrap();
    let root_dest = root.destination();
    t.enqueue_children(
        root.item,
        root_dest,
        vec!["/cwd/proj/a.txt".to_string(), "/cwd/proj/b.txt".to_string()],
    );
    let a = t.pop().unwrap();
    let a_dest = a.destination();
    t.record_move(a.item, a_dest);
    // Moving b.txt fails; the driver abandons the queue.
    let (batch, dirs) = t.finish(false);
    assert_eq!(batch, vec![pair("/cwd/proj/a.txt", "/staging/proj/a.txt")]);
    assert!(dirs.is_empty());
}

// A staged path can be claimed only once within a batch; the driver asks
// before reporting a move.
#[test]
fn staged_path_claimed_once() {
    let mut t = Traversal::new("/cwd/a".to_string(), "/staging".to_string(), false);
    let entry = t.pop().unwrap();
    let dest = entry.destination();
    assert!(!t.staged_path_taken(&dest));
    t.record_move(entry.item, dest.clone());
    assert!(t.staged_path_taken(&dest));
    assert!(!t.staged_path_taken("/staging/other"));
}

// The work queue is first-in, first-out: siblings come back in the order
// they were enqueued, before anything enqueued later.
#[test]
fn queue_is_fifo() {
    let mut t = Traversal::new("/r".to_string(), "/s".to_string(), false);
    let root = t.pop().unwrap();
    t.enqueue_children(
        root.item,
        "/s/r".to_string(),
        vec!["/r/a".to_string(), "/r/b".to_string(), "/r/c".to_string()],
    );
    assert_eq!(t.pending(), 3);
    assert_eq!(t.pop().unwrap().item, "/r/a");
    assert_eq!(t.pop().unwrap().item, "/r/b");
    assert_eq!(t.pop().unwrap().item, "/r/c");
    assert!(t.pop().is_none());
}
