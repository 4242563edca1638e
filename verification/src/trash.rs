//! The ledger and its owner: recorded relocations (`HistoryPair`), batches of
//! them, the LIFO history of batches, and the `Trash` value that threads the
//! ledger and the two well-known locations through an invocation.

use vstd::prelude::*;
use crate::path::{path_starts_with, starts_with_path, str_eq, decimal, u64_string};

verus! {

/// One line of the history report: what moved where.
pub open spec fn pair_line(p: (Seq<char>, Seq<char>)) -> Seq<char> {
    "Moved "@ + p.0 + " to "@ + p.1
}

/// The lines of one batch of the history report.
pub open spec fn batch_lines(b: Seq<(Seq<char>, Seq<char>)>) -> Seq<Seq<char>> {
    b.map_values(|p: (Seq<char>, Seq<char>)| pair_line(p))
}

/// The numbered header of the `i`-th batch (1-based).
pub open spec fn header_line(i: nat) -> Seq<char> {
    "# "@ + decimal(i)
}

/// The whole history report: each batch numbered, oldest first, followed by
/// one line per recorded pair.
pub open spec fn view_lines(h: Seq<Seq<(Seq<char>, Seq<char>)>>) -> Seq<Seq<char>>
    decreases h.len(),
{
    if h.len() == 0 {
        Seq::empty()
    } else {
        view_lines(h.drop_last()) + seq![header_line(h.len())] + batch_lines(h.last())
    }
}

/// One completed relocation: the original absolute path and the staged path.
#[derive(Debug)]
pub struct HistoryPair(pub String, pub String);

/// The batch of relocations produced by one remove or undo invocation.
pub type HistoryPairs = Vec<HistoryPair>;

/// The LIFO stack of batches; the last element is the most recent invocation.
pub type History = Vec<HistoryPairs>;

impl View for HistoryPair {
    type V = (Seq<char>, Seq<char>);

    open spec fn view(&self) -> (Seq<char>, Seq<char>) {
        (self.0@, self.1@)
    }
}

impl DeepView for HistoryPair {
    type V = (Seq<char>, Seq<char>);

    open spec fn deep_view(&self) -> (Seq<char>, Seq<char>) {
        self@
    }
}

impl Clone for HistoryPair {
    fn clone(&self) -> (r: Self)
        ensures
            r@ == self@,
    {
        HistoryPair(self.0.clone(), self.1.clone())
    }
}

impl PartialEq for HistoryPair {
    fn eq(&self, other: &Self) -> (r: bool) {
        str_eq(self.0.as_str(), other.0.as_str()) && str_eq(self.1.as_str(), other.1.as_str())
    }
}

impl vstd::std_specs::cmp::PartialEqSpecImpl for HistoryPair {
    open spec fn obeys_eq_spec() -> bool {
        true
    }

    open spec fn eq_spec(&self, other: &Self) -> bool {
        self@ == other@
    }
}

/// The parsed command-line request, as bare data: the CLI front end fills it
/// in and acts on the verified dispatch decision.
#[derive(Debug)]
pub struct Args {
    /// Undo the last trash command.
    pub undo: bool,
    /// Show full output detailing all moves.
    pub verbose: bool,
    /// Take no action, only explain what would occur.
    pub explain: bool,
    /// View the history.
    pub view: bool,
    /// Names of files or directories to remove.
    pub name: Option<Vec<String>>,
}

/// What one invocation is asked to do.
#[derive(Debug, PartialEq, Eq, Structural)]
pub enum Action {
    /// Report the history and stop.
    View,
    /// Reverse the most recent batch.
    Undo,
    /// Relocate the named targets into the staging area.
    Remove,
}

impl Args {
    /// Which engine operation this request dispatches to: viewing wins over
    /// everything, undoing over removal.
    pub fn action(&self) -> (r: Action)
        ensures
            self.view ==> r == Action::View,
            !self.view && self.undo ==> r == Action::Undo,
            !self.view && !self.undo ==> r == Action::Remove,
    {
        if self.view {
            Action::View
        } else if self.undo {
            Action::Undo
        } else {
            Action::Remove
        }
    }
}

/// The error taxonomy: one variant per failure kind, each carrying the
/// underlying cause where there is one.
#[derive(Debug)]
pub enum TrashError {
    /// A filesystem operation failed.
    Io(String),
    /// The persisted ledger was malformed or could not be written.
    Serialization(String),
    /// A single target pattern was malformed; logged and skipped.
    Pattern(String),
    /// Undo was asked for while the history was empty.
    NoHistory,
    /// The staging area or the ledger location could not be resolved.
    UnresolvableAppPaths(String),
}

pub type TrashResult<T> = Result<T, TrashError>;

impl TrashError {
    /// The bare description of the failure.
    pub open spec fn message_view(&self) -> Seq<char> {
        match self {
            TrashError::Io(m) => m@,
            TrashError::Serialization(m) => m@,
            TrashError::Pattern(m) => m@,
            TrashError::NoHistory => "No history found!"@,
            TrashError::UnresolvableAppPaths(m) => m@,
        }
    }

    /// The failure as reported to the user.
    pub fn fmt_err(&self) -> (r: String)
        ensures
            r@ == "trash error: "@ + self.message_view(),
    {
        let mut r: String = "trash error: ".to_owned();
        match self {
            TrashError::Io(m) => r.append(m.as_str()),
            TrashError::Serialization(m) => r.append(m.as_str()),
            TrashError::Pattern(m) => r.append(m.as_str()),
            TrashError::NoHistory => r.append("No history found!"),
            TrashError::UnresolvableAppPaths(m) => r.append(m.as_str()),
        }
        r
    }
}

/// The engine's owner: the ledger, where it is persisted, where staged
/// content lives, and whether this invocation is a dry run.
#[derive(Debug)]
pub struct Trash {
    hist: History,
    hist_path: String,
    trash_path: String,
    explain: bool,
}

impl Trash {
    /// The ledger: a stack of batches of (original, staged) pairs.
    pub closed spec fn history(&self) -> Seq<Seq<(Seq<char>, Seq<char>)>> {
        self.hist.deep_view()
    }

    /// Where the ledger is persisted.
    pub closed spec fn hist_path_view(&self) -> Seq<char> {
        self.hist_path@
    }

    /// The root of the staging area.
    pub closed spec fn trash_path_view(&self) -> Seq<char> {
        self.trash_path@
    }

    /// Whether this invocation is a dry run.
    pub closed spec fn explain_view(&self) -> bool {
        self.explain
    }

    /// Assemble a `Trash` from a loaded ledger and the two resolved
    /// locations. A fresh invocation is never a dry run; see
    /// [`Trash::toggle_explain`].
    pub fn from_parts(hist: History, hist_path: String, trash_path: String) -> (t: Trash)
        ensures
            t.history() == hist.deep_view(),
            t.hist_path_view() == hist_path@,
            t.trash_path_view() == trash_path@,
            !t.explain_view(),
    {
        Trash { hist, hist_path, trash_path, explain: false }
    }

    /// Load a `Trash` from the persisted ledger text and the two resolved
    /// locations: the ledger parses to the loaded history, or the malformed
    /// text is reported as a serialization error.
    pub fn new(hist_path: String, trash_path: String, ledger: &str) -> (r: TrashResult<Trash>)
        ensures
            match r {
                Ok(t) => crate::codec::spec_parse(ledger@) == Some(t.history())
                    && t.hist_path_view() == hist_path@ && t.trash_path_view() == trash_path@
                    && !t.explain_view(),
                Err(e) => crate::codec::spec_parse(ledger@) is None && (e matches
                TrashError::Serialization(_)),
            },
    {
        match crate::codec::parse_history(ledger) {
            Ok(hist) => Ok(Trash { hist, hist_path, trash_path, explain: false }),
            Err(e) => Err(e),
        }
    }

    /// The ledger in its persisted form.
    pub fn ledger_text(&self) -> (r: String)
        ensures
            r@ == crate::codec::ser_history(self.history()),
    {
        crate::codec::serialize_history(&self.hist)
    }

    /// The history report, one numbered header per batch, oldest first,
    /// then one line per recorded pair.
    pub fn view(&self) -> (r: Vec<String>)
        ensures
            r.deep_view() == view_lines(self.history()),
    {
        let mut lines: Vec<String> = Vec::new();
        let n = self.hist.len();
        let mut i: usize = 0;
        proof {
            assert(lines.deep_view() =~= view_lines(self.history().subrange(0, 0)));
        }
        while i < n
            invariant
                i <= n,
                n == self.hist@.len(),
                lines.deep_view() == view_lines(self.history().subrange(0, i as int)),
            decreases n - i,
        {
            let ghost pre = lines.deep_view();
            let mut header: String = "# ".to_owned();
            let num = u64_string((i + 1) as u64);
            header.append(num.as_str());
            proof {
                assert(header@ =~= header_line((i + 1) as nat));
            }
            lines.push(header);
            proof {
                assert(lines.deep_view() =~= pre.push(header_line((i + 1) as nat)));
            }
            let b = &self.hist[i];
            let m = b.len();
            let mut j: usize = 0;
            proof {
                assert(b.deep_view().subrange(0, 0).map_values(
                    |p: (Seq<char>, Seq<char>)| pair_line(p),
                ) =~= Seq::<Seq<char>>::empty());
                assert(lines.deep_view() =~= pre.push(header_line((i + 1) as nat)) + batch_lines(
                    b.deep_view().subrange(0, 0),
                ));
            }
            while j < m
                invariant
                    j <= m,
                    m == b@.len(),
                    b == &self.hist@[i as int],
                    0 <= i < self.hist@.len(),
                    lines.deep_view() == pre.push(header_line((i + 1) as nat)) + batch_lines(
                        b.deep_view().subrange(0, j as int),
                    ),
                decreases m - j,
            {
                let ghost lpre = lines.deep_view();
                let mut line: String = "Moved ".to_owned();
                line.append(b[j].0.as_str());
                line.append(" to ");
                line.append(b[j].1.as_str());
                proof {
                    assert(line@ =~= pair_line(b.deep_view()[j as int]));
                }
                lines.push(line);
                proof {
                    let bd = b.deep_view();
                    assert(lines.deep_view() =~= lpre.push(pair_line(bd[j as int])));
                    assert(bd.subrange(0, j + 1).drop_last() =~= bd.subrange(0, j as int));
                    assert(batch_lines(bd.subrange(0, j + 1)) =~= batch_lines(
                        bd.subrange(0, j as int),
                    ).push(pair_line(bd[j as int])));
                    assert(lines.deep_view() =~= pre.push(header_line((i + 1) as nat))
                        + batch_lines(bd.subrange(0, j + 1)));
                }
                j = j + 1;
            }
            proof {
                let hd = self.history();
                assert(b.deep_view().subrange(0, m as int) =~= b.deep_view());
                assert(b.deep_view() == hd[i as int]);
                assert(hd.subrange(0, i + 1).drop_last() =~= hd.subrange(0, i as int));
                assert(hd.subrange(0, i + 1).last() == hd[i as int]);
                assert(hd.subrange(0, i + 1).len() == i + 1);
                assert(lines.deep_view() =~= view_lines(hd.subrange(0, i + 1)));
            }
            i = i + 1;
        }
        proof {
            assert(self.history().subrange(0, n as int) =~= self.history());
        }
        lines
    }

    /// Switch this invocation to dry-run mode: traversals then plan and log
    /// but never move anything or record a pair, the engine hands out no
    /// deferred deletions, and the staging cleanup is withheld.
    pub fn toggle_explain(&mut self)
        ensures
            final(self).explain_view(),
            final(self).history() == old(self).history(),
            final(self).hist_path_view() == old(self).hist_path_view(),
            final(self).trash_path_view() == old(self).trash_path_view(),
    {
        self.explain = true;
    }

    /// Whether a resolved target must be skipped: the ledger's own location
    /// and anything already inside the staging area are never trashed.
    pub fn is_excluded(&self, path: &str) -> (r: bool)
        ensures
            r == (path@ == self.hist_path_view() || path_starts_with(
                path@,
                self.trash_path_view(),
            )),
    {
        str_eq(path, self.hist_path.as_str()) || starts_with_path(path, self.trash_path.as_str())
    }

    /// Read access to the ledger.
    pub fn batches(&self) -> (r: &History)
        ensures
            r.deep_view() == self.history(),
    {
        &self.hist
    }

    /// Whether this invocation is a dry run.
    pub fn is_explain(&self) -> (r: bool)
        ensures
            r == self.explain_view(),
    {
        self.explain
    }

    /// Whether the staging cleanup after an undo may touch the filesystem:
    /// never in a dry run, which must not mutate anything — the driver
    /// consults this before pruning.
    pub fn should_clean_staging(&self) -> (r: bool)
        ensures
            r == !self.explain_view(),
    {
        !self.explain
    }

    /// Where the ledger is persisted.
    pub fn hist_path(&self) -> (r: &String)
        ensures
            r@ == self.hist_path_view(),
    {
        &self.hist_path
    }

    /// The root of the staging area.
    pub fn trash_path(&self) -> (r: &String)
        ensures
            r@ == self.trash_path_view(),
    {
        &self.trash_path
    }

    /// Commit the batch of one remove invocation: push it on top of the
    /// history. The history is append-only at the top; nothing below moves.
    pub fn commit_batch(&mut self, batch: HistoryPairs)
        ensures
            final(self).history() == old(self).history().push(batch.deep_view()),
            final(self).hist_path_view() == old(self).hist_path_view(),
            final(self).trash_path_view() == old(self).trash_path_view(),
            final(self).explain_view() == old(self).explain_view(),
    {
        self.hist.push(batch);
        proof {
            assert(self.hist.deep_view() =~= old(self).hist.deep_view().push(batch.deep_view()));
        }
    }

    /// Begin an undo: pop the most recent batch. With an empty history this
    /// always fails with `NoHistory` and changes nothing — neither the
    /// ledger nor anything else.
    pub fn undo_start(&mut self) -> (r: TrashResult<HistoryPairs>)
        ensures
            old(self).history().len() == 0 ==> (r matches Err(TrashError::NoHistory))
                && final(self).history() == old(self).history(),
            old(self).history().len() > 0 ==> match r {
                Ok(batch) => batch.deep_view() == old(self).history().last()
                    && final(self).history() == old(self).history().drop_last(),
                Err(_) => false,
            },
            final(self).hist_path_view() == old(self).hist_path_view(),
            final(self).trash_path_view() == old(self).trash_path_view(),
            final(self).explain_view() == old(self).explain_view(),
    {
        match self.hist.pop() {
            Some(batch) => {
                proof {
                    assert(self.hist.deep_view() =~= old(self).hist.deep_view().drop_last());
                }
                Ok(batch)
            },
            None => Err(TrashError::NoHistory),
        }
    }

    /// Finish an undo: pairs whose reverse relocation failed survive as a
    /// fresh batch on top of the history; with none, the popped batch is
    /// simply gone.
    pub fn undo_finish(&mut self, unresolved: HistoryPairs)
        ensures
            unresolved@.len() == 0 ==> *final(self) == *old(self),
            unresolved@.len() > 0 ==> final(self).history() == old(self).history().push(
                unresolved.deep_view(),
            ),
            final(self).hist_path_view() == old(self).hist_path_view(),
            final(self).trash_path_view() == old(self).trash_path_view(),
            final(self).explain_view() == old(self).explain_view(),
    {
        if unresolved.len() > 0 {
            self.hist.push(unresolved);
            proof {
                assert(self.hist.deep_view() =~= old(self).hist.deep_view().push(
                    unresolved.deep_view(),
                ));
            }
        }
    }
}

/// The ledger half of the remove/undo round trip: the batch that a remove
/// commits is exactly what the next undo pops, and popping it restores the
/// history that was there before the remove.
pub proof fn lemma_remove_then_undo(
    h: Seq<Seq<(Seq<char>, Seq<char>)>>,
    b: Seq<(Seq<char>, Seq<char>)>,
)
    ensures
        h.push(b).len() > 0,
        h.push(b).last() == b,
        h.push(b).drop_last() =~= h,
{
}

} // verus!
