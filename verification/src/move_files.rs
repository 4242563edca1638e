//! Relocation traversal: an explicit FIFO work queue of (entry, destination
//! base) pairs, a deferred-deletion list for directories, and the batch of
//! recorded moves.
//!
//! The traversal is deliberately a work queue rather than recursion, so stack
//! depth does not grow with directory depth. The unverified driver walks the
//! real filesystem: it pops entries here, probes them on disk, performs the
//! moves, and reports every outcome back, so that the queue discipline, the
//! destination arithmetic and the batch bookkeeping are all verified.
//!
//! The batch only ever grows, and only by the pair of an explicitly reported
//! completed move — a pair is never recorded for a skipped or failed item,
//! an aborted traversal keeps every pair recorded so far, and no staged path
//! is claimed twice within one batch. The deferred directory deletions are
//! handed out by [`Traversal::finish`] only when the traversal drained
//! without error outside a dry run: a dry run is never given anything to
//! delete, and neither is an aborted traversal, whose deferred directories
//! still hold unreached files.

use vstd::prelude::*;
use crate::path::{file_name_of, join_path, file_name, join};
use crate::trash::{HistoryPair, HistoryPairs};

verus! {

/// One pending step: an entry to relocate, and the (possibly disambiguated)
/// directory under which it must land.
#[derive(Debug)]
pub struct QueueEntry {
    pub item: String,
    pub base: String,
}

impl View for QueueEntry {
    type V = (Seq<char>, Seq<char>);

    open spec fn view(&self) -> (Seq<char>, Seq<char>) {
        (self.item@, self.base@)
    }
}

impl DeepView for QueueEntry {
    type V = (Seq<char>, Seq<char>);

    open spec fn deep_view(&self) -> (Seq<char>, Seq<char>) {
        self@
    }
}

impl QueueEntry {
    /// Where this entry lands before any disambiguation: the destination base
    /// extended with the entry's own file name.
    pub fn destination(&self) -> (r: String)
        ensures
            r@ == join_path(self.base@, file_name_of(self.item@)),
    {
        let name = file_name(self.item.as_str());
        join(self.base.as_str(), name.as_str())
    }
}

/// The state of one relocation traversal.
pub struct Traversal {
    queue: Vec<QueueEntry>,
    dirs: Vec<String>,
    batch: HistoryPairs,
    explain: bool,
}

impl Traversal {
    /// The pending (entry, destination base) pairs, front first.
    pub closed spec fn queue_view(&self) -> Seq<(Seq<char>, Seq<char>)> {
        self.queue.deep_view()
    }

    /// Original locations of traversed directories, awaiting deferred
    /// removal once the queue has drained.
    pub closed spec fn dirs_view(&self) -> Seq<Seq<char>> {
        self.dirs.deep_view()
    }

    /// The (original, staged) pairs of the moves completed so far.
    pub closed spec fn batch_view(&self) -> Seq<(Seq<char>, Seq<char>)> {
        self.batch.deep_view()
    }

    /// Whether this traversal is a dry run.
    pub closed spec fn explain_view(&self) -> bool {
        self.explain
    }

    /// Whether `s` is already the staged side of a recorded pair.
    pub open spec fn staged_taken(&self, s: Seq<char>) -> bool {
        exists|k: int| 0 <= k < self.batch_view().len() && self.batch_view()[k].1 == s
    }

    /// A dry run records no pairs, and no two recorded pairs share a staged
    /// path: collisions are resolved before a move, never after.
    pub open spec fn wf(&self) -> bool {
        &&& self.explain_view() ==> self.batch_view().len() == 0
        &&& forall|j: int, k: int|
            0 <= j < k < self.batch_view().len() ==> self.batch_view()[j].1 != self.batch_view()[
                k
            ].1
    }

    /// Whether `s` is already the staged side of a recorded pair, as the
    /// driver tests it before claiming a destination.
    pub fn staged_path_taken(&self, s: &str) -> (r: bool)
        ensures
            r == self.staged_taken(s@),
    {
        let n = self.batch.len();
        let mut k: usize = 0;
        while k < n
            invariant
                k <= n,
                n == self.batch@.len(),
                forall|j: int| 0 <= j < k ==> self.batch.deep_view()[j].1 != s@,
            decreases n - k,
        {
            if crate::path::str_eq(self.batch[k].1.as_str(), s) {
                proof {
                    assert(self.batch_view()[k as int].1 == s@);
                    assert(self.staged_taken(s@));
                }
                return true;
            }
            k = k + 1;
        }
        false
    }

    /// Start a traversal of the tree rooted at `root`, to be relocated under
    /// `base`.
    pub fn new(root: String, base: String, explain: bool) -> (t: Traversal)
        ensures
            t.queue_view() =~= seq![(root@, base@)],
            t.dirs_view() =~= Seq::<Seq<char>>::empty(),
            t.batch_view() =~= Seq::<(Seq<char>, Seq<char>)>::empty(),
            t.explain_view() == explain,
            t.wf(),
    {
        let mut queue: Vec<QueueEntry> = Vec::new();
        queue.push(QueueEntry { item: root, base });
        Traversal { queue, dirs: Vec::new(), batch: Vec::new(), explain }
    }

    /// Take the next pending entry: the front of the queue, oldest first.
    pub fn pop(&mut self) -> (r: Option<QueueEntry>)
        requires
            old(self).wf(),
        ensures
            final(self).wf(),
            final(self).dirs_view() == old(self).dirs_view(),
            final(self).batch_view() == old(self).batch_view(),
            final(self).explain_view() == old(self).explain_view(),
            old(self).queue_view().len() == 0 ==> r is None && final(self).queue_view() == old(
                self,
            ).queue_view(),
            old(self).queue_view().len() > 0 ==> match r {
                Some(e) => e@ == old(self).queue_view()[0] && final(self).queue_view() == old(
                    self,
                ).queue_view().drop_first(),
                None => false,
            },
    {
        let r = if self.queue.len() == 0 {
            None
        } else {
            let e = self.queue.remove(0);
            proof {
                assert(final(self).queue_view() =~= old(self).queue_view().drop_first());
            }
            Some(e)
        };
        proof {
            assert forall|j: int, k: int|
                0 <= j < k < self.batch.deep_view().len() implies self.batch.deep_view()[j].1
                != self.batch.deep_view()[k].1 by {
                assert(old(self).batch_view()[j].1 != old(self).batch_view()[k].1);
            }
        }
        r
    }

    /// A popped entry turned out to be a directory that will land at `dest`:
    /// enqueue each of its children behind the pending entries, to be
    /// relocated under `dest`, and defer the removal of the directory's
    /// original location until the traversal has drained.
    pub fn enqueue_children(&mut self, dir: String, dest: String, children: Vec<String>)
        requires
            old(self).wf(),
        ensures
            final(self).wf(),
            final(self).queue_view() == old(self).queue_view() + children.deep_view().map_values(
                |c: Seq<char>| (c, dest@),
            ),
            final(self).dirs_view() == old(self).dirs_view().push(dir@),
            final(self).batch_view() == old(self).batch_view(),
            final(self).explain_view() == old(self).explain_view(),
    {
        let n = children.len();
        let mut i: usize = 0;
        while i < n
            invariant
                i <= n,
                n == children@.len(),
                self.explain == old(self).explain,
                self.dirs == old(self).dirs,
                self.batch == old(self).batch,
                self.queue.deep_view() =~= old(self).queue.deep_view() + children.deep_view()
                    .subrange(0, i as int).map_values(|c: Seq<char>| (c, dest@)),
            decreases n - i,
        {
            let ghost qpre = self.queue.deep_view();
            self.queue.push(QueueEntry { item: children[i].clone(), base: dest.clone() });
            proof {
                let cs = children.deep_view();
                assert(self.queue.deep_view() =~= qpre.push((cs[i as int], dest@)));
                assert(cs.subrange(0, i + 1) =~= cs.subrange(0, i as int).push(cs[i as int]));
                assert(cs.subrange(0, i + 1).map_values(|c: Seq<char>| (c, dest@)) =~= cs.subrange(
                    0,
                    i as int,
                ).map_values(|c: Seq<char>| (c, dest@)).push((cs[i as int], dest@)));
                assert(self.queue.deep_view() =~= old(self).queue.deep_view() + cs.subrange(
                    0,
                    i + 1,
                ).map_values(|c: Seq<char>| (c, dest@)));
            }
            i = i + 1;
        }
        self.dirs.push(dir);
        proof {
            assert(children.deep_view().subrange(0, n as int) =~= children.deep_view());
            assert(final(self).queue_view() =~= old(self).queue_view() + children.deep_view()
                .map_values(|c: Seq<char>| (c, dest@)));
            assert(final(self).dirs_view() =~= old(self).dirs_view().push(dir@));
            assert forall|j: int, k: int|
                0 <= j < k < self.batch.deep_view().len() implies self.batch.deep_view()[j].1
                != self.batch.deep_view()[k].1 by {
                assert(old(self).batch_view()[j].1 != old(self).batch_view()[k].1);
            }
        }
    }

    /// A popped entry was a regular file and has actually been moved from
    /// `original` to `staged`: record the pair. Nothing else changes, and
    /// every pair recorded earlier stays — the batch is append-only. A dry
    /// run never records, and a staged path can be claimed only once per
    /// batch; the driver tests both before reporting.
    pub fn record_move(&mut self, original: String, staged: String)
        requires
            old(self).wf(),
            !old(self).explain_view(),
            !old(self).staged_taken(staged@),
        ensures
            final(self).wf(),
            final(self).batch_view() == old(self).batch_view().push((original@, staged@)),
            final(self).queue_view() == old(self).queue_view(),
            final(self).dirs_view() == old(self).dirs_view(),
            final(self).explain_view() == old(self).explain_view(),
    {
        self.batch.push(HistoryPair(original, staged));
        proof {
            assert(final(self).batch_view() =~= old(self).batch_view().push((original@, staged@)));
            assert forall|j: int, k: int|
                0 <= j < k < final(self).batch_view().len() implies final(self).batch_view()[j].1
                != final(self).batch_view()[k].1 by {
                if k == final(self).batch_view().len() - 1 {
                    assert(final(self).batch_view()[j] == old(self).batch_view()[j]);
                }
            }
        }
    }

    /// How many entries are still pending.
    pub fn pending(&self) -> (r: usize)
        ensures
            r == self.queue_view().len(),
    {
        self.queue.len()
    }

    /// End the traversal: hand back the batch of recorded moves, always, and
    /// the deferred-deletion list only when deleting is permitted — the
    /// traversal drained without error (`completed`) and this was no dry
    /// run. A dry run must not mutate the filesystem, and after an abort the
    /// deferred directories still hold unreached files; in either case the
    /// driver is handed nothing to delete.
    pub fn finish(self, completed: bool) -> (r: (HistoryPairs, Vec<String>))
        ensures
            r.0.deep_view() == self.batch_view(),
            completed && !self.explain_view() ==> r.1.deep_view() == self.dirs_view(),
            !(completed && !self.explain_view()) ==> r.1.deep_view() == Seq::<Seq<char>>::empty(),
    {
        if completed && !self.explain {
            (self.batch, self.dirs)
        } else {
            let none: Vec<String> = Vec::new();
            proof {
                assert(none.deep_view() =~= Seq::<Seq<char>>::empty());
            }
            (self.batch, none)
        }
    }

    /// Whether this traversal is a dry run.
    pub fn is_explain(&self) -> (r: bool)
        ensures
            r == self.explain_view(),
    {
        self.explain
    }
}

} // verus!
