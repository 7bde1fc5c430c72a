//! The run driver of the match engine: walks the local-record sequence in
//! order, committing one progress entry per record, and resumes exactly at
//! the first uncommitted index after a crash.

use vstd::prelude::*;

use crate::matching::Prog;
use crate::matching::spec_entry_of;
use crate::progress::ProgressLog;
use crate::record::LibRec;
use crate::record::MapRec;
use crate::store::line_of_rec;

verus! {

/// One matching run: the local records read at run start, the previous
/// mapping, and the progress log. The ghost history records which indices
/// this run has processed.
pub struct Matcher {
    pub lib: Vec<LibRec>,
    pub prev: Vec<MapRec>,
    pub log: ProgressLog,
    pub start: Ghost<int>,
    pub processed: Ghost<Seq<int>>,
}

impl Matcher {
    /// The run invariant: the log never shrinks below the resume point,
    /// and the indices processed so far are exactly the log indices gained
    /// since the resume point, in order.
    pub open spec fn wf(self) -> bool {
        &&& 0 <= self.start@ <= self.log@.len()
        &&& self.processed@.len() == self.log@.len() - self.start@
        &&& forall|k: int|
            0 <= k < self.processed@.len() ==> #[trigger] self.processed@[k] == self.start@ + k
    }

    /// Starts a run, resuming after the entries already committed in
    /// `log`: the first record processed will be the one at `log.index()`.
    pub fn resume(lib: Vec<LibRec>, prev: Vec<MapRec>, log: ProgressLog) -> (m: Self)
        ensures
            m.wf(),
            m.lib == lib,
            m.prev == prev,
            m.log == log,
            m.start@ == log@.len(),
            m.processed@ == Seq::<int>::empty(),
    {
        let ghost start = log@.len() as int;
        Matcher { lib, prev, log, start: Ghost(start), processed: Ghost(Seq::empty()) }
    }

    /// The index of the next record to process, or `None` once every
    /// record has a committed entry.
    pub fn next_index(&self) -> (r: Option<usize>)
        ensures
            match r {
                Some(i) => self.log@.len() < self.lib@.len() && i == self.log@.len(),
                None => self.log@.len() >= self.lib@.len(),
            },
    {
        let i = self.log.index();
        if i < self.lib.len() {
            Some(i)
        } else {
            None
        }
    }

    /// Commits the outcome for the current record: appends its entry to
    /// the log, advances the run by exactly one index, and returns the
    /// encoded line, which the caller persists before processing the next
    /// record.
    pub fn commit(&mut self, case: &Prog) -> (line: Vec<u8>)
        requires
            old(self).wf(),
            old(self).log@.len() < old(self).lib@.len(),
        ensures
            final(self).wf(),
            final(self).lib == old(self).lib,
            final(self).prev == old(self).prev,
            final(self).start == old(self).start,
            final(self).log@ == old(self).log@.push(spec_entry_of(case@)),
            final(self).processed@ == old(self).processed@.push(old(self).log@.len() as int),
            line@ == line_of_rec(spec_entry_of(case@)),
    {
        let ghost idx = self.log@.len() as int;
        let line = self.log.push_rec(case);
        proof {
            self.processed@ = self.processed@.push(idx);
        }
        line
    }
}

/// Resumability law: a run resumed after `start` committed entries
/// processes the indices `start`, `start + 1`, ... in order — the k-th
/// record processed is `start + k` — and never an index below `start`;
/// once the log covers the whole collection, the processed indices are
/// exactly `[start, lib.len())`.
pub proof fn lemma_resumability(m: Matcher)
    requires
        m.wf(),
    ensures
        forall|k: int| 0 <= k < m.processed@.len() ==> #[trigger] m.processed@[k] == m.start@ + k,
        forall|k: int| 0 <= k < m.processed@.len() ==> #[trigger] m.processed@[k] >= m.start@,
        m.log@.len() == m.lib@.len() ==> m.processed@.len() == m.lib@.len() - m.start@,
{
}

} // verus!
