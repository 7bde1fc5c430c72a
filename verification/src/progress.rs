//! The progress log: an append-only, replay-safe ledger of per-record
//! resolution outcomes. Entry `i` resolves the local record at index `i`,
//! so the number of committed entries is the index of the next record to
//! process.
//!
//! This type is the in-memory mirror of the durable log file. The caller
//! persists each encoded line before updating the mirror, so that the
//! mirror never runs ahead of what is durably recorded.

use vstd::prelude::*;

use crate::matching::Prog;
use crate::matching::entry_of;
use crate::matching::spec_entry_of;
use crate::record::MapRec;
use crate::record::MapRecV;
use crate::store::encode_record_line;
use crate::store::line_of_rec;

verus! {

/// The committed resolution outcomes of one run, in commit order.
pub struct ProgressLog {
    recs: Vec<MapRec>,
}

impl View for ProgressLog {
    type V = Seq<MapRecV>;

    closed spec fn view(&self) -> Seq<MapRecV> {
        self.recs@.map_values(|m: MapRec| m@)
    }
}

impl ProgressLog {
    /// A fresh log with nothing committed.
    pub fn new() -> (s: Self)
        ensures
            s@ == Seq::<MapRecV>::empty(),
    {
        let s = ProgressLog { recs: Vec::new() };
        proof {
            assert(s@ =~= Seq::<MapRecV>::empty());
        }
        s
    }

    /// Reopens a log from the entries read back from the durable file.
    pub fn from_entries(recs: Vec<MapRec>) -> (s: Self)
        ensures
            s@ == recs@.map_values(|m: MapRec| m@),
    {
        ProgressLog { recs }
    }

    /// The number of committed entries, which is also the index of the
    /// next local record to process.
    pub fn index(&self) -> (r: usize)
        ensures
            r == self@.len(),
    {
        self.recs.len()
    }

    /// Appends one already-persisted entry to the in-memory mirror.
    pub fn push_entry(&mut self, rec: MapRec)
        ensures
            final(self)@ == old(self)@.push(rec@),
    {
        self.recs.push(rec);
        proof {
            assert(self@ =~= old(self)@.push(rec@));
        }
    }

    /// Records one resolution outcome: builds its entry, appends it, and
    /// returns the encoded line for the caller to persist. A crash before
    /// the line is durable loses only this entry, never an earlier one.
    pub fn push_rec(&mut self, case: &Prog) -> (line: Vec<u8>)
        ensures
            final(self)@ == old(self)@.push(spec_entry_of(case@)),
            line@ == line_of_rec(spec_entry_of(case@)),
    {
        let rec = entry_of(case);
        let line = encode_record_line(&rec);
        self.push_entry(rec);
        line
    }

    /// Consumes the log, yielding the committed entries in commit order,
    /// placeholder entries included.
    pub fn recs(self) -> (r: Vec<MapRec>)
        ensures
            r@.map_values(|m: MapRec| m@) == self@,
    {
        self.recs
    }
}

} // verus!
