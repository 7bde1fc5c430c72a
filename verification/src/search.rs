//! Search query building and the escalating search of the match engine.
//!
//! A query is built from up to four fields, each joined with plus signs and
//! tagged with its field name; blank fields are left out. The escalation
//! runs up to three tiers, stopping as soon as five candidates have
//! accumulated, and a rate-limited tier is retried without advancing.

use vstd::prelude::*;
use vstd::string::StrSliceExecFns;
use vstd::string::StringExecFns;

use crate::record::Candidate;
use crate::record::LibRec;
use crate::record::LibRecV;
use crate::text::plus_join;
use crate::text::plus_of;
use crate::text::trim_of;
use crate::text::trimmed;

verus! {

/// How many candidates the escalation aims to accumulate.
pub const RESULT_GOAL: usize = 5;

/// The last tier of the escalation.
pub const MAX_TIER: u8 = 2;

/// One field of a query: empty if the field is blank, otherwise its tag,
/// the plus-joined value, and a trailing space.
pub open spec fn query_field(tag: Seq<char>, val: Seq<char>) -> Seq<char> {
    if trim_of(val).len() == 0 {
        Seq::<char>::empty()
    } else {
        tag + plus_of(val) + " "@
    }
}

/// The full query for the four fields, with the trailing space removed.
pub open spec fn spec_search_str(
    q: Seq<char>,
    track: Seq<char>,
    album: Seq<char>,
    artist: Seq<char>,
) -> Seq<char> {
    let raw = query_field(Seq::<char>::empty(), q) + query_field("track:"@, track) + query_field(
        "album:"@,
        album,
    ) + query_field("artist:"@, artist);
    if raw.len() > 0 {
        raw.drop_last()
    } else {
        raw
    }
}

/// Builds a remote search query from a free-text term and the structured
/// track, album and artist fields; blank fields are left out.
pub fn search_str(q: &str, track: &str, album: &str, artist: &str) -> (r: String)
    ensures
        r@ == spec_search_str(q@, track@, album@, artist@),
{
    let ghost raw = query_field(Seq::<char>::empty(), q@) + query_field("track:"@, track@)
        + query_field("album:"@, album@) + query_field("artist:"@, artist@);
    let mut out = String::new();
    if !trimmed(q).as_str().is_empty() {
        let piece = plus_join(q);
        out.append(piece.as_str());
        out.append(" ");
    }
    if !trimmed(track).as_str().is_empty() {
        out.append("track:");
        let piece = plus_join(track);
        out.append(piece.as_str());
        out.append(" ");
    }
    if !trimmed(album).as_str().is_empty() {
        out.append("album:");
        let piece = plus_join(album);
        out.append(piece.as_str());
        out.append(" ");
    }
    if !trimmed(artist).as_str().is_empty() {
        out.append("artist:");
        let piece = plus_join(artist);
        out.append(piece.as_str());
        out.append(" ");
    }
    proof {
        assert(out@ =~= raw);
    }
    let n = out.unicode_len();
    if n > 0 {
        let cut = out.as_str().substring_char(0, n - 1);
        let r = cut.to_owned();
        proof {
            assert(r@ =~= raw.drop_last());
        }
        r
    } else {
        proof {
            assert(out@ =~= raw);
        }
        out
    }
}

impl LibRec {
    /// The tier-0 query: all three identity fields, structured.
    pub fn search_str(&self) -> (r: String)
        ensures
            r@ == spec_search_str(
                Seq::<char>::empty(),
                self@.name,
                self@.album,
                self@.artist,
            ),
    {
        let r = search_str("", &self.name, &self.album, &self.artist);
        proof {
            reveal_strlit("");
            assert(""@ =~= Seq::<char>::empty());
        }
        r
    }
}

/// The query issued at each tier of the escalation: tier 0 uses all three
/// fields structured, tier 1 the title and album, tier 2 the title and
/// artist as free text.
pub open spec fn query_of(l: LibRecV, tier: int) -> Seq<char> {
    if tier == 0 {
        spec_search_str(Seq::<char>::empty(), l.name, l.album, l.artist)
    } else if tier == 1 {
        spec_search_str(l.name, Seq::<char>::empty(), l.album, Seq::<char>::empty())
    } else {
        spec_search_str(
            l.name + " "@ + l.artist,
            Seq::<char>::empty(),
            Seq::<char>::empty(),
            Seq::<char>::empty(),
        )
    }
}

/// What one tier of the escalation came back with.
pub enum SearchEvent {
    /// The tier returned this page of candidates.
    Results(Vec<Candidate>),
    /// The remote service reported too many requests; the tier is retried
    /// after a backoff and does not count as an attempt.
    RateLimited,
}

/// The state of one record's escalating search: the next tier to try and
/// the candidates accumulated so far.
pub struct SearchState {
    pub tier: u8,
    pub results: Vec<Candidate>,
}

impl SearchState {
    /// The escalation stops once five candidates have accumulated or all
    /// three tiers have been tried.
    pub open spec fn done_spec(self) -> bool {
        self.results@.len() >= RESULT_GOAL || self.tier > MAX_TIER
    }

    /// A fresh search: tier 0, nothing accumulated.
    pub fn new() -> (s: Self)
        ensures
            s.tier == 0,
            s.results@.len() == 0,
    {
        SearchState { tier: 0, results: Vec::new() }
    }

    pub fn is_done(&self) -> (r: bool)
        ensures
            r == self.done_spec(),
    {
        self.results.len() >= RESULT_GOAL || self.tier > MAX_TIER
    }

    /// The query to issue next: `None` once the escalation is done.
    pub fn next_query(&self, lib_r: &LibRec) -> (q: Option<String>)
        ensures
            match q {
                Some(s) => !self.done_spec() && s@ == query_of(lib_r@, self.tier as int),
                None => self.done_spec(),
            },
    {
        if self.is_done() {
            return None;
        }
        proof {
            reveal_strlit("");
            assert(""@ =~= Seq::<char>::empty());
        }
        if self.tier == 0 {
            Some(lib_r.search_str())
        } else if self.tier == 1 {
            Some(search_str(&lib_r.name, "", &lib_r.album, ""))
        } else {
            let mut s_str = lib_r.name.clone();
            s_str.append(" ");
            s_str.append(lib_r.artist.as_str());
            proof {
                assert(s_str@ =~= lib_r@.name + " "@ + lib_r@.artist);
            }
            Some(search_str(&s_str, "", "", ""))
        }
    }

    /// Feeds the outcome of one tier: results advance the escalation, a
    /// rate-limited reply leaves it exactly where it was.
    pub fn on_event(&mut self, ev: SearchEvent)
        requires
            !old(self).done_spec(),
        ensures
            match ev {
                SearchEvent::Results(new) => final(self).results@ == old(self).results@ + new@
                    && final(self).tier == old(self).tier + 1,
                SearchEvent::RateLimited => *final(self) == *old(self),
            },
    {
        match ev {
            SearchEvent::Results(mut new) => {
                self.results.append(&mut new);
                self.tier = self.tier + 1;
            },
            SearchEvent::RateLimited => {},
        }
    }

    /// The accumulated candidate list, truncated to at most five entries
    /// in accumulation order.
    pub fn finish(self) -> (r: Vec<Candidate>)
        ensures
            self.results@.len() <= RESULT_GOAL ==> r@ == self.results@,
            self.results@.len() > RESULT_GOAL ==> r@ == self.results@.take(RESULT_GOAL as int),
            r@.len() <= RESULT_GOAL,
    {
        let mut v = self.results;
        v.truncate(RESULT_GOAL);
        v
    }
}

/// Escalation termination law: on a record whose tier-0 search returns no
/// candidates and whose tier-1 search returns six, tiers 0 and 1 are both
/// queried, the escalation is done before tier 2, and the finished
/// candidate list holds exactly five entries.
pub proof fn lemma_escalation_two_tiers(
    start: SearchState,
    mid: SearchState,
    end: SearchState,
    r0: Seq<Candidate>,
    r1: Seq<Candidate>,
)
    requires
        start.tier == 0,
        start.results@.len() == 0,
        r0.len() == 0,
        r1.len() == 6,
        mid.results@ == start.results@ + r0,
        mid.tier == start.tier + 1,
        end.results@ == mid.results@ + r1,
        end.tier == mid.tier + 1,
    ensures
        !start.done_spec(),
        !mid.done_spec(),
        end.done_spec(),
        end.results@.take(RESULT_GOAL as int).len() == RESULT_GOAL,
{
}

} // verus!
