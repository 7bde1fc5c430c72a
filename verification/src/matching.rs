//! The match engine's per-record decisions: the skip and already-satisfied
//! rules, the auto-accept heuristic, and the parsing of a human pick.

use vstd::prelude::*;
use vstd::string::StrSliceExecFns;
use vstd::string::StringExecFns;

use crate::record::Candidate;
use crate::record::CandidateV;
use crate::record::LibRec;
use crate::record::LibRecV;
use crate::record::MapRec;
use crate::record::MapRecV;
use crate::record::any_matches;
use crate::record::not_found_id;
use crate::record::sentinel;
use crate::record::spec_matches_some;
use crate::text::norm;
use crate::text::normalized;
use crate::text::trim_of;
use crate::text::trimmed;

verus! {

/// The auto-accept heuristic: a candidate matches a local record iff its
/// normalized title and album equal the record's and some credited artist
/// normalized-equals the record's artist.
pub open spec fn spec_matches_track(l: LibRecV, c: CandidateV) -> bool {
    &&& norm(l.name) == norm(c.name)
    &&& norm(l.album) == norm(c.album)
    &&& exists|i: int| 0 <= i < c.artists.len() && norm(c.artists[i]) == norm(l.artist)
}

impl LibRec {
    /// Whether a search candidate matches this record under the
    /// auto-accept heuristic.
    pub fn matches_track(&self, tr: &Candidate) -> (r: bool)
        ensures
            r == spec_matches_track(self@, tr@),
    {
        let name_eq = normalized(self.name.as_str()) == normalized(tr.name.as_str());
        let album_eq = normalized(self.album.as_str()) == normalized(tr.album.as_str());
        if !name_eq || !album_eq {
            return false;
        }
        let want = normalized(self.artist.as_str());
        let mut i: usize = 0;
        while i < tr.artists.len()
            invariant
                0 <= i <= tr.artists@.len(),
                want@ == norm(self@.artist),
                norm(self@.name) == norm(tr@.name),
                norm(self@.album) == norm(tr@.album),
                tr@.artists == tr.artists@.map_values(|a: String| a@),
                forall|j: int| 0 <= j < i ==> norm(tr@.artists[j]) != norm(self@.artist),
            decreases tr.artists@.len() - i,
        {
            if normalized(tr.artists[i].as_str()) == want {
                assert(norm(tr@.artists[i as int]) == norm(self@.artist));
                return true;
            }
            i += 1;
        }
        false
    }
}

/// The first candidate accepted by the auto-accept heuristic, if any.
pub fn auto_match(lib_r: &LibRec, results: &Vec<Candidate>) -> (r: Option<usize>)
    ensures
        match r {
            Some(i) => i < results@.len() && spec_matches_track(lib_r@, results@[i as int]@)
                && forall|j: int| 0 <= j < i ==> !spec_matches_track(lib_r@, results@[j]@),
            None => forall|j: int|
                0 <= j < results@.len() ==> !spec_matches_track(lib_r@, results@[j]@),
        },
{
    let mut i: usize = 0;
    while i < results.len()
        invariant
            0 <= i <= results@.len(),
            forall|j: int| 0 <= j < i ==> !spec_matches_track(lib_r@, results@[j]@),
        decreases results@.len() - i,
    {
        if lib_r.matches_track(&results[i]) {
            return Some(i);
        }
        i += 1;
    }
    None
}

/// One resolution outcome of the match engine, reported to the progress
/// log before the engine advances to the next record.
pub enum Prog {
    /// A candidate passed the auto-accept heuristic.
    AutomaticallyChosenSearch(MapRec),
    /// The operator picked a candidate or supplied an identifier.
    ChosenSearch(MapRec),
    /// The operator rejected every candidate.
    RejectedSearch(LibRec),
    /// The search returned no candidates at all.
    NotFoundSearch(LibRec),
    /// An existing mapping entry already matches the record.
    PresentInMap(LibRec),
    /// The record's title is blank after trimming; no search is attempted.
    MissingName,
}

/// Mathematical view of a resolution outcome.
pub ghost enum ProgV {
    AutomaticallyChosenSearch(MapRecV),
    ChosenSearch(MapRecV),
    RejectedSearch(LibRecV),
    NotFoundSearch(LibRecV),
    PresentInMap(LibRecV),
    MissingName,
}

impl View for Prog {
    type V = ProgV;

    open spec fn view(&self) -> ProgV {
        match self {
            Prog::AutomaticallyChosenSearch(m) => ProgV::AutomaticallyChosenSearch(m@),
            Prog::ChosenSearch(m) => ProgV::ChosenSearch(m@),
            Prog::RejectedSearch(l) => ProgV::RejectedSearch(l@),
            Prog::NotFoundSearch(l) => ProgV::NotFoundSearch(l@),
            Prog::PresentInMap(l) => ProgV::PresentInMap(l@),
            Prog::MissingName => ProgV::MissingName,
        }
    }
}

/// The placeholder entry recording that an index was processed but
/// produces no mapping row.
pub open spec fn blank_entry() -> MapRecV {
    MapRecV {
        name: Seq::<char>::empty(),
        album: Seq::<char>::empty(),
        artist: Seq::<char>::empty(),
        sp_id: Seq::<char>::empty(),
    }
}

/// The identity triple of `l` resolved to `id`.
pub open spec fn entry_for(l: LibRecV, id: Seq<char>) -> MapRecV {
    MapRecV { name: l.name, album: l.album, artist: l.artist, sp_id: id }
}

/// The progress-log entry recorded for an outcome: chosen entries as they
/// stand, rejections and misses as the sentinel, placeholders blank.
pub open spec fn spec_entry_of(p: ProgV) -> MapRecV {
    match p {
        ProgV::AutomaticallyChosenSearch(m) => m,
        ProgV::ChosenSearch(m) => m,
        ProgV::RejectedSearch(l) => entry_for(l, sentinel()),
        ProgV::NotFoundSearch(l) => entry_for(l, sentinel()),
        ProgV::PresentInMap(_) => blank_entry(),
        ProgV::MissingName => blank_entry(),
    }
}

/// Builds the progress-log entry for an outcome.
pub fn entry_of(case: &Prog) -> (r: MapRec)
    ensures
        r@ == spec_entry_of(case@),
{
    match case {
        Prog::AutomaticallyChosenSearch(m) => m.clone(),
        Prog::ChosenSearch(m) => m.clone(),
        Prog::RejectedSearch(l) => l.to_map_record(not_found_id().as_str()),
        Prog::NotFoundSearch(l) => l.to_map_record(not_found_id().as_str()),
        Prog::PresentInMap(_) => blank_map_rec(),
        Prog::MissingName => blank_map_rec(),
    }
}

/// Builds the blank placeholder entry.
pub fn blank_map_rec() -> (r: MapRec)
    ensures
        r@ == blank_entry(),
{
    MapRec {
        name: String::new(),
        album: String::new(),
        artist: String::new(),
        sp_id: String::new(),
    }
}

impl Prog {
    /// The human-readable classification of this outcome.
    pub fn label(&self) -> (r: &'static str)
        ensures
            match self@ {
                ProgV::AutomaticallyChosenSearch(_) => r@ == "automatically added"@,
                ProgV::ChosenSearch(_) => r@ == "added"@,
                ProgV::RejectedSearch(_) => r@ == "added as \"Not found\""@,
                ProgV::NotFoundSearch(_) => r@ == "not found by search"@,
                ProgV::PresentInMap(_) => r@ == "already present in map"@,
                ProgV::MissingName => r@ == "empty Name field, skipping"@,
            },
    {
        match self {
            Prog::AutomaticallyChosenSearch(_) => "automatically added",
            Prog::ChosenSearch(_) => "added",
            Prog::RejectedSearch(_) => "added as \"Not found\"",
            Prog::NotFoundSearch(_) => "not found by search",
            Prog::PresentInMap(_) => "already present in map",
            Prog::MissingName => "empty Name field, skipping",
        }
    }
}

/// The decision taken before any search: skip a record whose trimmed title
/// is blank, report one already matched by the previous mapping, and send
/// the rest to the escalating search.
pub fn pre_search(lib_r: &LibRec, prev_map: &Vec<MapRec>) -> (r: Option<Prog>)
    ensures
        match r {
            Some(p) => p@ == (if trim_of(lib_r@.name).len() == 0 {
                ProgV::MissingName
            } else {
                ProgV::PresentInMap(lib_r@)
            }) && (trim_of(lib_r@.name).len() == 0 || spec_matches_some(
                prev_map@.map_values(|m: MapRec| m@),
                lib_r@,
            )),
            None => trim_of(lib_r@.name).len() > 0 && !spec_matches_some(
                prev_map@.map_values(|m: MapRec| m@),
                lib_r@,
            ),
        },
{
    let t = trimmed(lib_r.name.as_str());
    if t.as_str().is_empty() {
        return Some(Prog::MissingName);
    }
    if any_matches(prev_map, lib_r) {
        return Some(Prog::PresentInMap(lib_r.clone()));
    }
    None
}

/// What the engine does with a finished candidate list.
pub enum Resolve {
    /// The outcome is decided without a human in the loop.
    Decided(Prog),
    /// The ordered candidate list must be put to the operator.
    NeedsChoice,
}

/// Resolves a finished candidate list: an empty list is a search miss, a
/// candidate passing the auto-accept heuristic is chosen automatically,
/// and anything else needs a human decision.
pub fn resolve_results(lib_r: &LibRec, results: &Vec<Candidate>) -> (r: Resolve)
    ensures
        match r {
            Resolve::Decided(p) => {
                if results@.len() == 0 {
                    p@ == ProgV::NotFoundSearch(lib_r@)
                } else {
                    exists|i: int|
                        0 <= i < results@.len() && #[trigger] spec_matches_track(
                            lib_r@,
                            results@[i]@,
                        ) && (forall|j: int|
                            0 <= j < i ==> !spec_matches_track(lib_r@, results@[j]@)) && p@
                            == ProgV::AutomaticallyChosenSearch(
                            entry_for(lib_r@, results@[i]@.id),
                        )
                }
            },
            Resolve::NeedsChoice => results@.len() > 0 && forall|j: int|
                0 <= j < results@.len() ==> !spec_matches_track(lib_r@, results@[j]@),
        },
{
    if results.len() == 0 {
        return Resolve::Decided(Prog::NotFoundSearch(lib_r.clone()));
    }
    match auto_match(lib_r, results) {
        Some(i) => {
            let rec = lib_r.to_map_record(results[i].id.as_str());
            Resolve::Decided(Prog::AutomaticallyChosenSearch(rec))
        },
        None => Resolve::NeedsChoice,
    }
}

/// True iff `c` is an ASCII decimal digit.
pub open spec fn is_digit(c: char) -> bool {
    48 <= c as u32 <= 57
}

/// True iff every character of `s` is an ASCII decimal digit.
pub open spec fn all_digits(s: Seq<char>) -> bool {
    forall|i: int| 0 <= i < s.len() ==> is_digit(#[trigger] s[i])
}

/// The numeric value of a digit string.
pub open spec fn digits_val(s: Seq<char>) -> int
    decreases s.len(),
{
    if s.len() == 0 {
        0
    } else {
        digits_val(s.drop_last()) * 10 + (s.last() as u32 - 48)
    }
}

proof fn lemma_digits_val_nonneg(s: Seq<char>)
    requires
        all_digits(s),
    ensures
        digits_val(s) >= 0,
    decreases s.len(),
{
    if s.len() > 0 {
        assert(all_digits(s.drop_last()));
        lemma_digits_val_nonneg(s.drop_last());
    }
}

proof fn lemma_digits_val_extend(s: Seq<char>, i: int)
    requires
        all_digits(s),
        0 <= i <= s.len(),
    ensures
        digits_val(s) >= digits_val(s.take(i)),
    decreases s.len() - i,
{
    if i < s.len() {
        lemma_digits_val_extend(s, i + 1);
        assert(s.take(i + 1).drop_last() =~= s.take(i));
        assert(s.take(i + 1).last() == s[i]);
        lemma_digits_val_nonneg(s.take(i));
        assert(all_digits(s.take(i + 1)));
        assert(digits_val(s.take(i + 1)) == digits_val(s.take(i)) * 10 + (s[i] as u32 - 48));
    } else {
        assert(s.take(i) =~= s);
    }
}

/// Parses a decimal number, rejecting anything that is empty, holds a
/// non-digit, or overflows.
pub fn parse_index(s: &str) -> (r: Option<usize>)
    ensures
        match r {
            Some(v) => s@.len() > 0 && all_digits(s@) && v as int == digits_val(s@),
            None => s@.len() == 0 || !all_digits(s@) || digits_val(s@) > usize::MAX,
        },
{
    let n = s.unicode_len();
    if n == 0 {
        return None;
    }
    let mut acc: usize = 0;
    let mut i: usize = 0;
    while i < n
        invariant
            0 <= i <= n,
            n == s@.len(),
            all_digits(s@.take(i as int)),
            acc as int == digits_val(s@.take(i as int)),
        decreases n - i,
    {
        let c = s.get_char(i);
        let u = c as u32;
        if u < 48 || u > 57 {
            assert(!is_digit(s@[i as int]));
            return None;
        }
        let d = (u - 48) as usize;
        proof {
            assert(s@.take(i as int + 1).drop_last() =~= s@.take(i as int));
            assert(s@.take(i as int + 1).last() == s@[i as int]);
        }
        let shifted = match acc.checked_mul(10) {
            Some(x) => x,
            None => {
                proof {
                    if all_digits(s@) {
                        lemma_digits_val_extend(s@, i as int + 1);
                    }
                }
                return None;
            },
        };
        let next = match shifted.checked_add(d) {
            Some(x) => x,
            None => {
                proof {
                    if all_digits(s@) {
                        lemma_digits_val_extend(s@, i as int + 1);
                    }
                }
                return None;
            },
        };
        proof {
            assert(s@.take(i as int + 1).drop_last() =~= s@.take(i as int));
            assert(all_digits(s@.take(i as int + 1)));
        }
        acc = next;
        i += 1;
    }
    proof {
        assert(s@.take(n as int) =~= s@);
    }
    Some(acc)
}

/// A well-formed answer to the pick-a-candidate prompt.
pub enum Pick {
    /// `n`: no candidate is correct; the record resolves to the sentinel.
    Reject,
    /// `s`: the operator will supply a remote identifier by hand.
    Manual,
    /// A 1-based index into the candidate list.
    Index(usize),
}

/// Parses a normalized answer to the pick-a-candidate prompt: `n` rejects,
/// `s` asks to supply an identifier, and a number between 1 and
/// `n_results` picks that candidate. Anything else is malformed and is
/// prompted again.
pub fn parse_pick(answer: &String, n_results: usize) -> (r: Option<Pick>)
    ensures
        match r {
            Some(Pick::Reject) => answer@ == "n"@,
            Some(Pick::Manual) => answer@ != "n"@ && answer@ == "s"@,
            Some(Pick::Index(i)) => answer@ != "n"@ && answer@ != "s"@ && answer@.len() > 0
                && all_digits(answer@) && 1 <= i as int <= n_results && i as int == digits_val(
                answer@,
            ),
            None => answer@ != "n"@ && answer@ != "s"@ && !(answer@.len() > 0 && all_digits(
                answer@,
            ) && 1 <= digits_val(answer@) <= n_results),
        },
{
    if *answer == String::from_str("n") {
        return Some(Pick::Reject);
    }
    if *answer == String::from_str("s") {
        return Some(Pick::Manual);
    }
    match parse_index(answer.as_str()) {
        Some(i) => {
            if i >= 1 && i <= n_results {
                Some(Pick::Index(i))
            } else {
                None
            }
        },
        None => {
            proof {
                if answer@.len() > 0 && all_digits(answer@) && digits_val(answer@) <= n_results {
                    lemma_digits_val_nonneg(answer@);
                }
            }
            None
        },
    }
}

} // verus!
