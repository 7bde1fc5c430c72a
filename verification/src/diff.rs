//! The remote sync differ: compares the mapping against the remote ordered
//! collection and computes the additions and removals that make the remote
//! member set equal the mapping's resolved identifiers, applied in bounded
//! batches with rate-limit-aware retry.

use vstd::prelude::*;
use vstd::string::StringExecFns;

use crate::record::MapRec;
use crate::record::MapRecV;
use crate::record::Tr;
use crate::record::TrV;
use crate::record::not_found_id;
use crate::record::sentinel;

verus! {

/// Identifiers are submitted to the mutation endpoints in this namespace.
pub open spec fn uri_prefix() -> Seq<char> {
    "spotify:track:"@
}

/// Wraps a bare identifier for the mutation endpoints.
pub fn track_uri(id: &str) -> (r: String)
    ensures
        r@ == uri_prefix() + id@,
{
    let mut s = String::from_str("spotify:track:");
    s.append(id);
    s
}

/// True iff some mapping entry resolved to `id`.
pub open spec fn spec_map_has_id(map: Seq<MapRecV>, id: Seq<char>) -> bool {
    exists|i: int| 0 <= i < map.len() && map[i].sp_id == id
}

/// True iff some remote item carries `id`.
pub open spec fn spec_pl_has_id(pl: Seq<TrV>, id: Seq<char>) -> bool {
    exists|i: int| 0 <= i < pl.len() && pl[i].id == id
}

/// The removal list: the wrapped identifier of every remote item that no
/// mapping entry wants, in remote order.
pub open spec fn remove_list(pl: Seq<TrV>, map: Seq<MapRecV>) -> Seq<Seq<char>>
    decreases pl.len(),
{
    if pl.len() == 0 {
        Seq::<Seq<char>>::empty()
    } else {
        remove_list(pl.drop_last(), map) + if spec_map_has_id(map, pl.last().id) {
            Seq::<Seq<char>>::empty()
        } else {
            seq![uri_prefix() + pl.last().id]
        }
    }
}

/// The addition list: the wrapped identifier of every mapping entry that
/// is really resolved (not the sentinel) and absent remotely, in mapping
/// order.
pub open spec fn add_list(map: Seq<MapRecV>, pl: Seq<TrV>) -> Seq<Seq<char>>
    decreases map.len(),
{
    if map.len() == 0 {
        Seq::<Seq<char>>::empty()
    } else {
        add_list(map.drop_last(), pl) + if map.last().sp_id != sentinel() && !spec_pl_has_id(
            pl,
            map.last().sp_id,
        ) {
            seq![uri_prefix() + map.last().sp_id]
        } else {
            Seq::<Seq<char>>::empty()
        }
    }
}

/// The mutations that make the remote member set equal the mapping's
/// resolved identifiers.
pub struct Diff {
    pub to_remove: Vec<String>,
    pub to_add: Vec<String>,
}

fn map_has_id(map: &Vec<MapRec>, id: &String) -> (r: bool)
    ensures
        r == spec_map_has_id(map@.map_values(|m: MapRec| m@), id@),
{
    let ghost mv = map@.map_values(|m: MapRec| m@);
    let mut i: usize = 0;
    while i < map.len()
        invariant
            0 <= i <= map@.len(),
            mv == map@.map_values(|m: MapRec| m@),
            forall|j: int| 0 <= j < i ==> (#[trigger] mv[j]).sp_id != id@,
        decreases map@.len() - i,
    {
        if map[i].sp_id == *id {
            assert(mv[i as int].sp_id == id@);
            return true;
        }
        i += 1;
    }
    false
}

fn pl_has_id(pl: &Vec<Tr>, id: &String) -> (r: bool)
    ensures
        r == spec_pl_has_id(pl@.map_values(|t: Tr| t@), id@),
{
    let ghost pv = pl@.map_values(|t: Tr| t@);
    let mut i: usize = 0;
    while i < pl.len()
        invariant
            0 <= i <= pl@.len(),
            pv == pl@.map_values(|t: Tr| t@),
            forall|j: int| 0 <= j < i ==> (#[trigger] pv[j]).id != id@,
        decreases pl@.len() - i,
    {
        if pl[i].id == *id {
            assert(pv[i as int].id == id@);
            return true;
        }
        i += 1;
    }
    false
}

/// Computes the diff: `to_remove` is every remote item whose identifier no
/// mapping entry carries; `to_add` is every mapping entry resolved to a
/// real identifier absent among the remote items. A sentinel entry is
/// never added.
pub fn compute_diff(map: &Vec<MapRec>, playlist: &Vec<Tr>) -> (d: Diff)
    ensures
        d.to_remove@.map_values(|s: String| s@) == remove_list(
            playlist@.map_values(|t: Tr| t@),
            map@.map_values(|m: MapRec| m@),
        ),
        d.to_add@.map_values(|s: String| s@) == add_list(
            map@.map_values(|m: MapRec| m@),
            playlist@.map_values(|t: Tr| t@),
        ),
{
    let ghost mv = map@.map_values(|m: MapRec| m@);
    let ghost pv = playlist@.map_values(|t: Tr| t@);
    let mut to_remove: Vec<String> = Vec::new();
    proof {
        assert(to_remove@.map_values(|s: String| s@) =~= remove_list(pv.take(0), mv));
    }
    let mut i: usize = 0;
    while i < playlist.len()
        invariant
            0 <= i <= playlist@.len(),
            mv == map@.map_values(|m: MapRec| m@),
            pv == playlist@.map_values(|t: Tr| t@),
            to_remove@.map_values(|s: String| s@) == remove_list(pv.take(i as int), mv),
        decreases playlist@.len() - i,
    {
        proof {
            assert(pv.take(i as int + 1).drop_last() =~= pv.take(i as int));
            assert(pv.take(i as int + 1).last() == pv[i as int]);
        }
        if !map_has_id(map, &playlist[i].id) {
            let uri = track_uri(playlist[i].id.as_str());
            to_remove.push(uri);
            proof {
                assert(to_remove@.map_values(|s: String| s@) =~= remove_list(
                    pv.take(i as int),
                    mv,
                ).push(uri_prefix() + pv[i as int].id));
                assert(remove_list(pv.take(i as int), mv).push(uri_prefix() + pv[i as int].id)
                    =~= remove_list(pv.take(i as int), mv) + seq![uri_prefix() + pv[i as int].id]);
            }
        }
        i += 1;
    }
    proof {
        assert(pv.take(playlist@.len() as int) =~= pv);
    }
    let mut to_add: Vec<String> = Vec::new();
    proof {
        assert(to_add@.map_values(|s: String| s@) =~= add_list(mv.take(0), pv));
    }
    let mut j: usize = 0;
    while j < map.len()
        invariant
            0 <= j <= map@.len(),
            mv == map@.map_values(|m: MapRec| m@),
            pv == playlist@.map_values(|t: Tr| t@),
            to_add@.map_values(|s: String| s@) == add_list(mv.take(j as int), pv),
        decreases map@.len() - j,
    {
        proof {
            assert(mv.take(j as int + 1).drop_last() =~= mv.take(j as int));
            assert(mv.take(j as int + 1).last() == mv[j as int]);
        }
        let is_sentinel = map[j].sp_id == not_found_id();
        if !is_sentinel && !pl_has_id(playlist, &map[j].sp_id) {
            let uri = track_uri(map[j].sp_id.as_str());
            to_add.push(uri);
            proof {
                assert(to_add@.map_values(|s: String| s@) =~= add_list(mv.take(j as int), pv).push(
                    uri_prefix() + mv[j as int].sp_id,
                ));
                assert(add_list(mv.take(j as int), pv).push(uri_prefix() + mv[j as int].sp_id)
                    =~= add_list(mv.take(j as int), pv) + seq![uri_prefix() + mv[j as int].sp_id]);
            }
        }
        j += 1;
    }
    proof {
        assert(mv.take(map@.len() as int) =~= mv);
    }
    Diff { to_remove, to_add }
}

/// True iff the diff asks for no mutation at all: the sync is a no-op,
/// shows no prompt, and submits nothing.
pub fn is_noop(d: &Diff) -> (r: bool)
    ensures
        r == (d.to_remove@.len() == 0 && d.to_add@.len() == 0),
{
    d.to_remove.len() == 0 && d.to_add.len() == 0
}

/// At most this many identifiers go into one mutation call.
pub const SEND_LIM: usize = 100;

/// The input cut into batches of at most `k`, in order, all but the last
/// holding exactly `k`.
pub open spec fn chunks_of(s: Seq<Seq<char>>, k: int) -> Seq<Seq<Seq<char>>>
    decreases s.len(),
    when k >= 1
{
    if s.len() == 0 {
        Seq::<Seq<Seq<char>>>::empty()
    } else if s.len() <= k {
        seq![s]
    } else {
        seq![s.take(k)] + chunks_of(s.skip(k), k)
    }
}

/// Splits the identifier list into submission batches of at most `k`.
pub fn chunked(items: &Vec<String>, k: usize) -> (r: Vec<Vec<String>>)
    requires
        k >= 1,
    ensures
        r@.map_values(|c: Vec<String>| c@.map_values(|s: String| s@)) == chunks_of(
            items@.map_values(|s: String| s@),
            k as int,
        ),
{
    let ghost sv = items@.map_values(|s: String| s@);
    let mut out: Vec<Vec<String>> = Vec::new();
    let mut i: usize = 0;
    proof {
        assert(sv.skip(0) =~= sv);
        assert(out@.map_values(|c: Vec<String>| c@.map_values(|s: String| s@)) + chunks_of(
            sv.skip(0),
            k as int,
        ) =~= chunks_of(sv, k as int));
    }
    while i < items.len()
        invariant
            0 <= i <= items@.len(),
            k >= 1,
            sv == items@.map_values(|s: String| s@),
            out@.map_values(|c: Vec<String>| c@.map_values(|s: String| s@)) + chunks_of(
                sv.skip(i as int),
                k as int,
            ) == chunks_of(sv, k as int),
        decreases items@.len() - i,
    {
        let remaining = items.len() - i;
        let end = if remaining <= k {
            items.len()
        } else {
            i + k
        };
        let mut chunk: Vec<String> = Vec::new();
        let mut j: usize = i;
        while j < end
            invariant
                i <= j <= end,
                end <= items@.len(),
                sv == items@.map_values(|s: String| s@),
                chunk@.len() == j - i,
                forall|t: int| 0 <= t < j - i ==> (#[trigger] chunk@[t])@ == sv[i + t],
            decreases end - j,
        {
            let x = items[j].clone();
            proof {
                assert(x@ == sv[j as int]);
            }
            chunk.push(x);
            j += 1;
        }
        proof {
            assert(chunk@.map_values(|s: String| s@) =~= sv.subrange(i as int, end as int));
            if items@.len() - i <= k {
                assert(sv.subrange(i as int, end as int) =~= sv.skip(i as int));
                assert(chunks_of(sv.skip(i as int), k as int) =~= seq![sv.skip(i as int)]);
            } else {
                assert(sv.subrange(i as int, end as int) =~= sv.skip(i as int).take(k as int));
                assert(sv.skip(i as int).skip(k as int) =~= sv.skip(end as int));
            }
        }
        out.push(chunk);
        proof {
            assert(out@.map_values(|c: Vec<String>| c@.map_values(|s: String| s@)) + chunks_of(
                sv.skip(end as int),
                k as int,
            ) =~= chunks_of(sv, k as int));
        }
        i = end;
    }
    proof {
        assert(sv.skip(items@.len() as int) =~= Seq::<Seq<char>>::empty());
        assert(out@.map_values(|c: Vec<String>| c@.map_values(|s: String| s@)) =~= chunks_of(
            sv,
            k as int,
        ));
    }
    out
}

/// What one remote call came back with, as the retry policy sees it.
pub enum RemoteOutcome {
    /// The call succeeded.
    Done,
    /// The service reported too many requests.
    RateLimited,
    /// Any other failure.
    Failed,
}

/// What the caller does next with a batch.
pub enum RetryDecision {
    /// Move on: the batch is settled (succeeded, or failed fatally and the
    /// whole operation aborts).
    Proceed,
    /// Wait the fixed backoff and submit the same batch again.
    RetryAfterBackoff,
}

/// The fixed backoff, in seconds, between rate-limited retries.
pub const BACKOFF_SECS: u64 = 1;

/// The one retry rule applied to every remote call: a rate-limited call is
/// retried after the fixed backoff, without advancing; everything else
/// proceeds.
pub fn retry_decision(outcome: &RemoteOutcome) -> (r: RetryDecision)
    ensures
        r is RetryAfterBackoff <==> outcome is RateLimited,
{
    match outcome {
        RemoteOutcome::RateLimited => RetryDecision::RetryAfterBackoff,
        RemoteOutcome::Done => RetryDecision::Proceed,
        RemoteOutcome::Failed => RetryDecision::Proceed,
    }
}

/// True iff this mapping entry's identifier should be verified against the
/// remote catalog: sentinel entries are skipped.
pub fn should_check(m: &MapRec) -> (r: bool)
    ensures
        r == (m@.sp_id != sentinel()),
{
    !(m.sp_id == not_found_id())
}

/// Sentinel preservation law (the differ half): an entry resolved to the
/// sentinel contributes nothing to the additions.
pub proof fn lemma_sentinel_not_added(map: Seq<MapRecV>, pl: Seq<TrV>, e: MapRecV)
    requires
        e.sp_id == sentinel(),
    ensures
        add_list(map.push(e), pl) == add_list(map, pl),
{
    assert(map.push(e).drop_last() =~= map);
    assert(map.push(e).last() == e);
    assert(add_list(map.push(e), pl) =~= add_list(map, pl));
}

proof fn lemma_remove_list_empty(pl: Seq<TrV>, map: Seq<MapRecV>)
    requires
        forall|i: int| 0 <= i < pl.len() ==> spec_map_has_id(map, (#[trigger] pl[i]).id),
    ensures
        remove_list(pl, map).len() == 0,
    decreases pl.len(),
{
    if pl.len() > 0 {
        assert(forall|i: int|
            0 <= i < pl.drop_last().len() ==> (#[trigger] pl.drop_last()[i]) == pl[i]);
        lemma_remove_list_empty(pl.drop_last(), map);
        assert(spec_map_has_id(map, pl[pl.len() - 1].id));
    }
}

proof fn lemma_add_list_empty(map: Seq<MapRecV>, pl: Seq<TrV>)
    requires
        forall|i: int|
            0 <= i < map.len() ==> (#[trigger] map[i]).sp_id == sentinel() || spec_pl_has_id(
                pl,
                map[i].sp_id,
            ),
    ensures
        add_list(map, pl).len() == 0,
    decreases map.len(),
{
    if map.len() > 0 {
        assert(forall|i: int|
            0 <= i < map.drop_last().len() ==> (#[trigger] map.drop_last()[i]) == map[i]);
        lemma_add_list_empty(map.drop_last(), pl);
        assert(map[map.len() - 1].sp_id == sentinel() || spec_pl_has_id(
            pl,
            map[map.len() - 1].sp_id,
        ));
    }
}

/// No-op sync law: where the remote items' identifiers and the mapping's
/// resolved identifiers already agree — every remote identifier is wanted
/// and every real resolved identifier is present — the diff is empty, so
/// the sync prompts for nothing and mutates nothing.
pub proof fn lemma_noop_sync(map: Seq<MapRecV>, pl: Seq<TrV>)
    requires
        forall|i: int| 0 <= i < pl.len() ==> spec_map_has_id(map, (#[trigger] pl[i]).id),
        forall|i: int|
            0 <= i < map.len() ==> (#[trigger] map[i]).sp_id == sentinel() || spec_pl_has_id(
                pl,
                map[i].sp_id,
            ),
    ensures
        remove_list(pl, map).len() == 0,
        add_list(map, pl).len() == 0,
{
    lemma_remove_list_empty(pl, map);
    lemma_add_list_empty(map, pl);
}

} // verus!
