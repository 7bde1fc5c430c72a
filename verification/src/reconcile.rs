//! The reconciler: merges the previous mapping, the drained progress log
//! and the current local collection into the next mapping. Stale entries —
//! those matching no current local record — are dropped, non-placeholder
//! progress entries are appended, and the result is sorted ascending by
//! `(artist, album, title)`, stably, so unaffected entries stay put.

use vstd::prelude::*;

use crate::record::LibRec;
use crate::record::LibRecV;
use crate::record::MapRec;
use crate::record::MapRecV;
use crate::record::matched_by_lib;
use crate::record::spec_matched_by_lib;

verus! {

broadcast use vstd::seq_lib::group_filter_ensures;

/// Strict lexicographic order on character sequences by code point: the
/// order in which the standard library compares strings.
pub open spec fn seq_lt(a: Seq<char>, b: Seq<char>) -> bool
    decreases a.len(),
{
    if b.len() == 0 {
        false
    } else if a.len() == 0 {
        true
    } else if a[0] < b[0] {
        true
    } else if a[0] == b[0] {
        seq_lt(a.drop_first(), b.drop_first())
    } else {
        false
    }
}

/// The order is total: two sequences are ordered one way, the other, or
/// equal.
pub proof fn lemma_seq_lt_total(a: Seq<char>, b: Seq<char>)
    ensures
        seq_lt(a, b) || seq_lt(b, a) || a == b,
    decreases a.len(),
{
    if b.len() == 0 {
        if a.len() == 0 {
            assert(a =~= b);
        }
    } else if a.len() == 0 {
    } else if a[0] < b[0] {
    } else if b[0] < a[0] {
    } else {
        assert(a[0] == b[0]);
        lemma_seq_lt_total(a.drop_first(), b.drop_first());
        if !seq_lt(a, b) && !seq_lt(b, a) {
            assert(a.drop_first() == b.drop_first());
            assert(a =~= seq![a[0]] + a.drop_first());
            assert(b =~= seq![b[0]] + b.drop_first());
            assert(a == b);
        }
    }
}

/// Compares two strings in strict lexicographic code-point order.
pub fn str_lt(a: &str, b: &str) -> (r: bool)
    ensures
        r == seq_lt(a@, b@),
{
    let na = a.unicode_len();
    let nb = b.unicode_len();
    let mut i: usize = 0;
    proof {
        assert(a@.skip(0) =~= a@);
        assert(b@.skip(0) =~= b@);
    }
    while i < na && i < nb
        invariant
            0 <= i <= na,
            0 <= i <= nb,
            na == a@.len(),
            nb == b@.len(),
            seq_lt(a@, b@) == seq_lt(a@.skip(i as int), b@.skip(i as int)),
        decreases na - i,
    {
        let ca = a.get_char(i);
        let cb = b.get_char(i);
        if ca < cb {
            assert(seq_lt(a@.skip(i as int), b@.skip(i as int)));
            return true;
        }
        if cb < ca {
            assert(!seq_lt(a@.skip(i as int), b@.skip(i as int)));
            return false;
        }
        proof {
            assert(a@.skip(i as int).drop_first() =~= a@.skip(i as int + 1));
            assert(b@.skip(i as int).drop_first() =~= b@.skip(i as int + 1));
        }
        i += 1;
    }
    proof {
        if i == na {
            assert(a@.skip(i as int) =~= Seq::<char>::empty());
        } else {
            assert(b@.skip(i as int) =~= Seq::<char>::empty());
        }
    }
    i < nb
}

/// The mapping's sort key order: ascending by artist, then album, then
/// title, non-strict.
pub open spec fn key_le(a: MapRecV, b: MapRecV) -> bool {
    if a.artist != b.artist {
        seq_lt(a.artist, b.artist)
    } else if a.album != b.album {
        seq_lt(a.album, b.album)
    } else {
        seq_lt(a.name, b.name) || a.name == b.name
    }
}

/// The key order is total.
pub proof fn lemma_key_le_total(a: MapRecV, b: MapRecV)
    ensures
        key_le(a, b) || key_le(b, a),
{
    lemma_seq_lt_total(a.artist, b.artist);
    lemma_seq_lt_total(a.album, b.album);
    lemma_seq_lt_total(a.name, b.name);
}

/// Compares two mapping entries in the key order.
pub fn rec_key_le(a: &MapRec, b: &MapRec) -> (r: bool)
    ensures
        r == key_le(a@, b@),
{
    if a.artist != b.artist {
        return str_lt(a.artist.as_str(), b.artist.as_str());
    }
    if a.album != b.album {
        return str_lt(a.album.as_str(), b.album.as_str());
    }
    if a.name != b.name {
        return str_lt(a.name.as_str(), b.name.as_str());
    }
    true
}

/// True iff every adjacent pair of `s` is in the key order.
pub open spec fn sorted_by_key(s: Seq<MapRecV>) -> bool {
    forall|i: int| 0 <= i < s.len() - 1 ==> #[trigger] key_le(s[i], s[i + 1])
}

/// Stable insertion into a sorted sequence: the new entry goes after every
/// entry it ties with.
pub open spec fn insert_sorted(s: Seq<MapRecV>, x: MapRecV) -> Seq<MapRecV>
    decreases s.len(),
{
    if s.len() == 0 {
        seq![x]
    } else if key_le(s.last(), x) {
        s.push(x)
    } else {
        insert_sorted(s.drop_last(), x).push(s.last())
    }
}

/// Stable insertion sort in the key order.
pub open spec fn sort_spec(s: Seq<MapRecV>) -> Seq<MapRecV>
    decreases s.len(),
{
    if s.len() == 0 {
        s
    } else {
        insert_sorted(sort_spec(s.drop_last()), s.last())
    }
}

proof fn lemma_insert_len(s: Seq<MapRecV>, x: MapRecV)
    ensures
        insert_sorted(s, x).len() == s.len() + 1,
    decreases s.len(),
{
    if s.len() > 0 && !key_le(s.last(), x) {
        lemma_insert_len(s.drop_last(), x);
    }
}

proof fn lemma_push_contains(s: Seq<MapRecV>, x: MapRecV, y: MapRecV)
    ensures
        s.push(x).contains(y) <==> (s.contains(y) || y == x),
{
    if s.push(x).contains(y) {
        let i = choose|i: int| 0 <= i < s.push(x).len() && s.push(x)[i] == y;
        if i < s.len() {
            assert(s[i] == y);
        }
    }
    if s.contains(y) {
        let i = choose|i: int| 0 <= i < s.len() && s[i] == y;
        assert(s.push(x)[i] == y);
    }
    if y == x {
        assert(s.push(x)[s.len() as int] == y);
    }
}

proof fn lemma_unpush_contains(s: Seq<MapRecV>, y: MapRecV)
    requires
        s.len() > 0,
    ensures
        s.contains(y) <==> (s.drop_last().contains(y) || y == s.last()),
{
    assert(s =~= s.drop_last().push(s.last()));
    lemma_push_contains(s.drop_last(), s.last(), y);
}

proof fn lemma_insert_contains(s: Seq<MapRecV>, x: MapRecV, y: MapRecV)
    ensures
        insert_sorted(s, x).contains(y) <==> (s.contains(y) || y == x),
    decreases s.len(),
{
    if s.len() == 0 {
        assert(insert_sorted(s, x) =~= seq![x]);
        if insert_sorted(s, x).contains(y) {
            let i = choose|i: int|
                0 <= i < insert_sorted(s, x).len() && insert_sorted(s, x)[i] == y;
            assert(y == x);
        }
        if y == x {
            assert(insert_sorted(s, x)[0] == y);
        }
    } else if key_le(s.last(), x) {
        lemma_push_contains(s, x, y);
    } else {
        lemma_insert_contains(s.drop_last(), x, y);
        lemma_push_contains(insert_sorted(s.drop_last(), x), s.last(), y);
        lemma_unpush_contains(s, y);
    }
}

/// The sort is a permutation: it keeps exactly the input's entries.
pub proof fn lemma_sort_contains(s: Seq<MapRecV>, y: MapRecV)
    ensures
        sort_spec(s).contains(y) <==> s.contains(y),
    decreases s.len(),
{
    if s.len() > 0 {
        lemma_sort_contains(s.drop_last(), y);
        lemma_insert_contains(sort_spec(s.drop_last()), s.last(), y);
        lemma_unpush_contains(s, y);
    }
}

proof fn lemma_insert_sorted_sorted(s: Seq<MapRecV>, x: MapRecV)
    requires
        sorted_by_key(s),
    ensures
        sorted_by_key(insert_sorted(s, x)),
    decreases s.len(),
{
    if s.len() == 0 {
    } else if key_le(s.last(), x) {
        let t = s.push(x);
        assert forall|i: int| 0 <= i < t.len() - 1 implies #[trigger] key_le(t[i], t[i + 1]) by {
            if i < s.len() - 1 {
                assert(key_le(s[i], s[i + 1]));
            }
        }
    } else {
        assert(sorted_by_key(s.drop_last()));
        lemma_insert_sorted_sorted(s.drop_last(), x);
        let u = insert_sorted(s.drop_last(), x);
        lemma_insert_len(s.drop_last(), x);
        lemma_key_le_total(s.last(), x);
        // the last element of u is x or the old last-but-one; either way it
        // stands in the key order below s.last()
        assert(key_le(u.last(), s.last())) by {
            if s.drop_last().len() == 0 {
                assert(u =~= seq![x]);
            } else if key_le(s.drop_last().last(), x) {
                assert(u == s.drop_last().push(x));
            } else {
                assert(u.last() == s.drop_last().last());
                assert(s.drop_last().last() == s[s.len() - 2]);
                assert(key_le(s[s.len() - 2], s[s.len() - 2 + 1]));
            }
        }
        let t = u.push(s.last());
        assert forall|i: int| 0 <= i < t.len() - 1 implies #[trigger] key_le(t[i], t[i + 1]) by {
            if i < u.len() - 1 {
                assert(key_le(u[i], u[i + 1]));
            }
        }
    }
}

/// Ordering invariant: the sort's result is sorted in the key order.
pub proof fn lemma_sort_sorted(s: Seq<MapRecV>)
    ensures
        sorted_by_key(sort_spec(s)),
    decreases s.len(),
{
    if s.len() > 0 {
        lemma_sort_sorted(s.drop_last());
        lemma_insert_sorted_sorted(sort_spec(s.drop_last()), s.last());
    }
}

/// Sorting an already sorted sequence returns it unchanged: the sort is
/// stable, so a run that adds and removes nothing moves nothing.
pub proof fn lemma_sort_of_sorted(s: Seq<MapRecV>)
    requires
        sorted_by_key(s),
    ensures
        sort_spec(s) == s,
    decreases s.len(),
{
    if s.len() > 0 {
        assert(sorted_by_key(s.drop_last()));
        lemma_sort_of_sorted(s.drop_last());
        if s.len() == 1 {
            assert(insert_sorted(s.drop_last(), s.last()) =~= seq![s.last()]);
            assert(sort_spec(s) =~= s);
        } else {
            assert(key_le(s[s.len() - 2], s[s.len() - 2 + 1]));
            assert(s.drop_last().last() == s[s.len() - 2]);
            assert(sort_spec(s) == s.drop_last().push(s.last()));
            assert(s.drop_last().push(s.last()) =~= s);
        }
    }
}

proof fn lemma_insert_at(s: Seq<MapRecV>, x: MapRecV, j: int)
    requires
        0 <= j <= s.len(),
        forall|k: int| j <= k < s.len() ==> !key_le(#[trigger] s[k], x),
        j > 0 ==> key_le(s[j - 1], x),
    ensures
        insert_sorted(s, x) == s.take(j) + seq![x] + s.skip(j),
    decreases s.len(),
{
    if s.len() == 0 {
        assert(insert_sorted(s, x) =~= s.take(j) + seq![x] + s.skip(j));
    } else if key_le(s.last(), x) {
        assert(j == s.len());
        assert(insert_sorted(s, x) =~= s.take(j) + seq![x] + s.skip(j));
    } else {
        assert(j < s.len());
        lemma_insert_at(s.drop_last(), x, j);
        assert(insert_sorted(s.drop_last(), x).push(s.last()) =~= s.take(j) + seq![x] + s.skip(
            j,
        ));
    }
}

/// Inserts one entry into a vector kept sorted, after any entries it ties
/// with.
fn insert_rec(recs: Vec<MapRec>, x: MapRec) -> (r: Vec<MapRec>)
    ensures
        r@.map_values(|m: MapRec| m@) == insert_sorted(recs@.map_values(|m: MapRec| m@), x@),
{
    let ghost av = recs@.map_values(|m: MapRec| m@);
    let mut j: usize = recs.len();
    while j > 0 && !rec_key_le(&recs[j - 1], &x)
        invariant
            0 <= j <= recs@.len(),
            av == recs@.map_values(|m: MapRec| m@),
            forall|k: int| j <= k < av.len() ==> !key_le(#[trigger] av[k], x@),
        decreases j,
    {
        j -= 1;
    }
    let mut out = recs;
    out.insert(j, x);
    proof {
        lemma_insert_at(av, x@, j as int);
        assert(out@.map_values(|m: MapRec| m@) =~= av.take(j as int) + seq![x@] + av.skip(
            j as int,
        ));
    }
    out
}

/// Sorts the mapping ascending by `(artist, album, title)`, stably.
pub fn sort_mapping(recs: Vec<MapRec>) -> (r: Vec<MapRec>)
    ensures
        r@.map_values(|m: MapRec| m@) == sort_spec(recs@.map_values(|m: MapRec| m@)),
{
    let ghost rv = recs@.map_values(|m: MapRec| m@);
    let mut out: Vec<MapRec> = Vec::new();
    proof {
        assert(out@.map_values(|m: MapRec| m@) =~= sort_spec(rv.take(0)));
    }
    let mut i: usize = 0;
    while i < recs.len()
        invariant
            0 <= i <= recs@.len(),
            rv == recs@.map_values(|m: MapRec| m@),
            out@.map_values(|m: MapRec| m@) == sort_spec(rv.take(i as int)),
        decreases recs@.len() - i,
    {
        out = insert_rec(out, recs[i].clone());
        proof {
            assert(rv.take(i as int + 1).drop_last() =~= rv.take(i as int));
            assert(rv.take(i as int + 1).last() == rv[i as int]);
        }
        i += 1;
    }
    proof {
        assert(rv.take(recs@.len() as int) =~= rv);
    }
    out
}

/// The entries of the previous mapping that still match some current local
/// record; the rest are stale and dropped.
pub open spec fn kept_of(prev: Seq<MapRecV>, lib: Seq<LibRecV>) -> Seq<MapRecV> {
    prev.filter(|m: MapRecV| spec_matched_by_lib(m, lib))
}

/// The non-placeholder entries of the drained progress log.
pub open spec fn added_of(prog: Seq<MapRecV>) -> Seq<MapRecV> {
    prog.filter(|p: MapRecV| p.name.len() > 0)
}

/// The next mapping: retained entries, then the newly resolved ones,
/// sorted stably in the key order.
pub open spec fn reconcile_spec(
    prev: Seq<MapRecV>,
    lib: Seq<LibRecV>,
    prog: Seq<MapRecV>,
) -> Seq<MapRecV> {
    sort_spec(kept_of(prev, lib) + added_of(prog))
}

/// Merges the previous mapping, the current local collection and the
/// drained progress log into the next mapping: stale entries are dropped,
/// non-placeholder progress entries appended, and the whole sorted
/// ascending by `(artist, album, title)`.
pub fn reconcile(prev: Vec<MapRec>, lib: &Vec<LibRec>, prog: Vec<MapRec>) -> (r: Vec<MapRec>)
    ensures
        r@.map_values(|m: MapRec| m@) == reconcile_spec(
            prev@.map_values(|m: MapRec| m@),
            lib@.map_values(|l: LibRec| l@),
            prog@.map_values(|m: MapRec| m@),
        ),
        sorted_by_key(r@.map_values(|m: MapRec| m@)),
{
    let ghost pv = prev@.map_values(|m: MapRec| m@);
    let ghost lv = lib@.map_values(|l: LibRec| l@);
    let ghost gv = prog@.map_values(|m: MapRec| m@);
    let mut combined: Vec<MapRec> = Vec::new();
    proof {
        reveal(Seq::filter);
        assert(combined@.map_values(|m: MapRec| m@) =~= kept_of(pv.take(0), lv));
    }
    let mut i: usize = 0;
    while i < prev.len()
        invariant
            0 <= i <= prev@.len(),
            pv == prev@.map_values(|m: MapRec| m@),
            lv == lib@.map_values(|l: LibRec| l@),
            combined@.map_values(|m: MapRec| m@) == kept_of(pv.take(i as int), lv),
        decreases prev@.len() - i,
    {
        proof {
            reveal(Seq::filter);
            assert(pv.take(i as int + 1).drop_last() =~= pv.take(i as int));
            assert(pv.take(i as int + 1).last() == pv[i as int]);
        }
        if matched_by_lib(&prev[i], lib) {
            combined.push(prev[i].clone());
            proof {
                assert(combined@.map_values(|m: MapRec| m@) =~= kept_of(
                    pv.take(i as int),
                    lv,
                ).push(pv[i as int]));
            }
        }
        i += 1;
    }
    proof {
        assert(pv.take(prev@.len() as int) =~= pv);
    }
    let ghost kept = kept_of(pv, lv);
    let mut j: usize = 0;
    while j < prog.len()
        invariant
            0 <= j <= prog@.len(),
            gv == prog@.map_values(|m: MapRec| m@),
            kept == kept_of(pv, lv),
            combined@.map_values(|m: MapRec| m@) == kept + added_of(gv.take(j as int)),
        decreases prog@.len() - j,
    {
        proof {
            reveal(Seq::filter);
            assert(gv.take(j as int + 1).drop_last() =~= gv.take(j as int));
            assert(gv.take(j as int + 1).last() == gv[j as int]);
        }
        if !prog[j].name.as_str().is_empty() {
            combined.push(prog[j].clone());
            proof {
                assert(combined@.map_values(|m: MapRec| m@) =~= (kept + added_of(
                    gv.take(j as int),
                )).push(gv[j as int]));
                assert((kept + added_of(gv.take(j as int))).push(gv[j as int]) =~= kept
                    + added_of(gv.take(j as int)).push(gv[j as int]));
            }
        }
        j += 1;
    }
    proof {
        assert(gv.take(prog@.len() as int) =~= gv);
    }
    let r = sort_mapping(combined);
    proof {
        lemma_sort_sorted(kept_of(pv, lv) + added_of(gv));
    }
    r
}

proof fn lemma_filter_subset<A>(s: Seq<A>, pred: spec_fn(A) -> bool, y: A)
    requires
        s.filter(pred).contains(y),
    ensures
        s.contains(y),
    decreases s.len(),
{
    reveal(Seq::filter);
    if s.len() > 0 {
        let f = s.filter(pred);
        if pred(s.last()) {
            if y == s.last() {
                assert(s[s.len() - 1] == y);
            } else {
                let i = choose|i: int| 0 <= i < f.len() && f[i] == y;
                assert(s.drop_last().filter(pred)[i] == y || i == f.len() - 1);
                lemma_filter_subset(s.drop_last(), pred, y);
                let k = choose|k: int| 0 <= k < s.drop_last().len() && s.drop_last()[k] == y;
                assert(s[k] == y);
            }
        } else {
            lemma_filter_subset(s.drop_last(), pred, y);
            let k = choose|k: int| 0 <= k < s.drop_last().len() && s.drop_last()[k] == y;
            assert(s[k] == y);
        }
    }
}

proof fn lemma_filter_all_id<A>(s: Seq<A>, pred: spec_fn(A) -> bool)
    requires
        forall|i: int| 0 <= i < s.len() ==> pred(#[trigger] s[i]),
    ensures
        s.filter(pred) == s,
    decreases s.len(),
{
    reveal(Seq::filter);
    if s.len() > 0 {
        assert(forall|i: int| 0 <= i < s.drop_last().len() ==> pred(#[trigger] s.drop_last()[i]));
        lemma_filter_all_id(s.drop_last(), pred);
        assert(s.drop_last().push(s.last()) =~= s);
    }
}

/// Stale purge law: an entry of the previous mapping that matches no
/// current local record is absent from the next mapping, provided every
/// non-placeholder progress entry matches some local record (the match
/// engine only emits entries carrying a current record's identity).
pub proof fn lemma_stale_purged(
    prev: Seq<MapRecV>,
    lib: Seq<LibRecV>,
    prog: Seq<MapRecV>,
    e: MapRecV,
)
    requires
        !spec_matched_by_lib(e, lib),
        forall|k: int|
            0 <= k < prog.len() ==> (#[trigger] prog[k]).name.len() == 0 || spec_matched_by_lib(
                prog[k],
                lib,
            ),
    ensures
        !reconcile_spec(prev, lib, prog).contains(e),
{
    let kept = kept_of(prev, lib);
    let added = added_of(prog);
    lemma_sort_contains(kept + added, e);
    if (kept + added).contains(e) {
        let i = choose|i: int| 0 <= i < (kept + added).len() && (kept + added)[i] == e;
        if i < kept.len() {
            assert(kept[i] == e);
            assert(spec_matched_by_lib(e, lib));
        } else {
            assert(added[i - kept.len()] == e);
            assert(added.contains(e));
            lemma_filter_subset(prog, |p: MapRecV| p.name.len() > 0, e);
            assert(e.name.len() > 0);
            let k = choose|k: int| 0 <= k < prog.len() && prog[k] == e;
            assert(spec_matched_by_lib(e, lib));
        }
    }
}

/// Sentinel preservation (the persisted half): an entry of the previous
/// mapping whose record still exists locally — sentinel or not — is kept
/// in the next mapping.
pub proof fn lemma_matched_entry_kept(
    prev: Seq<MapRecV>,
    lib: Seq<LibRecV>,
    prog: Seq<MapRecV>,
    e: MapRecV,
)
    requires
        prev.contains(e),
        spec_matched_by_lib(e, lib),
    ensures
        reconcile_spec(prev, lib, prog).contains(e),
{
    let kept = kept_of(prev, lib);
    let added = added_of(prog);
    let i = choose|i: int| 0 <= i < prev.len() && prev[i] == e;
    assert(kept.contains(prev[i]));
    let k = choose|k: int| 0 <= k < kept.len() && kept[k] == e;
    assert((kept + added)[k] == e);
    lemma_sort_contains(kept + added, e);
}

/// Idempotence law: reconciling a second time, with the local collection
/// unchanged — so that the second run's progress log holds placeholders
/// only — reproduces the mapping of the first run exactly, and hence a
/// byte-identical mapping file.
pub proof fn lemma_reconcile_idempotent(
    prev: Seq<MapRecV>,
    lib: Seq<LibRecV>,
    prog: Seq<MapRecV>,
    prog2: Seq<MapRecV>,
)
    requires
        forall|k: int|
            0 <= k < prog.len() ==> (#[trigger] prog[k]).name.len() == 0 || spec_matched_by_lib(
                prog[k],
                lib,
            ),
        forall|k: int| 0 <= k < prog2.len() ==> (#[trigger] prog2[k]).name.len() == 0,
    ensures
        reconcile_spec(reconcile_spec(prev, lib, prog), lib, prog2) == reconcile_spec(
            prev,
            lib,
            prog,
        ),
{
    let m1 = reconcile_spec(prev, lib, prog);
    let kept = kept_of(prev, lib);
    let added = added_of(prog);
    // the second run adds nothing
    prog2.lemma_all_neg_filter_empty(|p: MapRecV| p.name.len() > 0);
    assert(added_of(prog2) =~= Seq::<MapRecV>::empty());
    // every entry of the first run's mapping still matches some record
    assert forall|i: int| 0 <= i < m1.len() implies spec_matched_by_lib(
        #[trigger] m1[i],
        lib,
    ) by {
        assert(m1.contains(m1[i]));
        lemma_sort_contains(kept + added, m1[i]);
        let j = choose|j: int| 0 <= j < (kept + added).len() && (kept + added)[j] == m1[i];
        if j < kept.len() {
            assert(kept[j] == m1[i]);
        } else {
            assert(added[j - kept.len()] == m1[i]);
            assert(added.contains(m1[i]));
            lemma_filter_subset(prog, |p: MapRecV| p.name.len() > 0, m1[i]);
            let k = choose|k: int| 0 <= k < prog.len() && prog[k] == m1[i];
            assert(m1[i].name.len() > 0);
        }
    }
    // so the purge keeps all of it
    lemma_filter_all_id(m1, |m: MapRecV| spec_matched_by_lib(m, lib));
    assert(kept_of(m1, lib) + added_of(prog2) =~= m1);
    // and the stable sort leaves the sorted result where it stands
    lemma_sort_sorted(kept + added);
    lemma_sort_of_sorted(m1);
}

} // verus!
