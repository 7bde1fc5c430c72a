//! Reading the remote ordered collection: the paging schedule and the
//! conversion of fetched page items into playlist snapshot entries.

use vstd::prelude::*;
use vstd::string::StringExecFns;

use crate::record::Tr;
use crate::record::TrV;

verus! {

/// How many items one page request asks for.
pub const PAGE_LIMIT: u32 = 50;

/// The page offsets needed to cover `total` items: 0, 50, 100, ... below
/// `total`.
pub open spec fn spec_page_offsets_from(off: int, total: int) -> Seq<u32>
    decreases total - off,
{
    if off >= total || total > u32::MAX {
        Seq::<u32>::empty()
    } else {
        let next = if off + PAGE_LIMIT as int <= total {
            off + PAGE_LIMIT as int
        } else {
            total
        };
        seq![off as u32] + spec_page_offsets_from(next, total)
    }
}

/// The full paging schedule for a collection of `total` items.
pub open spec fn spec_page_offsets(total: u32) -> Seq<u32> {
    spec_page_offsets_from(0, total as int)
}

/// Computes the offsets of every page request needed to read the whole
/// collection.
pub fn page_offsets(total: u32) -> (r: Vec<u32>)
    ensures
        r@ == spec_page_offsets(total),
{
    let mut offs: Vec<u32> = Vec::new();
    let mut off: u64 = 0;
    let t = total as u64;
    proof {
        assert(offs@ + spec_page_offsets_from(0, total as int) =~= spec_page_offsets(total));
    }
    while off < t
        invariant
            t == total as int,
            0 <= off <= t + PAGE_LIMIT as int,
            offs@ + spec_page_offsets_from(off as int, total as int) == spec_page_offsets(total),
        decreases t + PAGE_LIMIT as int - off,
    {
        offs.push(off as u32);
        proof {
            let ghost next = if off as int + PAGE_LIMIT as int <= total as int {
                off as int + PAGE_LIMIT as int
            } else {
                total as int
            };
            assert(spec_page_offsets_from(off as int, total as int) == seq![off as u32]
                + spec_page_offsets_from(next, total as int));
            if off as int + PAGE_LIMIT as int > total as int {
                assert(spec_page_offsets_from(next, total as int) =~= Seq::<u32>::empty());
                assert(spec_page_offsets_from(
                    off as int + PAGE_LIMIT as int,
                    total as int,
                ) =~= Seq::<u32>::empty());
            }
            assert(offs@ + spec_page_offsets_from(off as int + PAGE_LIMIT as int, total as int)
                =~= spec_page_offsets(total));
        }
        off = off + PAGE_LIMIT as u64;
    }
    offs
}

/// One fetched element of the remote ordered collection, as the snapshot
/// reads it: a track with its name and identifier, or an item of an
/// unsupported kind.
pub enum PlaylistEntry {
    Track { name: String, id: String },
    /// A non-track item; it is tagged with a sentinel identifier rather
    /// than failing the read.
    Other,
}

/// Mathematical view of a fetched page item.
pub ghost enum PlaylistEntryV {
    Track { name: Seq<char>, id: Seq<char> },
    Other,
}

impl View for PlaylistEntry {
    type V = PlaylistEntryV;

    open spec fn view(&self) -> PlaylistEntryV {
        match self {
            PlaylistEntry::Track { name, id } => PlaylistEntryV::Track { name: name@, id: id@ },
            PlaylistEntry::Other => PlaylistEntryV::Other,
        }
    }
}

/// The snapshot row of one page item at position `pos`: an unsupported
/// item keeps its place under the sentinel identifier `"episode"`.
pub open spec fn spec_tr_of(e: PlaylistEntryV, pos: u32) -> TrV {
    match e {
        PlaylistEntryV::Track { name, id } => TrV { name, id, pos },
        PlaylistEntryV::Other => TrV { name: Seq::<char>::empty(), id: "episode"@, pos },
    }
}

/// Appends one fetched page to the snapshot, numbering each item by the
/// page offset plus its index within the page.
pub fn append_page(out: &mut Vec<Tr>, items: Vec<PlaylistEntry>, offset: u32)
    requires
        offset + items@.len() <= u32::MAX,
    ensures
        final(out)@.len() == old(out)@.len() + items@.len(),
        forall|k: int| 0 <= k < old(out)@.len() ==> final(out)@[k] == old(out)@[k],
        forall|k: int|
            0 <= k < items@.len() ==> (#[trigger] final(out)@[old(out)@.len() + k])@ == spec_tr_of(
                items@[k]@,
                (offset + k) as u32,
            ),
{
    let ghost base = out@.len() as int;
    let n = items.len();
    let mut i: usize = 0;
    while i < n
        invariant
            0 <= i <= n,
            n == items@.len(),
            offset + n <= u32::MAX,
            base == old(out)@.len(),
            out@.len() == base + i,
            forall|k: int| 0 <= k < base ==> out@[k] == old(out)@[k],
            forall|k: int|
                0 <= k < i ==> (#[trigger] out@[base + k])@ == spec_tr_of(
                    items@[k]@,
                    (offset + k) as u32,
                ),
        decreases n - i,
    {
        let pos = offset + (i as u32);
        let tr = match &items[i] {
            PlaylistEntry::Track { name, id } => Tr { name: name.clone(), id: id.clone(), pos },
            PlaylistEntry::Other => Tr {
                name: String::new(),
                id: String::from_str("episode"),
                pos,
            },
        };
        proof {
            assert(tr@ == spec_tr_of(items@[i as int]@, (offset + i) as u32));
        }
        out.push(tr);
        i += 1;
    }
}

} // verus!
