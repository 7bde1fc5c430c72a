//! The data model: local records, mapping entries, and remote playlist items.

use vstd::prelude::*;
use vstd::string::StringExecFns;

verus! {

/// One item of the local collection, identified by its title, album and
/// artist. Immutable once read from the record store.
pub struct LibRec {
    pub name: String,
    pub album: String,
    pub artist: String,
}

/// Mathematical view of a local record: the identity triple as character
/// sequences.
pub ghost struct LibRecV {
    pub name: Seq<char>,
    pub album: Seq<char>,
    pub artist: Seq<char>,
}

impl View for LibRec {
    type V = LibRecV;

    open spec fn view(&self) -> LibRecV {
        LibRecV { name: self.name@, album: self.album@, artist: self.artist@ }
    }
}

/// One entry of the durable mapping: a local identity triple together with
/// the remote identifier it resolved to, or the sentinel `"Not found"`.
pub struct MapRec {
    pub name: String,
    pub album: String,
    pub artist: String,
    pub sp_id: String,
}

/// Mathematical view of a mapping entry.
pub ghost struct MapRecV {
    pub name: Seq<char>,
    pub album: Seq<char>,
    pub artist: Seq<char>,
    pub sp_id: Seq<char>,
}

impl View for MapRec {
    type V = MapRecV;

    open spec fn view(&self) -> MapRecV {
        MapRecV {
            name: self.name@,
            album: self.album@,
            artist: self.artist@,
            sp_id: self.sp_id@,
        }
    }
}

/// One element of the remote ordered collection at sync time.
pub struct Tr {
    pub name: String,
    pub id: String,
    pub pos: u32,
}

/// Mathematical view of a remote playlist item.
pub ghost struct TrV {
    pub name: Seq<char>,
    pub id: Seq<char>,
    pub pos: u32,
}

impl View for Tr {
    type V = TrV;

    open spec fn view(&self) -> TrV {
        TrV { name: self.name@, id: self.id@, pos: self.pos }
    }
}

/// One search candidate returned by the remote catalog: the fields of a
/// remote track that matching reads.
pub struct Candidate {
    pub name: String,
    pub album: String,
    pub artists: Vec<String>,
    pub id: String,
}

/// Mathematical view of a search candidate.
pub ghost struct CandidateV {
    pub name: Seq<char>,
    pub album: Seq<char>,
    pub artists: Seq<Seq<char>>,
    pub id: Seq<char>,
}

impl View for Candidate {
    type V = CandidateV;

    open spec fn view(&self) -> CandidateV {
        CandidateV {
            name: self.name@,
            album: self.album@,
            artists: self.artists@.map_values(|a: String| a@),
            id: self.id@,
        }
    }
}

/// The identifier sentinel recording that no remote equivalent exists.
pub open spec fn sentinel() -> Seq<char> {
    "Not found"@
}

/// Builds the sentinel identifier as a runtime string.
pub fn not_found_id() -> (r: String)
    ensures
        r@ == sentinel(),
{
    String::from_str("Not found")
}

impl MapRecV {
    /// A mapping entry matches a local record iff all three identity fields
    /// compare equal (case-sensitive, on the stored values).
    pub open spec fn matches(self, lib_r: LibRecV) -> bool {
        self.name == lib_r.name && self.album == lib_r.album && self.artist == lib_r.artist
    }
}

impl MapRec {
    /// Natural-key match against a local record.
    pub fn matches(&self, lib_r: &LibRec) -> (r: bool)
        ensures
            r == self@.matches(lib_r@),
    {
        self.name == lib_r.name && self.album == lib_r.album && self.artist == lib_r.artist
    }
}

impl Clone for LibRec {
    /// A clone keeps the identity triple.
    fn clone(&self) -> (r: Self)
        ensures
            r@ == self@,
    {
        LibRec { name: self.name.clone(), album: self.album.clone(), artist: self.artist.clone() }
    }
}

impl Clone for MapRec {
    /// A clone keeps all four fields.
    fn clone(&self) -> (r: Self)
        ensures
            r@ == self@,
    {
        MapRec {
            name: self.name.clone(),
            album: self.album.clone(),
            artist: self.artist.clone(),
            sp_id: self.sp_id.clone(),
        }
    }
}

impl LibRec {
    /// Pairs this record's identity with a resolved remote identifier.
    pub fn to_map_record(&self, sp_id: &str) -> (r: MapRec)
        ensures
            r@.name == self@.name,
            r@.album == self@.album,
            r@.artist == self@.artist,
            r@.sp_id == sp_id@,
    {
        MapRec {
            name: self.name.clone(),
            album: self.album.clone(),
            artist: self.artist.clone(),
            sp_id: sp_id.to_owned(),
        }
    }

    /// The lines shown for this record when it is put to the operator.
    pub fn display_string(&self) -> (r: String)
        ensures
            r@ == "Name: "@ + self@.name + "\nAlbum: "@ + self@.album + "\nArtist: "@
                + self@.artist,
    {
        let mut s = String::from_str("Name: ");
        s.append(self.name.as_str());
        s.append("\nAlbum: ");
        s.append(self.album.as_str());
        s.append("\nArtist: ");
        s.append(self.artist.as_str());
        proof {
            assert(s@ =~= "Name: "@ + self@.name + "\nAlbum: "@ + self@.album + "\nArtist: "@
                + self@.artist);
        }
        s
    }
}

/// True iff some entry of `m` matches `lib_r`.
pub open spec fn spec_matches_some(m: Seq<MapRecV>, lib_r: LibRecV) -> bool {
    exists|i: int| 0 <= i < m.len() && m[i].matches(lib_r)
}

/// True iff `m` matches some record of `lib`.
pub open spec fn spec_matched_by_lib(m: MapRecV, lib: Seq<LibRecV>) -> bool {
    exists|i: int| 0 <= i < lib.len() && m.matches(lib[i])
}

/// True iff some entry of the mapping `map` matches the local record
/// `lib_r`; the already-satisfied rule of the match engine.
pub fn any_matches(map: &Vec<MapRec>, lib_r: &LibRec) -> (r: bool)
    ensures
        r == spec_matches_some(map@.map_values(|m: MapRec| m@), lib_r@),
{
    let ghost mv = map@.map_values(|m: MapRec| m@);
    let mut i: usize = 0;
    while i < map.len()
        invariant
            0 <= i <= map.len(),
            mv == map@.map_values(|m: MapRec| m@),
            forall|j: int| 0 <= j < i ==> !mv[j].matches(lib_r@),
        decreases map.len() - i,
    {
        if map[i].matches(lib_r) {
            assert(mv[i as int].matches(lib_r@));
            return true;
        }
        i += 1;
    }
    false
}

/// True iff some record of `lib` is matched by the mapping entry `m`; the
/// retention test of reconciliation.
pub fn matched_by_lib(m: &MapRec, lib: &Vec<LibRec>) -> (r: bool)
    ensures
        r == spec_matched_by_lib(m@, lib@.map_values(|l: LibRec| l@)),
{
    let ghost lv = lib@.map_values(|l: LibRec| l@);
    let mut i: usize = 0;
    while i < lib.len()
        invariant
            0 <= i <= lib.len(),
            lv == lib@.map_values(|l: LibRec| l@),
            forall|j: int| 0 <= j < i ==> !m@.matches(lv[j]),
        decreases lib.len() - i,
    {
        if m.matches(&lib[i]) {
            assert(m@.matches(lv[i as int]));
            return true;
        }
        i += 1;
    }
    false
}

} // verus!
