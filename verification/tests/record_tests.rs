use tunesync::record::LibRec;
use tunesync::record::MapRec;
use tunesync::record::Tr;
use tunesync::record::any_matches;
use tunesync::record::matched_by_lib;
use tunesync::record::not_found_id;

fn lrec(name: &str, album: &str, artist: &str) -> LibRec {
    LibRec { name: name.to_string(), album: album.to_string(), artist: artist.to_string() }
}

fn mrec(name: &str, album: &str, artist: &str, sp_id: &str) -> MapRec {
    MapRec {
        name: name.to_string(),
        album: album.to_string(),
        artist: artist.to_string(),
        sp_id: sp_id.to_string(),
    }
}

#[test]
fn sentinel_literal() {
    assert_eq!(not_found_id(), "Not found");
}

#[test]
fn natural_key_match_is_exact() {
    let l = lrec("Song", "Album", "Artist");
    assert!(mrec("Song", "Album", "Artist", "x").matches(&l));
    assert!(!mrec("song", "Album", "Artist", "x").matches(&l));
    assert!(!mrec("Song", "Album", "Other", "x").matches(&l));
    assert!(!mrec("Song", "Other", "Artist", "x").matches(&l));
}

#[test]
fn to_map_record_carries_the_identity() {
    let l = lrec("Song", "Album", "Artist");
    let m = l.to_map_record("id42");
    assert_eq!(m.name, "Song");
    assert_eq!(m.album, "Album");
    assert_eq!(m.artist, "Artist");
    assert_eq!(m.sp_id, "id42");
    assert!(m.matches(&l));
}

#[test]
fn membership_helpers() {
    let l = lrec("Song", "Album", "Artist");
    let map = vec![mrec("Other", "Album", "Artist", "x"), mrec("Song", "Album", "Artist", "y")];
    assert!(any_matches(&map, &l));
    assert!(!any_matches(&Vec::new(), &l));
    let lib = vec![lrec("A", "B", "C"), l];
    assert!(matched_by_lib(&map[1], &lib));
    assert!(!matched_by_lib(&mrec("none", "B", "C", "x"), &lib));
}

#[test]
fn display_string_lines() {
    let l = lrec("Song", "Album", "Artist");
    assert_eq!(l.display_string(), "Name: Song\nAlbum: Album\nArtist: Artist");
}

#[test]
fn tr_fields() {
    let t = Tr { name: "n".to_string(), id: "i".to_string(), pos: 7 };
    assert_eq!(t.pos, 7);
    assert_eq!(t.id, "i");
}
