use tunesync::matching::entry_of;
use tunesync::matching::pre_search;
use tunesync::record::LibRec;
use tunesync::record::MapRec;
use tunesync::reconcile::reconcile;
use tunesync::reconcile::sort_mapping;
use tunesync::store::encode_mapping;

fn lrec(name: &str, album: &str, artist: &str) -> LibRec {
    LibRec { name: name.to_string(), album: album.to_string(), artist: artist.to_string() }
}

fn mrec(name: &str, album: &str, artist: &str, sp_id: &str) -> MapRec {
    MapRec {
        name: name.to_string(),
        album: album.to_string(),
        artist: artist.to_string(),
        sp_id: sp_id.to_string(),
    }
}

fn keys(map: &[MapRec]) -> Vec<(String, String, String)> {
    map.iter().map(|m| (m.artist.clone(), m.album.clone(), m.name.clone())).collect()
}

#[test]
fn sort_orders_by_artist_album_title() {
    let rows = vec![
        mrec("b-title", "b-album", "z-artist", "1"),
        mrec("a-title", "x-album", "a-artist", "2"),
        mrec("z-title", "a-album", "a-artist", "3"),
        mrec("a-title", "a-album", "a-artist", "4"),
    ];
    let sorted = sort_mapping(rows);
    assert_eq!(
        keys(&sorted),
        vec![
            ("a-artist".to_string(), "a-album".to_string(), "a-title".to_string()),
            ("a-artist".to_string(), "a-album".to_string(), "z-title".to_string()),
            ("a-artist".to_string(), "x-album".to_string(), "a-title".to_string()),
            ("z-artist".to_string(), "b-album".to_string(), "b-title".to_string()),
        ]
    );
}

#[test]
fn sort_is_stable_on_equal_keys() {
    let rows = vec![
        mrec("t", "a", "a", "first"),
        mrec("t", "a", "a", "second"),
        mrec("t", "a", "a", "third"),
    ];
    let sorted = sort_mapping(rows);
    let ids: Vec<&str> = sorted.iter().map(|m| m.sp_id.as_str()).collect();
    assert_eq!(ids, vec!["first", "second", "third"]);
}

#[test]
fn sort_is_case_sensitive_on_stored_values() {
    // uppercase letters order before lowercase ones by code point
    let rows = vec![mrec("t", "a", "apple", "1"), mrec("t", "a", "Banana", "2")];
    let sorted = sort_mapping(rows);
    let artists: Vec<&str> = sorted.iter().map(|m| m.artist.as_str()).collect();
    assert_eq!(artists, vec!["Banana", "apple"]);
}

#[test]
fn stale_entries_are_purged() {
    // three previous entries; only two still have a local record
    let prev = vec![
        mrec("gone", "al", "ar", "id-gone"),
        mrec("kept", "al", "ar", "id-kept"),
        mrec("still", "al", "ar", "Not found"),
    ];
    let lib = vec![lrec("kept", "al", "ar"), lrec("still", "al", "ar")];
    let next = reconcile(prev, &lib, Vec::new());
    assert_eq!(next.len(), 2);
    assert!(next.iter().all(|m| m.name != "gone"));
    // the sentinel entry persists while its record exists
    assert!(next.iter().any(|m| m.name == "still" && m.sp_id == "Not found"));
}

#[test]
fn reconcile_appends_resolved_and_drops_placeholders() {
    let prev = vec![mrec("old", "al", "ar", "id-old")];
    let lib = vec![lrec("old", "al", "ar"), lrec("new", "al", "ar")];
    let prog = vec![mrec("", "", "", ""), mrec("new", "al", "ar", "id-new")];
    let next = reconcile(prev, &lib, prog);
    assert_eq!(next.len(), 2);
    assert_eq!(next[0].name, "new");
    assert_eq!(next[0].sp_id, "id-new");
    assert_eq!(next[1].name, "old");
}

#[test]
fn reconciling_twice_is_byte_identical() {
    let prev = vec![
        mrec("b", "al", "ar", "id-b"),
        mrec("stale", "al", "ar", "id-stale"),
    ];
    let lib = vec![lrec("b", "al", "ar"), lrec("a", "al", "ar"), lrec("", "al", "ar")];
    let prog = vec![
        mrec("", "", "", ""),
        mrec("a", "al", "ar", "Not found"),
        mrec("", "", "", ""),
    ];
    let first = reconcile(prev, &lib, prog);
    let bytes_first = encode_mapping(&first);

    // a second run over an unchanged collection: every record is blank-titled
    // or already present, so the engine searches nothing and the progress
    // log holds placeholders only
    let prog2: Vec<MapRec> = lib
        .iter()
        .map(|r| {
            let case = pre_search(r, &first).expect("the second run should not search");
            entry_of(&case)
        })
        .collect();
    assert!(prog2.iter().all(|p| p.name.is_empty()));
    let first_copy: Vec<MapRec> = first
        .iter()
        .map(|m| mrec(&m.name, &m.album, &m.artist, &m.sp_id))
        .collect();
    let second = reconcile(first_copy, &lib, prog2);
    let bytes_second = encode_mapping(&second);
    assert_eq!(bytes_first, bytes_second);
}
