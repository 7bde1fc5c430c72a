use tunesync::record::MapRec;
use tunesync::store::StoreError;
use tunesync::store::encode_mapping;
use tunesync::store::encode_record_line;
use tunesync::store::parse_library;
use tunesync::store::parse_mapping;
use tunesync::store::parse_progress;
use tunesync::store::progress_file_name;
use tunesync::store::temp_map_file_name;

fn mrec(name: &str, album: &str, artist: &str, sp_id: &str) -> MapRec {
    MapRec {
        name: name.to_string(),
        album: album.to_string(),
        artist: artist.to_string(),
        sp_id: sp_id.to_string(),
    }
}

#[test]
fn encode_line_plain() {
    let line = encode_record_line(&mrec("a", "b", "c", "d"));
    assert_eq!(line, b"a,b,c,d\n".to_vec());
}

#[test]
fn encode_line_escapes_fields() {
    let line = encode_record_line(&mrec("x,y", "b", "c", "d"));
    assert_eq!(line, b"\"x,y\",b,c,d\n".to_vec());
}

#[test]
fn encode_mapping_bytes() {
    let rows = vec![mrec("a", "b", "c", "d"), mrec("e", "f", "g", "Not found")];
    let bytes = encode_mapping(&rows);
    assert_eq!(bytes, b"name,album,artist,sp_id\na,b,c,d\ne,f,g,Not found\n".to_vec());
}

#[test]
fn encode_mapping_empty() {
    let bytes = encode_mapping(&Vec::new());
    assert_eq!(bytes, b"name,album,artist,sp_id\n".to_vec());
}

#[test]
fn mapping_round_trip() {
    let rows = vec![mrec("a a", "b,b", "c\"c", "d"), mrec("e", "f", "g", "h")];
    let bytes = encode_mapping(&rows);
    let back = parse_mapping(&bytes).unwrap();
    assert_eq!(back.len(), 2);
    assert_eq!(back[0].name, "a a");
    assert_eq!(back[0].album, "b,b");
    assert_eq!(back[0].artist, "c\"c");
    assert_eq!(back[0].sp_id, "d");
    assert_eq!(back[1].sp_id, "h");
}

#[test]
fn parse_mapping_empty_file() {
    let recs = parse_mapping(b"").unwrap();
    assert!(recs.is_empty());
}

#[test]
fn parse_mapping_header_only() {
    let recs = parse_mapping(b"name,album,artist,sp_id\n").unwrap();
    assert!(recs.is_empty());
}

#[test]
fn parse_mapping_wrong_field_count() {
    let r = parse_mapping(b"name,album,artist,sp_id\na,b,c\n");
    assert!(matches!(r, Err(StoreError::FieldCount)));
}

#[test]
fn parse_progress_has_no_header() {
    let recs = parse_progress(b"a,b,c,d\n,,,\n").unwrap();
    assert_eq!(recs.len(), 2);
    assert_eq!(recs[0].name, "a");
    assert_eq!(recs[1].name, "");
    assert_eq!(recs[1].sp_id, "");
}

#[test]
fn parse_progress_rejects_malformed_bytes() {
    let bytes = vec![0xff, 0xfe, b'a', b',', b'b', b',', b'c', b',', b'd', b'\n'];
    let r = parse_progress(&bytes);
    assert!(matches!(r, Err(StoreError::Parse)));
}

#[test]
fn parse_library_reads_three_fields() {
    let recs = parse_library(b"name,album,artist\nSong,Album,Artist\n").unwrap();
    assert_eq!(recs.len(), 1);
    assert_eq!(recs[0].name, "Song");
    assert_eq!(recs[0].album, "Album");
    assert_eq!(recs[0].artist, "Artist");
}

#[test]
fn parse_library_wrong_field_count() {
    let r = parse_library(b"name,album,artist\na,b,c,d\n");
    assert!(matches!(r, Err(StoreError::FieldCount)));
}

#[test]
fn derived_file_names() {
    assert_eq!(progress_file_name("lib.csv"), "lib.csv_progress.bak");
    assert_eq!(temp_map_file_name("map.csv"), "map.csv.tmp");
}
