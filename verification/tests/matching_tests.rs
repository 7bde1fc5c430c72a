use tunesync::matching::Pick;
use tunesync::matching::Prog;
use tunesync::matching::Resolve;
use tunesync::matching::auto_match;
use tunesync::matching::entry_of;
use tunesync::matching::parse_index;
use tunesync::matching::parse_pick;
use tunesync::matching::pre_search;
use tunesync::matching::resolve_results;
use tunesync::record::Candidate;
use tunesync::record::LibRec;
use tunesync::record::MapRec;

fn rec(name: &str, album: &str, artist: &str) -> LibRec {
    LibRec { name: name.to_string(), album: album.to_string(), artist: artist.to_string() }
}

fn cand(name: &str, album: &str, artists: &[&str], id: &str) -> Candidate {
    Candidate {
        name: name.to_string(),
        album: album.to_string(),
        artists: artists.iter().map(|a| a.to_string()).collect(),
        id: id.to_string(),
    }
}

#[test]
fn matches_track_normalizes_case_and_whitespace() {
    let r = rec(" Song ", "ALBUM", "the artist");
    let c = cand("song", " album ", &["Nobody", "The Artist"], "x1");
    assert!(r.matches_track(&c));
}

#[test]
fn matches_track_needs_all_three() {
    let r = rec("Song", "Album", "Artist");
    assert!(!r.matches_track(&cand("Other", "Album", &["Artist"], "x")));
    assert!(!r.matches_track(&cand("Song", "Other", &["Artist"], "x")));
    assert!(!r.matches_track(&cand("Song", "Album", &["Other"], "x")));
    assert!(!r.matches_track(&cand("Song", "Album", &[], "x")));
}

#[test]
fn auto_match_takes_first_match() {
    let r = rec("Song", "Album", "Artist");
    let results = vec![
        cand("Song", "Album", &["Other"], "a"),
        cand("Song", "Album", &["Artist"], "b"),
        cand("Song", "Album", &["Artist"], "c"),
    ];
    assert_eq!(auto_match(&r, &results), Some(1));
    assert_eq!(auto_match(&r, &Vec::new()), None);
}

#[test]
fn parse_index_accepts_digits_only() {
    assert_eq!(parse_index("0"), Some(0));
    assert_eq!(parse_index("42"), Some(42));
    assert_eq!(parse_index("007"), Some(7));
    assert_eq!(parse_index(""), None);
    assert_eq!(parse_index("4a"), None);
    assert_eq!(parse_index("-3"), None);
    assert_eq!(parse_index("+3"), None);
    assert_eq!(parse_index(" 3"), None);
}

#[test]
fn parse_index_rejects_overflow() {
    assert_eq!(parse_index("99999999999999999999999999"), None);
}

#[test]
fn parse_pick_cases() {
    assert!(matches!(parse_pick(&"n".to_string(), 5), Some(Pick::Reject)));
    assert!(matches!(parse_pick(&"s".to_string(), 5), Some(Pick::Manual)));
    assert!(matches!(parse_pick(&"1".to_string(), 5), Some(Pick::Index(1))));
    assert!(matches!(parse_pick(&"5".to_string(), 5), Some(Pick::Index(5))));
    assert!(parse_pick(&"0".to_string(), 5).is_none());
    assert!(parse_pick(&"6".to_string(), 5).is_none());
    assert!(parse_pick(&"x".to_string(), 5).is_none());
    assert!(parse_pick(&"".to_string(), 5).is_none());
    assert!(parse_pick(&"1".to_string(), 0).is_none());
}

#[test]
fn entry_of_each_outcome() {
    let r = rec("Song", "Album", "Artist");
    let chosen = r.to_map_record("id9");

    let e = entry_of(&Prog::AutomaticallyChosenSearch(chosen.clone()));
    assert_eq!((e.name.as_str(), e.sp_id.as_str()), ("Song", "id9"));

    let e = entry_of(&Prog::ChosenSearch(chosen));
    assert_eq!((e.name.as_str(), e.sp_id.as_str()), ("Song", "id9"));

    let e = entry_of(&Prog::RejectedSearch(r.clone()));
    assert_eq!((e.name.as_str(), e.sp_id.as_str()), ("Song", "Not found"));

    let e = entry_of(&Prog::NotFoundSearch(r.clone()));
    assert_eq!((e.name.as_str(), e.sp_id.as_str()), ("Song", "Not found"));

    let e = entry_of(&Prog::PresentInMap(r));
    assert_eq!((e.name.as_str(), e.sp_id.as_str()), ("", ""));

    let e = entry_of(&Prog::MissingName);
    assert_eq!((e.name.as_str(), e.sp_id.as_str()), ("", ""));
}

#[test]
fn pre_search_skips_blank_title() {
    let r = rec("   ", "Album", "Artist");
    assert!(matches!(pre_search(&r, &Vec::new()), Some(Prog::MissingName)));
}

#[test]
fn pre_search_reports_already_present() {
    let r = rec("Song", "Album", "Artist");
    let prev = vec![MapRec {
        name: "Song".to_string(),
        album: "Album".to_string(),
        artist: "Artist".to_string(),
        sp_id: "id1".to_string(),
    }];
    assert!(matches!(pre_search(&r, &prev), Some(Prog::PresentInMap(_))));
    assert!(pre_search(&r, &Vec::new()).is_none());
}

#[test]
fn resolve_results_cases() {
    let r = rec("Song", "Album", "Artist");
    // empty results: a search miss
    match resolve_results(&r, &Vec::new()) {
        Resolve::Decided(Prog::NotFoundSearch(l)) => assert_eq!(l.name, "Song"),
        _ => panic!("expected a search miss"),
    }
    // an auto-accepted candidate
    let results = vec![
        cand("Song", "Album", &["Other"], "a"),
        cand("Song", "Album", &["Artist"], "b"),
    ];
    match resolve_results(&r, &results) {
        Resolve::Decided(Prog::AutomaticallyChosenSearch(m)) => {
            assert_eq!(m.sp_id, "b");
            assert_eq!(m.name, "Song");
        },
        _ => panic!("expected an automatic choice"),
    }
    // candidates but no heuristic match: a human decision
    let results = vec![cand("Song", "Album", &["Other"], "a")];
    assert!(matches!(resolve_results(&r, &results), Resolve::NeedsChoice));
}
