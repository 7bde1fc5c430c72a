use tunesync::record::Candidate;
use tunesync::record::LibRec;
use tunesync::search::SearchEvent;
use tunesync::search::SearchState;
use tunesync::search::search_str;
use tunesync::text::plus_join;

fn rec(name: &str, album: &str, artist: &str) -> LibRec {
    LibRec { name: name.to_string(), album: album.to_string(), artist: artist.to_string() }
}

fn cand(id: &str) -> Candidate {
    Candidate {
        name: format!("candidate {id}"),
        album: "album".to_string(),
        artists: vec!["artist".to_string()],
        id: id.to_string(),
    }
}

#[test]
fn plus_join_replaces_spaces() {
    assert_eq!(plus_join("a b c"), "a+b+c");
    assert_eq!(plus_join(""), "");
    assert_eq!(plus_join("  "), "++");
    assert_eq!(plus_join("nospace"), "nospace");
}

#[test]
fn search_str_all_fields() {
    assert_eq!(
        search_str("", "Song Name", "An Album", "The Artist"),
        "track:Song+Name album:An+Album artist:The+Artist"
    );
}

#[test]
fn search_str_free_text_only() {
    assert_eq!(search_str("free text", "", "", ""), "free+text");
}

#[test]
fn search_str_mixed_fields() {
    assert_eq!(search_str("q", "t", "", "a"), "q track:t artist:a");
}

#[test]
fn search_str_all_blank() {
    assert_eq!(search_str("", "", "", ""), "");
    assert_eq!(search_str("  ", " ", "", ""), "");
}

#[test]
fn search_str_keeps_untrimmed_value() {
    assert_eq!(search_str("", " x ", "", ""), "track:+x+");
}

#[test]
fn lib_rec_tier0_query() {
    let r = rec("Song", "Album", "Artist");
    assert_eq!(r.search_str(), "track:Song album:Album artist:Artist");
}

#[test]
fn escalation_queries_by_tier() {
    let r = rec("Song One", "Album", "Artist");
    let mut st = SearchState::new();
    let q0 = st.next_query(&r).unwrap();
    assert_eq!(q0, "track:Song+One album:Album artist:Artist");
    st.on_event(SearchEvent::Results(Vec::new()));
    let q1 = st.next_query(&r).unwrap();
    assert_eq!(q1, "Song+One album:Album");
    st.on_event(SearchEvent::Results(Vec::new()));
    let q2 = st.next_query(&r).unwrap();
    assert_eq!(q2, "Song+One+Artist");
    st.on_event(SearchEvent::Results(Vec::new()));
    assert!(st.next_query(&r).is_none());
    assert!(st.finish().is_empty());
}

#[test]
fn escalation_two_tiers_truncates_to_five() {
    let r = rec("Song", "Album", "Artist");
    let mut st = SearchState::new();
    assert!(st.next_query(&r).is_some());
    st.on_event(SearchEvent::Results(Vec::new()));
    assert!(st.next_query(&r).is_some());
    let six: Vec<Candidate> = (0..6).map(|i| cand(&format!("id{i}"))).collect();
    st.on_event(SearchEvent::Results(six));
    assert!(st.next_query(&r).is_none());
    let out = st.finish();
    assert_eq!(out.len(), 5);
    let ids: Vec<&str> = out.iter().map(|c| c.id.as_str()).collect();
    assert_eq!(ids, vec!["id0", "id1", "id2", "id3", "id4"]);
}

#[test]
fn escalation_stops_once_five_accumulated() {
    let r = rec("Song", "Album", "Artist");
    let mut st = SearchState::new();
    let five: Vec<Candidate> = (0..5).map(|i| cand(&format!("id{i}"))).collect();
    st.on_event(SearchEvent::Results(five));
    assert!(st.next_query(&r).is_none());
    assert_eq!(st.finish().len(), 5);
}

#[test]
fn rate_limited_retries_same_tier() {
    let r = rec("Song", "Album", "Artist");
    let mut st = SearchState::new();
    let q0 = st.next_query(&r).unwrap();
    st.on_event(SearchEvent::RateLimited);
    let q0_again = st.next_query(&r).unwrap();
    assert_eq!(q0, q0_again);
    assert!(st.finish().is_empty());
}
