use tunesync::diff::RemoteOutcome;
use tunesync::diff::RetryDecision;
use tunesync::diff::chunked;
use tunesync::diff::compute_diff;
use tunesync::diff::is_noop;
use tunesync::diff::retry_decision;
use tunesync::diff::should_check;
use tunesync::diff::track_uri;
use tunesync::record::MapRec;
use tunesync::record::Tr;

fn mrec(name: &str, sp_id: &str) -> MapRec {
    MapRec {
        name: name.to_string(),
        album: "al".to_string(),
        artist: "ar".to_string(),
        sp_id: sp_id.to_string(),
    }
}

fn tr(name: &str, id: &str, pos: u32) -> Tr {
    Tr { name: name.to_string(), id: id.to_string(), pos }
}

#[test]
fn track_uri_wraps_id() {
    assert_eq!(track_uri("abc123"), "spotify:track:abc123");
}

#[test]
fn diff_removes_unwanted_and_adds_missing() {
    // remote holds {A, B}; the mapping resolves {B, C}
    let playlist = vec![tr("a", "A", 0), tr("b", "B", 1)];
    let map = vec![mrec("b", "B"), mrec("c", "C")];
    let d = compute_diff(&map, &playlist);
    assert_eq!(d.to_remove, vec!["spotify:track:A".to_string()]);
    assert_eq!(d.to_add, vec!["spotify:track:C".to_string()]);
    assert!(!is_noop(&d));
}

#[test]
fn diff_excludes_sentinel_from_additions() {
    let playlist = Vec::new();
    let map = vec![mrec("a", "Not found"), mrec("b", "B")];
    let d = compute_diff(&map, &playlist);
    assert_eq!(d.to_add, vec!["spotify:track:B".to_string()]);
    assert!(d.to_remove.is_empty());
}

#[test]
fn diff_noop_when_sets_agree() {
    let playlist = vec![tr("a", "A", 0), tr("b", "B", 1)];
    let map = vec![mrec("a", "A"), mrec("x", "Not found"), mrec("b", "B")];
    let d = compute_diff(&map, &playlist);
    assert!(d.to_remove.is_empty());
    assert!(d.to_add.is_empty());
    assert!(is_noop(&d));
}

#[test]
fn diff_orders_follow_inputs() {
    let playlist = vec![tr("z", "Z", 0), tr("y", "Y", 1), tr("x", "X", 2)];
    let map = vec![mrec("m1", "Q"), mrec("m2", "P")];
    let d = compute_diff(&map, &playlist);
    assert_eq!(
        d.to_remove,
        vec![
            "spotify:track:Z".to_string(),
            "spotify:track:Y".to_string(),
            "spotify:track:X".to_string()
        ]
    );
    assert_eq!(d.to_add, vec!["spotify:track:Q".to_string(), "spotify:track:P".to_string()]);
}

#[test]
fn chunked_splits_in_batches() {
    let items: Vec<String> = (0..250).map(|i| format!("u{i}")).collect();
    let chunks = chunked(&items, 100);
    assert_eq!(chunks.len(), 3);
    assert_eq!(chunks[0].len(), 100);
    assert_eq!(chunks[1].len(), 100);
    assert_eq!(chunks[2].len(), 50);
    assert_eq!(chunks[0][0], "u0");
    assert_eq!(chunks[1][0], "u100");
    assert_eq!(chunks[2][49], "u249");
}

#[test]
fn chunked_edges() {
    let empty: Vec<String> = Vec::new();
    assert!(chunked(&empty, 100).is_empty());
    let items: Vec<String> = (0..100).map(|i| format!("u{i}")).collect();
    let chunks = chunked(&items, 100);
    assert_eq!(chunks.len(), 1);
    assert_eq!(chunks[0].len(), 100);
}

#[test]
fn retry_only_on_rate_limit() {
    assert!(matches!(retry_decision(&RemoteOutcome::RateLimited), RetryDecision::RetryAfterBackoff));
    assert!(matches!(retry_decision(&RemoteOutcome::Done), RetryDecision::Proceed));
    assert!(matches!(retry_decision(&RemoteOutcome::Failed), RetryDecision::Proceed));
}

#[test]
fn sentinel_entries_are_not_checked() {
    assert!(!should_check(&mrec("a", "Not found")));
    assert!(should_check(&mrec("a", "B")));
}
