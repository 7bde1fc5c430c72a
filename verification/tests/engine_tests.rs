use tunesync::engine::Matcher;
use tunesync::matching::Prog;
use tunesync::progress::ProgressLog;
use tunesync::record::LibRec;
use tunesync::record::MapRec;

fn lrec(name: &str) -> LibRec {
    LibRec { name: name.to_string(), album: "al".to_string(), artist: "ar".to_string() }
}

fn mrec(name: &str, sp_id: &str) -> MapRec {
    MapRec {
        name: name.to_string(),
        album: "al".to_string(),
        artist: "ar".to_string(),
        sp_id: sp_id.to_string(),
    }
}

#[test]
fn progress_log_counts_commits() {
    let mut log = ProgressLog::new();
    assert_eq!(log.index(), 0);
    log.push_entry(mrec("a", "1"));
    assert_eq!(log.index(), 1);
    log.push_entry(mrec("", ""));
    assert_eq!(log.index(), 2);
    let recs = log.recs();
    assert_eq!(recs.len(), 2);
    assert_eq!(recs[0].name, "a");
    assert_eq!(recs[1].name, "");
}

#[test]
fn progress_log_push_rec_encodes_the_entry() {
    let mut log = ProgressLog::new();
    let line = log.push_rec(&Prog::NotFoundSearch(lrec("song")));
    assert_eq!(line, b"song,al,ar,Not found\n".to_vec());
    assert_eq!(log.index(), 1);
}

#[test]
fn resume_starts_at_committed_count() {
    let committed = vec![mrec("a", "1"), mrec("b", "2")];
    let log = ProgressLog::from_entries(committed);
    let lib = vec![lrec("a"), lrec("b"), lrec("c"), lrec("d")];
    let mut m = Matcher::resume(lib, Vec::new(), log);

    // the first record processed after the resume is index 2, never 0 or 1
    let mut seen = Vec::new();
    while let Some(i) = m.next_index() {
        seen.push(i);
        let name = m.lib[i].name.clone();
        m.commit(&Prog::NotFoundSearch(lrec(&name)));
    }
    assert_eq!(seen, vec![2, 3]);
    assert_eq!(m.log.index(), 4);
}

#[test]
fn fresh_run_processes_everything() {
    let lib = vec![lrec("a"), lrec("b")];
    let mut m = Matcher::resume(lib, Vec::new(), ProgressLog::new());
    let mut seen = Vec::new();
    while let Some(i) = m.next_index() {
        seen.push(i);
        m.commit(&Prog::MissingName);
    }
    assert_eq!(seen, vec![0, 1]);
}
