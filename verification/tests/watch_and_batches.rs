use maddo::download::{
    batch_bounds, file_outcome, first_result_bytes, tally, BrowserFetchError, FetchResult, FileOutcome,
};
use maddo::filters::{announcement_lines, download_run_failed};
use maddo::watch::WatchState;
use maddo::{AttachmentInfo, Pengumuman, Reply};

fn reply(id2: &str) -> Reply {
    Reply {
        pengumuman: Pengumuman {
            id2: id2.to_string(),
            no_pengumuman: "001/X/2026".to_string(),
            tanggal: "2026-09-01T18:02:45".to_string(),
            judul: "Judul".to_string(),
            jenis: "STOCK".to_string(),
            kode_emiten: "BBCA  ".to_string(),
        },
        attachments: vec![AttachmentInfo {
            filename: "a.pdf".to_string(),
            url: "https://www.idx.co.id/StaticData/a.pdf".to_string(),
            is_supporting: false,
        }],
    }
}

#[test]
fn watch_first_poll_is_a_baseline_and_later_polls_report_new_ones_oldest_first() {
    let mut w = WatchState::new();
    let first = vec![reply("b"), reply("a")];
    assert!(w.poll(&first).is_empty());
    assert!(w.has_seen("a") && w.has_seen("b"));
    assert_eq!(w.seen_count(), 2);

    // newest first: d is newer than c
    let second = vec![reply("d"), reply("c"), reply("b"), reply("a")];
    assert_eq!(w.poll(&second), vec![1, 0]);
    assert_eq!(w.seen_count(), 4);

    // nothing is reported twice
    assert!(w.poll(&second).is_empty());
    assert_eq!(w.seen_count(), 4);
}

#[test]
fn watch_resets_a_large_memory_only_when_nothing_is_new() {
    let mut w = WatchState::new();
    let many: Vec<Reply> = (0..5001).map(|i| reply(&format!("id{i}"))).collect();
    assert!(w.poll(&many).is_empty());
    assert_eq!(w.seen_count(), 5001);
    let window = vec![reply("id7"), reply("id3")];
    assert!(w.poll(&window).is_empty());
    assert_eq!(w.seen_count(), 2);
    assert!(w.has_seen("id7") && !w.has_seen("id8"));
}

#[test]
fn batch_bounds_cut_runs_of_concurrency_with_a_minimum_of_one() {
    assert_eq!(batch_bounds(7, 3), vec![(0, 3), (3, 6), (6, 7)]);
    assert_eq!(batch_bounds(2, 0), vec![(0, 1), (1, 2)]);
    assert_eq!(batch_bounds(0, 5), vec![]);
    assert_eq!(batch_bounds(2, 5), vec![(0, 2)]);
}

#[test]
fn tally_counts_successes_and_failures() {
    assert_eq!(tally(&[true, false, true]), (2, 1));
    assert_eq!(tally(&[]), (0, 0));
    assert!(download_run_failed(0, 2));
    assert!(!download_run_failed(1, 2));
    assert!(!download_run_failed(0, 0));
}

fn result(url: &str, base64: Option<&str>, error: Option<&str>) -> FetchResult {
    FetchResult {
        url: url.to_string(),
        base64: base64.map(|s| s.to_string()),
        error: error.map(|s| s.to_string()),
    }
}

#[test]
fn file_outcome_reads_the_first_answer_for_the_url() {
    let results = vec![
        result("u1", Some("UERG"), None),
        result("u2", None, Some("HTTP 404")),
        result("u3", None, None),
        result("u1", Some("eHg="), None),
        result("u4", Some("not base64!"), None),
    ];
    match file_outcome(&results, "u1").unwrap() {
        FileOutcome::Saved(bytes) => assert_eq!(bytes, b"PDF".to_vec()),
        other => panic!("unexpected {other:?}"),
    }
    match file_outcome(&results, "u2").unwrap() {
        FileOutcome::Failed(m) => assert_eq!(m, "HTTP 404"),
        other => panic!("unexpected {other:?}"),
    }
    assert!(matches!(file_outcome(&results, "u3").unwrap(), FileOutcome::Empty));
    assert!(matches!(file_outcome(&results, "nope").unwrap(), FileOutcome::NoResult));
    assert!(matches!(file_outcome(&results, "u4"), Err(BrowserFetchError::BadPayload)));
}

#[test]
fn first_result_bytes_decodes_the_first_answer() {
    assert_eq!(first_result_bytes(&[result("x", Some("JVBERg=="), None)]).unwrap(), b"%PDF".to_vec());
    assert!(matches!(first_result_bytes(&[]), Err(BrowserFetchError::NoResult)));
    assert!(matches!(
        first_result_bytes(&[result("x", None, Some("boom"))]),
        Err(BrowserFetchError::Fetch(m)) if m == "boom"
    ));
    assert!(matches!(
        first_result_bytes(&[result("x", None, None)]),
        Err(BrowserFetchError::EmptyResponse)
    ));
}

#[test]
fn announcement_lines_show_date_trimmed_ticker_title_and_urls() {
    let lines = announcement_lines(&reply("a"));
    assert_eq!(
        lines,
        vec![
            "2026-09-01T18:02:45  [BBCA]  Judul".to_string(),
            "    - https://www.idx.co.id/StaticData/a.pdf".to_string(),
        ]
    );
}

#[test]
fn counts_are_the_same_for_every_concurrency() {
    let per_task = [true, false, true, true, false, true, false];
    let mut seen = Vec::new();
    for concurrency in [0usize, 1, 2, 3, 7, 50] {
        let mut outcomes = Vec::new();
        for (start, end) in batch_bounds(per_task.len(), concurrency) {
            outcomes.extend_from_slice(&per_task[start..end]);
        }
        assert_eq!(outcomes, per_task.to_vec());
        seen.push(tally(&outcomes));
    }
    assert!(seen.iter().all(|&c| c == (4, 3)));
}
