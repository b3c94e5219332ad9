use maddo::download::poll_download_tasks;
use maddo::{build_download_tasks, dest_filename, AttachmentInfo, Pengumuman, Reply};

fn reply(id2: &str, tanggal: &str, ticker: &str, attachments: Vec<AttachmentInfo>) -> Reply {
    Reply {
        pengumuman: Pengumuman {
            id2: id2.to_string(),
            no_pengumuman: "001/X/2026".to_string(),
            tanggal: tanggal.to_string(),
            judul: "Judul".to_string(),
            jenis: "STOCK".to_string(),
            kode_emiten: ticker.to_string(),
        },
        attachments,
    }
}

fn attachment(filename: &str, is_supporting: bool) -> AttachmentInfo {
    AttachmentInfo {
        filename: filename.to_string(),
        url: format!("https://www.idx.co.id/StaticData/{filename}"),
        is_supporting,
    }
}

#[test]
fn dest_filename_joins_date_ticker_and_original_name() {
    assert_eq!(
        dest_filename("20260901", "BBCA", "report.pdf"),
        "20260901_BBCA_report.pdf"
    );
}

#[test]
fn dest_filename_sanitizes_slashes_in_ticker_and_original_name() {
    assert_eq!(
        dest_filename("20260901", "AB/CD", "na\\me/x.pdf"),
        "20260901_AB_CD_na_me_x.pdf"
    );
}

#[test]
fn build_download_tasks_includes_all_attachments_by_default() {
    let replies = vec![reply(
        "id1",
        "2026-09-01T18:02:45",
        "BBCA",
        vec![attachment("main.pdf", false), attachment("supporting.pdf", true)],
    )];

    let tasks = build_download_tasks(&replies, false);

    assert_eq!(tasks.len(), 2);
}

#[test]
fn build_download_tasks_main_only_skips_supporting_attachments() {
    let replies = vec![reply(
        "id1",
        "2026-09-01T18:02:45",
        "BBCA",
        vec![attachment("main.pdf", false), attachment("supporting.pdf", true)],
    )];

    let tasks = build_download_tasks(&replies, true);

    assert_eq!(tasks.len(), 1);
    assert!(tasks[0].dest_filename.contains("main.pdf"));
}

#[test]
fn build_download_tasks_compacts_the_date_and_trims_the_ticker() {
    let replies = vec![reply(
        "id1",
        "2026-09-01T18:02:45",
        "BBCA                                                                                ",
        vec![attachment("main.pdf", false)],
    )];

    let tasks = build_download_tasks(&replies, false);

    assert_eq!(tasks[0].dest_filename, "20260901_BBCA_main.pdf");
}

#[test]
fn build_download_tasks_accumulates_across_multiple_replies() {
    let replies = vec![
        reply("id1", "2026-09-01", "BBCA", vec![attachment("a.pdf", false)]),
        reply("id2", "2026-08-26", "TPIA", vec![attachment("b.pdf", false), attachment("c.pdf", true)]),
    ];

    let tasks = build_download_tasks(&replies, false);

    assert_eq!(tasks.len(), 3);
}

#[test]
fn build_download_tasks_handles_a_reply_with_no_attachments() {
    let replies = vec![reply("id1", "2026-09-01", "BBCA", vec![])];

    let tasks = build_download_tasks(&replies, false);

    assert!(tasks.is_empty());
}

#[test]
fn build_download_tasks_keeps_urls_and_order() {
    let replies = vec![
        reply("id1", "2026-09-01", " BBCA\t", vec![attachment("a.pdf", false), attachment("b/x.pdf", true)]),
        reply("id2", "26-08", "TPIA", vec![attachment("c.pdf", false)]),
    ];

    let tasks = build_download_tasks(&replies, false);

    assert_eq!(tasks.len(), 3);
    assert_eq!(tasks[0].url, "https://www.idx.co.id/StaticData/a.pdf");
    assert_eq!(tasks[0].dest_filename, "20260901_BBCA_a.pdf");
    assert_eq!(tasks[1].dest_filename, "20260901_BBCA_b_x.pdf");
    assert_eq!(tasks[2].dest_filename, "2608_TPIA_c.pdf");
}

fn pairs(tasks: &[maddo::DownloadTask]) -> Vec<(String, String)> {
    tasks.iter().map(|t| (t.url.clone(), t.dest_filename.clone())).collect()
}

#[test]
fn tasks_of_joined_replies_concatenate_and_main_only_keeps_the_main_ones() {
    let r1 = vec![reply(
        "id1",
        "2026-09-01T18:02:45",
        "BBCA",
        vec![attachment("a.pdf", true), attachment("b.pdf", false)],
    )];
    let r2 = vec![reply(
        "id2",
        "2026-09-02T08:00:00",
        " TLKM ",
        vec![attachment("c.pdf", false), attachment("d.pdf", true)],
    )];
    let joined: Vec<Reply> = r1.iter().chain(r2.iter()).cloned().collect();
    for main_only in [false, true] {
        let mut parts = pairs(&build_download_tasks(&r1, main_only));
        parts.extend(pairs(&build_download_tasks(&r2, main_only)));
        assert_eq!(pairs(&build_download_tasks(&joined, main_only)), parts);
    }
    let all = pairs(&build_download_tasks(&joined, false));
    let kept: Vec<(String, String)> = all
        .iter()
        .zip([false, true, true, false])
        .filter(|(_, k)| *k)
        .map(|(t, _)| t.clone())
        .collect();
    assert_eq!(pairs(&build_download_tasks(&joined, true)), kept);
    assert_eq!(kept[1].1, "20260902_TLKM_c.pdf");
}

#[test]
fn a_poll_downloads_only_when_asked_and_when_there_is_a_file() {
    let new_items = vec![reply(
        "id1",
        "2026-09-01T18:02:45",
        "BBCA",
        vec![attachment("main.pdf", false), attachment("lampiran.pdf", true)],
    )];
    assert!(poll_download_tasks(&new_items, false, false).is_none());
    let all = poll_download_tasks(&new_items, true, false).expect("two files");
    assert_eq!(pairs(&all), pairs(&build_download_tasks(&new_items, false)));
    assert_eq!(poll_download_tasks(&new_items, true, true).expect("one file").len(), 1);
    let only_supporting = vec![reply("id2", "2026-09-01", "TLKM", vec![attachment("s.pdf", true)])];
    assert!(poll_download_tasks(&only_supporting, true, true).is_none());
    assert!(poll_download_tasks(&[], true, false).is_none());
}
