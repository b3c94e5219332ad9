use maddo::browser::{clearance_step, ClearanceStep};
use maddo::http::{
    pool_from_names, pool_from_saved_text, probe_query, profile_by_name, referer_for,
    retry_after_secs, saved_pool_text, send_step, status_is_success, throttle_delay, Autodetect,
    DetectStep, FingerprintScan, SendStep, browser_flags,
};
use maddo::script::{announcement_script, batch_script, js_string};
use maddo::server::{
    head_complete, proxy_target, query_decoding_splits, request_target, response_head, route,
    search_params, ProxyError, Route,
};
use maddo::server::parse_query;
use maddo::{announcement_query, QueryParams};

fn pairs(v: &[(&str, &str)]) -> Vec<(String, String)> {
    v.iter().map(|(k, v)| (k.to_string(), v.to_string())).collect()
}

#[test]
fn default_query_params_and_announcement_query() {
    let p = QueryParams::default();
    assert_eq!(p.emiten_type, "*");
    assert_eq!(p.page_size, 10);
    assert_eq!(p.lang, "id");
    let mut p = p;
    p.ticker = Some("BBCA".to_string());
    p.index_from = 120;
    let q = announcement_query(&p);
    assert_eq!(
        q,
        pairs(&[
            ("kodeEmiten", "BBCA"),
            ("emitenType", "*"),
            ("indexFrom", "120"),
            ("pageSize", "10"),
            ("dateFrom", ""),
            ("dateTo", ""),
            ("lang", "id"),
            ("keyword", ""),
        ])
    );
}

#[test]
fn probe_query_asks_for_one_announcement() {
    assert_eq!(
        probe_query(),
        pairs(&[
            ("kodeEmiten", ""),
            ("emitenType", "*"),
            ("indexFrom", "0"),
            ("pageSize", "1"),
            ("dateFrom", ""),
            ("dateTo", ""),
            ("lang", "id"),
            ("keyword", ""),
        ])
    );
}

#[test]
fn referer_follows_the_lang_param() {
    assert_eq!(
        referer_for(&pairs(&[("a", "1"), ("b", "two words"), ("lang", "en")])),
        "https://www.idx.co.id/en/"
    );
}

#[test]
fn referer_defaults_to_id_without_a_lang_param() {
    assert_eq!(referer_for(&[]), "https://www.idx.co.id/id/");
}

#[test]
fn status_success_range() {
    assert!(status_is_success(200) && status_is_success(299));
    assert!(!status_is_success(199) && !status_is_success(300) && !status_is_success(403));
}

#[test]
fn retry_after_parses_a_whole_seconds_header_and_defaults_to_none() {
    assert_eq!(retry_after_secs(Some(b"2")), Some(2));
    assert_eq!(retry_after_secs(None), None);
    assert_eq!(retry_after_secs(Some(b"+7")), Some(7));
    assert_eq!(retry_after_secs(Some(b" 7")), None);
    assert_eq!(retry_after_secs(Some(b"Wed, 21 Oct 2015 07:28:00 GMT")), None);
    assert_eq!(retry_after_secs(Some(b"99999999999999999999")), None);
    assert_eq!(retry_after_secs(Some(&[0x35, 0x80])), None);
}

#[test]
fn send_step_backs_off_exponentially_and_gives_up_after_five_retries() {
    assert_eq!(send_step(0, 200, None), SendStep::Return);
    assert_eq!(send_step(0, 429, None), SendStep::Retry(1));
    assert_eq!(send_step(3, 429, None), SendStep::Retry(8));
    assert_eq!(send_step(4, 429, None), SendStep::Retry(16));
    assert_eq!(send_step(2, 429, Some(9)), SendStep::Retry(9));
    assert_eq!(send_step(5, 429, Some(9)), SendStep::Return);
}

#[test]
fn throttle_waits_out_the_rest_of_the_interval() {
    assert_eq!(throttle_delay(None), 0);
    assert_eq!(throttle_delay(Some(100_000_000)), 200_000_000);
    assert_eq!(throttle_delay(Some(300_000_000)), 0);
    assert_eq!(throttle_delay(Some(5_000_000_000)), 0);
}

fn names() -> Vec<String> {
    ["Chrome149", "Chrome148", "Firefox140", "Safari18"].iter().map(|s| s.to_string()).collect()
}

#[test]
fn profile_by_name_round_trips_and_rejects_unknown_names() {
    let names = names();
    for (i, n) in names.iter().enumerate() {
        assert_eq!(profile_by_name(&names, n), Some(i));
    }
}

#[test]
fn profile_by_name_rejects_an_unknown_name() {
    assert_eq!(profile_by_name(&names(), "NotARealBrowser"), None);
}

#[test]
fn saved_pool_round_trips_through_its_json_text() {
    let names = names();
    let text = saved_pool_text(&names, &[2, 0]);
    assert_eq!(text, "[\n  \"Firefox140\",\n  \"Chrome149\"\n]");
    assert_eq!(pool_from_saved_text(&names, &text), vec![2, 0]);
    assert_eq!(saved_pool_text(&names, &[]), "[]");
    assert_eq!(pool_from_saved_text(&names, "not json"), Vec::<usize>::new());
    assert_eq!(
        pool_from_names(&names, &["Safari18".to_string(), "Gone1".to_string(), "Chrome148".to_string()]),
        vec![3, 1]
    );
}

#[test]
fn fingerprint_scan_stops_after_five_good_ones() {
    let mut scan = FingerprintScan::new(vec![true; 10]);
    let verdicts = [true, false, true, true, false, true, true, true, true];
    let mut probed = 0;
    while let Some(i) = scan.candidate() {
        assert_eq!(i, probed);
        scan.record(i, verdicts[i]);
        probed += 1;
    }
    assert_eq!(probed, 7);
    assert_eq!(scan.into_pool(), vec![0, 2, 3, 5, 6]);
}

#[test]
fn fingerprint_scan_passes_over_the_okhttp_family() {
    let names: Vec<String> = ["Chrome100", "OkHttp3_9", "Safari18", "OkHttp4_12", "Firefox139", "Edge134"]
        .iter()
        .map(|s| s.to_string())
        .collect();
    let flags = browser_flags(&names);
    assert_eq!(flags, vec![true, false, true, false, true, true]);
    let mut scan = FingerprintScan::new(flags);
    let mut probed = Vec::new();
    while let Some(i) = scan.candidate() {
        probed.push(i);
        // every browser fingerprint passes; none of the OkHttp ones is ever offered
        scan.record(i, true);
    }
    assert_eq!(probed, vec![0, 2, 4, 5]);
    assert_eq!(scan.into_pool(), vec![0, 2, 4, 5]);
}

#[test]
fn fingerprint_scan_of_no_browser_fingerprints_probes_nothing() {
    let scan = FingerprintScan::new(vec![false, false]);
    assert_eq!(scan.candidate(), None);
    assert_eq!(scan.into_pool(), Vec::<usize>::new());
}

#[test]
fn autodetect_scans_a_thin_pool_prunes_rejections_and_rescans_once() {
    let mut d = Autodetect::start(vec![4]);
    assert_eq!(d.step(), DetectStep::Scan);
    d.scanned(vec![1, 2]);
    assert_eq!(d.step(), DetectStep::Probe(1));
    d.rejected();
    assert_eq!(d.current_pool(), &vec![2]);
    assert_eq!(d.step(), DetectStep::Probe(2));
    d.rejected();
    assert_eq!(d.step(), DetectStep::Scan);
    d.scanned(vec![]);
    assert_eq!(d.step(), DetectStep::GiveUp);

    let d = Autodetect::start(vec![3, 0]);
    assert_eq!(d.step(), DetectStep::Probe(3));
}

#[test]
fn clearance_gives_up_after_thirty_polls() {
    assert_eq!(clearance_step(0, 3), ClearanceStep::Cleared);
    assert_eq!(clearance_step(0, 0), ClearanceStep::Retry);
    assert_eq!(clearance_step(29, 0), ClearanceStep::GiveUp);
}

#[test]
fn js_string_embeds_text_as_a_json_literal() {
    assert_eq!(js_string("a\"b\\c\n"), "\"a\\\"b\\\\c\\n\"");
    assert_eq!(js_string(""), "\"\"");
    assert_eq!(js_string("\u{1}\u{1f}\t\r\u{8}\u{c}"), "\"\\u0001\\u001f\\t\\r\\b\\f\"");
    assert_eq!(js_string("Rapat Umum €"), "\"Rapat Umum €\"");
}

#[test]
fn batch_script_embeds_the_urls_as_a_json_array() {
    let s = batch_script(&["https://x/a.pdf".to_string(), "b\"".to_string()]);
    assert!(s.starts_with("(async () => {\n            const urls = [\"https://x/a.pdf\",\"b\\\"\"];\n"));
    assert!(s.ends_with("}));\n        })()"));
    let empty = batch_script(&[]);
    assert!(empty.contains("const urls = [];"));
}

#[test]
fn announcement_script_quotes_filters_and_writes_numbers() {
    let mut p = QueryParams::default();
    p.keyword = Some("rapat 'umum'".to_string());
    p.index_from = 30;
    let s = announcement_script(&p);
    assert!(s.contains("kodeEmiten: \"\",\n"));
    assert!(s.contains("emitenType: \"*\",\n"));
    assert!(s.contains("indexFrom: 30,\n"));
    assert!(s.contains("pageSize: 10,\n"));
    assert!(s.contains("keyword: \"rapat 'umum'\"\n"));
    assert!(s.contains("GetAnnouncement?"));
}

#[test]
fn route_splits_the_target_at_the_first_question_mark() {
    assert_eq!(route("/"), (Route::Index, String::new()));
    assert_eq!(route("/index.html?x"), (Route::Index, "x".to_string()));
    assert_eq!(route("/api/announcements?page=2&q=a?b"), (Route::Announcements, "page=2&q=a?b".to_string()));
    assert_eq!(route("/api/file?url=u"), (Route::File, "url=u".to_string()));
    assert_eq!(route("/nope"), (Route::NotFound, String::new()));
}

#[test]
fn file_route_refuses_a_non_idx_url() {
    let query = parse_query("url=https%3A%2F%2Fevil.example%2Fx.pdf");
    let err = proxy_target(&query).expect_err("must refuse foreign hosts");
    assert!(err.message().contains("refusing to proxy"));
}

#[test]
fn file_route_requires_a_url_parameter() {
    let err = proxy_target(&[]).expect_err("missing url must error");
    assert!(err.message().contains("missing url"));
    assert_eq!(err, ProxyError::MissingUrl);
    let ok = parse_query("url=https%3A%2F%2Fwww.idx.co.id%2FStaticData%2Fa.pdf");
    assert_eq!(proxy_target(&ok), Ok("https://www.idx.co.id/StaticData/a.pdf"));
}

#[test]
fn search_params_read_paging_and_filters_with_defaults() {
    let q = parse_query("page=3&pageSize=500&ticker=+BBCA+&type=&dateFrom=2026-01-02&lang=en");
    let (p, page, size) = search_params(&q, (2026, 9, 1)).unwrap();
    assert_eq!((page, size), (3, 100));
    assert_eq!(p.index_from, 200);
    assert_eq!(p.ticker.as_deref(), Some("BBCA"));
    assert_eq!(p.keyword, None);
    assert_eq!(p.emiten_type, "*");
    assert_eq!(p.date_from, "20260102");
    assert_eq!(p.date_to, "20260901");
    assert_eq!(p.lang, "en");

    let q = parse_query("page=0&pageSize=x");
    let (p, page, size) = search_params(&q, (2026, 9, 1)).unwrap();
    assert_eq!((page, size, p.index_from), (1, 10, 0));
    assert_eq!(p.date_from, "19010101");

    let q = parse_query("page=4294967295&pageSize=100");
    assert!(search_params(&q, (2026, 9, 1)).is_none());
}

#[test]
fn request_target_reads_get_request_lines_only() {
    assert_eq!(request_target(b"GET /api/file?url=x HTTP/1.1\r\nHost: a\r\n\r\n").as_deref(), Some("/api/file?url=x"));
    assert_eq!(request_target(b"  GET\t/  HTTP/1.1\r\n").as_deref(), Some("/"));
    assert_eq!(request_target(b"POST / HTTP/1.1\r\n\r\n"), None);
    assert_eq!(request_target(b"GET\r\n/x"), None);
    assert_eq!(request_target(b""), None);
}

#[test]
fn head_complete_on_blank_line_or_too_much_data() {
    assert!(head_complete(b"GET / HTTP/1.1\r\n\r\n"));
    assert!(!head_complete(b"GET / HTTP/1.1\r\n"));
    assert!(head_complete(&vec![b'a'; 8193]));
    assert!(!head_complete(&vec![b'a'; 8192]));
}

#[test]
fn response_head_frames_the_body() {
    assert_eq!(
        response_head("404 Not Found", "text/plain", 9),
        "HTTP/1.1 404 Not Found\r\nContent-Type: text/plain\r\nContent-Length: 9\r\nConnection: close\r\n\r\n"
    );
}

#[test]
fn query_decoding_splits_flags_escapes_that_cut_characters() {
    assert!(query_decoding_splits("a=%zé"));
    assert!(!query_decoding_splits("a=%41é&b"));
    assert!(!query_decoding_splits(""));
}
