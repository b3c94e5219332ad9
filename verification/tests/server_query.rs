use maddo::server::{
    answer, compact_date, non_empty, param, parse_query, percent_decode, percent_decode_splits, Route,
};

#[test]
fn parse_query_splits_pairs_and_decodes_values() {
    let q = parse_query("ticker=BBCA&keyword=rapat%20umum&type=s");
    assert_eq!(param(&q, "ticker"), Some("BBCA"));
    assert_eq!(param(&q, "keyword"), Some("rapat umum"));
    assert_eq!(param(&q, "type"), Some("s"));
}

#[test]
fn parse_query_handles_empty_string_and_valueless_keys() {
    assert!(parse_query("").is_empty());
    let q = parse_query("flag&a=1");
    assert_eq!(param(&q, "flag"), Some(""));
    assert_eq!(param(&q, "a"), Some("1"));
}

#[test]
fn percent_decode_handles_plus_escapes_and_stray_percent() {
    assert_eq!(percent_decode("a+b"), "a b");
    assert_eq!(percent_decode("%2Ffile.pdf"), "/file.pdf");
    assert_eq!(percent_decode("100%"), "100%");
}

#[test]
fn percent_decode_reassembles_multibyte_utf8() {
    assert_eq!(percent_decode("Perubahan%20anggota%20Direksi"), "Perubahan anggota Direksi");
    assert_eq!(percent_decode("%E2%82%AC"), "€");
}

#[test]
fn compact_date_accepts_both_input_shapes_and_rejects_junk() {
    assert_eq!(compact_date(Some("2026-09-01")).as_deref(), Some("20260901"));
    assert_eq!(compact_date(Some("20260901")).as_deref(), Some("20260901"));
    assert_eq!(compact_date(Some("")), None);
    assert_eq!(compact_date(Some("2026-09")), None);
    assert_eq!(compact_date(None), None);
}

#[test]
fn non_empty_trims_and_drops_blanks() {
    assert_eq!(non_empty(Some("  BBCA ")).as_deref(), Some("BBCA"));
    assert_eq!(non_empty(Some("   ")), None);
    assert_eq!(non_empty(None), None);
}

#[test]
fn parse_query_keeps_order_splits_at_first_equals_and_skips_empty_pieces() {
    let q = parse_query("&a=b=c&&a=2&x+y=%41%+1%zz");
    assert_eq!(q.len(), 3);
    assert_eq!(q[0], ("a".to_string(), "b=c".to_string()));
    assert_eq!(q[1], ("a".to_string(), "2".to_string()));
    assert_eq!(q[2], ("x y".to_string(), "A\u{1}%zz".to_string()));
    assert_eq!(param(&q, "a"), Some("b=c"));
    assert_eq!(param(&q, "missing"), None);
}

#[test]
fn percent_decode_replaces_invalid_utf8_and_leaves_plain_text_alone() {
    assert_eq!(percent_decode("%FF"), "\u{FFFD}");
    assert_eq!(percent_decode("plain-text_123"), "plain-text_123");
    assert_eq!(percent_decode("%"), "%");
    assert_eq!(percent_decode("%4"), "%4");
}

#[test]
fn percent_decode_splits_only_where_an_escape_would_cut_a_character() {
    assert!(percent_decode_splits("%aé"));
    assert!(!percent_decode_splits("%é"));
    assert!(!percent_decode_splits("%41é"));
    assert!(!percent_decode_splits("plain"));
}

#[test]
fn a_joined_query_parses_to_the_pairs_of_both_parts() {
    let a = "ticker=BBCA&&page=2";
    let b = "ticker=TLKM&lang";
    let mut both = parse_query(a);
    both.extend(parse_query(b));
    assert_eq!(parse_query(&format!("{a}&{b}")), both);
    assert_eq!(
        both,
        vec![
            ("ticker".to_string(), "BBCA".to_string()),
            ("page".to_string(), "2".to_string()),
            ("ticker".to_string(), "TLKM".to_string()),
            ("lang".to_string(), String::new()),
        ]
    );
}

#[test]
fn each_route_and_outcome_gets_its_status_and_content_type() {
    assert_eq!(answer(None, false), ("400 Bad Request", "text/plain", Some("bad request")));
    assert_eq!(answer(Some(Route::Index), true), ("200 OK", "text/html; charset=utf-8", None));
    assert_eq!(answer(Some(Route::Announcements), true), ("200 OK", "application/json", None));
    assert_eq!(
        answer(Some(Route::Announcements), false),
        ("502 Bad Gateway", "application/json", None)
    );
    assert_eq!(answer(Some(Route::File), true), ("200 OK", "application/pdf", None));
    assert_eq!(answer(Some(Route::File), false), ("502 Bad Gateway", "text/plain", None));
    assert_eq!(answer(Some(Route::NotFound), false), ("404 Not Found", "text/plain", Some("not found")));
}
