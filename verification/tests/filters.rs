use maddo::filters::{
    after_page, format_compact_date, page_params, parse_date, CoreFilterArgs, PageStep, SecurityType,
};

fn filter_args(date_from: Option<&str>, date_to: Option<&str>, security_type: Option<SecurityType>) -> CoreFilterArgs {
    CoreFilterArgs {
        date_from: date_from.map(|s| s.to_string()),
        date_to: date_to.map(|s| s.to_string()),
        ticker: None,
        keyword: None,
        security_type,
        lang: "id".to_string(),
    }
}

#[test]
fn parse_date_converts_iso_to_compact_form() {
    assert_eq!(parse_date("2026-09-01").unwrap(), "20260901");
}

#[test]
fn parse_date_rejects_malformed_input() {
    let err = parse_date("09/01/2026").unwrap_err();
    assert!(err.message().contains("invalid date"));
}

#[test]
fn resolve_dates_defaults_to_full_history_through_today() {
    let args = filter_args(None, None, None);
    let (from, to) = args.resolve_dates().unwrap();
    assert_eq!(from, "19010101");
    assert_eq!(to, chrono::Local::now().format("%Y%m%d").to_string());
}

#[test]
fn resolve_dates_uses_explicit_bounds_when_given() {
    let args = filter_args(Some("2026-01-01"), Some("2026-09-01"), None);
    let (from, to) = args.resolve_dates().unwrap();
    assert_eq!(from, "20260101");
    assert_eq!(to, "20260901");
}

#[test]
fn resolve_dates_propagates_a_bad_date_from() {
    let args = filter_args(Some("not-a-date"), None, None);
    assert!(args.resolve_dates().is_err());
}

#[test]
fn emiten_type_defaults_to_wildcard_when_unset() {
    let args = filter_args(None, None, None);
    assert_eq!(args.emiten_type(), "*");
}

#[test]
fn emiten_type_maps_every_security_type_variant() {
    let cases = [
        (SecurityType::Saham, "s"),
        (SecurityType::Obligasi, "o"),
        (SecurityType::Etf, "etf"),
        (SecurityType::DireDinfra, "dd"),
        (SecurityType::Eba, "eba"),
    ];
    for (variant, expected) in cases {
        let args = filter_args(None, None, Some(variant));
        assert_eq!(args.emiten_type(), expected);
    }
}

#[test]
fn resolve_dates_on_uses_the_given_today_and_reports_the_bad_date() {
    let args = filter_args(None, None, None);
    let (from, to) = args.resolve_dates_on((2026, 3, 7)).unwrap();
    assert_eq!(from, "19010101");
    assert_eq!(to, "20260307");

    let bad_to = core_with_to("2026-02-30");
    let err = bad_to.resolve_dates_on((2026, 3, 7)).unwrap_err();
    assert_eq!(
        err.message(),
        "invalid date '2026-02-30', expected YYYY-MM-DD: input is out of range"
    );
}

#[test]
fn a_date_error_carries_chrono_s_reason() {
    assert_eq!(
        parse_date("09/01/2026").unwrap_err().message(),
        "invalid date '09/01/2026', expected YYYY-MM-DD: input contains invalid characters"
    );
    assert_eq!(
        parse_date("2026-09").unwrap_err().message(),
        "invalid date '2026-09', expected YYYY-MM-DD: premature end of input"
    );
    assert_eq!(
        parse_date("2026-09-01x").unwrap_err().message(),
        "invalid date '2026-09-01x', expected YYYY-MM-DD: trailing input"
    );
    let both_bad = filter_args(Some("2026-13-01"), Some("nope"), None);
    assert_eq!(
        both_bad.resolve_dates_on((2026, 3, 7)).unwrap_err().message(),
        "invalid date '2026-13-01', expected YYYY-MM-DD: input is out of range"
    );
}

fn core_with_to(to: &str) -> CoreFilterArgs {
    filter_args(Some("2026-01-01"), Some(to), None)
}

#[test]
fn format_compact_date_pads_and_signs_like_chrono() {
    assert_eq!(format_compact_date(2026, 9, 1), "20260901");
    assert_eq!(format_compact_date(42, 1, 31), "00420131");
    assert_eq!(format_compact_date(-5, 12, 2), "-00051202");
    assert_eq!(format_compact_date(12345, 6, 7), "+123450607");
    for (y, m, d) in [(42, 1, 31), (-5, 12, 2), (12345, 6, 7), (999, 10, 10)] {
        let date = chrono::NaiveDate::from_ymd_opt(y, m, d).unwrap();
        assert_eq!(format_compact_date(y, m, d), date.format("%Y%m%d").to_string());
    }
}

#[test]
fn page_params_walks_windows_and_refuses_overflow() {
    let mut c = filter_args(None, None, Some(SecurityType::Etf));
    c.ticker = Some("BBCA".to_string());
    let from = "19010101".to_string();
    let to = "20260901".to_string();
    let p = page_params(&c, &from, &to, 3, 10, 2).unwrap();
    assert_eq!(p.index_from, 40);
    assert_eq!(p.page_size, 10);
    assert_eq!(p.emiten_type, "etf");
    assert_eq!(p.ticker.as_deref(), Some("BBCA"));
    assert_eq!(p.date_to, "20260901");
    assert!(page_params(&c, &from, &to, 0, 10, 0).is_none());
    assert!(page_params(&c, &from, &to, u32::MAX, 10, 1).is_none());
    assert!(page_params(&c, &from, &to, 1_000_000, 10_000, 0).is_none());
}

#[test]
fn after_page_stops_on_a_short_page_and_pauses_between_pages() {
    assert_eq!(after_page(0, 3, 4, 10), PageStep::LastPage);
    assert_eq!(after_page(0, 3, 10, 10), PageStep::Pause);
    assert_eq!(after_page(2, 3, 10, 10), PageStep::Done);
}

#[test]
fn consecutive_pages_start_one_page_size_apart() {
    let c = filter_args(None, None, None);
    let from = "19010101".to_string();
    let to = "20260901".to_string();
    for i in 0..5u32 {
        let a = page_params(&c, &from, &to, 2, 25, i).unwrap();
        let b = page_params(&c, &from, &to, 2, 25, i + 1).unwrap();
        assert_eq!(b.index_from, a.index_from + 25);
    }
}
