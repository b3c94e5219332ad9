//! The command line's filters turned into API parameters: security types, the date
//! range, and walking through result pages.

use chrono::format::ParseErrorKind;
use chrono::Datelike;
use vstd::prelude::*;

use crate::api::{QueryParams, Reply};
use crate::text::{decimal, decimal_string, push_char, trim_seq};

verus! {

/// The kinds of listed securities the API can filter by.
#[derive(Debug, Clone, Copy, PartialEq, Eq, Structural)]
pub enum SecurityType {
    Saham,
    Obligasi,
    Etf,
    DireDinfra,
    Eba,
}

/// The API's code for a security type.
pub open spec fn security_code(t: SecurityType) -> Seq<char> {
    match t {
        SecurityType::Saham => seq!['s'],
        SecurityType::Obligasi => seq!['o'],
        SecurityType::Etf => seq!['e', 't', 'f'],
        SecurityType::DireDinfra => seq!['d', 'd'],
        SecurityType::Eba => seq!['e', 'b', 'a'],
    }
}

impl SecurityType {
    /// The API's code for this security type.
    pub fn code(self) -> (res: &'static str)
        ensures
            res@ == security_code(self),
    {
        proof {
            reveal_strlit("s");
            reveal_strlit("o");
            reveal_strlit("etf");
            reveal_strlit("dd");
            reveal_strlit("eba");
        }
        match self {
            SecurityType::Saham => "s",
            SecurityType::Obligasi => "o",
            SecurityType::Etf => "etf",
            SecurityType::DireDinfra => "dd",
            SecurityType::Eba => "eba",
        }
    }
}

/// Filter fields shared by every subcommand (date range, ticker, keyword, security type).
#[derive(Debug, Clone)]
pub struct CoreFilterArgs {
    /// YYYY-MM-DD; no lower bound when absent.
    pub date_from: Option<String>,
    /// YYYY-MM-DD; today when absent.
    pub date_to: Option<String>,
    pub ticker: Option<String>,
    pub keyword: Option<String>,
    pub security_type: Option<SecurityType>,
    pub lang: String,
}

/// The `emitenType` sent for an optional security type: its code, or `*` for all.
pub open spec fn emiten_type_spec(t: Option<SecurityType>) -> Seq<char> {
    match t {
        Some(t) => security_code(t),
        None => seq!['*'],
    }
}

/// The first date of the full history: `19010101`.
pub open spec fn history_start() -> Seq<char> {
    seq!['1', '9', '0', '1', '0', '1', '0', '1']
}

/// `n` in decimal, with zeros in front up to `width` characters.
pub open spec fn zero_padded(n: nat, width: nat) -> Seq<char> {
    let d = decimal(n);
    if d.len() >= width {
        d
    } else {
        Seq::new((width - d.len()) as nat, |i: int| '0') + d
    }
}

/// chrono's `%Y`: the year zero-padded to four digits, with a sign in front when it lies
/// outside `0..=9999`.
pub open spec fn year_text(y: int) -> Seq<char> {
    if 0 <= y <= 9999 {
        zero_padded(y as nat, 4)
    } else if y < 0 {
        seq!['-'] + zero_padded((-y) as nat, 4)
    } else {
        seq!['+'] + zero_padded(y as nat, 4)
    }
}

/// A date as `%Y%m%d` writes it.
pub open spec fn compact_ymd(y: int, m: nat, d: nat) -> Seq<char> {
    year_text(y) + zero_padded(m, 2) + zero_padded(d, 2)
}

/// Why chrono could not read a date, one variant per kind of its `ParseError`.
#[derive(Debug, Clone, Copy, PartialEq, Eq, Structural)]
pub enum DateParseFailure {
    OutOfRange,
    Impossible,
    NotEnough,
    Invalid,
    TooShort,
    TooLong,
    BadFormat,
}

/// The text chrono's `ParseError` displays for a failure of kind `k`.
pub open spec fn failure_text(k: DateParseFailure) -> Seq<char> {
    match k {
        DateParseFailure::OutOfRange => "input is out of range"@,
        DateParseFailure::Impossible => "no possible date and time matching input"@,
        DateParseFailure::NotEnough => "input is not enough for unique date and time"@,
        DateParseFailure::Invalid => "input contains invalid characters"@,
        DateParseFailure::TooShort => "premature end of input"@,
        DateParseFailure::TooLong => "trailing input"@,
        DateParseFailure::BadFormat => "bad or unsupported format string"@,
    }
}

impl DateParseFailure {
    /// The text chrono's `ParseError` displays for this kind.
    pub fn message(&self) -> (res: &'static str)
        ensures
            res@ == failure_text(*self),
    {
        match self {
            DateParseFailure::OutOfRange => "input is out of range",
            DateParseFailure::Impossible => "no possible date and time matching input",
            DateParseFailure::NotEnough => "input is not enough for unique date and time",
            DateParseFailure::Invalid => "input contains invalid characters",
            DateParseFailure::TooShort => "premature end of input",
            DateParseFailure::TooLong => "trailing input",
            DateParseFailure::BadFormat => "bad or unsupported format string",
        }
    }
}

/// What chrono's `NaiveDate::parse_from_str(text, "%Y-%m-%d")` parses `text` to, as
/// (year, month, day), or the kind of error it reports.
pub uninterp spec fn iso_date_parsed(text: Seq<char>) -> Result<(int, int, int), DateParseFailure>;

/// Trusted: chrono's `NaiveDate::parse_from_str` with the format `%Y-%m-%d`, read back
/// through `Datelike`, or its error's `kind()`. Its result is named `iso_date_parsed`; as
/// chrono documents, a date's month lies in 1..=12 and its day in 1..=31. chrono never
/// reports its hidden `__Nonexhaustive` kind (its own `Display` treats it as
/// unreachable), so the last arm only completes the match.
#[verifier::external_body]
fn parse_iso_date(text: &str) -> (res: Result<(i32, u32, u32), DateParseFailure>)
    ensures
        match res {
            Ok((y, m, d)) => iso_date_parsed(text@) == Ok::<(int, int, int), DateParseFailure>(
                (y as int, m as int, d as int),
            ) && 1 <= m <= 12 && 1 <= d <= 31,
            Err(k) => iso_date_parsed(text@) == Err::<(int, int, int), DateParseFailure>(k),
        },
{
    match chrono::NaiveDate::parse_from_str(text, "%Y-%m-%d") {
        Ok(date) => Ok((date.year(), date.month(), date.day())),
        Err(e) => Err(match e.kind() {
            ParseErrorKind::OutOfRange => DateParseFailure::OutOfRange,
            ParseErrorKind::Impossible => DateParseFailure::Impossible,
            ParseErrorKind::NotEnough => DateParseFailure::NotEnough,
            ParseErrorKind::Invalid => DateParseFailure::Invalid,
            ParseErrorKind::TooShort => DateParseFailure::TooShort,
            ParseErrorKind::TooLong => DateParseFailure::TooLong,
            _ => DateParseFailure::BadFormat,
        }),
    }
}

/// Trusted: chrono's `Local::now().date_naive()`, read back through `Datelike`: today's
/// local date, which depends on the clock and time zone. Only what chrono documents of
/// every date is stated: the month lies in 1..=12 and the day in 1..=31.
#[verifier::external_body]
pub(crate) fn local_today() -> (res: (i32, u32, u32))
    ensures
        1 <= res.1 <= 12,
        1 <= res.2 <= 31,
{
    let today = chrono::Local::now().date_naive();
    (today.year(), today.month(), today.day())
}

fn push_zero_padded(out: &mut String, n: u64, width: usize)
    ensures
        final(out)@ == old(out)@ + zero_padded(n as nat, width as nat),
{
    let digits = decimal_string(n);
    let len = digits.as_str().unicode_len();
    let ghost start = out@;
    if len < width {
        let mut k: usize = 0;
        while k < width - len
            invariant
                k <= width - len,
                len == decimal(n as nat).len(),
                out@ == start + Seq::new(k as nat, |i: int| '0'),
            decreases width - len - k,
        {
            push_char(out, '0');
            assert(Seq::new((k + 1) as nat, |i: int| '0') == Seq::new(k as nat, |i: int| '0').push(
                '0',
            ));
            k = k + 1;
        }
    }
    out.append(digits.as_str());
}

/// A date written as `%Y%m%d` (eight digits for the years 0 to 9999).
pub fn format_compact_date(year: i32, month: u32, day: u32) -> (res: String)
    ensures
        res@ == compact_ymd(year as int, month as nat, day as nat),
{
    let mut out = String::new();
    if 0 <= year && year <= 9999 {
        push_zero_padded(&mut out, year as u64, 4);
    } else if year < 0 {
        push_char(&mut out, '-');
        let magnitude: i64 = -(year as i64);
        push_zero_padded(&mut out, magnitude as u64, 4);
    } else {
        push_char(&mut out, '+');
        push_zero_padded(&mut out, year as u64, 4);
    }
    push_zero_padded(&mut out, month as u64, 2);
    push_zero_padded(&mut out, day as u64, 2);
    out
}

/// A date the filters could not read.
#[derive(Debug)]
pub enum DateError {
    /// The text is not a `YYYY-MM-DD` date, and why chrono could not read it.
    Invalid(String, DateParseFailure),
}

impl DateError {
    /// The error's message, with its cause:
    /// `invalid date '<text>', expected YYYY-MM-DD: <chrono's reason>`.
    pub fn message(&self) -> (res: String)
        ensures
            match self {
                DateError::Invalid(t, k) => res@ == "invalid date '"@ + t@
                    + "', expected YYYY-MM-DD: "@ + failure_text(*k),
            },
    {
        match self {
            DateError::Invalid(t, k) => {
                let mut s = String::from_str("invalid date '");
                s.append(t.as_str());
                s.append("', expected YYYY-MM-DD: ");
                s.append(k.message());
                s
            },
        }
    }
}

/// The compact form `parse_date` gives: the date that chrono reads as `%Y-%m-%d`,
/// written as `%Y%m%d`.
pub open spec fn parse_date_spec(text: Seq<char>) -> Option<Seq<char>> {
    match iso_date_parsed(text) {
        Ok((y, m, d)) => Some(compact_ymd(y, m as nat, d as nat)),
        Err(_) => None,
    }
}

/// `bad` is the text `s` and `cause` why chrono could not read it as a date.
pub open spec fn unreadable_date(s: Seq<char>, bad: Seq<char>, cause: DateParseFailure) -> bool {
    bad == s && iso_date_parsed(s) == Err::<(int, int, int), DateParseFailure>(cause)
}

/// Converts a `YYYY-MM-DD` date into the API's `YYYYMMDD` form.
pub fn parse_date(s: &str) -> (res: Result<String, DateError>)
    ensures
        match res {
            Ok(c) => parse_date_spec(s@) == Some(c@),
            Err(DateError::Invalid(t, k)) => unreadable_date(s@, t@, k),
        },
{
    match parse_iso_date(s) {
        Ok((y, m, d)) => Ok(format_compact_date(y, m, d)),
        Err(k) => Err(DateError::Invalid(s.to_owned(), k)),
    }
}

/// The bound an optional date gives: its compact form, or `default` when it is absent;
/// `None` when it does not read as a date.
pub open spec fn date_bound(v: Option<String>, default: Seq<char>) -> Option<Seq<char>> {
    match v {
        Some(s) => parse_date_spec(s@),
        None => Some(default),
    }
}

impl CoreFilterArgs {
    /// The `emitenType` to send: the security type's code, or `*` for all types.
    pub fn emiten_type(&self) -> (res: String)
        ensures
            res@ == emiten_type_spec(self.security_type),
    {
        proof {
            reveal_strlit("*");
        }
        match self.security_type {
            Some(t) => t.code().to_owned(),
            None => String::from_str("*"),
        }
    }

    /// The (from, to) dates to send when today is `today` (year, month, day): each given
    /// date in compact form, else the start of the history and today. The first date
    /// that does not read fails, `date_from` first.
    pub fn resolve_dates_on(&self, today: (i32, u32, u32)) -> (res: Result<(String, String), DateError>)
        ensures
            match res {
                Ok((f, t)) => date_bound(self.date_from, history_start()) == Some(f@) && date_bound(
                    self.date_to,
                    compact_ymd(today.0 as int, today.1 as nat, today.2 as nat),
                ) == Some(t@),
                Err(DateError::Invalid(bad, cause)) => {
                    ||| self.date_from matches Some(s) && unreadable_date(s@, bad@, cause)
                    ||| date_bound(self.date_from, history_start()) is Some && (
                    self.date_to matches Some(s) && unreadable_date(s@, bad@, cause))
                },
            },
    {
        proof {
            reveal_strlit("19010101");
        }
        let from = match &self.date_from {
            Some(s) => match parse_date(s.as_str()) {
                Ok(c) => c,
                Err(e) => {
                    return Err(e);
                },
            },
            None => String::from_str("19010101"),
        };
        let to = match &self.date_to {
            Some(s) => match parse_date(s.as_str()) {
                Ok(c) => c,
                Err(e) => {
                    return Err(e);
                },
            },
            None => format_compact_date(today.0, today.1, today.2),
        };
        Ok((from, to))
    }

    /// The (from, to) dates to send, with today's local date as the default end.
    pub fn resolve_dates(&self) -> (res: Result<(String, String), DateError>)
        ensures
            match res {
                Ok((f, t)) => date_bound(self.date_from, history_start()) == Some(f@) && exists|
                    y: i32,
                    m: u32,
                    d: u32,
                |
                    1 <= m <= 12 && 1 <= d <= 31 && date_bound(
                        self.date_to,
                        #[trigger] compact_ymd(y as int, m as nat, d as nat),
                    ) == Some(t@),
                Err(DateError::Invalid(bad, cause)) => {
                    ||| self.date_from matches Some(s) && unreadable_date(s@, bad@, cause)
                    ||| date_bound(self.date_from, history_start()) is Some && (
                    self.date_to matches Some(s) && unreadable_date(s@, bad@, cause))
                },
            },
    {
        let today = local_today();
        let res = self.resolve_dates_on(today);
        proof {
            let c = compact_ymd(today.0 as int, today.1 as nat, today.2 as nat);
        }
        res
    }
}


/// Where page `i` of a walk starting at page `page` begins in the result list:
/// `(page + i - 1) * page_size`; `None` where that arithmetic leaves `u32` (the inputs on
/// which the walk panics).
pub open spec fn page_start(page: u32, i: u32, page_size: u32) -> Option<int> {
    let page_num = page + i;
    if page_num > u32::MAX || page_num < 1 || (page_num - 1) * page_size > u32::MAX {
        None
    } else {
        Some((page_num - 1) * page_size)
    }
}

fn clone_text(v: &Option<String>) -> (res: Option<String>)
    ensures
        res == *v,
{
    match v {
        Some(s) => Some(s.clone()),
        None => None,
    }
}

/// The query for page `i` of a walk: the filters of `core`, the resolved dates, and the
/// page's window of `page_size` results; `None` where the page arithmetic overflows.
pub fn page_params(
    core: &CoreFilterArgs,
    date_from: &String,
    date_to: &String,
    page: u32,
    page_size: u32,
    i: u32,
) -> (res: Option<QueryParams>)
    ensures
        match (res, page_start(page, i, page_size)) {
            (Some(p), Some(start)) => {
                &&& p.ticker == core.ticker
                &&& p.keyword == core.keyword
                &&& p.emiten_type@ == emiten_type_spec(core.security_type)
                &&& p.date_from@ == date_from@
                &&& p.date_to@ == date_to@
                &&& p.index_from == start
                &&& p.page_size == page_size
                &&& p.lang@ == core.lang@
            },
            (None, None) => true,
            _ => false,
        },
{
    if page > u32::MAX - i {
        return None;
    }
    let page_num = page + i;
    if page_num < 1 {
        return None;
    }
    let index_from = match (page_num - 1).checked_mul(page_size) {
        Some(v) => v,
        None => {
            return None;
        },
    };
    Some(
        QueryParams {
            ticker: clone_text(&core.ticker),
            keyword: clone_text(&core.keyword),
            emiten_type: core.emiten_type(),
            date_from: date_from.clone(),
            date_to: date_to.clone(),
            index_from,
            page_size,
            lang: core.lang.clone(),
        },
    )
}

/// What a page walk does after a page.
#[derive(Debug, Clone, Copy, PartialEq, Eq, Structural)]
pub enum PageStep {
    /// The page came back short: it was the last one, stop.
    LastPage,
    /// More pages are asked for: pause, then fetch the next one.
    Pause,
    /// All asked-for pages are fetched.
    Done,
}

/// The step after page `i` of `pages` came back with `got` announcements: a page shorter
/// than `page_size` (counting `got` as `u32` would) ends the walk, else the walk pauses
/// before each further page.
pub open spec fn after_page_spec(i: u32, pages: u32, got: usize, page_size: u32) -> PageStep {
    if (got as u32) < page_size {
        PageStep::LastPage
    } else if i + 1 < pages {
        PageStep::Pause
    } else {
        PageStep::Done
    }
}

/// The step after page `i` of `pages` came back with `got` announcements.
pub fn after_page(i: u32, pages: u32, got: usize, page_size: u32) -> (res: PageStep)
    requires
        i < pages,
    ensures
        res == after_page_spec(i, pages, got, page_size),
{
    if (got as u32) < page_size {
        PageStep::LastPage
    } else if i + 1 < pages {
        PageStep::Pause
    } else {
        PageStep::Done
    }
}

/// Consecutive pages of a walk cover consecutive windows of the result list: page `i + 1`
/// starts exactly `page_size` results after page `i`.
pub proof fn consecutive_pages_are_adjacent(page: u32, i: u32, page_size: u32)
    requires
        i < u32::MAX,
        page_start(page, i, page_size) is Some,
        page_start(page, (i + 1) as u32, page_size) is Some,
    ensures
        page_start(page, (i + 1) as u32, page_size)->0 == page_start(page, i, page_size)->0
            + page_size,
{
    let a = page + i - 1;
    assert((a + 1) * page_size == a * page_size + page_size) by (nonlinear_arith);
}

/// The human-readable lines of an announcement: its timestamp, ticker and title, then
/// one line per attachment URL.
pub open spec fn announcement_lines_spec(r: Reply) -> Seq<Seq<char>> {
    seq![
        r.pengumuman.tanggal@ + seq![' ', ' ', '['] + trim_seq(r.pengumuman.kode_emiten@) + seq![
            ']',
            ' ',
            ' ',
        ] + r.pengumuman.judul@,
    ] + r.attachments@.map_values(
        |a: crate::api::AttachmentInfo| seq![' ', ' ', ' ', ' ', '-', ' '] + a.url@,
    )
}

/// The lines that the watch prints for a new announcement.
pub fn announcement_lines(reply: &Reply) -> (res: Vec<String>)
    ensures
        res@.map_values(|s: String| s@) == announcement_lines_spec(*reply),
{
    proof {
        reveal_strlit("  [");
        reveal_strlit("]  ");
    }
    let p = &reply.pengumuman;
    let mut head = p.tanggal.clone();
    head.append("  [");
    head.append(p.ticker());
    head.append("]  ");
    head.append(p.judul.as_str());
    let ghost spec = announcement_lines_spec(*reply);
    assert(head@ == spec[0]);
    let mut lines: Vec<String> = Vec::new();
    lines.push(head);
    assert(lines@.map_values(|s: String| s@) == spec.take(1));
    let atts = &reply.attachments;
    for k in 0..atts.len()
        invariant
            atts@ == reply.attachments@,
            spec == announcement_lines_spec(*reply),
            lines@.map_values(|s: String| s@) == announcement_lines_spec(*reply).take(k + 1),
    {
        proof {
            reveal_strlit("    - ");
        }
        let mut line = String::from_str("    - ");
        line.append(atts[k].url.as_str());
        let ghost prev = lines@;
        assert(spec[k + 1] == line@);
        lines.push(line);
        assert(lines@.map_values(|s: String| s@) == prev.map_values(|s: String| s@).push(line@));
        assert(announcement_lines_spec(*reply).take(k + 2) == announcement_lines_spec(*reply).take(
            k + 1,
        ).push(line@));
    }
    assert(announcement_lines_spec(*reply).take(atts@.len() as int + 1) == announcement_lines_spec(
        *reply,
    ));
    lines
}

/// A download run failed as a whole: some file failed and none succeeded.
pub fn download_run_failed(ok: usize, err: usize) -> (res: bool)
    ensures
        res == (err > 0 && ok == 0),
{
    err > 0 && ok == 0
}

} // verus!

verus! {

/// `10^k`.
pub open spec fn pow10(k: nat) -> nat
    decreases k,
{
    if k == 0 {
        1
    } else {
        10 * pow10((k - 1) as nat)
    }
}

proof fn lemma_decimal_shape(n: nat, k: nat)
    requires
        k >= 1,
        n < pow10(k),
    ensures
        1 <= decimal(n).len() <= k,
        forall|i: int| 0 <= i < decimal(n).len() ==> '0' <= #[trigger] decimal(n)[i] <= '9',
    decreases n,
{
    if n >= 10 {
        let p = pow10((k - 1) as nat);
        assert(k >= 2) by {
            if k == 1 {
                assert(pow10(0) == 1);
                assert(pow10(1) == 10);
            }
        }
        assert(n / 10 < p) by (nonlinear_arith)
            requires
                n < 10 * p,
        ;
        lemma_decimal_shape(n / 10, (k - 1) as nat);
        let d = decimal(n / 10);
        assert(decimal(n) == d.push(crate::text::digit_char(n % 10)));
        assert forall|i: int| 0 <= i < decimal(n).len() implies '0' <= #[trigger] decimal(n)[i]
            <= '9' by {
            if i < d.len() {
                assert(decimal(n)[i] == d[i]);
            }
        }
    }
}

proof fn lemma_zero_padded_shape(n: nat, width: nat)
    requires
        width >= 1,
        n < pow10(width),
    ensures
        zero_padded(n, width).len() == width,
        forall|i: int| 0 <= i < width ==> '0' <= #[trigger] zero_padded(n, width)[i] <= '9',
{
    lemma_decimal_shape(n, width);
    let d = decimal(n);
    if d.len() < width {
        let z = Seq::new((width - d.len()) as nat, |i: int| '0');
        assert forall|i: int| 0 <= i < width implies '0' <= #[trigger] zero_padded(n, width)[i]
            <= '9' by {
            if i >= z.len() {
                assert(zero_padded(n, width)[i] == d[i - z.len()]);
            }
        }
    }
}

/// A date of the years 0 to 9999 is written as exactly eight ASCII digits, `YYYYMMDD`.
pub proof fn compact_dates_are_eight_digits(y: int, m: nat, d: nat)
    requires
        0 <= y <= 9999,
        1 <= m <= 12,
        1 <= d <= 31,
    ensures
        compact_ymd(y, m, d).len() == 8,
        forall|i: int| 0 <= i < 8 ==> '0' <= #[trigger] compact_ymd(y, m, d)[i] <= '9',
{
    assert(pow10(0) == 1);
    assert(pow10(1) == 10);
    assert(pow10(2) == 100);
    assert(pow10(3) == 1000);
    assert(pow10(4) == 10000);
    lemma_zero_padded_shape(y as nat, 4);
    lemma_zero_padded_shape(m, 2);
    lemma_zero_padded_shape(d, 2);
    let c = compact_ymd(y, m, d);
    assert forall|i: int| 0 <= i < 8 implies '0' <= #[trigger] c[i] <= '9' by {
        if i < 4 {
            assert(c[i] == zero_padded(y as nat, 4)[i]);
        } else if i < 6 {
            assert(c[i] == zero_padded(m, 2)[i - 4]);
        } else {
            assert(c[i] == zero_padded(d, 2)[i - 6]);
        }
    }
}

} // verus!
