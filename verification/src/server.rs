//! The local web UI's request handling: reading the request line, routing, decoding the
//! query string, turning a search into API parameters, and the file proxy's guard.

use vstd::prelude::*;
use vstd::utf8::{encode_utf8, is_char_boundary};

use crate::download::ascii_digits;
use crate::api::{pairs_view, QueryParams};
use crate::filters::{compact_ymd, format_compact_date, history_start, local_today};
use crate::text::{
    chars_of, decimal, decimal_string, is_white_space, opt_str_view, opt_string_view, parse_u32,
    string_from_chars, string_from_range, string_from_utf8_lossy, trim, trim_seq, trim_start_seq,
    unsigned_value, utf8_lossy, white_space,
};

verus! {

broadcast use vstd::utf8::encode_utf8_valid_utf8;

/// The value of one hexadecimal digit byte.
pub open spec fn hex_value(b: u8) -> Option<u8> {
    if 48 <= b <= 57 {
        Some((b - 48) as u8)
    } else if 97 <= b <= 102 {
        Some((b - 87) as u8)
    } else if 65 <= b <= 70 {
        Some((b - 55) as u8)
    } else {
        None
    }
}

/// What `u8::from_str_radix(_, 16)` makes of the two bytes after a `%`: two hex digits,
/// or `+` and one hex digit (the sign that `from_str_radix` accepts).
pub open spec fn escaped_byte(b1: u8, b2: u8) -> Option<u8> {
    if b1 == 43 {
        hex_value(b2)
    } else {
        match (hex_value(b1), hex_value(b2)) {
            (Some(h), Some(l)) => Some((h * 16 + l) as u8),
            _ => None,
        }
    }
}

fn hex_digit(b: u8) -> (res: Option<u8>)
    ensures
        res == hex_value(b),
{
    if 48 <= b && b <= 57 {
        Some(b - 48)
    } else if 97 <= b && b <= 102 {
        Some(b - 87)
    } else if 65 <= b && b <= 70 {
        Some(b - 55)
    } else {
        None
    }
}

fn escape_value(b1: u8, b2: u8) -> (res: Option<u8>)
    ensures
        res == escaped_byte(b1, b2),
{
    if b1 == 43 {
        hex_digit(b2)
    } else {
        match (hex_digit(b1), hex_digit(b2)) {
            (Some(h), Some(l)) => Some(h * 16 + l),
            _ => None,
        }
    }
}

/// The bytes that decoding `b` from position `i` on produces: `+` becomes a space, `%`
/// followed by an escape becomes the escaped byte, anything else is kept.
pub open spec fn percent_decoded(b: Seq<u8>, i: int) -> Seq<u8>
    decreases b.len() - i,
{
    if i >= b.len() || i < 0 {
        seq![]
    } else if b[i] == 43 {
        seq![32u8] + percent_decoded(b, i + 1)
    } else if b[i] == 37 && i + 2 < b.len() {
        match escaped_byte(b[i + 1], b[i + 2]) {
            Some(v) => seq![v] + percent_decoded(b, i + 3),
            None => seq![37u8] + percent_decoded(b, i + 1),
        }
    } else {
        seq![b[i]] + percent_decoded(b, i + 1)
    }
}

/// Decoding the UTF-8 bytes `b` from position `i` on would cut a character when it reads
/// the two bytes after some `%` as text (the input on which that read panics).
pub open spec fn escape_splits_char(b: Seq<u8>, i: int) -> bool
    decreases b.len() - i,
{
    if i >= b.len() || i < 0 {
        false
    } else if b[i] == 37 && i + 2 < b.len() {
        ||| !is_char_boundary(b, i + 1)
        ||| !is_char_boundary(b, i + 3)
        ||| match escaped_byte(b[i + 1], b[i + 2]) {
            Some(v) => escape_splits_char(b, i + 3),
            None => escape_splits_char(b, i + 1),
        }
    } else {
        escape_splits_char(b, i + 1)
    }
}

/// The text that decoding the text `t` gives.
pub open spec fn decoded_text(t: Seq<char>) -> Seq<char> {
    utf8_lossy(percent_decoded(encode_utf8(t), 0))
}

/// Decoding `t` would cut a character of it.
pub open spec fn decoding_splits(t: Seq<char>) -> bool {
    escape_splits_char(encode_utf8(t), 0)
}

/// Whether decoding `s` would cut one of its characters (where `percent_decode` does
/// not apply).
pub fn percent_decode_splits(s: &str) -> (res: bool)
    ensures
        res == decoding_splits(s@),
{
    let b = s.as_bytes();
    let n = b.len();
    let mut i: usize = 0;
    while i < n
        invariant
            b@ == encode_utf8(s@),
            n == b@.len(),
            i <= n,
            escape_splits_char(b@, 0) == escape_splits_char(b@, i as int),
        decreases n - i,
    {
        if b[i] == 37 && n - i > 2 {
            if !s.is_char_boundary(i + 1) || !s.is_char_boundary(i + 3) {
                return true;
            }
            match escape_value(b[i + 1], b[i + 2]) {
                Some(_) => {
                    i = i + 3;
                },
                None => {
                    i = i + 1;
                },
            }
        } else {
            i = i + 1;
        }
    }
    false
}

/// The UTF-8 bytes of `t` hold neither `%` nor `+`.
pub open spec fn has_no_escapes(t: Seq<char>) -> bool {
    forall|i: int|
        0 <= i < encode_utf8(t).len() ==> #[trigger] encode_utf8(t)[i] != 37 && encode_utf8(t)[i]
            != 43
}

proof fn lemma_plain_bytes_decode_unchanged(b: Seq<u8>, i: int)
    requires
        0 <= i <= b.len(),
        forall|j: int| 0 <= j < b.len() ==> #[trigger] b[j] != 37 && b[j] != 43,
    ensures
        percent_decoded(b, i) == b.skip(i),
    decreases b.len() - i,
{
    if i < b.len() {
        lemma_plain_bytes_decode_unchanged(b, i + 1);
        assert(b.skip(i) == seq![b[i]] + b.skip(i + 1));
    } else {
        assert(b.skip(i) == Seq::<u8>::empty());
    }
}

/// Decodes `+` and `%XX` escapes of a query-string component; bytes that do not make
/// UTF-8 come out as U+FFFD. Text without `%` or `+` comes back unchanged.
pub fn percent_decode(s: &str) -> (res: String)
    requires
        !decoding_splits(s@),
    ensures
        res@ == decoded_text(s@),
        vstd::utf8::valid_utf8(percent_decoded(encode_utf8(s@), 0)) ==> res@
            == vstd::utf8::decode_utf8(percent_decoded(encode_utf8(s@), 0)),
        has_no_escapes(s@) ==> res@ == s@,
{
    broadcast use vstd::utf8::encode_utf8_decode_utf8;

    let b = s.as_bytes();
    let n = b.len();
    let mut out: Vec<u8> = Vec::new();
    let mut i: usize = 0;
    while i < n
        invariant
            b@ == encode_utf8(s@),
            n == b@.len(),
            i <= n,
            !escape_splits_char(b@, i as int),
            out@ + percent_decoded(b@, i as int) == percent_decoded(b@, 0),
        decreases n - i,
    {
        let ghost prev = out@;
        if b[i] == 43 {
            out.push(32);
            i = i + 1;
            assert(out@ + percent_decoded(b@, i as int) == prev + percent_decoded(b@, i - 1));
        } else if b[i] == 37 && n - i > 2 {
            match escape_value(b[i + 1], b[i + 2]) {
                Some(v) => {
                    out.push(v);
                    i = i + 3;
                    assert(out@ + percent_decoded(b@, i as int) == prev + percent_decoded(
                        b@,
                        i - 3,
                    ));
                },
                None => {
                    out.push(37);
                    i = i + 1;
                    assert(out@ + percent_decoded(b@, i as int) == prev + percent_decoded(
                        b@,
                        i - 1,
                    ));
                },
            }
        } else {
            out.push(b[i]);
            i = i + 1;
            assert(out@ + percent_decoded(b@, i as int) == prev + percent_decoded(b@, i - 1));
        }
    }
    assert(out@ == percent_decoded(b@, 0));
    proof {
        if has_no_escapes(s@) {
            lemma_plain_bytes_decode_unchanged(b@, 0);
            assert(b@.skip(0) == b@);
        }
    }
    string_from_utf8_lossy(out.as_slice())
}


/// The pieces of `s` between the occurrences of `sep` (as `str::split` yields them:
/// always at least one, possibly empty).
pub open spec fn split_pieces(s: Seq<char>, sep: char) -> Seq<Seq<char>>
    decreases s.len(),
{
    if s.len() == 0 {
        seq![Seq::empty()]
    } else {
        let p = split_pieces(s.drop_last(), sep);
        if s.last() == sep {
            p.push(Seq::empty())
        } else {
            p.update(p.len() - 1, p.last().push(s.last()))
        }
    }
}

/// Where `c` first occurs in `s` (the length of `s` when it does not).
pub open spec fn first_index_of(s: Seq<char>, c: char) -> int
    decreases s.len(),
{
    if s.len() == 0 {
        0
    } else if s[0] == c {
        0
    } else {
        1 + first_index_of(s.drop_first(), c)
    }
}

/// A `key=value` piece split at its first `=`; a piece without `=` is a key with an
/// empty value.
pub open spec fn key_value(p: Seq<char>) -> (Seq<char>, Seq<char>) {
    let i = first_index_of(p, '=');
    if i < p.len() {
        (p.take(i), p.skip(i + 1))
    } else {
        (p, Seq::empty())
    }
}

/// The decoded (key, value) pairs of the non-empty pieces among `pieces`, in order.
pub open spec fn query_pairs_of(pieces: Seq<Seq<char>>) -> Seq<(Seq<char>, Seq<char>)>
    decreases pieces.len(),
{
    if pieces.len() == 0 {
        Seq::empty()
    } else {
        let rest = query_pairs_of(pieces.drop_last());
        let p = pieces.last();
        if p.len() == 0 {
            rest
        } else {
            rest.push((decoded_text(key_value(p).0), decoded_text(key_value(p).1)))
        }
    }
}

/// The pairs of a query string: its `&`-separated pieces, empty ones left out, each split
/// at its first `=` and both halves decoded.
pub open spec fn parse_query_spec(qs: Seq<char>) -> Seq<(Seq<char>, Seq<char>)> {
    query_pairs_of(split_pieces(qs, '&'))
}

/// Decoding some key or value of the query string `qs` would cut a character (the input
/// on which reading its escapes panics).
pub open spec fn query_splits_char(qs: Seq<char>) -> bool {
    exists|j: int|
        0 <= j < split_pieces(qs, '&').len() && #[trigger] split_pieces(qs, '&')[j].len() > 0 && (
        decoding_splits(key_value(split_pieces(qs, '&')[j]).0) || decoding_splits(
            key_value(split_pieces(qs, '&')[j]).1,
        ))
}

proof fn lemma_split_pieces_nonempty(s: Seq<char>, sep: char)
    ensures
        split_pieces(s, sep).len() >= 1,
    decreases s.len(),
{
    if s.len() > 0 {
        lemma_split_pieces_nonempty(s.drop_last(), sep);
    }
}

/// The pieces of a prefix of `s` that are already closed by a separator are the first
/// pieces of `s`.
proof fn lemma_split_pieces_prefix(s: Seq<char>, sep: char, i: int)
    requires
        0 <= i <= s.len(),
    ensures
        split_pieces(s.take(i), sep).len() <= split_pieces(s, sep).len(),
        split_pieces(s.take(i), sep).drop_last() == split_pieces(s, sep).take(
            split_pieces(s.take(i), sep).len() - 1,
        ),
    decreases s.len() - i,
{
    lemma_split_pieces_nonempty(s.take(i), sep);
    if i == s.len() {
        assert(s.take(i) == s);
    } else {
        lemma_split_pieces_prefix(s, sep, i + 1);
        lemma_split_pieces_nonempty(s.take(i + 1), sep);
        assert(s.take(i + 1).drop_last() == s.take(i));
    }
}

/// Where `c` first occurs in `cs[from..to]`, relative to `from`.
fn find_char(cs: &Vec<char>, from: usize, to: usize, c: char) -> (res: usize)
    requires
        from <= to <= cs@.len(),
    ensures
        res == first_index_of(cs@.subrange(from as int, to as int), c),
        res <= to - from,
{
    let mut i = from;
    while i < to && cs[i] != c
        invariant
            from <= i <= to <= cs@.len(),
            first_index_of(cs@.subrange(from as int, to as int), c) == (i - from)
                + first_index_of(cs@.subrange(i as int, to as int), c),
        decreases to - i,
    {
        assert(cs@.subrange(i as int, to as int).drop_first() == cs@.subrange(i + 1, to as int));
        i = i + 1;
    }
    i - from
}

/// Decodes the piece `cs[from..to]` into its (key, value) pair.
fn decode_piece(cs: &Vec<char>, from: usize, to: usize) -> (res: (String, String))
    requires
        from < to <= cs@.len(),
        !decoding_splits(key_value(cs@.subrange(from as int, to as int)).0),
        !decoding_splits(key_value(cs@.subrange(from as int, to as int)).1),
    ensures
        res.0@ == decoded_text(key_value(cs@.subrange(from as int, to as int)).0),
        res.1@ == decoded_text(key_value(cs@.subrange(from as int, to as int)).1),
{
    let ghost p = cs@.subrange(from as int, to as int);
    let eq = find_char(cs, from, to, '=');
    if eq < to - from {
        let k = string_from_range(cs, from, from + eq);
        let v = string_from_range(cs, from + eq + 1, to);
        assert(k@ == p.take(eq as int));
        assert(v@ == p.skip(eq + 1));
        (percent_decode(k.as_str()), percent_decode(v.as_str()))
    } else {
        let k = string_from_range(cs, from, to);
        let v = String::new();
        (percent_decode(k.as_str()), percent_decode(v.as_str()))
    }
}

/// Splits a query string into decoded (key, value) pairs, in order; empty pieces are
/// skipped and a piece without `=` has an empty value.
pub fn parse_query(qs: &str) -> (res: Vec<(String, String)>)
    requires
        !query_splits_char(qs@),
    ensures
        pairs_view(res@) == parse_query_spec(qs@),
{
    let cs = chars_of(qs);
    let n = cs.len();
    let mut out: Vec<(String, String)> = Vec::new();
    let mut start: usize = 0;
    let mut i: usize = 0;
    proof {
        assert(cs@.take(0) == Seq::<char>::empty());
    }
    while i < n
        invariant
            cs@ == qs@,
            n == cs@.len(),
            start <= i <= n,
            split_pieces(cs@.take(i as int), '&').last() == cs@.subrange(start as int, i as int),
            pairs_view(out@) == query_pairs_of(split_pieces(cs@.take(i as int), '&').drop_last()),
            !query_splits_char(qs@),
        decreases n - i,
    {
        let ghost before = split_pieces(cs@.take(i as int), '&');
        proof {
            assert(cs@.take(i + 1).drop_last() == cs@.take(i as int));
            lemma_split_pieces_nonempty(cs@.take(i as int), '&');
        }
        if cs[i] == '&' {
            if start < i {
                proof {
                    lemma_split_pieces_prefix(cs@, '&', i + 1);
                    let k = before.len() - 1;
                    assert(split_pieces(cs@.take(i + 1), '&').drop_last() == before);
                    assert(split_pieces(cs@, '&')[k] == before[k]);
                    if decoding_splits(key_value(before[k]).0) || decoding_splits(
                        key_value(before[k]).1,
                    ) {
                        assert(split_pieces(cs@, '&')[k].len() > 0);
                        assert(query_splits_char(qs@));
                    }
                }
                let pair = decode_piece(&cs, start, i);
                let ghost prev = out@;
                out.push(pair);
                assert(pairs_view(out@) == pairs_view(prev).push((pair.0@, pair.1@)));
            }
            assert(split_pieces(cs@.take(i + 1), '&') == before.push(Seq::empty()));
            assert(split_pieces(cs@.take(i + 1), '&').drop_last() == before);
            assert(before.last() == cs@.subrange(start as int, i as int));
            assert(pairs_view(out@) == query_pairs_of(before));
            i = i + 1;
            start = i;
            assert(cs@.subrange(start as int, i as int) == Seq::<char>::empty());
        } else {
            assert(cs@.subrange(start as int, i + 1) == cs@.subrange(start as int, i as int).push(
                cs@[i as int],
            ));
            assert(split_pieces(cs@.take(i + 1), '&').drop_last() == before.drop_last());
            i = i + 1;
        }
    }
    proof {
        assert(cs@.take(n as int) == cs@);
        lemma_split_pieces_nonempty(cs@, '&');
    }
    let ghost all = split_pieces(cs@, '&');
    assert(all.last() == cs@.subrange(start as int, n as int));
    if start < n {
        proof {
            let k = all.len() - 1;
            if decoding_splits(key_value(all[k]).0) || decoding_splits(key_value(all[k]).1) {
                assert(all[k].len() > 0);
                assert(query_splits_char(qs@));
            }
        }
        let pair = decode_piece(&cs, start, n);
        let ghost prev = out@;
        out.push(pair);
        assert(pairs_view(out@) == pairs_view(prev).push((pair.0@, pair.1@)));
    }
    assert(pairs_view(out@) == query_pairs_of(all));
    out
}


/// The value of the first pair named `key`.
pub open spec fn param_spec(q: Seq<(Seq<char>, Seq<char>)>, key: Seq<char>) -> Option<Seq<char>>
    decreases q.len(),
{
    if q.len() == 0 {
        None
    } else if q[0].0 == key {
        Some(q[0].1)
    } else {
        param_spec(q.drop_first(), key)
    }
}

/// The value of the first pair of `query` named `key`.
pub fn param<'a>(query: &'a [(String, String)], key: &str) -> (res: Option<&'a str>)
    ensures
        opt_str_view(res) == param_spec(pairs_view(query@), key@),
{
    let key_owned = key.to_owned();
    let mut i: usize = 0;
    assert(pairs_view(query@).skip(0) == pairs_view(query@));
    while i < query.len()
        invariant
            i <= query@.len(),
            key_owned@ == key@,
            param_spec(pairs_view(query@), key@) == param_spec(
                pairs_view(query@).skip(i as int),
                key@,
            ),
        decreases query.len() - i,
    {
        assert(pairs_view(query@).skip(i as int)[0] == (query@[i as int].0@, query@[i as int].1@));
        if query[i].0 == key_owned {
            return Some(query[i].1.as_str());
        }
        assert(pairs_view(query@).skip(i as int).drop_first() == pairs_view(query@).skip(i + 1));
        i = i + 1;
    }
    None
}

/// The trimmed value, unless it is absent or blank.
pub open spec fn non_empty_spec(value: Option<Seq<char>>) -> Option<Seq<char>> {
    match value {
        Some(t) => if trim_seq(t).len() > 0 {
            Some(trim_seq(t))
        } else {
            None
        },
        None => None,
    }
}

/// The trimmed value, or `None` when it is absent or blank.
pub fn non_empty(value: Option<&str>) -> (res: Option<String>)
    ensures
        opt_string_view(res) == non_empty_spec(opt_str_view(value)),
{
    match value {
        Some(v) => {
            let t = trim(v);
            if t.is_empty() {
                None
            } else {
                Some(t.to_owned())
            }
        },
        None => None,
    }
}

/// The digits of the value when there are exactly eight of them.
pub open spec fn compact_date_spec(value: Option<Seq<char>>) -> Option<Seq<char>> {
    match value {
        Some(t) => if ascii_digits(t).len() == 8 {
            Some(ascii_digits(t))
        } else {
            None
        },
        None => None,
    }
}

/// Accepts either `YYYY-MM-DD` (what the UI's date inputs send) or an already-compact
/// `YYYYMMDD`: the value's digits when there are eight of them, else `None`.
pub fn compact_date(value: Option<&str>) -> (res: Option<String>)
    ensures
        opt_string_view(res) == compact_date_spec(opt_str_view(value)),
{
    match value {
        Some(v) => {
            let cs = chars_of(v);
            let mut digits: Vec<char> = Vec::new();
            for i in 0..cs.len()
                invariant
                    cs@ == v@,
                    digits@ == ascii_digits(cs@.take(i as int)),
            {
                assert(cs@.take(i + 1).drop_last() == cs@.take(i as int));
                if '0' <= cs[i] && cs[i] <= '9' {
                    digits.push(cs[i]);
                }
            }
            assert(cs@.take(cs@.len() as int) == cs@);
            if digits.len() == 8 {
                Some(string_from_chars(&digits))
            } else {
                None
            }
        },
        None => None,
    }
}


/// The pages of the local UI.
#[derive(Debug, Clone, Copy, PartialEq, Eq, Structural)]
pub enum Route {
    /// `/` or `/index.html`: the page itself.
    Index,
    /// `/api/announcements`: a search.
    Announcements,
    /// `/api/file`: the file proxy.
    File,
    /// Anything else.
    NotFound,
}

/// A request target split at its first `?` into path and query string.
pub open spec fn split_target(t: Seq<char>) -> (Seq<char>, Seq<char>) {
    let i = first_index_of(t, '?');
    if i < t.len() {
        (t.take(i), t.skip(i + 1))
    } else {
        (t, Seq::empty())
    }
}

/// The route a path names.
pub open spec fn route_of(path: Seq<char>) -> Route {
    if path == "/"@ || path == "/index.html"@ {
        Route::Index
    } else if path == "/api/announcements"@ {
        Route::Announcements
    } else if path == "/api/file"@ {
        Route::File
    } else {
        Route::NotFound
    }
}

/// The route of a request target, and its query string.
pub fn route(target: &str) -> (res: (Route, String))
    ensures
        res.0 == route_of(split_target(target@).0),
        res.1@ == split_target(target@).1,
{
    let cs = chars_of(target);
    let n = cs.len();
    let q = find_char(&cs, 0, n, '?');
    assert(cs@.subrange(0, n as int) == cs@);
    let (path, query) = if q < n {
        (string_from_range(&cs, 0, q), string_from_range(&cs, q + 1, n))
    } else {
        (string_from_range(&cs, 0, n), String::new())
    };
    let r = if path == String::from_str("/") || path == String::from_str("/index.html") {
        Route::Index
    } else if path == String::from_str("/api/announcements") {
        Route::Announcements
    } else if path == String::from_str("/api/file") {
        Route::File
    } else {
        Route::NotFound
    };
    (r, query)
}

/// A number parameter as the search reads it: the parsed value, or `default` when the
/// parameter is absent or is not a `u32`.
pub open spec fn number_param(v: Option<Seq<char>>, default: nat) -> nat {
    match v {
        Some(t) => match unsigned_value(t) {
            Some(n) => if n <= u32::MAX {
                n
            } else {
                default
            },
            None => default,
        },
        None => default,
    }
}

/// The page a search asks for: `page`, else 1, and at least 1.
pub open spec fn search_page(q: Seq<(Seq<char>, Seq<char>)>) -> nat {
    let p = number_param(param_spec(q, "page"@), 1);
    if p < 1 {
        1
    } else {
        p
    }
}

/// The page size a search asks for: `pageSize`, else 10, clamped to 1..=100.
pub open spec fn search_page_size(q: Seq<(Seq<char>, Seq<char>)>) -> nat {
    let p = number_param(param_spec(q, "pageSize"@), 10);
    if p < 1 {
        1
    } else if p > 100 {
        100
    } else {
        p
    }
}

/// A text parameter of a search: trimmed, or `default` when absent or blank.
pub open spec fn text_param(
    q: Seq<(Seq<char>, Seq<char>)>,
    key: Seq<char>,
    default: Seq<char>,
) -> Seq<char> {
    match non_empty_spec(param_spec(q, key)) {
        Some(t) => t,
        None => default,
    }
}

/// A date parameter of a search: its eight digits, or `default`.
pub open spec fn date_param(
    q: Seq<(Seq<char>, Seq<char>)>,
    key: Seq<char>,
    default: Seq<char>,
) -> Seq<char> {
    match compact_date_spec(param_spec(q, key)) {
        Some(t) => t,
        None => default,
    }
}

fn number_or(v: Option<&str>, default: u32) -> (res: u32)
    ensures
        res == number_param(opt_str_view(v), default as nat),
{
    match v {
        Some(t) => match parse_u32(t) {
            Some(n) => n,
            None => default,
        },
        None => default,
    }
}

/// The API query a search of the UI makes when today is `today`, with the page and page
/// size it was answered for; `None` where `(page - 1) * page_size` leaves `u32` (the
/// inputs on which the search panics).
pub fn search_params(query: &[(String, String)], today: (i32, u32, u32)) -> (res: Option<
    (QueryParams, u32, u32),
>)
    ensures
        ({
            let q = pairs_view(query@);
            let page = search_page(q);
            let size = search_page_size(q);
            match res {
                Some((p, pg, sz)) => {
                    &&& pg == page && sz == size
                    &&& (page - 1) * size <= u32::MAX
                    &&& p.index_from == (page - 1) * size
                    &&& p.page_size == size
                    &&& opt_string_view(p.ticker) == non_empty_spec(param_spec(q, "ticker"@))
                    &&& opt_string_view(p.keyword) == non_empty_spec(param_spec(q, "keyword"@))
                    &&& p.emiten_type@ == text_param(q, "type"@, seq!['*'])
                    &&& p.date_from@ == date_param(q, "dateFrom"@, history_start())
                    &&& p.date_to@ == date_param(
                        q,
                        "dateTo"@,
                        compact_ymd(today.0 as int, today.1 as nat, today.2 as nat),
                    )
                    &&& p.lang@ == text_param(q, "lang"@, seq!['i', 'd'])
                },
                None => (page - 1) * size > u32::MAX,
            }
        }),
{
    proof {
        reveal_strlit("*");
        reveal_strlit("id");
        reveal_strlit("19010101");
    }
    let raw_page = number_or(param(query, "page"), 1);
    let page: u32 = if raw_page < 1 {
        1
    } else {
        raw_page
    };
    let raw_size = number_or(param(query, "pageSize"), 10);
    let page_size: u32 = if raw_size < 1 {
        1
    } else if raw_size > 100 {
        100
    } else {
        raw_size
    };
    let index_from = match (page - 1).checked_mul(page_size) {
        Some(v) => v,
        None => {
            return None;
        },
    };
    let emiten_type = match non_empty(param(query, "type")) {
        Some(t) => t,
        None => String::from_str("*"),
    };
    let date_from = match compact_date(param(query, "dateFrom")) {
        Some(t) => t,
        None => String::from_str("19010101"),
    };
    let date_to = match compact_date(param(query, "dateTo")) {
        Some(t) => t,
        None => format_compact_date(today.0, today.1, today.2),
    };
    let lang = match non_empty(param(query, "lang")) {
        Some(t) => t,
        None => String::from_str("id"),
    };
    let params = QueryParams {
        ticker: non_empty(param(query, "ticker")),
        keyword: non_empty(param(query, "keyword")),
        emiten_type,
        date_from,
        date_to,
        index_from,
        page_size,
        lang,
    };
    Some((params, page, page_size))
}

/// The API query of a search of the UI, with today's local date as the default end.
pub fn search_params_today(query: &[(String, String)]) -> (res: Option<(QueryParams, u32, u32)>)
    ensures
        ({
            let q = pairs_view(query@);
            let page = search_page(q);
            let size = search_page_size(q);
            match res {
                Some((p, pg, sz)) => {
                    &&& pg == page && sz == size
                    &&& p.index_from == (page - 1) * size
                    &&& p.page_size == size
                    &&& opt_string_view(p.ticker) == non_empty_spec(param_spec(q, "ticker"@))
                    &&& opt_string_view(p.keyword) == non_empty_spec(param_spec(q, "keyword"@))
                    &&& p.emiten_type@ == text_param(q, "type"@, seq!['*'])
                    &&& p.date_from@ == date_param(q, "dateFrom"@, history_start())
                    &&& exists|y: i32, m: u32, d: u32|
                        1 <= m <= 12 && 1 <= d <= 31 && p.date_to@ == date_param(
                            q,
                            "dateTo"@,
                            #[trigger] compact_ymd(y as int, m as nat, d as nat),
                        )
                    &&& p.lang@ == text_param(q, "lang"@, seq!['i', 'd'])
                },
                None => (page - 1) * size > u32::MAX,
            }
        }),
{
    let today = local_today();
    let res = search_params(query, today);
    proof {
        let c = compact_ymd(today.0 as int, today.1 as nat, today.2 as nat);
    }
    res
}


/// The only host the file proxy fetches from.
pub const IDX_PREFIX: &'static str = "https://www.idx.co.id/";

/// `s` begins with `prefix`.
pub open spec fn starts_with(s: Seq<char>, prefix: Seq<char>) -> bool {
    prefix.len() <= s.len() && s.take(prefix.len() as int) == prefix
}

/// Why the file proxy refused a request.
#[derive(Debug, Clone, Copy, PartialEq, Eq, Structural)]
pub enum ProxyError {
    /// No `url` parameter.
    MissingUrl,
    /// The URL is outside `IDX_PREFIX`.
    ForeignUrl,
}

impl ProxyError {
    /// The error's message.
    pub fn message(&self) -> (res: String)
        ensures
            match self {
                ProxyError::MissingUrl => res@ == "missing url parameter"@,
                ProxyError::ForeignUrl => res@ == "refusing to proxy a URL outside "@
                    + IDX_PREFIX@,
            },
    {
        match self {
            ProxyError::MissingUrl => String::from_str("missing url parameter"),
            ProxyError::ForeignUrl => {
                let mut m = String::from_str("refusing to proxy a URL outside ");
                m.append(IDX_PREFIX);
                m
            },
        }
    }
}

pub(crate) fn has_prefix(s: &str, prefix: &str) -> (res: bool)
    ensures
        res == starts_with(s@, prefix@),
{
    let a = chars_of(s);
    let b = chars_of(prefix);
    if b.len() > a.len() {
        return false;
    }
    let mut i: usize = 0;
    while i < b.len()
        invariant
            a@ == s@,
            b@ == prefix@,
            b@.len() <= a@.len(),
            i <= b@.len(),
            forall|j: int| 0 <= j < i ==> a@[j] == b@[j],
        decreases b.len() - i,
    {
        if a[i] != b[i] {
            assert(s@.take(prefix@.len() as int)[i as int] != prefix@[i as int]);
            return false;
        }
        i = i + 1;
    }
    assert(s@.take(prefix@.len() as int) == prefix@);
    true
}

/// What the file proxy makes of a request's pairs: its `url` parameter when that lies
/// under `IDX_PREFIX`, else why it refuses.
pub open spec fn proxy_target_spec(q: Seq<(Seq<char>, Seq<char>)>) -> Result<Seq<char>, ProxyError> {
    match param_spec(q, "url"@) {
        None => Err(ProxyError::MissingUrl),
        Some(u) => if starts_with(u, IDX_PREFIX@) {
            Ok(u)
        } else {
            Err(ProxyError::ForeignUrl)
        },
    }
}

/// The URL that the file proxy may fetch for a request: its `url` parameter, which must
/// lie under `IDX_PREFIX`, so the proxy cannot be used to reach other hosts.
pub fn proxy_target<'a>(query: &'a [(String, String)]) -> (res: Result<&'a str, ProxyError>)
    ensures
        match proxy_target_spec(pairs_view(query@)) {
            Ok(u) => res matches Ok(t) && t@ == u,
            Err(e) => res == Err::<&str, ProxyError>(e),
        },
{
    match param(query, "url") {
        None => Err(ProxyError::MissingUrl),
        Some(u) => if has_prefix(u, IDX_PREFIX) {
            Ok(u)
        } else {
            Err(ProxyError::ForeignUrl)
        },
    }
}

/// Whatever the request, the proxy fetches only URLs that begin with `IDX_PREFIX`; a
/// request whose `url` lies elsewhere is refused as foreign.
pub proof fn proxy_only_reaches_idx(query: Seq<(Seq<char>, Seq<char>)>)
    ensures
        proxy_target_spec(query) matches Ok(u) ==> u.len() >= IDX_PREFIX@.len() && u.take(
            IDX_PREFIX@.len() as int,
        ) == IDX_PREFIX@,
        param_spec(query, "url"@) matches Some(u) && !starts_with(u, IDX_PREFIX@)
            ==> proxy_target_spec(query) == Err::<Seq<char>, ProxyError>(ProxyError::ForeignUrl),
{
}

/// The head of a response: status line, content type and length, and `Connection: close`.
pub open spec fn response_head_spec(status: Seq<char>, content_type: Seq<char>, len: nat) -> Seq<
    char,
> {
    "HTTP/1.1 "@ + status + "\r\nContent-Type: "@ + content_type + "\r\nContent-Length: "@
        + decimal(len) + "\r\nConnection: close\r\n\r\n"@
}

/// The head of a response with `body_len` bytes of body.
pub fn response_head(status: &str, content_type: &str, body_len: usize) -> (res: String)
    ensures
        res@ == response_head_spec(status@, content_type@, body_len as nat),
{
    let mut h = String::from_str("HTTP/1.1 ");
    h.append(status);
    h.append("\r\nContent-Type: ");
    h.append(content_type);
    h.append("\r\nContent-Length: ");
    h.append(decimal_string(body_len as u64).as_str());
    h.append("\r\nConnection: close\r\n\r\n");
    h
}

/// How many bytes of request head the server reads at most.
pub const MAX_REQUEST_BYTES: usize = 8192;

/// `buf` holds an empty line (`\r\n\r\n`) somewhere.
pub open spec fn has_blank_line(buf: Seq<u8>) -> bool {
    exists|i: int|
        0 <= i && i + 4 <= buf.len() && #[trigger] buf[i] == 13 && buf[i + 1] == 10 && buf[i + 2]
            == 13 && buf[i + 3] == 10
}

/// The server has read enough of a request: the head is complete, or too long to go on.
pub fn head_complete(buf: &[u8]) -> (res: bool)
    ensures
        res == (has_blank_line(buf@) || buf@.len() > MAX_REQUEST_BYTES),
{
    let n = buf.len();
    let mut i: usize = 0;
    while n >= 4 && i <= n - 4
        invariant
            n == buf@.len(),
            forall|j: int|
                0 <= j < i && j + 4 <= n ==> !(#[trigger] buf@[j] == 13 && buf@[j + 1] == 10
                    && buf@[j + 2] == 13 && buf@[j + 3] == 10),
        decreases n - i,
    {
        if buf[i] == 13 && buf[i + 1] == 10 && buf[i + 2] == 13 && buf[i + 3] == 10 {
            return true;
        }
        i = i + 1;
    }
    n > MAX_REQUEST_BYTES
}


/// The first line of `h` as `str::lines` yields it: up to the first `\n`, without a `\r`
/// just before it; `None` for empty text.
pub open spec fn first_line(h: Seq<char>) -> Option<Seq<char>> {
    if h.len() == 0 {
        None
    } else {
        let i = first_index_of(h, '\n');
        if i < h.len() {
            let l = h.take(i);
            if l.len() > 0 && l.last() == '\r' {
                Some(l.drop_last())
            } else {
                Some(l)
            }
        } else {
            Some(h)
        }
    }
}

/// Where the first white space of `s` is (its length when there is none).
pub open spec fn first_space_index(s: Seq<char>) -> int
    decreases s.len(),
{
    if s.len() == 0 {
        0
    } else if is_white_space(s[0]) {
        0
    } else {
        1 + first_space_index(s.drop_first())
    }
}

/// The first white-space separated word of `s` (as `split_whitespace` yields it) and what
/// follows it; `None` when `s` is blank.
pub open spec fn first_word(s: Seq<char>) -> Option<(Seq<char>, Seq<char>)> {
    let t = trim_start_seq(s);
    if t.len() == 0 {
        None
    } else {
        let k = first_space_index(t);
        Some((t.take(k), t.skip(k)))
    }
}

/// The target of a `GET` request line: the second word of the first line of the head
/// (read as lossy UTF-8), when the first word is `GET`.
pub open spec fn request_target_spec(head: Seq<char>) -> Option<Seq<char>> {
    match first_line(head) {
        None => None,
        Some(line) => match first_word(line) {
            None => None,
            Some((method, rest)) => match first_word(rest) {
                None => None,
                Some((target, _)) => if method == "GET"@ {
                    Some(target)
                } else {
                    None
                },
            },
        },
    }
}

/// Where the first word of `cs[from..to]` lies, as `(start, end)`; `None` when that
/// stretch is blank.
fn word_bounds(cs: &Vec<char>, from: usize, to: usize) -> (res: Option<(usize, usize)>)
    requires
        from <= to <= cs@.len(),
    ensures
        match (res, first_word(cs@.subrange(from as int, to as int))) {
            (Some((a, b)), Some((w, rest))) => from <= a < b <= to && cs@.subrange(
                a as int,
                b as int,
            ) == w && cs@.subrange(b as int, to as int) == rest,
            (None, None) => true,
            _ => false,
        },
{
    let ghost s = cs@.subrange(from as int, to as int);
    let mut a = from;
    while a < to && white_space(cs[a])
        invariant
            from <= a <= to <= cs@.len(),
            s == cs@.subrange(from as int, to as int),
            trim_start_seq(s) == trim_start_seq(cs@.subrange(a as int, to as int)),
        decreases to - a,
    {
        assert(cs@.subrange(a as int, to as int).drop_first() == cs@.subrange(a + 1, to as int));
        a = a + 1;
    }
    let ghost t = cs@.subrange(a as int, to as int);
    assert(trim_start_seq(t) == t);
    if a == to {
        return None;
    }
    let mut b = a;
    while b < to && !white_space(cs[b])
        invariant
            a <= b <= to <= cs@.len(),
            t == cs@.subrange(a as int, to as int),
            first_space_index(t) == (b - a) + first_space_index(cs@.subrange(b as int, to as int)),
        decreases to - b,
    {
        assert(cs@.subrange(b as int, to as int).drop_first() == cs@.subrange(b + 1, to as int));
        b = b + 1;
    }
    assert(t.take(b - a) == cs@.subrange(a as int, b as int));
    assert(t.skip(b - a) == cs@.subrange(b as int, to as int));
    if b == a {
        assert(is_white_space(t[0]));
        assert(trim_start_seq(t) != t);
    }
    Some((a, b))
}

/// The target of a request whose head so far is `buf`, when it is a well-formed `GET`.
pub fn request_target(buf: &[u8]) -> (res: Option<String>)
    ensures
        opt_string_view(res) == request_target_spec(utf8_lossy(buf@)),
        vstd::utf8::valid_utf8(buf@) ==> opt_string_view(res) == request_target_spec(
            vstd::utf8::decode_utf8(buf@),
        ),
{
    proof {
        reveal_strlit("GET");
    }
    let head = string_from_utf8_lossy(buf);
    let cs = chars_of(head.as_str());
    let n = cs.len();
    if n == 0 {
        return None;
    }
    let nl = find_char(&cs, 0, n, '\n');
    assert(cs@.subrange(0, n as int) == cs@);
    let end: usize = if nl < n {
        if nl > 0 && cs[nl - 1] == '\r' {
            nl - 1
        } else {
            nl
        }
    } else {
        n
    };
    let ghost line = cs@.subrange(0, end as int);
    assert(first_line(cs@) == Some(line)) by {
        if nl < n {
            assert(cs@.take(nl as int) == cs@.subrange(0, nl as int));
            if nl > 0 && cs@[nl - 1] == '\r' {
                assert(cs@.take(nl as int).drop_last() == line);
            }
        }
    }
    let (ma, mb) = match word_bounds(&cs, 0, end) {
        Some(w) => w,
        None => {
            return None;
        },
    };
    let (ta, tb) = match word_bounds(&cs, mb, end) {
        Some(w) => w,
        None => {
            return None;
        },
    };
    let method = string_from_range(&cs, ma, mb);
    if method == String::from_str("GET") {
        Some(string_from_range(&cs, ta, tb))
    } else {
        None
    }
}


/// The key and value halves of the piece `cs[from..to]` as strings.
fn piece_halves(cs: &Vec<char>, from: usize, to: usize) -> (res: (String, String))
    requires
        from <= to <= cs@.len(),
    ensures
        res.0@ == key_value(cs@.subrange(from as int, to as int)).0,
        res.1@ == key_value(cs@.subrange(from as int, to as int)).1,
{
    let ghost p = cs@.subrange(from as int, to as int);
    let eq = find_char(cs, from, to, '=');
    if eq < to - from {
        let k = string_from_range(cs, from, from + eq);
        let v = string_from_range(cs, from + eq + 1, to);
        assert(k@ == p.take(eq as int));
        assert(v@ == p.skip(eq + 1));
        (k, v)
    } else {
        (string_from_range(cs, from, to), String::new())
    }
}

fn piece_splits(cs: &Vec<char>, from: usize, to: usize) -> (res: bool)
    requires
        from <= to <= cs@.len(),
    ensures
        res == (decoding_splits(key_value(cs@.subrange(from as int, to as int)).0)
            || decoding_splits(key_value(cs@.subrange(from as int, to as int)).1)),
{
    let (k, v) = piece_halves(cs, from, to);
    percent_decode_splits(k.as_str()) || percent_decode_splits(v.as_str())
}

/// Whether decoding some key or value of the query string `qs` would cut a character
/// (where `parse_query` does not apply).
pub fn query_decoding_splits(qs: &str) -> (res: bool)
    ensures
        res == query_splits_char(qs@),
{
    let cs = chars_of(qs);
    let n = cs.len();
    let mut start: usize = 0;
    let mut i: usize = 0;
    proof {
        assert(cs@.take(0) == Seq::<char>::empty());
    }
    while i < n
        invariant
            cs@ == qs@,
            n == cs@.len(),
            start <= i <= n,
            split_pieces(cs@.take(i as int), '&').last() == cs@.subrange(start as int, i as int),
            forall|j: int|
                0 <= j < split_pieces(cs@.take(i as int), '&').len() - 1 && (#[trigger] split_pieces(
                    cs@.take(i as int),
                    '&',
                )[j]).len() > 0 ==> !decoding_splits(
                    key_value(split_pieces(cs@.take(i as int), '&')[j]).0,
                ) && !decoding_splits(key_value(split_pieces(cs@.take(i as int), '&')[j]).1),
        decreases n - i,
    {
        let ghost before = split_pieces(cs@.take(i as int), '&');
        proof {
            assert(cs@.take(i + 1).drop_last() == cs@.take(i as int));
            lemma_split_pieces_nonempty(cs@.take(i as int), '&');
        }
        if cs[i] == '&' {
            proof {
                lemma_split_pieces_prefix(cs@, '&', i + 1);
            }
            assert(split_pieces(cs@.take(i + 1), '&') == before.push(Seq::empty()));
            if start < i && piece_splits(&cs, start, i) {
                proof {
                    let k = before.len() - 1;
                    assert(split_pieces(cs@.take(i + 1), '&').drop_last() == before);
                    assert(split_pieces(cs@, '&')[k] == before[k]);
                    assert(split_pieces(cs@, '&')[k].len() > 0);
                }
                return true;
            }
            i = i + 1;
            start = i;
            assert(cs@.subrange(start as int, i as int) == Seq::<char>::empty());
        } else {
            assert(cs@.subrange(start as int, i + 1) == cs@.subrange(start as int, i as int).push(
                cs@[i as int],
            ));
            assert(split_pieces(cs@.take(i + 1), '&').drop_last() == before.drop_last());
            i = i + 1;
        }
    }
    proof {
        assert(cs@.take(n as int) == cs@);
        lemma_split_pieces_nonempty(cs@, '&');
    }
    let ghost all = split_pieces(cs@, '&');
    if start < n && piece_splits(&cs, start, n) {
        assert(all[all.len() - 1].len() > 0);
        return true;
    }
    assert forall|j: int|
        0 <= j < all.len() && (#[trigger] all[j]).len() > 0 implies !decoding_splits(
        key_value(all[j]).0,
    ) && !decoding_splits(key_value(all[j]).1) by {
        if j < all.len() - 1 {
        } else {
            assert(all[j] == cs@.subrange(start as int, n as int));
        }
    }
    false
}

} // verus!

verus! {

proof fn lemma_ascii_digits_are_digits(s: Seq<char>)
    ensures
        forall|i: int|
            0 <= i < ascii_digits(s).len() ==> '0' <= #[trigger] ascii_digits(s)[i] <= '9',
    decreases s.len(),
{
    if s.len() > 0 {
        lemma_ascii_digits_are_digits(s.drop_last());
        let r = ascii_digits(s.drop_last());
        if crate::download::is_ascii_digit(s.last()) {
            assert(ascii_digits(s) == r.push(s.last()));
            assert forall|i: int| 0 <= i < ascii_digits(s).len() implies '0' <= #[trigger] ascii_digits(
                s,
            )[i] <= '9' by {
                if i < r.len() {
                    assert(ascii_digits(s)[i] == r[i]);
                }
            }
        }
    }
}

/// A date parameter that is accepted is always eight ASCII digits.
pub proof fn compact_date_is_eight_digits(value: Option<Seq<char>>)
    requires
        compact_date_spec(value) is Some,
    ensures
        compact_date_spec(value)->0.len() == 8,
        forall|i: int|
            0 <= i < 8 ==> '0' <= #[trigger] compact_date_spec(value)->0[i] <= '9',
{
    lemma_ascii_digits_are_digits(value->0);
}

/// A search always asks for a page of at least 1 and a page size between 1 and 100,
/// whatever the query holds.
pub proof fn search_paging_is_bounded(q: Seq<(Seq<char>, Seq<char>)>)
    ensures
        search_page(q) >= 1,
        1 <= search_page_size(q) <= 100,
{
}

} // verus!

verus! {

proof fn lemma_split_pieces_concat(a: Seq<char>, b: Seq<char>, sep: char)
    ensures
        split_pieces(a + seq![sep] + b, sep) == split_pieces(a, sep) + split_pieces(b, sep),
    decreases b.len(),
{
    let s = a + seq![sep] + b;
    if b.len() == 0 {
        assert(s.drop_last() == a);
        assert(split_pieces(b, sep) == seq![Seq::<char>::empty()]);
    } else {
        lemma_split_pieces_concat(a, b.drop_last(), sep);
        lemma_split_pieces_nonempty(b.drop_last(), sep);
        assert(s.drop_last() == a + seq![sep] + b.drop_last());
        assert(s.last() == b.last());
        let pa = split_pieces(a, sep);
        let pb = split_pieces(b.drop_last(), sep);
        if b.last() != sep {
            assert((pa + pb).update((pa + pb).len() - 1, (pa + pb).last().push(b.last())) == pa
                + pb.update(pb.len() - 1, pb.last().push(b.last())));
        } else {
            assert((pa + pb).push(Seq::<char>::empty()) == pa + pb.push(Seq::<char>::empty()));
        }
    }
}

proof fn lemma_query_pairs_concat(p: Seq<Seq<char>>, q: Seq<Seq<char>>)
    ensures
        query_pairs_of(p + q) == query_pairs_of(p) + query_pairs_of(q),
    decreases q.len(),
{
    if q.len() == 0 {
        assert(p + q == p);
    } else {
        lemma_query_pairs_concat(p, q.drop_last());
        assert((p + q).drop_last() == p + q.drop_last());
        assert((p + q).last() == q.last());
    }
}

/// A query joined from two parts with `&` reads as the pairs of the first part followed
/// by those of the second: order and repeated keys are kept.
pub proof fn joined_query_parses_to_both_parts(a: Seq<char>, b: Seq<char>)
    ensures
        parse_query_spec(a + seq!['&'] + b) == parse_query_spec(a) + parse_query_spec(b),
{
    lemma_split_pieces_concat(a, b, '&');
    lemma_query_pairs_concat(split_pieces(a, '&'), split_pieces(b, '&'));
}

/// A piece without `&` reads as no pair when empty, else as the one pair of its decoded
/// key and value, split at its first `=`.
pub proof fn one_piece_query(g: Seq<char>)
    requires
        !g.contains('&'),
    ensures
        parse_query_spec(g) == if g.len() == 0 {
            Seq::<(Seq<char>, Seq<char>)>::empty()
        } else {
            seq![(decoded_text(key_value(g).0), decoded_text(key_value(g).1))]
        },
    decreases g.len(),
{
    lemma_one_piece(g);
    assert(seq![g].drop_last() == Seq::<Seq<char>>::empty());
    assert(seq![g].last() == g);
    assert(query_pairs_of(Seq::<Seq<char>>::empty()) == Seq::<(Seq<char>, Seq<char>)>::empty());
    if g.len() > 0 {
        assert(Seq::<(Seq<char>, Seq<char>)>::empty().push(
            (decoded_text(key_value(g).0), decoded_text(key_value(g).1)),
        ) == seq![(decoded_text(key_value(g).0), decoded_text(key_value(g).1))]);
    }
}

proof fn lemma_one_piece(g: Seq<char>)
    requires
        !g.contains('&'),
    ensures
        split_pieces(g, '&') == seq![g],
    decreases g.len(),
{
    if g.len() > 0 {
        assert(!g.drop_last().contains('&')) by {
            if g.drop_last().contains('&') {
                let j = choose|j: int| 0 <= j < g.drop_last().len() && g.drop_last()[j] == '&';
                assert(g[j] == '&');
            }
        }
        lemma_one_piece(g.drop_last());
        assert(g[g.len() - 1] != '&');
        assert(g.drop_last().push(g.last()) == g);
        let p = seq![g.drop_last()];
        assert(p.update(p.len() - 1, p.last().push(g.last())) == seq![g]);
    } else {
        assert(g == Seq::<char>::empty());
    }
}

} // verus!

verus! {

/// How a request is answered: its status line, its content type, and its body where the
/// answer fixes it (`None` where the body is the page, the search's JSON, the file, or
/// the error's text). `route` is `None` for a request that is not a well-formed GET;
/// `served` says whether the search or the file fetch succeeded.
pub open spec fn answer_spec(route: Option<Route>, served: bool) -> (
    Seq<char>,
    Seq<char>,
    Option<Seq<char>>,
) {
    match route {
        None => ("400 Bad Request"@, "text/plain"@, Some("bad request"@)),
        Some(Route::Index) => ("200 OK"@, "text/html; charset=utf-8"@, None),
        Some(Route::Announcements) => if served {
            ("200 OK"@, "application/json"@, None)
        } else {
            ("502 Bad Gateway"@, "application/json"@, None)
        },
        Some(Route::File) => if served {
            ("200 OK"@, "application/pdf"@, None)
        } else {
            ("502 Bad Gateway"@, "text/plain"@, None)
        },
        Some(Route::NotFound) => ("404 Not Found"@, "text/plain"@, Some("not found"@)),
    }
}

/// The status line, content type and (where fixed) body that answer a request on
/// `route` (`None`: not a well-formed GET), the search or file fetch having `served` or
/// not.
pub fn answer(route: Option<Route>, served: bool) -> (res: (
    &'static str,
    &'static str,
    Option<&'static str>,
))
    ensures
        res.0@ == answer_spec(route, served).0,
        res.1@ == answer_spec(route, served).1,
        opt_str_view(res.2) == answer_spec(route, served).2,
{
    match route {
        None => ("400 Bad Request", "text/plain", Some("bad request")),
        Some(Route::Index) => ("200 OK", "text/html; charset=utf-8", None),
        Some(Route::Announcements) => if served {
            ("200 OK", "application/json", None)
        } else {
            ("502 Bad Gateway", "application/json", None)
        },
        Some(Route::File) => if served {
            ("200 OK", "application/pdf", None)
        } else {
            ("502 Bad Gateway", "text/plain", None)
        },
        Some(Route::NotFound) => ("404 Not Found", "text/plain", Some("not found")),
    }
}

} // verus!

verus! {

/// The proxy accepts every `url` under `IDX_PREFIX` as it is, whatever its length, and
/// refuses only a missing `url` or one elsewhere.
pub proof fn every_idx_url_is_proxied(q: Seq<(Seq<char>, Seq<char>)>, u: Seq<char>)
    ensures
        param_spec(q, "url"@) == Some(u) && u.len() >= IDX_PREFIX@.len() && u.take(
            IDX_PREFIX@.len() as int,
        ) == IDX_PREFIX@ ==> proxy_target_spec(q) == Ok::<Seq<char>, ProxyError>(u),
        param_spec(q, "url"@) is None ==> proxy_target_spec(q) == Err::<Seq<char>, ProxyError>(
            ProxyError::MissingUrl,
        ),
{
}

} // verus!
