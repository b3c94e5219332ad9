//! The JavaScript that the browser transport runs inside its tab: one call of the
//! announcement endpoint, or a batch of file fetches. Strings are embedded as JSON
//! literals, so they cannot break out of the script.

use vstd::prelude::*;

use crate::api::{filter_text, QueryParams};
use crate::text::{decimal, decimal_string};

verus! {

/// The lower-case hexadecimal digit for `n` in `0..16`.
pub open spec fn hex_digit(n: int) -> char {
    seq!['0', '1', '2', '3', '4', '5', '6', '7', '8', '9', 'a', 'b', 'c', 'd', 'e', 'f'][n]
}

/// How serde_json writes one character inside a string literal: `"` and `\` behind a
/// backslash, backspace, tab, line feed, form feed and carriage return as `\b`, `\t`,
/// `\n`, `\f`, `\r`, any other character below U+0020 as `\u00` and two lower-case hex
/// digits, and every other character as itself.
pub open spec fn json_escaped_char(c: char) -> Seq<char> {
    if c == '"' {
        seq!['\\', '"']
    } else if c == '\\' {
        seq!['\\', '\\']
    } else if c == '\u{8}' {
        seq!['\\', 'b']
    } else if c == '\t' {
        seq!['\\', 't']
    } else if c == '\n' {
        seq!['\\', 'n']
    } else if c == '\u{c}' {
        seq!['\\', 'f']
    } else if c == '\r' {
        seq!['\\', 'r']
    } else if (c as int) < 0x20 {
        seq!['\\', 'u', '0', '0', hex_digit((c as int) / 16), hex_digit((c as int) % 16)]
    } else {
        seq![c]
    }
}

/// What `serde_json::to_string` makes of a string: the JSON string literal for `text`,
/// each character written as `json_escaped_char` writes it, between double quotes.
pub open spec fn json_string(text: Seq<char>) -> Seq<char> {
    seq!['"'] + text.map_values(|c: char| json_escaped_char(c)).flatten() + seq!['"']
}

/// Trusted: `serde_json::to_string` on a `&str`. As serde_json's `format_escaped_str`
/// and its `ESCAPE` table show, the result is `json_string`; serializing a string into
/// memory cannot fail.
#[verifier::external_body]
fn json_encode_str(text: &str) -> (res: String)
    ensures
        res@ == json_string(text@),
{
    serde_json::to_string(text).expect("string serialization cannot fail")
}

/// `items` joined by `,`.
pub open spec fn joined_by_comma(items: Seq<Seq<char>>) -> Seq<char>
    decreases items.len(),
{
    if items.len() == 0 {
        Seq::empty()
    } else if items.len() == 1 {
        items[0]
    } else {
        joined_by_comma(items.drop_last()) + seq![','] + items.last()
    }
}

/// The JSON array of the string literals of `texts`, as serde_json's compact serializer
/// writes a sequence: `[`, the elements separated by `,`, `]`.
pub open spec fn json_string_array(texts: Seq<Seq<char>>) -> Seq<char> {
    seq!['['] + joined_by_comma(texts.map_values(|t: Seq<char>| json_string(t))) + seq![']']
}

/// The texts of a list of strings.
pub open spec fn texts_of(v: Seq<String>) -> Seq<Seq<char>> {
    v.map_values(|s: String| s@)
}

/// Trusted: `serde_json::to_string` on a slice of strings. As serde_json's compact
/// serializer shows, that is `[`, each element serialized as `to_string` serializes a
/// string, separated by `,`, then `]`; it cannot fail.
#[verifier::external_body]
fn json_encode_strs(texts: &[String]) -> (res: String)
    ensures
        res@ == json_string_array(texts_of(texts@)),
{
    serde_json::to_string(texts).expect("string serialization cannot fail")
}

/// The JavaScript string literal that embeds `s` (its JSON form).
pub fn js_string(s: &str) -> (res: String)
    ensures
        res@ == json_string(s@),
{
    json_encode_str(s)
}

pub const BATCH_HEAD: &'static str = "(async () => {\n            const urls = ";

pub const BATCH_TAIL: &'static str = ";\n            return await Promise.all(urls.map(async (url) => {\n                try {\n                    const res = await fetch(url, { credentials: 'include' });\n                    if (!res.ok) { return { url, error: 'HTTP ' + res.status }; }\n                    const buf = await res.arrayBuffer();\n                    const bytes = new Uint8Array(buf);\n                    let binary = '';\n                    const chunkSize = 0x8000;\n                    for (let i = 0; i < bytes.length; i += chunkSize) {\n                        binary += String.fromCharCode.apply(null, bytes.subarray(i, i + chunkSize));\n                    }\n                    return { url, base64: btoa(binary) };\n                } catch (e) {\n                    return { url, error: String(e) };\n                }\n            }));\n        })()";

/// The script that fetches every one of `urls` in the tab (with its cookies) and answers,
/// per URL, either its body in base64 or an error.
pub open spec fn batch_script_spec(urls: Seq<Seq<char>>) -> Seq<char> {
    BATCH_HEAD@ + json_string_array(urls) + BATCH_TAIL@
}

/// The batch-download script for `urls`.
pub fn batch_script(urls: &[String]) -> (res: String)
    ensures
        res@ == batch_script_spec(texts_of(urls@)),
{
    let mut s = String::from_str(BATCH_HEAD);
    let json = json_encode_strs(urls);
    s.append(json.as_str());
    s.append(BATCH_TAIL);
    s
}

pub const ANNOUNCEMENT_PARTS_0: &'static str = "(async () => {\n            const qs = new URLSearchParams({\n                kodeEmiten: ";

pub const ANNOUNCEMENT_PARTS_1: &'static str = ",\n                emitenType: ";

pub const ANNOUNCEMENT_PARTS_2: &'static str = ",\n                indexFrom: ";

pub const ANNOUNCEMENT_PARTS_3: &'static str = ",\n                pageSize: ";

pub const ANNOUNCEMENT_PARTS_4: &'static str = ",\n                dateFrom: ";

pub const ANNOUNCEMENT_PARTS_5: &'static str = ",\n                dateTo: ";

pub const ANNOUNCEMENT_PARTS_6: &'static str = ",\n                lang: ";

pub const ANNOUNCEMENT_PARTS_7: &'static str = ",\n                keyword: ";

pub const ANNOUNCEMENT_PARTS_8: &'static str = "\n            });\n            const res = await fetch('https://www.idx.co.id/primary/ListedCompany/GetAnnouncement?' + qs.toString(), { credentials: 'include' });\n            if (!res.ok) { throw new Error('IDX API HTTP ' + res.status); }\n            return await res.json();\n        })()";

/// The script that calls the announcement endpoint from the tab for `p`: the text filters
/// as JSON string literals, the paging numbers in decimal.
pub open spec fn announcement_script_spec(p: QueryParams) -> Seq<char> {
    ANNOUNCEMENT_PARTS_0@ + json_string(filter_text(p.ticker)) + ANNOUNCEMENT_PARTS_1@
        + json_string(p.emiten_type@) + ANNOUNCEMENT_PARTS_2@ + decimal(p.index_from as nat)
        + ANNOUNCEMENT_PARTS_3@ + decimal(p.page_size as nat) + ANNOUNCEMENT_PARTS_4@
        + json_string(p.date_from@) + ANNOUNCEMENT_PARTS_5@ + json_string(p.date_to@)
        + ANNOUNCEMENT_PARTS_6@ + json_string(p.lang@) + ANNOUNCEMENT_PARTS_7@ + json_string(
        filter_text(p.keyword),
    ) + ANNOUNCEMENT_PARTS_8@
}

fn js_filter(v: &Option<String>) -> (res: String)
    ensures
        res@ == json_string(filter_text(*v)),
{
    match v {
        Some(s) => js_string(s.as_str()),
        None => {
            proof {
                reveal_strlit("");
            }
            assert(""@ == Seq::<char>::empty());
            js_string("")
        },
    }
}

/// The announcement-endpoint script for `params`.
pub fn announcement_script(params: &QueryParams) -> (res: String)
    ensures
        res@ == announcement_script_spec(*params),
{
    let mut s = String::from_str(ANNOUNCEMENT_PARTS_0);
    s.append(js_filter(&params.ticker).as_str());
    s.append(ANNOUNCEMENT_PARTS_1);
    s.append(js_string(params.emiten_type.as_str()).as_str());
    s.append(ANNOUNCEMENT_PARTS_2);
    s.append(decimal_string(params.index_from as u64).as_str());
    s.append(ANNOUNCEMENT_PARTS_3);
    s.append(decimal_string(params.page_size as u64).as_str());
    s.append(ANNOUNCEMENT_PARTS_4);
    s.append(js_string(params.date_from.as_str()).as_str());
    s.append(ANNOUNCEMENT_PARTS_5);
    s.append(js_string(params.date_to.as_str()).as_str());
    s.append(ANNOUNCEMENT_PARTS_6);
    s.append(js_string(params.lang.as_str()).as_str());
    s.append(ANNOUNCEMENT_PARTS_7);
    s.append(js_filter(&params.keyword).as_str());
    s.append(ANNOUNCEMENT_PARTS_8);
    s
}

} // verus!

verus! {

/// `c` is written as itself inside a JSON string literal.
pub open spec fn is_plain_json_char(c: char) -> bool {
    c != '"' && c != '\\' && (c as int) >= 0x20
}

/// A text of plain characters (no double quote, backslash or control character) is
/// embedded as it is, between double quotes.
pub proof fn plain_text_is_embedded_as_is(text: Seq<char>)
    requires
        forall|i: int| 0 <= i < text.len() ==> is_plain_json_char(#[trigger] text[i]),
    ensures
        json_string(text) == seq!['"'] + text + seq!['"'],
    decreases text.len(),
{
    lemma_plain_flatten(text);
}

proof fn lemma_plain_flatten(text: Seq<char>)
    requires
        forall|i: int| 0 <= i < text.len() ==> is_plain_json_char(#[trigger] text[i]),
    ensures
        text.map_values(|c: char| json_escaped_char(c)).flatten() == text,
    decreases text.len(),
{
    if text.len() > 0 {
        let m = text.map_values(|c: char| json_escaped_char(c));
        assert(m.drop_first() == text.drop_first().map_values(|c: char| json_escaped_char(c)));
        assert(is_plain_json_char(text[0]));
        assert(m[0] == seq![text[0]]);
        lemma_plain_flatten(text.drop_first());
        assert(seq![text[0]] + text.drop_first() == text);
    } else {
        assert(text.map_values(|c: char| json_escaped_char(c)) == Seq::<Seq<char>>::empty());
    }
}

} // verus!
