//! The disclosure API's request parameters and reply records, and the query that a
//! request sends.

use vstd::prelude::*;

use crate::server::param_spec;
use crate::text::{decimal, decimal_string, trim, trim_seq};

verus! {

/// Filters and paging for one call of the announcement endpoint.
#[derive(Debug, Clone)]
pub struct QueryParams {
    pub ticker: Option<String>,
    pub keyword: Option<String>,
    /// "*", "s", "o", "etf", "dd" or "eba"
    pub emiten_type: String,
    /// YYYYMMDD
    pub date_from: String,
    /// YYYYMMDD
    pub date_to: String,
    pub index_from: u32,
    pub page_size: u32,
    pub lang: String,
}

impl Default for QueryParams {
    /// No ticker or keyword, every security type, no dates, first ten results, in Indonesian.
    fn default() -> (res: Self)
        ensures
            res.ticker is None,
            res.keyword is None,
            res.emiten_type@ == seq!['*'],
            res.date_from@ == Seq::<char>::empty(),
            res.date_to@ == Seq::<char>::empty(),
            res.index_from == 0,
            res.page_size == 10,
            res.lang@ == seq!['i', 'd'],
    {
        proof {
            reveal_strlit("*");
            reveal_strlit("id");
        }
        QueryParams {
            ticker: None,
            keyword: None,
            emiten_type: String::from_str("*"),
            date_from: String::new(),
            date_to: String::new(),
            index_from: 0,
            page_size: 10,
            lang: String::from_str("id"),
        }
    }
}

/// One announcement.
#[derive(Debug, Clone)]
pub struct Pengumuman {
    pub id2: String,
    pub no_pengumuman: String,
    pub tanggal: String,
    pub judul: String,
    pub jenis: String,
    pub kode_emiten: String,
}

impl Pengumuman {
    /// The ticker, without the padding the API puts around it.
    pub fn ticker(&self) -> (res: &str)
        ensures
            res@ == trim_seq(self.kode_emiten@),
    {
        trim(self.kode_emiten.as_str())
    }
}

/// One file attached to an announcement.
#[derive(Debug, Clone)]
pub struct AttachmentInfo {
    pub filename: String,
    pub url: String,
    /// A supporting document rather than the announcement's main one.
    pub is_supporting: bool,
}

/// An announcement with its attachments.
#[derive(Debug, Clone)]
pub struct Reply {
    pub pengumuman: Pengumuman,
    pub attachments: Vec<AttachmentInfo>,
}

/// One page of the endpoint's answer.
#[derive(Debug)]
pub struct ApiResponse {
    /// How many announcements match in all.
    pub result_count: u64,
    pub replies: Vec<Reply>,
}

/// The text of an optional filter: empty when absent.
pub open spec fn filter_text(v: Option<String>) -> Seq<char> {
    match v {
        Some(s) => s@,
        None => Seq::empty(),
    }
}

/// The query of the announcement endpoint for `p`, as (name, value) pairs in the order
/// in which they are sent.
pub open spec fn announcement_query_spec(p: QueryParams) -> Seq<(Seq<char>, Seq<char>)> {
    seq![
        ("kodeEmiten"@, filter_text(p.ticker)),
        ("emitenType"@, p.emiten_type@),
        ("indexFrom"@, decimal(p.index_from as nat)),
        ("pageSize"@, decimal(p.page_size as nat)),
        ("dateFrom"@, p.date_from@),
        ("dateTo"@, p.date_to@),
        ("lang"@, p.lang@),
        ("keyword"@, filter_text(p.keyword)),
    ]
}

/// The views of a list of (name, value) pairs.
pub open spec fn pairs_view(v: Seq<(String, String)>) -> Seq<(Seq<char>, Seq<char>)> {
    v.map_values(|kv: (String, String)| (kv.0@, kv.1@))
}

fn text_of(v: &Option<String>) -> (res: String)
    ensures
        res@ == filter_text(*v),
{
    match v {
        Some(s) => s.clone(),
        None => String::new(),
    }
}

/// The (name, value) pairs that a call of the announcement endpoint sends for `params`.
pub fn announcement_query(params: &QueryParams) -> (res: Vec<(String, String)>)
    ensures
        pairs_view(res@) == announcement_query_spec(*params),
{
    let mut q: Vec<(String, String)> = Vec::new();
    q.push((String::from_str("kodeEmiten"), text_of(&params.ticker)));
    q.push((String::from_str("emitenType"), params.emiten_type.clone()));
    q.push((String::from_str("indexFrom"), decimal_string(params.index_from as u64)));
    q.push((String::from_str("pageSize"), decimal_string(params.page_size as u64)));
    q.push((String::from_str("dateFrom"), params.date_from.clone()));
    q.push((String::from_str("dateTo"), params.date_to.clone()));
    q.push((String::from_str("lang"), params.lang.clone()));
    q.push((String::from_str("keyword"), text_of(&params.keyword)));
    assert(pairs_view(q@) == announcement_query_spec(*params));
    q
}

} // verus!

verus! {

/// The announcement query carries each parameter under its own name, once each: the
/// ticker filter as `kodeEmiten`, the security type as `emitenType`, the paging as
/// `indexFrom` and `pageSize` (in decimal), the date range as `dateFrom` and `dateTo`,
/// the language as `lang` and the keyword filter as `keyword`.
pub proof fn query_carries_each_parameter_under_its_name(p: QueryParams)
    ensures
        announcement_query_spec(p).len() == 8,
        param_spec(announcement_query_spec(p), "kodeEmiten"@) == Some(filter_text(p.ticker)),
        param_spec(announcement_query_spec(p), "emitenType"@) == Some(p.emiten_type@),
        param_spec(announcement_query_spec(p), "indexFrom"@) == Some(decimal(p.index_from as nat)),
        param_spec(announcement_query_spec(p), "pageSize"@) == Some(decimal(p.page_size as nat)),
        param_spec(announcement_query_spec(p), "dateFrom"@) == Some(p.date_from@),
        param_spec(announcement_query_spec(p), "dateTo"@) == Some(p.date_to@),
        param_spec(announcement_query_spec(p), "lang"@) == Some(p.lang@),
        param_spec(announcement_query_spec(p), "keyword"@) == Some(filter_text(p.keyword)),
{
    reveal_strlit("kodeEmiten");
    reveal_strlit("emitenType");
    reveal_strlit("indexFrom");
    reveal_strlit("pageSize");
    reveal_strlit("dateFrom");
    reveal_strlit("dateTo");
    reveal_strlit("lang");
    reveal_strlit("keyword");
    let q = announcement_query_spec(p);
    reveal_with_fuel(param_spec, 9);
    assert(q.drop_first() == q.subrange(1, 8));
    assert(q.drop_first().drop_first() == q.subrange(2, 8));
    assert(q.subrange(2, 8).drop_first() == q.subrange(3, 8));
    assert(q.subrange(3, 8).drop_first() == q.subrange(4, 8));
    assert(q.subrange(4, 8).drop_first() == q.subrange(5, 8));
    assert(q.subrange(5, 8).drop_first() == q.subrange(6, 8));
    assert(q.subrange(6, 8).drop_first() == q.subrange(7, 8));
    assert("kodeEmiten"@[0] == 'k' && "kodeEmiten"@[1] == 'o');
    assert("emitenType"@[0] == 'e');
    assert("indexFrom"@[0] == 'i');
    assert("pageSize"@[0] == 'p');
    assert("dateFrom"@[0] == 'd' && "dateFrom"@[4] == 'F');
    assert("dateTo"@[0] == 'd' && "dateTo"@[4] == 'T');
    assert("lang"@[0] == 'l');
    assert("keyword"@[0] == 'k' && "keyword"@[1] == 'e');
    assert("dateFrom"@ != "kodeEmiten"@ && "dateFrom"@ != "emitenType"@ && "dateFrom"@
        != "indexFrom"@ && "dateFrom"@ != "pageSize"@);
    assert("dateTo"@ != "kodeEmiten"@ && "dateTo"@ != "emitenType"@ && "dateTo"@
        != "indexFrom"@ && "dateTo"@ != "pageSize"@ && "dateTo"@ != "dateFrom"@);
}

} // verus!
