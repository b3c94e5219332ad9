//! The decisions of the impersonating HTTP client: the `Referer` it sends, when it waits
//! between requests, how it retries when rate limited, and which browser fingerprints it
//! keeps in its pool.

use vstd::prelude::*;

use crate::api::{pairs_view, QueryParams};
use crate::script::{joined_by_comma, json_string, texts_of};
use crate::server::{has_prefix, param_spec, starts_with};
use crate::text::{unsigned_value, parse_u64};

verus! {

/// The `Referer` sent when a request names no language.
pub const DEFAULT_REFERER: &'static str = "https://www.idx.co.id/id/";

/// The `Referer` for a JSON request with query `q`: the site's page for the `lang`
/// parameter's language, or `DEFAULT_REFERER`.
pub open spec fn referer_spec(q: Seq<(Seq<char>, Seq<char>)>) -> Seq<char> {
    match param_spec(q, "lang"@) {
        Some(lang) => "https://www.idx.co.id/"@ + lang + "/"@,
        None => DEFAULT_REFERER@,
    }
}

/// The `Referer` header to send with a JSON request carrying `query`.
pub fn referer_for(query: &[(String, String)]) -> (res: String)
    ensures
        res@ == referer_spec(pairs_view(query@)),
{
    match crate::server::param(query, "lang") {
        Some(lang) => {
            let mut r = String::from_str("https://www.idx.co.id/");
            r.append(lang);
            r.append("/");
            r
        },
        None => String::from_str(DEFAULT_REFERER),
    }
}

/// An HTTP status in the success range 200..=299.
pub fn status_is_success(code: u16) -> (res: bool)
    ensures
        res == (200 <= code < 300),
{
    200 <= code && code < 300
}

/// The `429 Too Many Requests` status.
pub const TOO_MANY_REQUESTS: u16 = 429;

/// How many times a rate-limited request is retried before its answer is returned as is.
pub const MAX_429_RETRIES: u32 = 5;

/// What the client does after attempt `attempt` of a request was answered.
#[derive(Debug, Clone, Copy, PartialEq, Eq, Structural)]
pub enum SendStep {
    /// Hand the answer to the caller.
    Return,
    /// Wait this many seconds, then send again.
    Retry(u64),
}

/// The step after attempt `attempt` got status `status` (and a `Retry-After` of
/// `retry_after` seconds, if any): anything but 429, or the last allowed attempt, is
/// returned; otherwise wait as the server asked, or `2^min(attempt, 5)` seconds.
pub open spec fn send_step_spec(attempt: u32, status: u16, retry_after: Option<u64>) -> SendStep {
    if status != TOO_MANY_REQUESTS || attempt == MAX_429_RETRIES {
        SendStep::Return
    } else {
        match retry_after {
            Some(s) => SendStep::Retry(s),
            None => SendStep::Retry(
                vstd::arithmetic::power2::pow2(
                    if attempt < 5 {
                        attempt as nat
                    } else {
                        5
                    },
                ) as u64,
            ),
        }
    }
}

/// The step after attempt `attempt` (counting from 0) of a request was answered.
pub fn send_step(attempt: u32, status: u16, retry_after: Option<u64>) -> (res: SendStep)
    requires
        attempt <= MAX_429_RETRIES,
    ensures
        res == send_step_spec(attempt, status, retry_after),
{
    if status != TOO_MANY_REQUESTS || attempt == MAX_429_RETRIES {
        SendStep::Return
    } else {
        match retry_after {
            Some(s) => SendStep::Retry(s),
            None => {
                let shift: u32 = if attempt < 5 {
                    attempt
                } else {
                    5
                };
                proof {
                    vstd::arithmetic::power2::lemma2_to64();
                }
                let wait: u64 = match shift {
                    0 => 1,
                    1 => 2,
                    2 => 4,
                    3 => 8,
                    4 => 16,
                    _ => 32,
                };
                SendStep::Retry(wait)
            },
        }
    }
}

/// A request is sent at most `MAX_429_RETRIES + 1` times: the last attempt is always
/// handed back, whatever its status.
pub proof fn retries_are_bounded(status: u16, retry_after: Option<u64>)
    ensures
        send_step_spec(MAX_429_RETRIES, status, retry_after) == SendStep::Return,
{
}

/// A byte that `HeaderValue::to_str` accepts: visible ASCII or a tab.
pub open spec fn is_visible_ascii(b: u8) -> bool {
    32 <= b < 127 || b == 9
}

/// The seconds a `Retry-After` header value asks for, read as whole seconds: the value
/// must be visible ASCII and parse as a `u64`.
pub open spec fn retry_after_spec(value: Option<Seq<u8>>) -> Option<u64> {
    match value {
        None => None,
        Some(b) => if (forall|i: int| 0 <= i < b.len() ==> is_visible_ascii(#[trigger] b[i])) {
            match unsigned_value(b.map_values(|x: u8| x as char)) {
                Some(v) => if v <= u64::MAX {
                    Some(v as u64)
                } else {
                    None
                },
                None => None,
            }
        } else {
            None
        },
    }
}

/// The wait a `Retry-After` header value asks for, in whole seconds (the HTTP-date form
/// is not read).
pub fn retry_after_secs(value: Option<&[u8]>) -> (res: Option<u64>)
    ensures
        res == retry_after_spec(
            match value {
                Some(b) => Some(b@),
                None => None,
            },
        ),
{
    match value {
        None => None,
        Some(b) => {
            let mut text: Vec<char> = Vec::new();
            for i in 0..b.len()
                invariant
                    value == Some(b),
                    text@ == b@.take(i as int).map_values(|x: u8| x as char),
                    forall|j: int| 0 <= j < i ==> is_visible_ascii(#[trigger] b@[j]),
            {
                let c = b[i];
                if !((32 <= c && c < 127) || c == 9) {
                    assert(!is_visible_ascii(b@[i as int]));
                    assert(!(forall|j: int| 0 <= j < b@.len() ==> is_visible_ascii(#[trigger] b@[j])));
                    return None;
                }
                text.push(c as char);
                assert(b@.take(i + 1).map_values(|x: u8| x as char) == b@.take(i as int).map_values(
                    |x: u8| x as char,
                ).push(c as char));
            }
            assert(b@.take(b@.len() as int) == b@);
            let s = crate::text::string_from_chars(&text);
            parse_u64(s.as_str())
        },
    }
}

/// The least time between two requests of one client, in nanoseconds (300 ms).
pub const MIN_REQUEST_INTERVAL_NANOS: u128 = 300_000_000;

/// How long to wait before the next request, given how long ago the last one was sent
/// (`None` before the first): whatever is left of the minimum interval.
pub fn throttle_delay(elapsed_nanos: Option<u128>) -> (res: u128)
    ensures
        match elapsed_nanos {
            None => res == 0,
            Some(e) => if e < MIN_REQUEST_INTERVAL_NANOS {
                res == MIN_REQUEST_INTERVAL_NANOS - e
            } else {
                res == 0
            },
        },
        res <= MIN_REQUEST_INTERVAL_NANOS,
{
    match elapsed_nanos {
        None => 0,
        Some(e) => if e < MIN_REQUEST_INTERVAL_NANOS {
            MIN_REQUEST_INTERVAL_NANOS - e
        } else {
            0
        },
    }
}

/// The query of the probe that tests a fingerprint: the newest announcement of the whole
/// feed, in Indonesian.
pub open spec fn probe_query_spec() -> Seq<(Seq<char>, Seq<char>)> {
    seq![
        ("kodeEmiten"@, Seq::empty()),
        ("emitenType"@, seq!['*']),
        ("indexFrom"@, seq!['0']),
        ("pageSize"@, seq!['1']),
        ("dateFrom"@, Seq::empty()),
        ("dateTo"@, Seq::empty()),
        ("lang"@, seq!['i', 'd']),
        ("keyword"@, Seq::empty()),
    ]
}

/// The query of the probe: the announcement query of the default parameters with a page
/// of one.
pub fn probe_query() -> (res: Vec<(String, String)>)
    ensures
        pairs_view(res@) == probe_query_spec(),
{
    let mut p = QueryParams::default();
    p.page_size = 1;
    let q = crate::api::announcement_query(&p);
    assert(crate::text::decimal(0) == seq!['0']);
    assert(crate::text::decimal(1) == seq!['1']);
    q
}


/// The first position of `names` holding `name`.
pub open spec fn first_named(names: Seq<Seq<char>>, name: Seq<char>) -> Option<int>
    decreases names.len(),
{
    if names.len() == 0 {
        None
    } else if names[0] == name {
        Some(0)
    } else {
        match first_named(names.drop_first(), name) {
            Some(i) => Some(i + 1),
            None => None,
        }
    }
}

/// The view of an optional position.
pub open spec fn opt_index(v: Option<usize>) -> Option<int> {
    match v {
        Some(i) => Some(i as int),
        None => None,
    }
}

/// The fingerprint (a position in `names`, the fingerprints' names in order) called `name`.
pub fn profile_by_name(names: &[String], name: &str) -> (res: Option<usize>)
    ensures
        opt_index(res) == first_named(texts_of(names@), name@),
{
    let target = name.to_owned();
    let mut i: usize = 0;
    assert(texts_of(names@).skip(0) == texts_of(names@));
    while i < names.len()
        invariant
            i <= names@.len(),
            target@ == name@,
            first_named(texts_of(names@), name@) == match first_named(
                texts_of(names@).skip(i as int),
                name@,
            ) {
                Some(k) => Some(k + i),
                None => None,
            },
        decreases names.len() - i,
    {
        assert(texts_of(names@).skip(i as int)[0] == names@[i as int]@);
        if names[i] == target {
            return Some(i);
        }
        assert(texts_of(names@).skip(i as int).drop_first() == texts_of(names@).skip(i + 1));
        i = i + 1;
    }
    None
}

proof fn lemma_first_named_bounds(names: Seq<Seq<char>>, name: Seq<char>)
    ensures
        match first_named(names, name) {
            Some(i) => 0 <= i < names.len() && names[i] == name && forall|j: int|
                0 <= j < i ==> names[j] != name,
            None => forall|j: int| 0 <= j < names.len() ==> names[j] != name,
        },
    decreases names.len(),
{
    if names.len() > 0 {
        lemma_first_named_bounds(names.drop_first(), name);
        if names[0] != name {
            assert forall|j: int| 0 < j < names.len() implies names[j] == names.drop_first()[j
                - 1] by {}
        }
    }
}

/// Looking up a fingerprint by its own name finds it when the names are distinct (as the
/// names of an enum's variants are).
pub proof fn profile_name_round_trip(names: Seq<Seq<char>>, i: int)
    requires
        0 <= i < names.len(),
        names.no_duplicates(),
    ensures
        first_named(names, names[i]) == Some(i),
{
    lemma_first_named_bounds(names, names[i]);
}

/// Looking up a name that no fingerprint has finds nothing.
pub proof fn unknown_name_finds_nothing(names: Seq<Seq<char>>, name: Seq<char>)
    requires
        !names.contains(name),
    ensures
        first_named(names, name) is None,
{
    lemma_first_named_bounds(names, name);
    if first_named(names, name) is Some {
        let i = first_named(names, name)->0;
        assert(names[i] == name);
    }
}

/// The pool that a list of saved names stands for: each name that names a fingerprint,
/// in order; unknown names are dropped.
pub open spec fn pool_of_names(names: Seq<Seq<char>>, saved: Seq<Seq<char>>) -> Seq<int>
    decreases saved.len(),
{
    if saved.len() == 0 {
        Seq::empty()
    } else {
        let rest = pool_of_names(names, saved.drop_last());
        match first_named(names, saved.last()) {
            Some(i) => rest.push(i),
            None => rest,
        }
    }
}

/// The views of a list of positions.
pub open spec fn indices_view(v: Seq<usize>) -> Seq<int> {
    v.map_values(|i: usize| i as int)
}

/// The fingerprints that the saved names stand for.
pub fn pool_from_names(names: &[String], saved: &[String]) -> (res: Vec<usize>)
    ensures
        indices_view(res@) == pool_of_names(texts_of(names@), texts_of(saved@)),
        forall|k: int| 0 <= k < res@.len() ==> res@[k] < names@.len(),
{
    let mut pool: Vec<usize> = Vec::new();
    for k in 0..saved.len()
        invariant
            indices_view(pool@) == pool_of_names(texts_of(names@), texts_of(saved@).take(k as int)),
            forall|j: int| 0 <= j < pool@.len() ==> pool@[j] < names@.len(),
    {
        assert(texts_of(saved@).take(k + 1).drop_last() == texts_of(saved@).take(k as int));
        proof {
            lemma_first_named_bounds(texts_of(names@), saved@[k as int]@);
        }
        match profile_by_name(names, saved[k].as_str()) {
            Some(i) => {
                let ghost prev = pool@;
                pool.push(i);
                assert(indices_view(pool@) == indices_view(prev).push(i as int));
            },
            None => {},
        }
    }
    assert(texts_of(saved@).take(saved@.len() as int) == texts_of(saved@));
    pool
}

/// What `serde_json::from_str::<Vec<String>>` makes of `text`; `None` where it reports an
/// error.
pub uninterp spec fn json_string_list(text: Seq<char>) -> Option<Seq<Seq<char>>>;

/// Trusted: `serde_json::from_str::<Vec<String>>`. Its result is named `json_string_list`.
#[verifier::external_body]
fn parse_json_string_list(text: &str) -> (res: Option<Vec<String>>)
    ensures
        match res {
            Some(v) => json_string_list(text@) == Some(texts_of(v@)),
            None => json_string_list(text@) is None,
        },
{
    match serde_json::from_str::<Vec<String>>(text) {
        Ok(v) => Some(v),
        Err(_) => None,
    }
}

/// The pool stored in a saved pool file's text: none when it is not a JSON list of
/// strings.
pub open spec fn saved_pool_spec(names: Seq<Seq<char>>, text: Seq<char>) -> Seq<int> {
    match json_string_list(text) {
        Some(saved) => pool_of_names(names, saved),
        None => Seq::empty(),
    }
}

/// The pool stored in the text of a saved pool file.
pub fn pool_from_saved_text(names: &[String], text: &str) -> (res: Vec<usize>)
    ensures
        indices_view(res@) == saved_pool_spec(texts_of(names@), text@),
        forall|k: int| 0 <= k < res@.len() ==> res@[k] < names@.len(),
{
    match parse_json_string_list(text) {
        Some(saved) => pool_from_names(names, saved.as_slice()),
        None => Vec::new(),
    }
}

/// The JSON that `serde_json::to_string_pretty` writes for a list of strings: `[]` when
/// empty, else each string literal on its own line, indented by two spaces.
pub open spec fn json_pretty_string_array(texts: Seq<Seq<char>>) -> Seq<char> {
    if texts.len() == 0 {
        seq!['[', ']']
    } else {
        seq!['['] + joined_by_comma(
            texts.map_values(|t: Seq<char>| seq!['\n', ' ', ' '] + json_string(t)),
        ) + seq!['\n', ']']
    }
}

/// Trusted: `serde_json::to_string_pretty` on a slice of strings. As serde_json's
/// `PrettyFormatter` shows, a list is written as `[`, each element on a new line indented
/// by two spaces and separated by `,`, then a new line and `]` (`[]` when empty); the
/// elements as `to_string` writes a string. It cannot fail. Its text also reads back, by
/// `serde_json::from_str::<Vec<String>>`, as the same strings: the string escapes that the
/// writer emits are those that the reader undoes, and the layout's whitespace is skipped.
#[verifier::external_body]
fn json_encode_strs_pretty(texts: &[String]) -> (res: String)
    ensures
        res@ == json_pretty_string_array(texts_of(texts@)),
        json_string_list(res@) == Some(texts_of(texts@)),
{
    serde_json::to_string_pretty(texts).expect("string serialization cannot fail")
}

/// The text of the saved pool file for `pool`: the fingerprints' names, pretty JSON.
pub fn saved_pool_text(names: &[String], pool: &[usize]) -> (res: String)
    requires
        forall|k: int| 0 <= k < pool@.len() ==> pool@[k] < names@.len(),
    ensures
        res@ == json_pretty_string_array(
            pool@.map_values(|i: usize| names@[i as int]@),
        ),
        texts_of(names@).no_duplicates() ==> saved_pool_spec(texts_of(names@), res@)
            == indices_view(pool@),
{
    let mut chosen: Vec<String> = Vec::new();
    for k in 0..pool.len()
        invariant
            forall|j: int| 0 <= j < pool@.len() ==> pool@[j] < names@.len(),
            texts_of(chosen@) == pool@.take(k as int).map_values(|i: usize| names@[i as int]@),
    {
        let ghost prev = chosen@;
        chosen.push(names[pool[k]].clone());
        assert(texts_of(chosen@) == texts_of(prev).push(names@[pool@[k as int] as int]@));
        assert(pool@.take(k + 1).map_values(|i: usize| names@[i as int]@) == pool@.take(
            k as int,
        ).map_values(|i: usize| names@[i as int]@).push(names@[pool@[k as int] as int]@));
    }
    assert(pool@.take(pool@.len() as int) == pool@);
    let res = json_encode_strs_pretty(chosen.as_slice());
    proof {
        if texts_of(names@).no_duplicates() {
            saved_names_reload_as_the_pool(texts_of(names@), indices_view(pool@));
            assert(indices_view(pool@).map_values(|i: int| texts_of(names@)[i])
                == pool@.map_values(|i: usize| names@[i as int]@));
        }
    }
    res
}

/// Saving a pool as its fingerprints' names and reading the names back gives the same
/// pool, in the same order, when the names are distinct.
pub proof fn saved_names_reload_as_the_pool(names: Seq<Seq<char>>, pool: Seq<int>)
    requires
        names.no_duplicates(),
        forall|k: int| 0 <= k < pool.len() ==> 0 <= #[trigger] pool[k] < names.len(),
    ensures
        pool_of_names(names, pool.map_values(|i: int| names[i])) == pool,
    decreases pool.len(),
{
    if pool.len() > 0 {
        let saved = pool.map_values(|i: int| names[i]);
        assert(saved.drop_last() == pool.drop_last().map_values(|i: int| names[i]));
        saved_names_reload_as_the_pool(names, pool.drop_last());
        profile_name_round_trip(names, pool.last());
        assert(pool.drop_last().push(pool.last()) == pool);
    }
}


/// How many working fingerprints a scan collects before it stops.
pub const MAX_POOL_SIZE: usize = 5;

/// The positions whose probe passed, in order.
pub open spec fn accepted_positions(outcomes: Seq<bool>) -> Seq<int>
    decreases outcomes.len(),
{
    if outcomes.len() == 0 {
        Seq::empty()
    } else if outcomes.last() {
        accepted_positions(outcomes.drop_last()).push(outcomes.len() - 1)
    } else {
        accepted_positions(outcomes.drop_last())
    }
}

proof fn lemma_accepted_positions(outcomes: Seq<bool>)
    ensures
        accepted_positions(outcomes).len() <= outcomes.len(),
        forall|k: int|
            0 <= k < accepted_positions(outcomes).len() ==> 0 <= #[trigger] accepted_positions(
                outcomes,
            )[k] < outcomes.len() && outcomes[accepted_positions(outcomes)[k]],
        forall|a: int, b: int|
            0 <= a < b < accepted_positions(outcomes).len() ==> accepted_positions(outcomes)[a]
                < accepted_positions(outcomes)[b],
    decreases outcomes.len(),
{
    if outcomes.len() > 0 {
        lemma_accepted_positions(outcomes.drop_last());
    }
}

/// The family of non-browser fingerprints (the OkHttp client library), whose names all
/// begin with this.
pub const NON_BROWSER_PREFIX: &'static str = "OkHttp";

/// Whether the fingerprint called `name` is a browser's: it is not of the OkHttp family.
pub open spec fn is_browser_name(name: Seq<char>) -> bool {
    !starts_with(name, NON_BROWSER_PREFIX@)
}

/// For each fingerprint name, in order, whether it is a browser's.
pub fn browser_flags(names: &[String]) -> (res: Vec<bool>)
    ensures
        res@.len() == names@.len(),
        forall|i: int| 0 <= i < names@.len() ==> res@[i] == is_browser_name(#[trigger] names@[i]@),
{
    let mut flags: Vec<bool> = Vec::new();
    for i in 0..names.len()
        invariant
            flags@.len() == i,
            forall|j: int| 0 <= j < i ==> flags@[j] == is_browser_name(#[trigger] names@[j]@),
    {
        flags.push(!has_prefix(names[i].as_str(), NON_BROWSER_PREFIX));
    }
    flags
}

/// A scan over the browser fingerprints, in order (the others are passed over without a
/// probe), that stops once `MAX_POOL_SIZE` of them have passed their probe.
pub struct FingerprintScan {
    browser: Vec<bool>,
    next: usize,
    good: Vec<usize>,
    outcomes: Ghost<Seq<bool>>,
}

impl FingerprintScan {
    /// How many fingerprints there are.
    pub closed spec fn total(&self) -> nat {
        self.browser@.len()
    }

    /// For each fingerprint, whether it is a browser's (only those are probed).
    pub closed spec fn browser(&self) -> Seq<bool> {
        self.browser@
    }

    /// For each fingerprint passed over so far, from the first on, whether it was probed
    /// and passed.
    pub closed spec fn outcomes(&self) -> Seq<bool> {
        self.outcomes@
    }

    /// The fingerprints found so far.
    pub closed spec fn found(&self) -> Seq<int> {
        indices_view(self.good@)
    }

    /// The scan's parts agree.
    pub closed spec fn wf(&self) -> bool {
        &&& self.next == self.outcomes@.len()
        &&& self.next <= self.browser@.len()
        &&& indices_view(self.good@) == accepted_positions(self.outcomes@)
        &&& self.good@.len() <= MAX_POOL_SIZE
        &&& forall|k: int| 0 <= k < self.outcomes@.len() && #[trigger] self.outcomes@[k]
            ==> self.browser@[k]
    }

    /// A scan over the fingerprints flagged by `browser` (one flag per fingerprint,
    /// `true` for a browser's) that has passed over none yet.
    pub fn new(browser: Vec<bool>) -> (res: Self)
        ensures
            res.wf(),
            res.browser() == browser@,
            res.outcomes() == Seq::<bool>::empty(),
    {
        let res = FingerprintScan { browser, next: 0, good: Vec::new(), outcomes: Ghost(Seq::empty()) };
        assert(indices_view(res.good@) == Seq::<int>::empty());
        res
    }

    /// The first browser fingerprint from position `next` on (`total` if none).
    fn next_browser(&self) -> (res: usize)
        requires
            self.wf(),
        ensures
            self.outcomes().len() <= res <= self.total(),
            res < self.total() ==> self.browser()[res as int],
            forall|j: int| self.outcomes().len() <= j < res ==> !#[trigger] self.browser()[j],
    {
        let mut i = self.next;
        while i < self.browser.len()
            invariant
                self.wf(),
                self.next <= i <= self.browser@.len(),
                forall|j: int| self.next <= j < i ==> !#[trigger] self.browser@[j],
            decreases self.browser.len() - i,
        {
            if self.browser[i] {
                return i;
            }
            i = i + 1;
        }
        i
    }

    /// The fingerprint to probe next: the next browser fingerprint not yet passed over;
    /// `None` once enough have passed or no browser fingerprint is left.
    pub fn candidate(&self) -> (res: Option<usize>)
        requires
            self.wf(),
        ensures
            match res {
                Some(i) => {
                    &&& self.outcomes().len() <= i < self.total()
                    &&& self.browser()[i as int]
                    &&& forall|j: int| self.outcomes().len() <= j < i ==> !#[trigger] self.browser()[j]
                    &&& self.found().len() < MAX_POOL_SIZE
                },
                None => self.found().len() >= MAX_POOL_SIZE || forall|j: int|
                    self.outcomes().len() <= j < self.total() ==> !#[trigger] self.browser()[j],
            },
    {
        if self.good.len() >= MAX_POOL_SIZE {
            None
        } else {
            let i = self.next_browser();
            if i < self.browser.len() {
                Some(i)
            } else {
                None
            }
        }
    }

    /// Records whether the candidate at `position` passed its probe (a client that could
    /// not be built counts as failed); the non-browser fingerprints before it are passed
    /// over as not passed.
    pub fn record(&mut self, position: usize, passed: bool)
        requires
            old(self).wf(),
            old(self).outcomes().len() <= position < old(self).total(),
            old(self).browser()[position as int],
            forall|j: int| old(self).outcomes().len() <= j < position ==> !#[trigger] old(
                self,
            ).browser()[j],
            old(self).found().len() < MAX_POOL_SIZE,
        ensures
            final(self).wf(),
            final(self).browser() == old(self).browser(),
            final(self).outcomes() == old(self).outcomes() + Seq::new(
                (position - old(self).outcomes().len()) as nat,
                |j: int| false,
            ) + seq![passed],
    {
        let total = self.browser.len();
        let ghost prev = self.good@;
        let ghost skipped = Seq::new((position - self.next) as nat, |j: int| false);
        proof {
            lemma_accepted_positions_skip(self.outcomes@, skipped);
        }
        let ghost mid = self.outcomes@ + skipped;
        if passed {
            self.good.push(position);
            assert(indices_view(self.good@) == indices_view(prev).push(position as int));
        }
        self.outcomes = Ghost(mid.push(passed));
        assert(self.outcomes@.drop_last() == mid);
        assert forall|k: int| 0 <= k < self.outcomes@.len() && #[trigger] self.outcomes@[k]
            implies self.browser@[k] by {
            if k < old(self).outcomes().len() {
                assert(self.outcomes@[k] == old(self).outcomes()[k]);
            }
        }
        assert(position < total);
        self.next = position + 1;
    }

    /// The fingerprints that passed, in the order they were probed: browser fingerprints
    /// only.
    pub fn into_pool(self) -> (res: Vec<usize>)
        requires
            self.wf(),
        ensures
            indices_view(res@) == accepted_positions(self.outcomes()),
            res@.len() <= MAX_POOL_SIZE,
            forall|k: int| 0 <= k < res@.len() ==> #[trigger] res@[k] < self.total()
                && self.browser()[res@[k] as int],
    {
        proof {
            lemma_accepted_positions(self.outcomes());
            assert forall|k: int| 0 <= k < self.good@.len() implies #[trigger] self.good@[k]
                < self.total() && self.browser()[self.good@[k] as int] by {
                assert(indices_view(self.good@)[k] == self.good@[k] as int);
            }
        }
        self.good
    }
}

proof fn lemma_accepted_positions_skip(outcomes: Seq<bool>, skipped: Seq<bool>)
    requires
        forall|j: int| 0 <= j < skipped.len() ==> !#[trigger] skipped[j],
    ensures
        accepted_positions(outcomes + skipped) == accepted_positions(outcomes),
    decreases skipped.len(),
{
    if skipped.len() > 0 {
        assert((outcomes + skipped).drop_last() == outcomes + skipped.drop_last());
        lemma_accepted_positions_skip(outcomes, skipped.drop_last());
    } else {
        assert(outcomes + skipped == outcomes);
    }
}

/// A scan's pool holds at most `MAX_POOL_SIZE` fingerprints, each a browser fingerprint
/// that passed its probe, in the order they were probed, each named once.
pub proof fn scan_pool_is_small_and_ordered(scan: FingerprintScan)
    requires
        scan.wf(),
    ensures
        scan.found().len() <= MAX_POOL_SIZE,
        forall|k: int|
            0 <= k < scan.found().len() ==> 0 <= #[trigger] scan.found()[k] < scan.total()
                && scan.outcomes()[scan.found()[k]] && scan.browser()[scan.found()[k]],
        forall|a: int, b: int| 0 <= a < b < scan.found().len() ==> scan.found()[a] < scan.found()[b],
{
    lemma_accepted_positions(scan.outcomes());
}

/// Where the search for a working fingerprint stands.
#[derive(Debug, Clone, Copy, PartialEq, Eq, Structural)]
pub enum DetectPhase {
    /// The saved pool is too thin to rely on: scan first.
    Thin,
    /// Trying the pool (saved, or from the first scan).
    Trying,
    /// Trying the pool of the rescan made after the pool ran out.
    Retrying,
}

/// What the search does next.
#[derive(Debug, Clone, Copy, PartialEq, Eq, Structural)]
pub enum DetectStep {
    /// Scan all fingerprints and replace the pool with the result (then save it).
    Scan,
    /// Probe this fingerprint, the pool's oldest.
    Probe(usize),
    /// Nothing got through.
    GiveUp,
}

/// The search for a fingerprint that gets through: the saved pool is tried oldest first,
/// rejected entries are dropped (and the pool saved again), a pool of at most one entry
/// is first rebuilt by a scan, and a pool that runs out is rebuilt once more before the
/// search gives up.
pub struct Autodetect {
    pool: Vec<usize>,
    phase: DetectPhase,
}

/// The step the search takes with `pool` in `phase`.
pub open spec fn detect_step_spec(phase: DetectPhase, pool: Seq<usize>) -> DetectStep {
    match phase {
        DetectPhase::Thin => DetectStep::Scan,
        DetectPhase::Trying => if pool.len() == 0 {
            DetectStep::Scan
        } else {
            DetectStep::Probe(pool[0])
        },
        DetectPhase::Retrying => if pool.len() == 0 {
            DetectStep::GiveUp
        } else {
            DetectStep::Probe(pool[0])
        },
    }
}

impl Autodetect {
    /// The fingerprints still to try, oldest first.
    pub closed spec fn pool(&self) -> Seq<usize> {
        self.pool@
    }

    /// Where the search stands.
    pub closed spec fn phase(&self) -> DetectPhase {
        self.phase
    }

    /// A search that starts from the saved pool.
    pub fn start(saved: Vec<usize>) -> (res: Self)
        ensures
            res.pool() == saved@,
            res.phase() == if saved@.len() <= 1 {
                DetectPhase::Thin
            } else {
                DetectPhase::Trying
            },
    {
        let phase = if saved.len() <= 1 {
            DetectPhase::Thin
        } else {
            DetectPhase::Trying
        };
        Autodetect { pool: saved, phase }
    }

    /// What to do next.
    pub fn step(&self) -> (res: DetectStep)
        ensures
            res == detect_step_spec(self.phase(), self.pool()),
    {
        match self.phase {
            DetectPhase::Thin => DetectStep::Scan,
            DetectPhase::Trying => if self.pool.len() == 0 {
                DetectStep::Scan
            } else {
                DetectStep::Probe(self.pool[0])
            },
            DetectPhase::Retrying => if self.pool.len() == 0 {
                DetectStep::GiveUp
            } else {
                DetectStep::Probe(self.pool[0])
            },
        }
    }

    /// Takes in a scan's result as the new pool.
    pub fn scanned(&mut self, found: Vec<usize>)
        requires
            detect_step_spec(old(self).phase(), old(self).pool()) == DetectStep::Scan,
        ensures
            final(self).pool() == found@,
            final(self).phase() == if old(self).phase() == DetectPhase::Thin {
                DetectPhase::Trying
            } else {
                DetectPhase::Retrying
            },
    {
        self.phase = match self.phase {
            DetectPhase::Thin => DetectPhase::Trying,
            _ => DetectPhase::Retrying,
        };
        self.pool = found;
    }

    /// The probed fingerprint was rejected: it leaves the pool.
    pub fn rejected(&mut self)
        requires
            detect_step_spec(old(self).phase(), old(self).pool()) is Probe,
        ensures
            final(self).pool() == old(self).pool().drop_first(),
            final(self).phase() == old(self).phase(),
    {
        self.pool.remove(0);
        assert(self.pool@ == old(self).pool().drop_first());
    }

    /// The pool as it stands, to save.
    pub fn current_pool(&self) -> (res: &Vec<usize>)
        ensures
            res@ == self.pool(),
    {
        &self.pool
    }
}

/// The search scans at most twice: only a thin start or an exhausted first pool leads to
/// a scan, and after the rescan an exhausted pool ends the search.
pub proof fn at_most_two_scans(pool: Seq<usize>)
    ensures
        detect_step_spec(DetectPhase::Retrying, pool) != DetectStep::Scan,
        pool.len() == 0 ==> detect_step_spec(DetectPhase::Retrying, pool) == DetectStep::GiveUp,
{
}

} // verus!

verus! {

/// The search walks its pool from the front: whenever the pool is not empty, outside the
/// thin start, the next step probes its first fingerprint, after the rescan too; it
/// gives up only once the rescanned pool is empty, and a thin start always scans first.
pub proof fn nonempty_pool_is_probed_from_its_front(phase: DetectPhase, pool: Seq<usize>)
    ensures
        phase != DetectPhase::Thin && pool.len() > 0 ==> detect_step_spec(phase, pool)
            == DetectStep::Probe(pool[0]),
        detect_step_spec(phase, pool) == DetectStep::GiveUp <==> (phase
            == DetectPhase::Retrying && pool.len() == 0),
        detect_step_spec(phase, pool) == DetectStep::Scan <==> (phase == DetectPhase::Thin || (
        phase == DetectPhase::Trying && pool.len() == 0)),
{
}

} // verus!
