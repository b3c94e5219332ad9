//! What to download and under which names, how a download run is cut into batches,
//! and how the browser transport's per-file answers are read.

use base64::Engine;
use vstd::prelude::*;

use crate::api::{AttachmentInfo, Reply};
use crate::text::{chars_of, push_char, string_from_chars, trim_seq};

verus! {

/// One file to fetch, and the name to save it under.
#[derive(Debug, Clone)]
pub struct DownloadTask {
    pub url: String,
    pub dest_filename: String,
}

impl View for DownloadTask {
    type V = (Seq<char>, Seq<char>);

    open spec fn view(&self) -> (Seq<char>, Seq<char>) {
        (self.url@, self.dest_filename@)
    }
}

/// A path separator (`/` or `\`) replaced by `_`; other characters kept.
pub open spec fn safe_char(c: char) -> char {
    if c == '/' || c == '\\' {
        '_'
    } else {
        c
    }
}

/// `s` with every path separator replaced by `_`.
pub open spec fn sanitized(s: Seq<char>) -> Seq<char> {
    s.map_values(|c: char| safe_char(c))
}

/// The file name for an attachment: date, ticker and original name joined by `_`, with
/// path separators in the last two replaced.
pub open spec fn dest_filename_spec(date: Seq<char>, ticker: Seq<char>, original: Seq<char>) -> Seq<
    char,
> {
    date + seq!['_'] + sanitized(ticker) + seq!['_'] + sanitized(original)
}

fn push_sanitized(out: &mut String, s: &str)
    ensures
        final(out)@ == old(out)@ + sanitized(s@),
{
    let cs = chars_of(s);
    let ghost start = out@;
    for i in 0..cs.len()
        invariant
            cs@ == s@,
            out@ == start + sanitized(s@).take(i as int),
    {
        let c = cs[i];
        let d = if c == '/' || c == '\\' {
            '_'
        } else {
            c
        };
        push_char(out, d);
        assert(sanitized(s@).take(i + 1) == sanitized(s@).take(i as int).push(d));
    }
    assert(sanitized(s@).take(cs@.len() as int) == sanitized(s@));
}

/// Sanitizes an announcement into a filesystem-safe, collision-resistant filename.
pub fn dest_filename(date_compact: &str, ticker: &str, original: &str) -> (res: String)
    ensures
        res@ == dest_filename_spec(date_compact@, ticker@, original@),
{
    let mut out = date_compact.to_owned();
    push_char(&mut out, '_');
    push_sanitized(&mut out, ticker);
    push_char(&mut out, '_');
    push_sanitized(&mut out, original);
    out
}

/// `c` is one of the ASCII digits `0`..`9`.
pub open spec fn is_ascii_digit(c: char) -> bool {
    '0' <= c <= '9'
}

/// The ASCII digits of `s`, in order.
pub open spec fn ascii_digits(s: Seq<char>) -> Seq<char>
    decreases s.len(),
{
    if s.len() == 0 {
        s
    } else if is_ascii_digit(s.last()) {
        ascii_digits(s.drop_last()).push(s.last())
    } else {
        ascii_digits(s.drop_last())
    }
}

/// The digits among the first ten characters of an announcement's timestamp
/// (`2026-09-01T18:02:45` gives `20260901`).
pub open spec fn compact_date_of(tanggal: Seq<char>) -> Seq<char> {
    ascii_digits(tanggal.take(if tanggal.len() < 10 { tanggal.len() as int } else { 10 }))
}

fn compact_timestamp(tanggal: &str) -> (res: String)
    ensures
        res@ == compact_date_of(tanggal@),
{
    let cs = chars_of(tanggal);
    let n: usize = if cs.len() < 10 {
        cs.len()
    } else {
        10
    };
    let mut digits: Vec<char> = Vec::new();
    for i in 0..n
        invariant
            cs@ == tanggal@,
            n <= cs@.len(),
            n == (if tanggal@.len() < 10 { tanggal@.len() as int } else { 10 }),
            digits@ == ascii_digits(cs@.take(i as int)),
    {
        let c = cs[i];
        assert(cs@.take(i + 1).drop_last() == cs@.take(i as int));
        if '0' <= c && c <= '9' {
            digits.push(c);
        }
    }
    string_from_chars(&digits)
}

/// The task for one attachment of an announcement dated `date` of `ticker`.
pub open spec fn task_for(a: AttachmentInfo, date: Seq<char>, ticker: Seq<char>) -> (
    Seq<char>,
    Seq<char>,
) {
    (a.url@, dest_filename_spec(date, ticker, a.filename@))
}

/// The tasks for `atts`, in order, leaving out supporting documents when `main_only`.
pub open spec fn attachment_tasks(
    atts: Seq<AttachmentInfo>,
    date: Seq<char>,
    ticker: Seq<char>,
    main_only: bool,
) -> Seq<(Seq<char>, Seq<char>)>
    decreases atts.len(),
{
    if atts.len() == 0 {
        Seq::empty()
    } else {
        let rest = attachment_tasks(atts.drop_last(), date, ticker, main_only);
        if main_only && atts.last().is_supporting {
            rest
        } else {
            rest.push(task_for(atts.last(), date, ticker))
        }
    }
}

/// The tasks for one announcement.
pub open spec fn reply_tasks(r: Reply, main_only: bool) -> Seq<(Seq<char>, Seq<char>)> {
    attachment_tasks(
        r.attachments@,
        compact_date_of(r.pengumuman.tanggal@),
        trim_seq(r.pengumuman.kode_emiten@),
        main_only,
    )
}

/// The tasks for all of `replies`, announcement after announcement.
pub open spec fn download_tasks_spec(replies: Seq<Reply>, main_only: bool) -> Seq<
    (Seq<char>, Seq<char>),
>
    decreases replies.len(),
{
    if replies.len() == 0 {
        Seq::empty()
    } else {
        download_tasks_spec(replies.drop_last(), main_only) + reply_tasks(replies.last(), main_only)
    }
}

/// The views of a list of tasks.
pub open spec fn tasks_view(v: Seq<DownloadTask>) -> Seq<(Seq<char>, Seq<char>)> {
    v.map_values(|t: DownloadTask| t@)
}

/// Every attachment of `replies` to fetch (only the main documents when `main_only`),
/// each named by `dest_filename` after the announcement's date and trimmed ticker.
pub fn build_download_tasks(replies: &[Reply], main_only: bool) -> (res: Vec<DownloadTask>)
    ensures
        tasks_view(res@) == download_tasks_spec(replies@, main_only),
{
    let mut tasks: Vec<DownloadTask> = Vec::new();
    for r in 0..replies.len()
        invariant
            tasks_view(tasks@) == download_tasks_spec(replies@.take(r as int), main_only),
    {
        let reply = &replies[r];
        let date = compact_timestamp(reply.pengumuman.tanggal.as_str());
        let ticker = reply.pengumuman.ticker();
        let ghost before = tasks_view(tasks@);
        let atts = &reply.attachments;
        for k in 0..atts.len()
            invariant
                r < replies@.len(),
                atts@ == replies@[r as int].attachments@,
                date@ == compact_date_of(replies@[r as int].pengumuman.tanggal@),
                ticker@ == trim_seq(replies@[r as int].pengumuman.kode_emiten@),
                tasks_view(tasks@) == before + attachment_tasks(
                    atts@.take(k as int),
                    date@,
                    ticker@,
                    main_only,
                ),
        {
            let att = &atts[k];
            assert(atts@.take(k + 1).drop_last() == atts@.take(k as int));
            if !(main_only && att.is_supporting) {
                let name = dest_filename(date.as_str(), ticker, att.filename.as_str());
                let task = DownloadTask { url: att.url.clone(), dest_filename: name };
                assert(task@ == task_for(atts@[k as int], date@, ticker@));
                let ghost prev = tasks@;
                tasks.push(task);
                assert(tasks_view(tasks@) == tasks_view(prev).push(task@));
                assert(tasks_view(tasks@) == before + attachment_tasks(
                    atts@.take(k as int),
                    date@,
                    ticker@,
                    main_only,
                ).push(task_for(atts@[k as int], date@, ticker@)));
            }
        }
        assert(atts@.take(atts@.len() as int) == atts@);
        assert(replies@.take(r + 1).drop_last() == replies@.take(r as int));
    }
    assert(replies@.take(replies@.len() as int) == replies@);
    tasks
}

} // verus!

verus! {

/// How many tasks a batch holds: `concurrency`, but at least one.
pub open spec fn batch_size(concurrency: usize) -> nat {
    if concurrency == 0 {
        1
    } else {
        concurrency as nat
    }
}

/// The batches `[start, end)` that cut the tasks `start..total` into runs of `size`, the
/// last one possibly shorter.
pub open spec fn batches_from(start: int, total: int, size: nat) -> Seq<(int, int)>
    decreases total - start,
{
    if size == 0 || start >= total {
        Seq::empty()
    } else {
        let end = if total - start < size {
            total
        } else {
            start + size
        };
        seq![(start, end)] + batches_from(end, total, size)
    }
}

/// The views of a list of bounds.
pub open spec fn bounds_view(v: Seq<(usize, usize)>) -> Seq<(int, int)> {
    v.map_values(|b: (usize, usize)| (b.0 as int, b.1 as int))
}

/// The batches of a run over `total` tasks, `concurrency` (at least one) at a time; the
/// run fetches each batch at once and goes through them one after the other.
pub fn batch_bounds(total: usize, concurrency: usize) -> (res: Vec<(usize, usize)>)
    ensures
        bounds_view(res@) == batches_from(0, total as int, batch_size(concurrency)),
{
    let size: usize = if concurrency == 0 {
        1
    } else {
        concurrency
    };
    let mut out: Vec<(usize, usize)> = Vec::new();
    let mut start: usize = 0;
    while start < total
        invariant
            size == batch_size(concurrency),
            size >= 1,
            start <= total,
            bounds_view(out@) + batches_from(start as int, total as int, size as nat)
                == batches_from(0, total as int, size as nat),
        decreases total - start,
    {
        let end = if total - start < size {
            total
        } else {
            start + size
        };
        let ghost prev = out@;
        out.push((start, end));
        assert(bounds_view(out@) == bounds_view(prev).push((start as int, end as int)));
        assert(batches_from(start as int, total as int, size as nat) == seq![
            (start as int, end as int),
        ] + batches_from(end as int, total as int, size as nat));
        start = end;
    }
    assert(bounds_view(out@) + Seq::<(int, int)>::empty() == bounds_view(out@));
    out
}

/// How many of `s` are `true`.
pub open spec fn count_true(s: Seq<bool>) -> nat
    decreases s.len(),
{
    if s.len() == 0 {
        0
    } else {
        count_true(s.drop_last()) + if s.last() {
            1nat
        } else {
            0nat
        }
    }
}

/// The (succeeded, failed) counts of a run's per-file outcomes.
pub fn tally(outcomes: &[bool]) -> (res: (usize, usize))
    ensures
        res.0 == count_true(outcomes@),
        res.0 + res.1 == outcomes@.len(),
{
    let mut ok: usize = 0;
    let mut err: usize = 0;
    for i in 0..outcomes.len()
        invariant
            ok == count_true(outcomes@.take(i as int)),
            ok + err == i,
    {
        assert(outcomes@.take(i + 1).drop_last() == outcomes@.take(i as int));
        if outcomes[i] {
            ok = ok + 1;
        } else {
            err = err + 1;
        }
    }
    assert(outcomes@.take(outcomes@.len() as int) == outcomes@);
    (ok, err)
}

} // verus!

verus! {

#[verifier::external_type_specification]
#[verifier::external_body]
pub struct ExDecodeError(base64::DecodeError);

/// What base64's `STANDARD` engine decodes `text` to (`None` where it reports an error).
pub uninterp spec fn base64_standard_decoded(text: Seq<char>) -> Option<Seq<u8>>;

/// Trusted: `base64::engine::general_purpose::STANDARD.decode`. Its result is named
/// `base64_standard_decoded`: the bytes on success, an error exactly where the name has
/// none.
#[verifier::external_body]
fn decode_base64(text: &str) -> (res: Result<Vec<u8>, base64::DecodeError>)
    ensures
        match res {
            Ok(bytes) => base64_standard_decoded(text@) == Some(bytes@),
            Err(_) => base64_standard_decoded(text@) is None,
        },
{
    base64::engine::general_purpose::STANDARD.decode(text)
}

/// The browser tab's answer for one URL of a batch: the body in base64, or an error.
#[derive(Debug)]
pub struct FetchResult {
    pub url: String,
    pub base64: Option<String>,
    pub error: Option<String>,
}

/// Why the browser transport got no file.
#[derive(Debug)]
pub enum BrowserFetchError {
    /// The tab answered nothing for the URL.
    NoResult,
    /// The tab's fetch failed with this message.
    Fetch(String),
    /// The tab answered without a body.
    EmptyResponse,
    /// The body was not valid base64.
    BadPayload,
}

/// What becomes of one file of a browser batch; `Saved` carries the bytes to write.
#[derive(Debug)]
pub enum FileOutcome {
    NoResult,
    Failed(String),
    Empty,
    Saved(Vec<u8>),
}

/// The first position of `results` whose URL is `url`.
pub open spec fn first_with_url(results: Seq<FetchResult>, url: Seq<char>) -> Option<int>
    decreases results.len(),
{
    if results.len() == 0 {
        None
    } else if results[0].url@ == url {
        Some(0)
    } else {
        match first_with_url(results.drop_first(), url) {
            Some(i) => Some(i + 1),
            None => None,
        }
    }
}

/// What the batch's answer `r` for a file means: a failure, no body, or a body that must
/// decode from base64.
pub open spec fn payload_of(r: FetchResult) -> Result<Seq<u8>, BrowserFetchError> {
    match r.error {
        Some(e) => Err(BrowserFetchError::Fetch(e)),
        None => match r.base64 {
            None => Err(BrowserFetchError::EmptyResponse),
            Some(b) => match base64_standard_decoded(b@) {
                Some(bytes) => Ok(bytes),
                None => Err(BrowserFetchError::BadPayload),
            },
        },
    }
}

fn read_payload(r: &FetchResult) -> (res: Result<Vec<u8>, BrowserFetchError>)
    ensures
        match (res, payload_of(*r)) {
            (Ok(v), Ok(bytes)) => v@ == bytes,
            (Err(BrowserFetchError::Fetch(m)), Err(BrowserFetchError::Fetch(e))) => m@ == e@,
            (Err(BrowserFetchError::EmptyResponse), Err(BrowserFetchError::EmptyResponse)) => true,
            (Err(BrowserFetchError::BadPayload), Err(BrowserFetchError::BadPayload)) => true,
            _ => false,
        },
{
    match &r.error {
        Some(e) => Err(BrowserFetchError::Fetch(e.clone())),
        None => match &r.base64 {
            None => Err(BrowserFetchError::EmptyResponse),
            Some(b) => match decode_base64(b.as_str()) {
                Ok(bytes) => Ok(bytes),
                Err(_) => Err(BrowserFetchError::BadPayload),
            },
        },
    }
}

/// What becomes of the file at `url` given a batch's answers: the first answer for that
/// URL decides; a body that is not base64 fails the whole run.
pub fn file_outcome(results: &[FetchResult], url: &str) -> (res: Result<FileOutcome, BrowserFetchError>)
    ensures
        match first_with_url(results@, url@) {
            None => res matches Ok(FileOutcome::NoResult),
            Some(i) => match payload_of(results@[i]) {
                Ok(bytes) => res matches Ok(FileOutcome::Saved(v)) && v@ == bytes,
                Err(BrowserFetchError::Fetch(e)) => res matches Ok(FileOutcome::Failed(m)) && m@
                    == e@,
                Err(BrowserFetchError::EmptyResponse) => res matches Ok(FileOutcome::Empty),
                Err(_) => res matches Err(BrowserFetchError::BadPayload),
            },
        },
{
    let target = url.to_owned();
    let mut i: usize = 0;
    assert(results@.skip(0) == results@);
    while i < results.len()
        invariant
            i <= results@.len(),
            target@ == url@,
            first_with_url(results@, url@) == match first_with_url(
                results@.skip(i as int),
                url@,
            ) {
                Some(k) => Some(k + i),
                None => None,
            },
        decreases results.len() - i,
    {
        assert(results@.skip(i as int)[0] == results@[i as int]);
        if results[i].url == target {
            return match read_payload(&results[i]) {
                Ok(bytes) => Ok(FileOutcome::Saved(bytes)),
                Err(BrowserFetchError::Fetch(m)) => Ok(FileOutcome::Failed(m)),
                Err(BrowserFetchError::EmptyResponse) => Ok(FileOutcome::Empty),
                Err(_) => Err(BrowserFetchError::BadPayload),
            };
        }
        assert(results@.skip(i as int).drop_first() == results@.skip(i + 1));
        i = i + 1;
    }
    Ok(FileOutcome::NoResult)
}

/// The bytes of a single-URL browser fetch: the first answer decides.
pub fn first_result_bytes(results: &[FetchResult]) -> (res: Result<Vec<u8>, BrowserFetchError>)
    ensures
        results@.len() == 0 ==> res matches Err(BrowserFetchError::NoResult),
        results@.len() > 0 ==> match (res, payload_of(results@[0])) {
            (Ok(v), Ok(bytes)) => v@ == bytes,
            (Err(BrowserFetchError::Fetch(m)), Err(BrowserFetchError::Fetch(e))) => m@ == e@,
            (Err(BrowserFetchError::EmptyResponse), Err(BrowserFetchError::EmptyResponse)) => true,
            (Err(BrowserFetchError::BadPayload), Err(BrowserFetchError::BadPayload)) => true,
            _ => false,
        },
{
    if results.len() == 0 {
        Err(BrowserFetchError::NoResult)
    } else {
        read_payload(&results[0])
    }
}

} // verus!

verus! {

/// The ticker and original-name parts of a file name never hold a path separator, so a
/// saved file cannot escape the output directory through them.
pub proof fn sanitized_has_no_separators(s: Seq<char>)
    ensures
        sanitized(s).len() == s.len(),
        forall|i: int|
            0 <= i < s.len() ==> #[trigger] sanitized(s)[i] != '/' && sanitized(s)[i] != '\\',
{
}

/// How many attachments `replies` have in all.
pub open spec fn attachment_count(replies: Seq<Reply>) -> nat
    decreases replies.len(),
{
    if replies.len() == 0 {
        0
    } else {
        attachment_count(replies.drop_last()) + replies.last().attachments@.len()
    }
}

/// How many of `atts` are main documents.
pub open spec fn main_count(atts: Seq<AttachmentInfo>) -> nat
    decreases atts.len(),
{
    if atts.len() == 0 {
        0
    } else {
        main_count(atts.drop_last()) + if atts.last().is_supporting {
            0nat
        } else {
            1nat
        }
    }
}

/// How many main documents `replies` have in all.
pub open spec fn main_attachment_count(replies: Seq<Reply>) -> nat
    decreases replies.len(),
{
    if replies.len() == 0 {
        0
    } else {
        main_attachment_count(replies.drop_last()) + main_count(replies.last().attachments@)
    }
}

proof fn lemma_attachment_tasks_len(
    atts: Seq<AttachmentInfo>,
    date: Seq<char>,
    ticker: Seq<char>,
)
    ensures
        attachment_tasks(atts, date, ticker, false).len() == atts.len(),
        attachment_tasks(atts, date, ticker, true).len() == main_count(atts),
    decreases atts.len(),
{
    if atts.len() > 0 {
        lemma_attachment_tasks_len(atts.drop_last(), date, ticker);
    }
}

/// Without `main_only` every attachment becomes a task; with it, exactly the main
/// documents do.
pub proof fn tasks_count_attachments(replies: Seq<Reply>)
    ensures
        download_tasks_spec(replies, false).len() == attachment_count(replies),
        download_tasks_spec(replies, true).len() == main_attachment_count(replies),
    decreases replies.len(),
{
    if replies.len() > 0 {
        tasks_count_attachments(replies.drop_last());
        let r = replies.last();
        lemma_attachment_tasks_len(
            r.attachments@,
            compact_date_of(r.pengumuman.tanggal@),
            trim_seq(r.pengumuman.kode_emiten@),
        );
    }
}

proof fn lemma_batches_from(start: int, total: int, size: nat)
    requires
        size > 0,
        0 <= start,
    ensures
        ({
            let b = batches_from(start, total, size);
            &&& b.len() == 0 <==> start >= total
            &&& b.len() > 0 ==> b[0].0 == start && b.last().1 == total
            &&& forall|k: int|
                0 <= k < b.len() ==> start <= (#[trigger] b[k]).0 < b[k].1 <= total && b[k].1
                    - b[k].0 <= size
            &&& forall|k: int| 0 <= k < b.len() - 1 ==> (#[trigger] b[k]).1 == b[k + 1].0
        }),
    decreases total - start,
{
    if start < total {
        let end = if total - start < size {
            total
        } else {
            start + size
        };
        lemma_batches_from(end, total, size);
        let b = batches_from(start, total, size);
        let rest = batches_from(end, total, size);
        assert(b == seq![(start, end)] + rest);
        assert forall|k: int| 0 <= k < b.len() - 1 implies (#[trigger] b[k]).1 == b[k + 1].0 by {
            if k > 0 {
                assert(b[k] == rest[k - 1]);
                assert(b[k + 1] == rest[k]);
            }
        }
        assert forall|k: int| 0 <= k < b.len() implies start <= (#[trigger] b[k]).0 < b[k].1
            <= total && b[k].1 - b[k].0 <= size by {
            if k > 0 {
                assert(b[k] == rest[k - 1]);
            }
        }
    }
}

/// The batches of a run cut the tasks into consecutive, non-empty runs of at most
/// `concurrency` (at least one) tasks, from the first task to the last, in order.
pub proof fn batches_partition_tasks(total: usize, concurrency: usize)
    ensures
        ({
            let b = batches_from(0, total as int, batch_size(concurrency));
            &&& b.len() == 0 <==> total == 0
            &&& b.len() > 0 ==> b[0].0 == 0 && b.last().1 == total
            &&& forall|k: int|
                0 <= k < b.len() ==> (#[trigger] b[k]).0 < b[k].1 && b[k].1 - b[k].0
                    <= batch_size(concurrency)
            &&& forall|k: int| 0 <= k < b.len() - 1 ==> (#[trigger] b[k]).1 == b[k + 1].0
        }),
{
    lemma_batches_from(0, total as int, batch_size(concurrency));
}

} // verus!

verus! {

/// The outcomes of a run, batch after batch: for each batch `[start, end)`, the outcomes
/// of its tasks in order (`per_task` holds each task's own outcome).
pub open spec fn batched_outcomes(per_task: Seq<bool>, batches: Seq<(int, int)>) -> Seq<bool>
    decreases batches.len(),
{
    if batches.len() == 0 {
        Seq::empty()
    } else {
        per_task.subrange(batches[0].0, batches[0].1) + batched_outcomes(
            per_task,
            batches.drop_first(),
        )
    }
}

proof fn lemma_batched_outcomes(per_task: Seq<bool>, start: int, size: nat)
    requires
        size > 0,
        0 <= start <= per_task.len(),
    ensures
        batched_outcomes(per_task, batches_from(start, per_task.len() as int, size))
            == per_task.subrange(start, per_task.len() as int),
    decreases per_task.len() - start,
{
    let total = per_task.len() as int;
    if start < total {
        let end = if total - start < size {
            total
        } else {
            start + size
        };
        let b = batches_from(start, total, size);
        assert(b == seq![(start, end)] + batches_from(end, total, size));
        assert(b.drop_first() == batches_from(end, total, size));
        lemma_batched_outcomes(per_task, end, size);
        assert(per_task.subrange(start, end) + per_task.subrange(end, total) == per_task.subrange(
            start,
            total,
        ));
    } else {
        assert(per_task.subrange(start, total) == Seq::<bool>::empty());
    }
}

/// Whatever the concurrency, a run goes through every task once, in order, so the
/// outcomes it counts are the tasks' own and its counts are the same (the pause between
/// batches decides no outcome).
pub proof fn counts_do_not_depend_on_concurrency(per_task: Seq<bool>, c1: usize, c2: usize)
    ensures
        batched_outcomes(per_task, batches_from(0, per_task.len() as int, batch_size(c1)))
            == per_task,
        count_true(batched_outcomes(per_task, batches_from(0, per_task.len() as int, batch_size(c1))))
            == count_true(
            batched_outcomes(per_task, batches_from(0, per_task.len() as int, batch_size(c2))),
        ),
{
    lemma_batched_outcomes(per_task, 0, batch_size(c1));
    lemma_batched_outcomes(per_task, 0, batch_size(c2));
    assert(per_task.subrange(0, per_task.len() as int) == per_task);
}

/// The tasks of two lists of announcements, one after the other, are the tasks of the
/// first list followed by those of the second.
pub proof fn tasks_of_joined_replies(r1: Seq<Reply>, r2: Seq<Reply>, main_only: bool)
    ensures
        download_tasks_spec(r1 + r2, main_only) == download_tasks_spec(r1, main_only)
            + download_tasks_spec(r2, main_only),
    decreases r2.len(),
{
    if r2.len() == 0 {
        assert(r1 + r2 == r1);
    } else {
        tasks_of_joined_replies(r1, r2.drop_last(), main_only);
        assert((r1 + r2).drop_last() == r1 + r2.drop_last());
        assert((r1 + r2).last() == r2.last());
    }
}

/// The elements of `s` whose flag in `keep` (one flag per element) is set, in order.
pub open spec fn kept<A>(s: Seq<A>, keep: Seq<bool>) -> Seq<A>
    decreases s.len(),
{
    if s.len() == 0 || keep.len() == 0 {
        Seq::empty()
    } else {
        let rest = kept(s.drop_last(), keep.drop_last());
        if keep.last() {
            rest.push(s.last())
        } else {
            rest
        }
    }
}

/// For each attachment of `replies`, announcement after announcement, whether it is a
/// main document.
pub open spec fn main_flags(replies: Seq<Reply>) -> Seq<bool>
    decreases replies.len(),
{
    if replies.len() == 0 {
        Seq::empty()
    } else {
        main_flags(replies.drop_last()) + replies.last().attachments@.map_values(
            |a: AttachmentInfo| !a.is_supporting,
        )
    }
}

proof fn lemma_kept_concat<A>(s1: Seq<A>, k1: Seq<bool>, s2: Seq<A>, k2: Seq<bool>)
    requires
        s1.len() == k1.len(),
        s2.len() == k2.len(),
    ensures
        kept(s1 + s2, k1 + k2) == kept(s1, k1) + kept(s2, k2),
    decreases s2.len(),
{
    if s2.len() == 0 {
        assert(s1 + s2 == s1);
        assert(k1 + k2 == k1);
    } else {
        lemma_kept_concat(s1, k1, s2.drop_last(), k2.drop_last());
        assert((s1 + s2).drop_last() == s1 + s2.drop_last());
        assert((k1 + k2).drop_last() == k1 + k2.drop_last());
        assert((s1 + s2).last() == s2.last());
        assert((k1 + k2).last() == k2.last());
    }
}

proof fn lemma_attachment_tasks_kept(atts: Seq<AttachmentInfo>, date: Seq<char>, ticker: Seq<char>)
    ensures
        attachment_tasks(atts, date, ticker, false).len() == atts.len(),
        attachment_tasks(atts, date, ticker, true) == kept(
            attachment_tasks(atts, date, ticker, false),
            atts.map_values(|a: AttachmentInfo| !a.is_supporting),
        ),
    decreases atts.len(),
{
    if atts.len() > 0 {
        lemma_attachment_tasks_kept(atts.drop_last(), date, ticker);
        assert(atts.map_values(|a: AttachmentInfo| !a.is_supporting).drop_last()
            == atts.drop_last().map_values(|a: AttachmentInfo| !a.is_supporting));
        let full = attachment_tasks(atts, date, ticker, false);
        assert(full.drop_last() == attachment_tasks(atts.drop_last(), date, ticker, false));
    }
}

/// With `main_only`, the task list is the full task list with the tasks of supporting
/// documents left out, the rest in the same order.
pub proof fn main_only_keeps_the_main_tasks(replies: Seq<Reply>)
    ensures
        download_tasks_spec(replies, false).len() == main_flags(replies).len(),
        download_tasks_spec(replies, true) == kept(
            download_tasks_spec(replies, false),
            main_flags(replies),
        ),
    decreases replies.len(),
{
    if replies.len() > 0 {
        main_only_keeps_the_main_tasks(replies.drop_last());
        let r = replies.last();
        let date = compact_date_of(r.pengumuman.tanggal@);
        let ticker = trim_seq(r.pengumuman.kode_emiten@);
        lemma_attachment_tasks_kept(r.attachments@, date, ticker);
        lemma_kept_concat(
            download_tasks_spec(replies.drop_last(), false),
            main_flags(replies.drop_last()),
            attachment_tasks(r.attachments@, date, ticker, false),
            r.attachments@.map_values(|a: AttachmentInfo| !a.is_supporting),
        );
    }
}

} // verus!

verus! {

/// The files a poll of the watch fetches: with `download` set and at least one task, the
/// tasks of its new announcements (only the main documents when `main_only`); `None`
/// when there is nothing to fetch.
pub fn poll_download_tasks(new_items: &[Reply], download: bool, main_only: bool) -> (res: Option<
    Vec<DownloadTask>,
>)
    ensures
        match res {
            Some(t) => download && tasks_view(t@) == download_tasks_spec(new_items@, main_only)
                && t@.len() > 0,
            None => !download || download_tasks_spec(new_items@, main_only).len() == 0,
        },
{
    if !download {
        return None;
    }
    let tasks = build_download_tasks(new_items, main_only);
    if tasks.len() == 0 {
        None
    } else {
        Some(tasks)
    }
}

} // verus!

verus! {

/// Sanitizing a name changes only its path separators: each `/` or `\` becomes `_` and
/// every other character stays as it is, so names that differ elsewhere stay apart.
pub proof fn sanitizing_changes_only_separators(s: Seq<char>)
    ensures
        sanitized(s).len() == s.len(),
        forall|i: int|
            0 <= i < s.len() ==> #[trigger] sanitized(s)[i] == if s[i] == '/' || s[i] == '\\' {
                '_'
            } else {
                s[i]
            },
        forall|t: Seq<char>|
            t.len() == s.len() && (exists|i: int|
                0 <= i < s.len() && s[i] != t[i] && s[i] != '/' && s[i] != '\\' && t[i] != '/'
                    && t[i] != '\\') ==> #[trigger] sanitized(t) != sanitized(s),
{
    assert forall|t: Seq<char>|
        t.len() == s.len() && (exists|i: int|
            0 <= i < s.len() && s[i] != t[i] && s[i] != '/' && s[i] != '\\' && t[i] != '/' && t[i]
                != '\\') implies #[trigger] sanitized(t) != sanitized(s) by {
        let i = choose|i: int|
            0 <= i < s.len() && s[i] != t[i] && s[i] != '/' && s[i] != '\\' && t[i] != '/' && t[i]
                != '\\';
        assert(sanitized(t)[i] != sanitized(s)[i]);
    }
}

/// The file name of an attachment is its date, `_`, its ticker and `_` before its own
/// name, each path separator of the last two replaced by `_`: two attachments of one
/// announcement whose names differ other than in their separators get different files.
pub proof fn file_names_keep_attachment_names_apart(
    date: Seq<char>,
    ticker: Seq<char>,
    a: Seq<char>,
    b: Seq<char>,
)
    requires
        a.len() == b.len(),
        exists|i: int|
            0 <= i < a.len() && a[i] != b[i] && a[i] != '/' && a[i] != '\\' && b[i] != '/' && b[i]
                != '\\',
    ensures
        dest_filename_spec(date, ticker, a) != dest_filename_spec(date, ticker, b),
        dest_filename_spec(date, ticker, a).len() == date.len() + ticker.len() + a.len() + 2,
{
    sanitizing_changes_only_separators(a);
    let i = choose|i: int|
        0 <= i < a.len() && a[i] != b[i] && a[i] != '/' && a[i] != '\\' && b[i] != '/' && b[i]
            != '\\';
    let pre = date + seq!['_'] + sanitized(ticker) + seq!['_'];
    assert(dest_filename_spec(date, ticker, a)[pre.len() + i] == sanitized(a)[i]);
    assert(dest_filename_spec(date, ticker, b)[pre.len() + i] == sanitized(b)[i]);
}

} // verus!
