//! Watching the feed: which announcements of each poll are new, and what is remembered
//! as seen between polls.

use vstd::prelude::*;

use crate::api::Reply;

verus! {

/// How many remembered ids make the memory worth resetting on a poll with nothing new.
pub const SEEN_LIMIT: usize = 5000;

/// The ids of a window of announcements, newest first.
pub open spec fn window_ids(replies: Seq<Reply>) -> Seq<Seq<char>> {
    replies.map_values(|r: Reply| r.pengumuman.id2@)
}

/// Positions of `w[..k]` whose id is not in `seen`, from the oldest (highest position) to
/// the newest.
pub open spec fn fresh_positions(w: Seq<Seq<char>>, seen: Set<Seq<char>>, k: int) -> Seq<int>
    decreases k,
{
    if k <= 0 {
        Seq::empty()
    } else {
        let rest = fresh_positions(w, seen, k - 1);
        if seen.contains(w[k - 1]) {
            rest
        } else {
            seq![k - 1] + rest
        }
    }
}

/// The positions of the window that a poll reports as new: none on the first poll
/// (it only takes a baseline), else every one whose id was not seen before, oldest first.
pub open spec fn reported(first: bool, seen: Set<Seq<char>>, w: Seq<Seq<char>>) -> Seq<int> {
    if first {
        Seq::empty()
    } else {
        fresh_positions(w, seen, w.len() as int)
    }
}

/// The ids remembered after a poll: the window's ids are added, except that a poll that
/// finds nothing new while more than `SEEN_LIMIT` ids are remembered keeps only the
/// window's.
pub open spec fn next_seen(first: bool, seen: Set<Seq<char>>, w: Seq<Seq<char>>) -> Set<
    Seq<char>,
> {
    if !first && reported(first, seen, w).len() == 0 && seen.len() > SEEN_LIMIT {
        w.to_set()
    } else {
        seen + w.to_set()
    }
}

/// The ids of a list of strings.
pub open spec fn ids_of(v: Seq<String>) -> Seq<Seq<char>> {
    v.map_values(|s: String| s@)
}

/// What a watch remembers between polls.
pub struct WatchState {
    seen: Vec<String>,
    first_poll: bool,
}

fn contains_id(v: &Vec<String>, id: &String) -> (res: bool)
    ensures
        res == ids_of(v@).contains(id@),
{
    let mut i: usize = 0;
    while i < v.len()
        invariant
            i <= v@.len(),
            forall|j: int| 0 <= j < i ==> ids_of(v@)[j] != id@,
        decreases v.len() - i,
    {
        if v[i] == *id {
            assert(ids_of(v@)[i as int] == id@);
            return true;
        }
        i = i + 1;
    }
    false
}

fn insert_id(v: &mut Vec<String>, id: &String)
    requires
        ids_of(old(v)@).no_duplicates(),
    ensures
        ids_of(final(v)@).no_duplicates(),
        ids_of(final(v)@).to_set() == ids_of(old(v)@).to_set().insert(id@),
{
    if !contains_id(v, id) {
        let ghost prev = v@;
        v.push(id.clone());
        assert(ids_of(v@) == ids_of(prev).push(id@));
        proof {
            ids_of(prev).lemma_push_to_set_commute(id@);
        }
    } else {
        assert(ids_of(v@).to_set().insert(id@) == ids_of(v@).to_set());
    }
}

impl WatchState {
    /// The ids remembered as seen.
    pub closed spec fn seen_ids(&self) -> Set<Seq<char>> {
        ids_of(self.seen@).to_set()
    }

    /// No poll has been made yet.
    pub closed spec fn is_first(&self) -> bool {
        self.first_poll
    }

    /// Each remembered id is kept once.
    pub closed spec fn wf(&self) -> bool {
        ids_of(self.seen@).no_duplicates()
    }

    /// A watch that has seen nothing and not polled yet.
    pub fn new() -> (res: Self)
        ensures
            res.wf(),
            res.is_first(),
            res.seen_ids() == Set::<Seq<char>>::empty(),
    {
        let res = WatchState { seen: Vec::new(), first_poll: true };
        assert(ids_of(res.seen@) == Seq::<Seq<char>>::empty());
        res
    }

    /// How many ids are remembered.
    pub fn seen_count(&self) -> (res: usize)
        requires
            self.wf(),
        ensures
            res == self.seen_ids().len(),
    {
        proof {
            ids_of(self.seen@).unique_seq_to_set();
        }
        self.seen.len()
    }

    /// Whether no poll has been made yet.
    pub fn is_first_poll(&self) -> (res: bool)
        ensures
            res == self.is_first(),
    {
        self.first_poll
    }

    /// Whether `id` is remembered as seen.
    pub fn has_seen(&self, id: &str) -> (res: bool)
        ensures
            res == self.seen_ids().contains(id@),
    {
        let owned = id.to_owned();
        contains_id(&self.seen, &owned)
    }

    /// Takes in one poll's window of announcements (newest first) and returns the
    /// positions of the new ones, oldest first. The first poll only records the window
    /// as a baseline.
    pub fn poll(&mut self, replies: &[Reply]) -> (res: Vec<usize>)
        requires
            old(self).wf(),
        ensures
            final(self).wf(),
            !final(self).is_first(),
            res@.map_values(|p: usize| p as int) == reported(
                old(self).is_first(),
                old(self).seen_ids(),
                window_ids(replies@),
            ),
            final(self).seen_ids() == next_seen(
                old(self).is_first(),
                old(self).seen_ids(),
                window_ids(replies@),
            ),
    {
        let ghost w = window_ids(replies@);
        let ghost seen0 = self.seen_ids();
        let n = replies.len();
        let mut fresh: Vec<usize> = Vec::new();
        if !self.first_poll {
            let mut k: usize = n;
            while k > 0
                invariant
                    k <= n == replies@.len(),
                    w == window_ids(replies@),
                    seen0 == self.seen_ids(),
                    fresh@.map_values(|p: usize| p as int) + fresh_positions(w, seen0, k as int)
                        == fresh_positions(w, seen0, n as int),
                decreases k,
            {
                k = k - 1;
                let ghost prev = fresh@;
                if !contains_id(&self.seen, &replies[k].pengumuman.id2) {
                    fresh.push(k);
                    assert(fresh@.map_values(|p: usize| p as int) == prev.map_values(
                        |p: usize| p as int,
                    ).push(k as int));
                }
            }
            assert(fresh_positions(w, seen0, 0) == Seq::<int>::empty());
        }
        let reset = !self.first_poll && fresh.len() == 0 && self.seen_count() > SEEN_LIMIT;
        if reset {
            self.seen = Vec::new();
            assert(ids_of(self.seen@) == Seq::<Seq<char>>::empty());
        }
        let ghost base = self.seen_ids();
        let mut i: usize = 0;
        while i < n
            invariant
                i <= n == replies@.len(),
                w == window_ids(replies@),
                ids_of(self.seen@).no_duplicates(),
                self.seen_ids() == base + w.take(i as int).to_set(),
            decreases n - i,
        {
            insert_id(&mut self.seen, &replies[i].pengumuman.id2);
            proof {
                w.take(i as int).lemma_push_to_set_commute(w[i as int]);
                assert(w.take(i + 1) == w.take(i as int).push(w[i as int]));
            }
            i = i + 1;
        }
        assert(w.take(n as int) == w);
        self.first_poll = false;
        fresh
    }
}

} // verus!

verus! {

proof fn lemma_fresh_positions(w: Seq<Seq<char>>, seen: Set<Seq<char>>, k: int)
    requires
        0 <= k <= w.len(),
    ensures
        forall|j: int|
            0 <= j < fresh_positions(w, seen, k).len() ==> 0 <= #[trigger] fresh_positions(
                w,
                seen,
                k,
            )[j] < k && !seen.contains(w[fresh_positions(w, seen, k)[j]]),
    decreases k,
{
    if k > 0 {
        lemma_fresh_positions(w, seen, k - 1);
        let rest = fresh_positions(w, seen, k - 1);
        if !seen.contains(w[k - 1]) {
            assert forall|j: int| 0 <= j < fresh_positions(w, seen, k).len() implies 0
                <= #[trigger] fresh_positions(w, seen, k)[j] < k && !seen.contains(
                w[fresh_positions(w, seen, k)[j]],
            ) by {
                if j > 0 {
                    assert(fresh_positions(w, seen, k)[j] == rest[j - 1]);
                }
            }
        }
    }
}

/// After any poll, every id of the polled window is remembered as seen.
pub proof fn window_is_remembered(first: bool, seen: Set<Seq<char>>, w: Seq<Seq<char>>)
    ensures
        w.to_set().subset_of(next_seen(first, seen, w)),
{
}

/// An announcement reported as new by one poll is never reported again by the next,
/// whatever window that poll sees.
pub proof fn no_announcement_is_reported_twice(
    first: bool,
    seen: Set<Seq<char>>,
    w1: Seq<Seq<char>>,
    w2: Seq<Seq<char>>,
)
    ensures
        forall|i: int, j: int|
            0 <= i < reported(first, seen, w1).len() && 0 <= j < reported(
                false,
                next_seen(first, seen, w1),
                w2,
            ).len() ==> w1[#[trigger] reported(first, seen, w1)[i]] != w2[#[trigger] reported(
                false,
                next_seen(first, seen, w1),
                w2,
            )[j]],
{
    let seen1 = next_seen(first, seen, w1);
    lemma_fresh_positions(w1, seen, w1.len() as int);
    lemma_fresh_positions(w2, seen1, w2.len() as int);
    assert forall|i: int, j: int|
        0 <= i < reported(first, seen, w1).len() && 0 <= j < reported(false, seen1, w2).len()
            implies w1[#[trigger] reported(first, seen, w1)[i]] != w2[#[trigger] reported(
        false,
        seen1,
        w2,
    )[j]] by {
        let p = reported(first, seen, w1)[i];
        assert(w1.to_set().contains(w1[p]));
        assert(seen1.contains(w1[p]));
    }
}

/// The first poll only takes a baseline: it reports nothing.
pub proof fn first_poll_reports_nothing(seen: Set<Seq<char>>, w: Seq<Seq<char>>)
    ensures
        reported(true, seen, w).len() == 0,
{
}

} // verus!

verus! {

proof fn lemma_fresh_positions_descending(w: Seq<Seq<char>>, seen: Set<Seq<char>>, k: int)
    requires
        0 <= k <= w.len(),
    ensures
        forall|a: int, b: int|
            0 <= a < b < fresh_positions(w, seen, k).len() ==> fresh_positions(w, seen, k)[a]
                > fresh_positions(w, seen, k)[b],
    decreases k,
{
    if k > 0 {
        lemma_fresh_positions_descending(w, seen, k - 1);
        lemma_fresh_positions(w, seen, k - 1);
        let rest = fresh_positions(w, seen, k - 1);
        if !seen.contains(w[k - 1]) {
            assert forall|a: int, b: int|
                0 <= a < b < fresh_positions(w, seen, k).len() implies fresh_positions(
                w,
                seen,
                k,
            )[a] > fresh_positions(w, seen, k)[b] by {
                assert(fresh_positions(w, seen, k)[b] == rest[b - 1]);
                if a > 0 {
                    assert(fresh_positions(w, seen, k)[a] == rest[a - 1]);
                }
            }
        }
    }
}

/// New announcements are reported oldest first: the window lists the newest first, and
/// the reported positions go from the back of the window to the front.
pub proof fn new_announcements_come_oldest_first(
    first: bool,
    seen: Set<Seq<char>>,
    w: Seq<Seq<char>>,
)
    ensures
        forall|a: int, b: int|
            0 <= a < b < reported(first, seen, w).len() ==> reported(first, seen, w)[a] > reported(
                first,
                seen,
                w,
            )[b],
        forall|j: int|
            0 <= j < reported(first, seen, w).len() ==> 0 <= #[trigger] reported(first, seen, w)[j]
                < w.len() && !seen.contains(w[reported(first, seen, w)[j]]),
{
    lemma_fresh_positions_descending(w, seen, w.len() as int);
    lemma_fresh_positions(w, seen, w.len() as int);
}

} // verus!

verus! {

proof fn lemma_fresh_positions_complete(w: Seq<Seq<char>>, seen: Set<Seq<char>>, k: int)
    requires
        0 <= k <= w.len(),
    ensures
        forall|p: int|
            fresh_positions(w, seen, k).contains(p) <==> (0 <= p < k && !seen.contains(w[p])),
    decreases k,
{
    if k > 0 {
        lemma_fresh_positions_complete(w, seen, k - 1);
        let rest = fresh_positions(w, seen, k - 1);
        if !seen.contains(w[k - 1]) {
            let f = fresh_positions(w, seen, k);
            assert(f == seq![k - 1] + rest);
            assert forall|p: int| f.contains(p) <==> (0 <= p < k && !seen.contains(w[p])) by {
                if f.contains(p) {
                    let j = choose|j: int| 0 <= j < f.len() && f[j] == p;
                    if j > 0 {
                        assert(rest[j - 1] == p);
                        assert(rest.contains(p));
                    }
                }
                if 0 <= p < k && !seen.contains(w[p]) {
                    if p == k - 1 {
                        assert(f[0] == p);
                    } else {
                        assert(rest.contains(p));
                        let j = choose|j: int| 0 <= j < rest.len() && rest[j] == p;
                        assert(f[j + 1] == p);
                    }
                }
            }
        }
    }
}

/// After the baseline, a poll reports exactly the announcements of its window that were
/// not seen before: a window position is reported if and only if its id is new. Each is
/// reported once, and they come oldest (highest position) first.
pub proof fn poll_reports_every_new_announcement(seen: Set<Seq<char>>, w: Seq<Seq<char>>)
    ensures
        forall|p: int|
            reported(false, seen, w).contains(p) <==> (0 <= p < w.len() && !seen.contains(w[p])),
        forall|a: int, b: int|
            0 <= a < b < reported(false, seen, w).len() ==> reported(false, seen, w)[a] > reported(
                false,
                seen,
                w,
            )[b],
{
    lemma_fresh_positions_complete(w, seen, w.len() as int);
    lemma_fresh_positions_descending(w, seen, w.len() as int);
}

} // verus!
