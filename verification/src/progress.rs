//! The progress book of a running download: how far each range has come,
//! how much of the file is in, and the recent samples that the transfer
//! speed is measured over.

use std::collections::VecDeque;
use vstd::prelude::*;

verus! {

/// How many bytes of its range one connection has received.
#[derive(Clone, Copy, Debug, PartialEq, Eq, Structural)]
pub struct ChunkProgress {
    pub task_id: usize,
    pub downloaded: u64,
    pub total: u64,
}

impl ChunkProgress {
    pub fn new(task_id: usize, downloaded: u64, total: u64) -> (p: Self)
        ensures
            p.task_id == task_id,
            p.downloaded == downloaded,
            p.total == total,
    {
        ChunkProgress { task_id, downloaded, total }
    }

    /// Counts `n` more bytes as received.
    pub fn add_bytes(&mut self, n: u64)
        requires
            old(self).downloaded + n <= u64::MAX,
        ensures
            final(self).downloaded == old(self).downloaded + n,
            final(self).task_id == old(self).task_id,
            final(self).total == old(self).total,
    {
        self.downloaded = self.downloaded + n;
    }

    /// The bytes of the range still to come; 0 once all have come.
    pub fn remaining(&self) -> (r: u64)
        ensures
            r == (if self.downloaded <= self.total { self.total - self.downloaded } else { 0 }),
    {
        self.total.saturating_sub(self.downloaded)
    }
}

/// The bytes received over all entries.
pub open spec fn sum_downloaded(s: Seq<ChunkProgress>) -> int
    decreases s.len(),
{
    if s.len() == 0 {
        0
    } else {
        sum_downloaded(s.drop_last()) + s.last().downloaded
    }
}

/// Some entry is about task `id`.
pub open spec fn has_task(s: Seq<ChunkProgress>, id: usize) -> bool {
    exists|k: int| 0 <= k < s.len() && #[trigger] s[k].task_id == id
}

/// Entry `k` is the first one about task `id`.
pub open spec fn first_of_task(s: Seq<ChunkProgress>, id: usize, k: int) -> bool {
    &&& 0 <= k < s.len()
    &&& s[k].task_id == id
    &&& forall|j: int| 0 <= j < k ==> #[trigger] s[j].task_id != id
}

/// The book after an update: the first entry about the same task is
/// replaced by it, or, where there is none, the update is added at the end.
pub open spec fn recorded(s: Seq<ChunkProgress>, u: ChunkProgress) -> Seq<ChunkProgress> {
    if has_task(s, u.task_id) {
        s.update(choose|k: int| first_of_task(s, u.task_id, k), u)
    } else {
        s.push(u)
    }
}

/// No two entries are about the same task.
pub open spec fn tasks_distinct(s: Seq<ChunkProgress>) -> bool {
    forall|i: int, j: int|
        0 <= i < s.len() && 0 <= j < s.len() && i != j ==> #[trigger] s[i].task_id
            != #[trigger] s[j].task_id
}

/// The speed samples after one more: the oldest is dropped once there are
/// more than `SPEED_WINDOW_LEN`.
pub open spec fn window_after(w: Seq<(u64, u64)>, sample: (u64, u64)) -> Seq<(u64, u64)> {
    let pushed = w.push(sample);
    if pushed.len() > SPEED_WINDOW_LEN {
        pushed.drop_first()
    } else {
        pushed
    }
}

pub open spec fn sum_window_bytes(w: Seq<(u64, u64)>) -> int
    decreases w.len(),
{
    if w.len() == 0 {
        0
    } else {
        sum_window_bytes(w.drop_last()) + w.last().0
    }
}

pub open spec fn sum_window_nanos(w: Seq<(u64, u64)>) -> int
    decreases w.len(),
{
    if w.len() == 0 {
        0
    } else {
        sum_window_nanos(w.drop_last()) + w.last().1
    }
}

proof fn lemma_window_sums_first(q: Seq<(u64, u64)>)
    requires
        q.len() > 0,
    ensures
        sum_window_nanos(q) == q[0].1 + sum_window_nanos(q.drop_first()),
        sum_window_bytes(q) == q[0].0 + sum_window_bytes(q.drop_first()),
    decreases q.len(),
{
    if q.len() > 1 {
        lemma_window_sums_first(q.drop_last());
        assert(q.drop_first().drop_last() =~= q.drop_last().drop_first());
    } else {
        assert(q.drop_first() =~= Seq::<(u64, u64)>::empty());
        assert(q.drop_last() =~= Seq::<(u64, u64)>::empty());
    }
}

/// A speed sample joins the window as it was taken: it becomes the newest,
/// the window keeps, in order, the latest `SPEED_WINDOW_LEN` samples at most,
/// and the window's byte and time totals grow by exactly the new sample, less
/// the oldest one where that one drops out.
pub proof fn lemma_window_after_keeps_samples(w: Seq<(u64, u64)>, sample: (u64, u64))
    requires
        w.len() <= SPEED_WINDOW_LEN,
    ensures
        ({
            let r = window_after(w, sample);
            let full = w.len() == SPEED_WINDOW_LEN;
            &&& r.len() == (if full { w.len() } else { w.len() + 1 })
            &&& r.last() == sample
            &&& forall|i: int|
                0 <= i < r.len() ==> #[trigger] r[i] == w.push(sample)[w.len() + 1 - r.len() + i]
            &&& sum_window_nanos(r) == sum_window_nanos(w) + sample.1 - (if full {
                w[0].1 as int
            } else {
                0
            })
            &&& sum_window_bytes(r) == sum_window_bytes(w) + sample.0 - (if full {
                w[0].0 as int
            } else {
                0
            })
        }),
{
    let p = w.push(sample);
    assert(p.drop_last() =~= w);
    if w.len() == SPEED_WINDOW_LEN {
        lemma_window_sums_first(p);
    }
}

/// How many samples the transfer speed is measured over.
pub const SPEED_WINDOW_LEN: usize = 10;

/// A new speed sample is taken once more than this many nanoseconds have
/// passed since the last one.
pub const SAMPLE_INTERVAL_NANOS: u64 = 200_000_000;

/// The progress of all connections of one download.
pub struct ProgressTracker {
    tasks: Vec<ChunkProgress>,
    total_size: u64,
    total_downloaded: u64,
    last_downloaded: u64,
    window: VecDeque<(u64, u64)>,
}

impl ProgressTracker {
    /// One entry per task that has reported, in the order they first reported.
    pub closed spec fn entries(self) -> Seq<ChunkProgress> {
        self.tasks@
    }

    pub closed spec fn total_size_spec(self) -> u64 {
        self.total_size
    }

    /// The bytes received when the last speed sample was taken.
    pub closed spec fn last_downloaded_spec(self) -> u64 {
        self.last_downloaded
    }

    /// The speed samples, oldest first: bytes received and nanoseconds passed.
    pub closed spec fn window_spec(self) -> Seq<(u64, u64)> {
        self.window@
    }

    /// The book is well formed: no two entries are about the same task, the
    /// running total is the sum of the entries, and the speed window holds at
    /// most `SPEED_WINDOW_LEN` samples.
    pub closed spec fn wf(self) -> bool {
        &&& tasks_distinct(self.tasks@)
        &&& self.total_downloaded == sum_downloaded(self.tasks@)
        &&& self.window@.len() <= SPEED_WINDOW_LEN
    }

    /// A well-formed book has at most one entry per task.
    pub proof fn lemma_wf_tasks_distinct(self)
        requires
            self.wf(),
        ensures
            tasks_distinct(self.entries()),
    {
    }

    /// An empty book for a file of `total_size` bytes.
    pub fn new(total_size: u64) -> (p: Self)
        ensures
            p.wf(),
            tasks_distinct(p.entries()),
            p.entries() == Seq::<ChunkProgress>::empty(),
            p.total_size_spec() == total_size,
            p.last_downloaded_spec() == 0,
            p.window_spec() == Seq::<(u64, u64)>::empty(),
    {
        ProgressTracker {
            tasks: Vec::new(),
            total_size,
            total_downloaded: 0,
            last_downloaded: 0,
            window: VecDeque::new(),
        }
    }

    pub fn total_size(&self) -> (n: u64)
        ensures
            n == self.total_size_spec(),
    {
        self.total_size
    }

    /// The bytes received over all connections.
    pub fn total_downloaded(&self) -> (n: u64)
        requires
            self.wf(),
        ensures
            n == sum_downloaded(self.entries()),
    {
        self.total_downloaded
    }

    pub fn entries_slice(&self) -> (s: &[ChunkProgress])
        ensures
            s@ == self.entries(),
    {
        self.tasks.as_slice()
    }

    /// The bytes of the file still to come; 0 once all have come.
    pub fn remaining(&self) -> (n: u64)
        requires
            self.wf(),
        ensures
            n == (if sum_downloaded(self.entries()) <= self.total_size_spec() {
                self.total_size_spec() - sum_downloaded(self.entries())
            } else {
                0
            }),
    {
        self.total_size.saturating_sub(self.total_downloaded)
    }

    /// Takes in the latest report of one connection. Refused, with the book
    /// unchanged, where the bytes received would no longer fit in a `u64`.
    pub fn record(&mut self, update: ChunkProgress) -> (accepted: bool)
        requires
            old(self).wf(),
        ensures
            final(self).wf(),
            tasks_distinct(final(self).entries()),
            accepted == (sum_downloaded(recorded(old(self).entries(), update)) <= u64::MAX),
            accepted ==> final(self).entries() == recorded(old(self).entries(), update),
            !accepted ==> final(self).entries() == old(self).entries(),
            final(self).total_size_spec() == old(self).total_size_spec(),
            final(self).last_downloaded_spec() == old(self).last_downloaded_spec(),
            final(self).window_spec() == old(self).window_spec(),
    {
        let ghost old_entries = self.tasks@;
        let pos = position_of(&self.tasks, update.task_id);
        let mut next: Vec<ChunkProgress> = Vec::new();
        let len = self.tasks.len();
        let mut i: usize = 0;
        while i < len
            invariant
                len == self.tasks@.len(),
                self.tasks@ == old_entries,
                self.wf(),
                i <= len,
                next@.len() == i,
                forall|j: int|
                    0 <= j < i ==> #[trigger] next@[j] == (if pos == Some(j as usize) {
                        update
                    } else {
                        old_entries[j]
                    }),
            decreases len - i,
        {
            let e = if pos == Some(i) {
                update
            } else {
                self.tasks[i]
            };
            next.push(e);
            i = i + 1;
        }
        if pos.is_none() {
            next.push(update);
        }
        proof {
            lemma_recorded_unfold(old_entries, update, pos);
            assert(next@ =~= recorded(old_entries, update));
            lemma_recorded_distinct(old_entries, update);
        }
        match total_of(&next) {
            Some(t) => {
                proof {
                    lemma_sum_nonneg(next@);
                }
                self.tasks = next;
                self.total_downloaded = t;
                true
            },
            None => false,
        }
    }

    /// Takes a speed sample where more than `SAMPLE_INTERVAL_NANOS` have
    /// passed since the last one: the bytes received since then and the time
    /// passed join the window, and the oldest sample leaves it once it holds
    /// more than `SPEED_WINDOW_LEN`.
    pub fn sample(&mut self, elapsed_nanos: u64) -> (taken: bool)
        requires
            old(self).wf(),
        ensures
            final(self).wf(),
            tasks_distinct(final(self).entries()),
            taken == (elapsed_nanos > SAMPLE_INTERVAL_NANOS),
            final(self).entries() == old(self).entries(),
            final(self).total_size_spec() == old(self).total_size_spec(),
            taken ==> {
                let total = sum_downloaded(old(self).entries());
                let last = old(self).last_downloaded_spec();
                let delta = (if last <= total { total - last } else { 0 }) as u64;
                &&& final(self).window_spec() == window_after(
                    old(self).window_spec(),
                    (delta, elapsed_nanos),
                )
                &&& final(self).last_downloaded_spec() == total
            },
            !taken ==> final(self).window_spec() == old(self).window_spec()
                && final(self).last_downloaded_spec() == old(self).last_downloaded_spec(),
    {
        if elapsed_nanos > SAMPLE_INTERVAL_NANOS {
            let delta = self.total_downloaded.saturating_sub(self.last_downloaded);
            self.window.push_back((delta, elapsed_nanos));
            if self.window.len() > SPEED_WINDOW_LEN {
                self.window.pop_front();
            }
            self.last_downloaded = self.total_downloaded;
            true
        } else {
            false
        }
    }

    /// The bytes and the nanoseconds that the speed window adds up to.
    pub fn window_totals(&self) -> (r: (u128, u128))
        requires
            self.wf(),
        ensures
            r.0 == sum_window_bytes(self.window_spec()),
            r.1 == sum_window_nanos(self.window_spec()),
    {
        let mut bytes: u128 = 0;
        let mut nanos: u128 = 0;
        let len = self.window.len();
        let mut i: usize = 0;
        while i < len
            invariant
                len == self.window@.len(),
                len <= SPEED_WINDOW_LEN,
                i <= len,
                bytes == sum_window_bytes(self.window@.take(i as int)),
                nanos == sum_window_nanos(self.window@.take(i as int)),
                bytes <= i * (u64::MAX as int),
                nanos <= i * (u64::MAX as int),
            decreases len - i,
        {
            let (b, t) = self.window[i];
            assert(self.window@.take(i + 1).drop_last() =~= self.window@.take(i as int));
            bytes = bytes + b as u128;
            nanos = nanos + t as u128;
            i = i + 1;
        }
        assert(self.window@.take(len as int) =~= self.window@);
        (bytes, nanos)
    }
}

/// The first entry about task `id`, if any.
fn position_of(tasks: &Vec<ChunkProgress>, id: usize) -> (r: Option<usize>)
    ensures
        match r {
            Some(k) => first_of_task(tasks@, id, k as int),
            None => !has_task(tasks@, id),
        },
{
    let mut i: usize = 0;
    while i < tasks.len()
        invariant
            i <= tasks@.len(),
            forall|j: int| 0 <= j < i ==> #[trigger] tasks@[j].task_id != id,
        decreases tasks.len() - i,
    {
        if tasks[i].task_id == id {
            return Some(i);
        }
        i = i + 1;
    }
    None
}

/// The bytes received over `s`, where they fit in a `u64`.
fn total_of(s: &Vec<ChunkProgress>) -> (r: Option<u64>)
    ensures
        r == (if sum_downloaded(s@) <= u64::MAX {
            Some(sum_downloaded(s@) as u64)
        } else {
            None
        }),
{
    let mut acc: u64 = 0;
    let mut i: usize = 0;
    while i < s.len()
        invariant
            i <= s@.len(),
            acc == sum_downloaded(s@.take(i as int)),
        decreases s.len() - i,
    {
        assert(s@.take(i + 1).drop_last() =~= s@.take(i as int));
        match acc.checked_add(s[i].downloaded) {
            Some(a) => {
                acc = a;
            },
            None => {
                proof {
                    lemma_sum_prefix_le(s@, i + 1);
                }
                return None;
            },
        }
        i = i + 1;
    }
    assert(s@.take(s@.len() as int) =~= s@);
    Some(acc)
}

proof fn lemma_sum_nonneg(s: Seq<ChunkProgress>)
    ensures
        sum_downloaded(s) >= 0,
    decreases s.len(),
{
    if s.len() > 0 {
        lemma_sum_nonneg(s.drop_last());
    }
}

/// No prefix of the book holds more bytes than the whole.
proof fn lemma_sum_prefix_le(s: Seq<ChunkProgress>, k: int)
    requires
        0 <= k <= s.len(),
    ensures
        sum_downloaded(s.take(k)) <= sum_downloaded(s),
    decreases s.len(),
{
    if k < s.len() {
        lemma_sum_prefix_le(s.drop_last(), k);
        assert(s.drop_last().take(k) =~= s.take(k));
    } else {
        assert(s.take(k) =~= s);
    }
}

/// `recorded` spelled out for the first position found.
proof fn lemma_recorded_unfold(s: Seq<ChunkProgress>, u: ChunkProgress, pos: Option<usize>)
    requires
        match pos {
            Some(k) => first_of_task(s, u.task_id, k as int),
            None => !has_task(s, u.task_id),
        },
    ensures
        recorded(s, u) == match pos {
            Some(k) => s.update(k as int, u),
            None => s.push(u),
        },
{
    if let Some(k) = pos {
        assert(s[k as int].task_id == u.task_id);
        let c = choose|c: int| first_of_task(s, u.task_id, c);
        assert(first_of_task(s, u.task_id, c));
        if c < k {
            assert(s[c].task_id != u.task_id);
        } else if k < c {
            assert(s[k as int].task_id != u.task_id);
        }
    }
}

/// Recording an update keeps the entries about distinct tasks.
proof fn lemma_recorded_distinct(s: Seq<ChunkProgress>, u: ChunkProgress)
    requires
        tasks_distinct(s),
    ensures
        tasks_distinct(recorded(s, u)),
        has_task(recorded(s, u), u.task_id),
{
    if has_task(s, u.task_id) {
        let k = choose|k: int| first_of_task(s, u.task_id, k);
        let w = choose|w: int| 0 <= w < s.len() && #[trigger] s[w].task_id == u.task_id;
        lemma_first_exists(s, u.task_id, w);
        let r = s.update(k, u);
        assert forall|i: int, j: int|
            0 <= i < r.len() && 0 <= j < r.len() && i != j implies #[trigger] r[i].task_id
            != #[trigger] r[j].task_id by {
            if i != k && j != k {
                assert(s[i].task_id != s[j].task_id);
            } else if i == k {
                assert(s[j].task_id != s[k].task_id);
            } else {
                assert(s[i].task_id != s[k].task_id);
            }
        }
        assert(r[k].task_id == u.task_id);
    } else {
        let r = s.push(u);
        assert forall|i: int, j: int|
            0 <= i < r.len() && 0 <= j < r.len() && i != j implies #[trigger] r[i].task_id
            != #[trigger] r[j].task_id by {
            if i < s.len() && j < s.len() {
                assert(s[i].task_id != s[j].task_id);
            } else if i == s.len() {
                assert(!(s[j].task_id == u.task_id));
            } else {
                assert(!(s[i].task_id == u.task_id));
            }
        }
        assert(r[s.len() as int].task_id == u.task_id);
    }
}

/// Where some entry is about task `id`, a first one is.
proof fn lemma_first_exists(s: Seq<ChunkProgress>, id: usize, w: int)
    requires
        0 <= w < s.len(),
        s[w].task_id == id,
    ensures
        exists|k: int| first_of_task(s, id, k),
    decreases w,
{
    if forall|j: int| 0 <= j < w ==> #[trigger] s[j].task_id != id {
        assert(first_of_task(s, id, w));
    } else {
        let v = choose|j: int| 0 <= j < w && #[trigger] s[j].task_id == id;
        lemma_first_exists(s, id, v);
    }
}

/// Each task has at most one entry, and it holds the task's latest report:
/// recording the same report again leaves the book as it is.
pub proof fn lemma_record_idempotent(s: Seq<ChunkProgress>, u: ChunkProgress)
    requires
        tasks_distinct(s),
    ensures
        recorded(recorded(s, u), u) == recorded(s, u),
        tasks_distinct(recorded(s, u)),
{
    lemma_recorded_distinct(s, u);
    let r = recorded(s, u);
    let w = choose|w: int| 0 <= w < r.len() && #[trigger] r[w].task_id == u.task_id;
    lemma_first_exists(r, u.task_id, w);
    let k = choose|k: int| first_of_task(r, u.task_id, k);
    assert(first_of_task(r, u.task_id, k));
    if has_task(s, u.task_id) {
        let c = choose|c: int| first_of_task(s, u.task_id, c);
        let w2 = choose|w2: int| 0 <= w2 < s.len() && #[trigger] s[w2].task_id == u.task_id;
        lemma_first_exists(s, u.task_id, w2);
        assert(r[c] == u);
        if k != c {
            assert(r[k].task_id != r[c].task_id);
        }
        assert(r.update(k, u) =~= r);
    } else {
        assert(r[s.len() as int] == u);
        if k != s.len() {
            assert(r[k].task_id != r[s.len() as int].task_id);
        }
        assert(r.update(k, u) =~= r);
    }
}

} // verus!
