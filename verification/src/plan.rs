//! Splitting a file of known size into the byte ranges that the connections fetch.

use crate::config::Config;
use crate::headers::{bytes_unit, bytes_view, content_length, content_length_spec, supports_byte_ranges};
use crate::task::DownloadTask;
use vstd::arithmetic::div_mod::{lemma_fundamental_div_mod, lemma_fundamental_div_mod_converse};
use vstd::prelude::*;

verus! {

/// Where range `i` starts when `total` bytes are split over `n` connections.
///
/// The split is as even as can be: with `q = total / n` and `r = total % n`,
/// the first `r` ranges hold `q + 1` bytes and the others `q`.
pub open spec fn chunk_start(total: int, n: int, i: int) -> int {
    i * (total / n) + if i < total % n {
        i
    } else {
        total % n
    }
}

/// How many bytes range `i` holds.
pub open spec fn chunk_len(total: int, n: int, i: int) -> int {
    chunk_start(total, n, i + 1) - chunk_start(total, n, i)
}

/// Byte `b` lies in range `i`.
pub open spec fn in_chunk(total: int, n: int, i: int, b: int) -> bool {
    chunk_start(total, n, i) <= b < chunk_start(total, n, i + 1)
}

/// `t` is range `i` of the plan for `config` and a file of `total` bytes.
pub open spec fn is_planned_task(t: DownloadTask, config: Config, total: u64, i: int) -> bool {
    let n = config.thread_count as int;
    &&& t.url == config.url
    &&& t.output_path == config.output_path
    &&& t.thread_id == i
    &&& t.start_byte == chunk_start(total as int, n, i)
    &&& t.end_byte == chunk_start(total as int, n, i + 1) - 1
}

/// `tasks` is the whole plan: one range per connection, in order.
pub open spec fn is_plan(tasks: Seq<DownloadTask>, config: Config, total: u64) -> bool {
    &&& tasks.len() == config.thread_count
    &&& forall|i: int| 0 <= i < tasks.len() ==> is_planned_task(#[trigger] tasks[i], config, total, i)
}

/// One step of the split: what is left after range `i` starts, and how long range `i` is.
proof fn lemma_chunk_step(total: int, n: int, i: int)
    requires
        total >= 1,
        n >= 1,
        0 <= i < n,
    ensures
        ({
            let q = total / n;
            let r = total % n;
            let remain = total - chunk_start(total, n, i);
            &&& remain == (n - i) * q + (if i < r { r - i } else { 0 })
            &&& remain / (n - i) == q
            &&& (remain % (n - i) != 0) == (i < r)
            &&& chunk_start(total, n, i + 1) == chunk_start(total, n, i) + q + (if i < r { 1int } else { 0 })
            &&& 0 <= chunk_start(total, n, i) <= total
            &&& q + (if i < r { 1int } else { 0 }) <= remain
        }),
{
    let q = total / n;
    let r = total % n;
    lemma_fundamental_div_mod(total, n);
    assert(total == n * q + r);
    assert(0 <= r < n);
    assert(q >= 0) by (nonlinear_arith)
        requires
            total >= 1,
            n >= 1,
            q == total / n,
    ;
    let m = if i < r { r - i } else { 0 };
    let remain = total - chunk_start(total, n, i);
    assert(remain == (n - i) * q + m) by (nonlinear_arith)
        requires
            total == n * q + r,
            remain == total - (i * q + if i < r { i } else { r }),
            m == if i < r { r - i } else { 0 },
    ;
    lemma_fundamental_div_mod_converse(remain, n - i, q, m);
    assert((n - i) * q >= q) by (nonlinear_arith)
        requires
            n - i >= 1,
            q >= 0,
    ;
    assert((i + 1) * q == i * q + q) by (nonlinear_arith);
    assert(0 <= i * q) by (nonlinear_arith)
        requires
            0 <= i,
            0 <= q,
    ;
    assert(i * q + q <= n * q) by (nonlinear_arith)
        requires
            i + 1 <= n,
            0 <= q,
    ;
}

/// The number of connections that a plan has is the number configured; the
/// ranges follow each other without gap or overlap and together hold the file.
///
/// For `n` connections and a file of `total` bytes: range 0 starts at byte 0,
/// each range starts right after the one before it ends, the last ends at
/// the last byte of the file, and the lengths add up to `total`.
pub proof fn lemma_plan_covers_file(total: int, n: int)
    requires
        total >= 1,
        n >= 1,
    ensures
        chunk_start(total, n, 0) == 0,
        chunk_start(total, n, n) == total,
        forall|i: int| 0 <= i < n ==> #[trigger] chunk_len(total, n, i) >= 0,
        forall|i: int, j: int|
            0 <= i <= j <= n ==> chunk_start(total, n, i) <= chunk_start(total, n, j),
{
    let q = total / n;
    let r = total % n;
    lemma_fundamental_div_mod(total, n);
    assert(chunk_start(total, n, n) == total) by (nonlinear_arith)
        requires
            total == n * q + r,
            0 <= r < n,
            chunk_start(total, n, n) == n * q + if n < r { n } else { r },
    ;
    assert forall|i: int| 0 <= i < n implies #[trigger] chunk_len(total, n, i) >= 0 by {
        lemma_chunk_step(total, n, i);
    }
    assert forall|i: int, j: int| 0 <= i <= j <= n implies chunk_start(total, n, i) <= chunk_start(
        total,
        n,
        j,
    ) by {
        lemma_chunk_start_monotone(total, n, i, j);
    }
}

proof fn lemma_chunk_start_monotone(total: int, n: int, i: int, j: int)
    requires
        total >= 1,
        n >= 1,
        0 <= i <= j <= n,
    ensures
        chunk_start(total, n, i) <= chunk_start(total, n, j),
    decreases j - i,
{
    if i < j {
        lemma_chunk_step(total, n, j - 1);
        lemma_chunk_start_monotone(total, n, i, j - 1);
    }
}

/// Every byte of the file lies in exactly one range of the plan.
pub proof fn lemma_plan_byte_in_one_range(total: int, n: int, b: int)
    requires
        total >= 1,
        n >= 1,
        0 <= b < total,
    ensures
        exists|i: int| 0 <= i < n && #[trigger] in_chunk(total, n, i, b),
        forall|i: int, j: int|
            0 <= i < n && 0 <= j < n && #[trigger] in_chunk(total, n, i, b) && #[trigger] in_chunk(
                total,
                n,
                j,
                b,
            ) ==> i == j,
{
    lemma_plan_covers_file(total, n);
    lemma_find_range(total, n, b, n);
    assert forall|i: int, j: int|
        0 <= i < n && 0 <= j < n && #[trigger] in_chunk(total, n, i, b) && #[trigger] in_chunk(
            total,
            n,
            j,
            b,
        ) implies i == j by {
        if i < j {
            lemma_chunk_start_monotone(total, n, i + 1, j);
        } else if j < i {
            lemma_chunk_start_monotone(total, n, j + 1, i);
        }
    }
}

proof fn lemma_find_range(total: int, n: int, b: int, k: int)
    requires
        total >= 1,
        n >= 1,
        0 <= k <= n,
        0 <= b < chunk_start(total, n, k),
    ensures
        exists|i: int| 0 <= i < k && #[trigger] in_chunk(total, n, i, b),
    decreases k,
{
    lemma_plan_covers_file_start(total, n);
    if k == 0 {
    } else if chunk_start(total, n, k - 1) <= b {
        assert(in_chunk(total, n, k - 1, b));
    } else {
        lemma_find_range(total, n, b, k - 1);
    }
}

proof fn lemma_plan_covers_file_start(total: int, n: int)
    requires
        total >= 1,
        n >= 1,
    ensures
        chunk_start(total, n, 0) == 0,
{
    lemma_fundamental_div_mod(total, n);
}

/// The ranges are as even as can be: each holds `total / n` or `total / n + 1`
/// bytes, the longer ones first.
pub proof fn lemma_plan_balanced(total: int, n: int, i: int)
    requires
        total >= 1,
        n >= 1,
        0 <= i < n,
    ensures
        chunk_len(total, n, i) == total / n + (if i < total % n { 1int } else { 0 }),
        n <= total ==> chunk_len(total, n, i) >= 1,
{
    lemma_chunk_step(total, n, i);
    if n <= total {
        lemma_fundamental_div_mod(total, n);
        assert(total / n >= 1) by (nonlinear_arith)
            requires
                total == n * (total / n) + total % n,
                0 <= total % n < n,
                n <= total,
        ;
    }
}

/// The ranges of a plan, read as tasks: the first starts at byte 0, the last
/// ends at the last byte of the file, each starts right after the one before
/// it, and each holds as many bytes as its share.
pub proof fn lemma_plan_tasks_contiguous(tasks: Seq<DownloadTask>, config: Config, total: u64)
    requires
        is_plan(tasks, config, total),
        total >= 1,
        config.thread_count >= 1,
    ensures
        tasks[0].start_byte == 0,
        tasks[tasks.len() - 1].end_byte == total - 1,
        forall|i: int|
            0 <= i < tasks.len() - 1 ==> #[trigger] tasks[i + 1].start_byte == tasks[i].end_byte + 1,
        forall|i: int|
            0 <= i < tasks.len() ==> tasks[i].end_byte + 1 - tasks[i].start_byte == chunk_len(
                total as int,
                config.thread_count as int,
                i,
            ),
{
    let n = config.thread_count as int;
    lemma_plan_covers_file(total as int, n);
    assert(is_planned_task(tasks[0], config, total, 0));
    assert(is_planned_task(tasks[n - 1], config, total, n - 1));
    assert forall|i: int| 0 <= i < tasks.len() - 1 implies #[trigger] tasks[i + 1].start_byte
        == tasks[i].end_byte + 1 by {
        assert(is_planned_task(tasks[i], config, total, i));
        assert(is_planned_task(tasks[i + 1], config, total, i + 1));
    }
    assert forall|i: int| 0 <= i < tasks.len() implies tasks[i].end_byte + 1 - tasks[i].start_byte
        == chunk_len(total as int, n, i) by {
        assert(is_planned_task(tasks[i], config, total, i));
    }
}

/// Where the download cannot go ahead.
#[derive(Debug, PartialEq, Eq, Structural)]
pub enum DownloadError {
    /// The server announced no usable file size.
    UnknownFileSize,
}

/// What the response to the first request decides.
pub struct DownloadPlan {
    /// The size of the file, in bytes.
    pub total_size: u64,
    /// Whether the server serves byte ranges.
    pub resume_supported: bool,
    /// Whether to warn that resuming is off because the server serves no ranges.
    pub warn_resume_disabled: bool,
    /// One range per connection.
    pub tasks: Vec<DownloadTask>,
}

/// The ranges that `config.thread_count` connections fetch of a file of `total_size` bytes.
pub fn plan_tasks(config: &Config, total_size: u64) -> (tasks: Vec<DownloadTask>)
    requires
        total_size >= 1,
    ensures
        is_plan(tasks@, *config, total_size),
{
    let n = config.thread_count;
    let mut tasks: Vec<DownloadTask> = Vec::new();
    if n == 0 {
        return tasks;
    }
    let ghost total = total_size as int;
    let mut start: u64 = 0;
    let mut remain: u64 = total_size;
    let mut i: usize = 0;
    proof {
        lemma_plan_covers_file_start(total, n as int);
    }
    while i < n
        invariant
            n == config.thread_count,
            n >= 1,
            total == total_size as int,
            total_size >= 1,
            i <= n,
            start as int == chunk_start(total, n as int, i as int),
            remain as int == total - start,
            tasks.len() == i,
            forall|j: int|
                0 <= j < i ==> is_planned_task(#[trigger] tasks@[j], *config, total_size, j),
        decreases n - i,
    {
        proof {
            lemma_chunk_step(total, n as int, i as int);
        }
        let k: u64 = (n - i) as u64;
        let mut chunk: u64 = remain / k;
        assert(chunk as int == total / (n as int));
        assert((remain % k != 0) == (i < total % (n as int)));
        if remain % k != 0 {
            chunk = chunk + 1;
        }
        assert(chunk as int == chunk_len(total, n as int, i as int));
        assert(start + chunk >= 1) by {
            if chunk == 0 {
                let q = total / (n as int);
                lemma_fundamental_div_mod(total, n as int);
                assert(q == 0);
                assert((n as int) * q == 0);
                assert((i as int) * q == 0);
            }
        }
        let last = start + chunk - 1;
        let end = if last < total_size - 1 {
            last
        } else {
            total_size - 1
        };
        assert(end == last);
        tasks.push(DownloadTask::new(config.url.clone(), config.output_path.clone(), start, end, i));
        start = end + 1;
        remain = remain.saturating_sub(chunk);
        i = i + 1;
    }
    tasks
}

/// Reads the size and range support that the server announced and plans the
/// ranges; fails where no file size can be read.
pub fn prepare_download(config: &Config, content_length_value: Option<&[u8]>, accept_ranges_value: Option<
    &[u8],
>) -> (r: Result<DownloadPlan, DownloadError>)
    ensures
        ({
            let total = content_length_spec(bytes_view(content_length_value));
            let ranges = bytes_view(accept_ranges_value) == Some(bytes_unit());
            match r {
                Ok(p) => {
                    &&& total != 0
                    &&& p.total_size == total
                    &&& p.resume_supported == ranges
                    &&& p.warn_resume_disabled == (!ranges && config.resume)
                    &&& is_plan(p.tasks@, *config, total)
                },
                Err(e) => total == 0 && e == DownloadError::UnknownFileSize,
            }
        }),
{
    let total_size = content_length(content_length_value);
    if total_size == 0 {
        return Err(DownloadError::UnknownFileSize);
    }
    let resume_supported = supports_byte_ranges(accept_ranges_value);
    let tasks = plan_tasks(config, total_size);
    Ok(
        DownloadPlan {
            total_size,
            resume_supported,
            warn_resume_disabled: !resume_supported && config.resume,
            tasks,
        },
    )
}

} // verus!
