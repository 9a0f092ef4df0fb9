//! Resource planning for one pairwise comparison: how many workers to use
//! and which byte range each of them scans.

use vstd::prelude::*;

verus! {

/// The least number of whole blocks a worker must be given before another
/// worker is worth starting.
pub const THREAD_BLOCKS_MIN: u64 = 500;

/// Caller-supplied settings, constant for a whole run.
#[derive(Clone, Copy, Debug, PartialEq, Eq, Structural)]
pub struct ComparisonConfig {
    /// Size in bytes of each read buffer; one block.
    pub buffer_size: u32,
    /// Upper bound on the number of workers per pairwise comparison.
    pub max_threads: u32,
}

impl ComparisonConfig {
    /// Both settings are positive.
    pub open spec fn valid(&self) -> bool {
        self.buffer_size > 0 && self.max_threads > 0
    }

    /// Builds a configuration, refusing a zero buffer size or a zero
    /// worker cap.
    pub fn new(buffer_size: u32, max_threads: u32) -> (config: Option<ComparisonConfig>)
        ensures
            config.is_some() <==> (buffer_size > 0 && max_threads > 0),
            config.is_some() ==> config.unwrap() == (ComparisonConfig { buffer_size, max_threads }),
            config.is_some() ==> config.unwrap().valid(),
    {
        if buffer_size > 0 && max_threads > 0 {
            Some(ComparisonConfig { buffer_size, max_threads })
        } else {
            None
        }
    }
}

/// The worker count for a reference file of `length` bytes: one worker per
/// `THREAD_BLOCKS_MIN` whole blocks, at least 1 and at most `max_threads`.
pub open spec fn planned_threads(length: int, buffer_size: int, max_threads: int) -> int {
    let desired = (length / buffer_size) / (THREAD_BLOCKS_MIN as int);
    if desired < 1 {
        1
    } else if desired > max_threads {
        max_threads
    } else {
        desired
    }
}

/// Decides how many workers one pairwise comparison against a reference
/// file of `reference_length` bytes should use.
pub fn plan_threads(reference_length: u64, config: &ComparisonConfig) -> (threads: usize)
    requires
        config.valid(),
    ensures
        threads == planned_threads(
            reference_length as int,
            config.buffer_size as int,
            config.max_threads as int,
        ),
        1 <= threads <= config.max_threads,
        threads == 1 || threads * THREAD_BLOCKS_MIN
            <= reference_length / (config.buffer_size as u64),
{
    let blocks: u64 = reference_length / (config.buffer_size as u64);
    let desired: u64 = blocks / THREAD_BLOCKS_MIN;
    if desired < 1 {
        1
    } else if desired > config.max_threads as u64 {
        config.max_threads as usize
    } else {
        desired as usize
    }
}

/// A contiguous byte range `[start, end)` of a file, scanned by one worker.
#[derive(Clone, Copy, Debug, PartialEq, Eq, Structural)]
pub struct Segment {
    pub start: u64,
    pub end: u64,
}

impl Segment {
    /// The number of bytes in the range; 0 where `end` is not past `start`.
    pub open spec fn spec_len(&self) -> int {
        if self.end >= self.start {
            self.end - self.start
        } else {
            0
        }
    }

    /// Whether `offset` lies in the range.
    pub open spec fn covers(&self, offset: int) -> bool {
        self.start <= offset < self.end
    }
}

/// The smaller of two integers.
pub open spec fn least(a: int, b: int) -> int {
    if a <= b {
        a
    } else {
        b
    }
}

/// Where worker `i` of `n` starts. With `blocks = length / buffer_size`,
/// every worker gets `blocks / n` whole blocks and the first `blocks % n`
/// workers get one block more.
pub open spec fn segment_start(length: int, buffer_size: int, n: int, i: int) -> int {
    let blocks = length / buffer_size;
    (i * (blocks / n) + least(i, blocks % n)) * buffer_size
}

/// Where worker `i` of `n` stops: at the next worker's start, and the last
/// worker at the end of the file, so that it also takes the bytes left
/// over after the last whole block.
pub open spec fn segment_end(length: int, buffer_size: int, n: int, i: int) -> int {
    if i == n - 1 {
        length
    } else {
        segment_start(length, buffer_size, n, i + 1)
    }
}

/// The number of whole blocks that worker `i` of `n` is given.
pub open spec fn segment_blocks(length: int, buffer_size: int, n: int, i: int) -> int {
    let blocks = length / buffer_size;
    blocks / n + if i < blocks % n {
        1int
    } else {
        0int
    }
}

/// The plan for `n` workers: range `i` runs from `segment_start` to
/// `segment_end`.
pub open spec fn planned_segments(length: u64, buffer_size: u32, n: usize) -> Seq<Segment> {
    Seq::new(
        n as nat,
        |i: int|
            Segment {
                start: segment_start(length as int, buffer_size as int, n as int, i) as u64,
                end: segment_end(length as int, buffer_size as int, n as int, i) as u64,
            },
    )
}

/// The plan invariant: at least one range, the first starting at 0, each
/// ending where the next starts, the last ending at `length`, and every
/// range but the last a whole number of blocks long.
pub open spec fn is_plan(plan: Seq<Segment>, length: int, buffer_size: int) -> bool {
    &&& plan.len() >= 1
    &&& plan[0].start == 0
    &&& plan[plan.len() - 1].end == length
    &&& forall|i: int| 0 <= i < plan.len() ==> (#[trigger] plan[i]).start <= plan[i].end
    &&& forall|i: int|
        0 <= i < plan.len() - 1 ==> (#[trigger] plan[i]).end == plan[i + 1].start
    &&& forall|i: int|
        0 <= i < plan.len() - 1 ==> (#[trigger] plan[i]).spec_len() % buffer_size == 0
}

/// The sum of the lengths of the ranges of `plan`.
pub open spec fn total_length(plan: Seq<Segment>) -> int
    decreases plan.len(),
{
    if plan.len() == 0 {
        0
    } else {
        total_length(plan.drop_last()) + plan.last().spec_len()
    }
}

/// Worker `i + 1` starts where worker `i` starts plus the whole blocks of
/// worker `i`.
pub proof fn lemma_segment_start_step(length: int, buffer_size: int, n: int, i: int)
    requires
        length >= 0,
        buffer_size > 0,
        n > 0,
        0 <= i < n,
    ensures
        segment_start(length, buffer_size, n, i + 1) == segment_start(length, buffer_size, n, i)
            + segment_blocks(length, buffer_size, n, i) * buffer_size,
        segment_blocks(length, buffer_size, n, i) >= 0,
{
    let blocks = length / buffer_size;
    let per = blocks / n;
    let extra = blocks % n;
    let one = if i < extra {
        1int
    } else {
        0int
    };
    assert(blocks >= 0 && per >= 0 && 0 <= extra < n) by (nonlinear_arith)
        requires
            length >= 0,
            buffer_size > 0,
            n > 0,
            blocks == length / buffer_size,
            per == blocks / n,
            extra == blocks % n,
    ;
    assert(least(i + 1, extra) == least(i, extra) + one);
    assert(((i + 1) * per + (least(i, extra) + one)) * buffer_size == (i * per + least(i, extra))
        * buffer_size + (per + one) * buffer_size) by (nonlinear_arith);
}

/// Every start lies between 0 and the end of the last whole block, and
/// the starts do not decrease.
pub proof fn lemma_segment_start_bounds(length: int, buffer_size: int, n: int, i: int)
    requires
        length >= 0,
        buffer_size > 0,
        n > 0,
        0 <= i <= n,
    ensures
        0 <= segment_start(length, buffer_size, n, i) <= length,
        segment_start(length, buffer_size, n, 0) == 0,
        segment_start(length, buffer_size, n, n) == (length / buffer_size) * buffer_size,
        i < n ==> segment_start(length, buffer_size, n, i) <= segment_start(
            length,
            buffer_size,
            n,
            i + 1,
        ),
{
    let blocks = length / buffer_size;
    let per = blocks / n;
    let extra = blocks % n;
    assert(blocks >= 0 && per >= 0 && 0 <= extra < n && blocks == n * per + extra && blocks
        * buffer_size <= length) by (nonlinear_arith)
        requires
            length >= 0,
            buffer_size > 0,
            n > 0,
            blocks == length / buffer_size,
            per == blocks / n,
            extra == blocks % n,
    ;
    let units = i * per + least(i, extra);
    assert(0 <= units <= blocks) by (nonlinear_arith)
        requires
            0 <= i <= n,
            per >= 0,
            0 <= extra < n,
            blocks == n * per + extra,
            units == i * per + least(i, extra),
            0 <= least(i, extra) <= extra,
    ;
    assert(0 <= units * buffer_size <= blocks * buffer_size) by (nonlinear_arith)
        requires
            0 <= units <= blocks,
            buffer_size > 0,
    ;
    assert(least(n, extra) == extra);
    assert((0 * per + least(0, extra)) * buffer_size == 0) by (nonlinear_arith)
        requires
            least(0, extra) == 0,
    ;
    if i < n {
        lemma_segment_start_step(length, buffer_size, n, i);
        assert(segment_blocks(length, buffer_size, n, i) * buffer_size >= 0) by (nonlinear_arith)
            requires
                segment_blocks(length, buffer_size, n, i) >= 0,
                buffer_size > 0,
        ;
    }
}

/// Every range of a plan lies within the file.
pub proof fn lemma_plan_within_length(plan: Seq<Segment>, length: int, buffer_size: int, i: int)
    requires
        is_plan(plan, length, buffer_size),
        0 <= i < plan.len(),
    ensures
        0 <= plan[i].start <= plan[i].end <= length,
    decreases plan.len() - i,
{
    if i < plan.len() - 1 {
        lemma_plan_within_length(plan, length, buffer_size, i + 1);
        assert(plan[i].end == plan[i + 1].start);
    }
}

/// The ranges of any plan add up to the length of the file.
pub proof fn lemma_plan_sums_to_length(plan: Seq<Segment>, length: int, buffer_size: int)
    requires
        is_plan(plan, length, buffer_size),
    ensures
        total_length(plan) == length,
{
    lemma_prefix_sums_to_end(plan, plan.len() as int);
    assert(plan.take(plan.len() as int) =~= plan);
}

proof fn lemma_prefix_sums_to_end(plan: Seq<Segment>, k: int)
    requires
        1 <= k <= plan.len(),
        plan[0].start == 0,
        forall|i: int| 0 <= i < plan.len() ==> (#[trigger] plan[i]).start <= plan[i].end,
        forall|i: int| 0 <= i < plan.len() - 1 ==> (#[trigger] plan[i]).end == plan[i + 1].start,
    ensures
        total_length(plan.take(k)) == plan[k - 1].end,
    decreases k,
{
    let prefix = plan.take(k);
    assert(prefix.last() == plan[k - 1]);
    assert(prefix.drop_last() =~= plan.take(k - 1));
    if k == 1 {
        assert(total_length(plan.take(0)) == 0);
    } else {
        lemma_prefix_sums_to_end(plan, k - 1);
        assert(plan[k - 2].end == plan[k - 1].start);
    }
}

/// Splits `[0, length)` among `thread_count` workers in whole blocks of
/// `buffer_size` bytes, balanced to within one block; the bytes after the
/// last whole block go to the last worker.
pub fn assign(length: u64, buffer_size: u32, thread_count: usize) -> (plan: Vec<Segment>)
    requires
        buffer_size > 0,
        thread_count > 0,
    ensures
        plan@ == planned_segments(length, buffer_size, thread_count),
        is_plan(plan@, length as int, buffer_size as int),
        total_length(plan@) == length,
{
    let buf: u64 = buffer_size as u64;
    let n: u64 = thread_count as u64;
    let blocks: u64 = length / buf;
    let leftover: u64 = length % buf;
    let per: u64 = blocks / n;
    let extra: u64 = blocks % n;
    let ghost len = length as int;
    let ghost b = buffer_size as int;
    let ghost m = thread_count as int;
    let mut plan: Vec<Segment> = Vec::new();
    let mut start: u64 = 0;
    let mut i: usize = 0;
    proof {
        lemma_segment_start_bounds(len, b, m, 0);
    }
    while i < thread_count
        invariant
            buffer_size > 0,
            thread_count > 0,
            buf == buffer_size,
            n == thread_count,
            blocks == length / buf,
            leftover == length % buf,
            per == blocks / n,
            extra == blocks % n,
            len == length,
            b == buffer_size,
            m == thread_count,
            i <= thread_count,
            plan.len() == i,
            start == segment_start(len, b, m, i as int),
            forall|j: int|
                0 <= j < i ==> (#[trigger] plan[j]).start == segment_start(len, b, m, j)
                    && plan[j].end == segment_end(len, b, m, j),
        decreases thread_count - i,
    {
        let whole: u64 = if (i as u64) < extra {
            proof {
                assert(per + 1 <= blocks) by (nonlinear_arith)
                    requires
                        n > 0,
                        extra > 0,
                        per == blocks / n,
                        extra == blocks % n,
                ;
            }
            per + 1
        } else {
            per
        };
        proof {
            lemma_segment_start_step(len, b, m, i as int);
            lemma_segment_start_bounds(len, b, m, i as int + 1);
            assert(whole == segment_blocks(len, b, m, i as int));
            assert(whole * buf >= 0) by (nonlinear_arith)
                requires
                    whole >= 0,
                    buf > 0,
            ;
        }
        let next: u64 = start + whole * buf;
        let end: u64 = if i == thread_count - 1 {
            proof {
                assert(length == blocks * buf + leftover) by (nonlinear_arith)
                    requires
                        buf > 0,
                        blocks == length / buf,
                        leftover == length % buf,
                ;
            }
            next + leftover
        } else {
            next
        };
        plan.push(Segment { start, end });
        start = next;
        i = i + 1;
    }
    proof {
        assert forall|j: int| 0 <= j < plan.len() implies (#[trigger] plan[j]).start
            <= plan[j].end by {
            lemma_segment_start_bounds(len, b, m, j);
            lemma_segment_start_bounds(len, b, m, j + 1);
        }
        assert forall|j: int| 0 <= j < plan.len() - 1 implies (#[trigger] plan[j]).spec_len()
            % b == 0 by {
            lemma_segment_start_step(len, b, m, j);
            lemma_segment_start_bounds(len, b, m, j);
            let k = segment_blocks(len, b, m, j);
            assert(plan[j + 1].start == segment_start(len, b, m, j + 1));
            assert(plan[j].spec_len() == k * b);
            assert((k * b) % b == 0) by (nonlinear_arith)
                requires
                    b > 0,
            ;
        }
        assert forall|j: int| 0 <= j < plan.len() - 1 implies (#[trigger] plan[j]).end
            == plan[j + 1].start by {
            assert(plan[j + 1].start == segment_start(len, b, m, j + 1));
        }
        lemma_plan_sums_to_length(plan@, len, b);
        assert(plan@ =~= planned_segments(length, buffer_size, thread_count));
    }
    plan
}

} // verus!
