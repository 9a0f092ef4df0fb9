//! One pairwise comparison: a reference file against one other file.

use crate::admission::FileStat;
use crate::plan::{
    assign, is_plan, lemma_plan_within_length, plan_threads, planned_segments, planned_threads,
    ComparisonConfig, Segment,
};
use crate::scan::{agree, scan_segment, segment_outcome, SegmentOutcome};
use crate::verdict::Verdict;
use vstd::prelude::*;

verus! {

/// What comparing two whole files must yield: a size difference with both
/// lengths, else a content difference exactly if some byte differs.
pub open spec fn exact_verdict(left: usize, a: Seq<u8>, right: usize, b: Seq<u8>) -> Verdict {
    if a.len() != b.len() {
        Verdict::DifferentSize {
            left,
            left_len: a.len() as u64,
            right,
            right_len: b.len() as u64,
        }
    } else if a == b {
        Verdict::Same
    } else {
        Verdict::DifferentContents { left, right }
    }
}

/// The first verdict at or after position `from` that is not `Same`, or
/// `Same` if there is none.
pub open spec fn first_difference_from(verdicts: Seq<Verdict>, from: int) -> Verdict
    decreases verdicts.len() - from,
{
    if from < 0 || from >= verdicts.len() {
        Verdict::Same
    } else if verdicts[from] != Verdict::Same {
        verdicts[from]
    } else {
        first_difference_from(verdicts, from + 1)
    }
}

/// The first verdict that is not `Same`, or `Same` if there is none.
pub open spec fn first_difference(verdicts: Seq<Verdict>) -> Verdict {
    first_difference_from(verdicts, 0)
}

/// Verdicts that are `Same` do not change which difference comes first.
pub proof fn lemma_first_difference_skips_same(verdicts: Seq<Verdict>, from: int, to: int)
    requires
        0 <= from <= to <= verdicts.len(),
        forall|k: int| from <= k < to ==> verdicts[k] == Verdict::Same,
    ensures
        first_difference_from(verdicts, from) == first_difference_from(verdicts, to),
    decreases to - from,
{
    if from < to {
        lemma_first_difference_skips_same(verdicts, from + 1, to);
    }
}

/// On two files of one length, the scan of a range within them finds a
/// difference exactly if the files differ at some offset in the range,
/// whatever the size of the reads.
pub proof fn lemma_equal_length_outcome(
    a: Seq<u8>,
    b: Seq<u8>,
    start: int,
    end: int,
    buffer_size: int,
)
    requires
        a.len() == b.len(),
        0 <= start <= end <= a.len(),
    ensures
        segment_outcome(a, b, start, end, buffer_size) == if agree(a, b, start, end) {
            SegmentOutcome::Same
        } else {
            SegmentOutcome::ContentMismatch
        },
{
}

/// Of two files of one length that differ at one offset only, the scan
/// of a range within them reports a difference exactly if the range
/// covers that offset.
pub proof fn lemma_single_difference_found_where_covered(
    a: Seq<u8>,
    b: Seq<u8>,
    offset: int,
    segment: Segment,
    buffer_size: int,
)
    requires
        a.len() == b.len(),
        segment.start <= segment.end <= a.len(),
        0 <= offset < a.len(),
        a[offset] != b[offset],
        forall|i: int| 0 <= i < a.len() && i != offset ==> a[i] == b[i],
    ensures
        segment_outcome(a, b, segment.start as int, segment.end as int, buffer_size)
            == if segment.covers(offset) {
            SegmentOutcome::ContentMismatch
        } else {
            SegmentOutcome::Same
        },
{
    lemma_equal_length_outcome(a, b, segment.start as int, segment.end as int, buffer_size);
}

/// Every offset below the end of a range of a plan lies in that range or
/// in one before it.
pub proof fn lemma_plan_covers(
    plan: Seq<Segment>,
    length: int,
    buffer_size: int,
    offset: int,
    last: int,
) -> (i: int)
    requires
        is_plan(plan, length, buffer_size),
        0 <= last < plan.len(),
        0 <= offset < plan[last].end,
    ensures
        0 <= i <= last,
        plan[i].covers(offset),
    decreases last,
{
    if offset >= plan[last].start {
        last
    } else {
        assert(plan[last - 1].end == plan[last].start);
        lemma_plan_covers(plan, length, buffer_size, offset, last - 1)
    }
}

/// Two files of one length are equal exactly if the scan of every range
/// of a plan over them ends with `Same`, whatever the plan and whatever
/// the size of the reads; and no such scan reports a size mismatch.
pub proof fn lemma_any_plan_decides_equality(
    a: Seq<u8>,
    b: Seq<u8>,
    plan: Seq<Segment>,
    buffer_size: int,
)
    requires
        a.len() == b.len(),
        is_plan(plan, a.len() as int, buffer_size),
    ensures
        a == b <==> forall|i: int|
            0 <= i < plan.len() ==> segment_outcome(
                a,
                b,
                (#[trigger] plan[i]).start as int,
                plan[i].end as int,
                buffer_size,
            ) == SegmentOutcome::Same,
        forall|i: int|
            0 <= i < plan.len() ==> segment_outcome(
                a,
                b,
                (#[trigger] plan[i]).start as int,
                plan[i].end as int,
                buffer_size,
            ) != SegmentOutcome::SizeMismatch,
{
    let length = a.len() as int;
    assert forall|i: int| 0 <= i < plan.len() implies segment_outcome(
        a,
        b,
        (#[trigger] plan[i]).start as int,
        plan[i].end as int,
        buffer_size,
    ) == if agree(a, b, plan[i].start as int, plan[i].end as int) {
        SegmentOutcome::Same
    } else {
        SegmentOutcome::ContentMismatch
    } by {
        lemma_plan_within_length(plan, length, buffer_size, i);
        lemma_equal_length_outcome(a, b, plan[i].start as int, plan[i].end as int, buffer_size);
    }
    if forall|i: int|
        0 <= i < plan.len() ==> segment_outcome(
            a,
            b,
            (#[trigger] plan[i]).start as int,
            plan[i].end as int,
            buffer_size,
        ) == SegmentOutcome::Same {
        assert forall|k: int| 0 <= k < length implies a[k] == b[k] by {
            let i = lemma_plan_covers(plan, length, buffer_size, k, plan.len() - 1);
            assert(agree(a, b, plan[i].start as int, plan[i].end as int));
        }
        assert(a =~= b);
    }
}

/// The reference side of a pairwise comparison, planned once and used
/// against every other file.
#[derive(Clone, Copy, Debug, PartialEq, Eq, Structural)]
pub struct Comparer {
    /// Position of the reference file in the caller's list.
    pub to: usize,
    /// Length of the reference file when it was admitted.
    pub to_len: u64,
    /// Number of workers per comparison.
    pub threads: usize,
    /// Size in bytes of each read buffer.
    pub buffer_size: u32,
}

impl Comparer {
    /// At least one worker, and a buffer that holds at least one byte.
    pub open spec fn valid(&self) -> bool {
        self.threads >= 1 && self.buffer_size >= 1
    }

    /// The comparer that `new` builds.
    pub open spec fn spec_new(to: usize, to_len: u64, config: ComparisonConfig) -> Comparer {
        Comparer {
            to,
            to_len,
            threads: planned_threads(
                to_len as int,
                config.buffer_size as int,
                config.max_threads as int,
            ) as usize,
            buffer_size: config.buffer_size,
        }
    }

    /// The ranges that the workers of one comparison scan.
    pub open spec fn spec_plan(&self) -> Seq<Segment> {
        planned_segments(self.to_len, self.buffer_size, self.threads)
    }

    /// The verdict that a scan's outcome stands for; the lengths are
    /// those of the two files when the scan ended.
    pub open spec fn spec_conclude(
        &self,
        outcome: SegmentOutcome,
        file: usize,
        left_len: u64,
        right_len: u64,
    ) -> Verdict {
        match outcome {
            SegmentOutcome::Same => Verdict::Same,
            SegmentOutcome::SizeMismatch => Verdict::DifferentSize {
                left: self.to,
                left_len,
                right: file,
                right_len,
            },
            SegmentOutcome::ContentMismatch => Verdict::DifferentContents {
                left: self.to,
                right: file,
            },
        }
    }

    /// The verdict of scanning `segment` of the reference `a` and the
    /// file `b`.
    pub open spec fn segment_verdict(
        &self,
        a: Seq<u8>,
        file: usize,
        b: Seq<u8>,
        segment: Segment,
    ) -> Verdict {
        self.spec_conclude(
            segment_outcome(
                a,
                b,
                segment.start as int,
                segment.end as int,
                self.buffer_size as int,
            ),
            file,
            a.len() as u64,
            b.len() as u64,
        )
    }

    /// The verdict on the metadata alone: a file whose length is not the
    /// reference's differs in size, and no byte need be read.
    pub open spec fn spec_check_size(&self, file: usize, stat: FileStat) -> Verdict {
        if stat.length != self.to_len {
            Verdict::DifferentSize {
                left: self.to,
                left_len: self.to_len,
                right: file,
                right_len: stat.length,
            }
        } else {
            Verdict::Same
        }
    }

    /// The verdict of a whole pairwise comparison of the reference `a`
    /// with the file `b`: the size check first, then the ranges of the
    /// plan in order, up to the first that finds a difference.
    pub open spec fn pair_verdict(&self, a: Seq<u8>, file: usize, b: Seq<u8>) -> Verdict {
        if b.len() != self.to_len {
            Verdict::DifferentSize {
                left: self.to,
                left_len: self.to_len,
                right: file,
                right_len: b.len() as u64,
            }
        } else {
            first_difference(
                Seq::new(
                    self.threads as nat,
                    |i: int| self.segment_verdict(a, file, b, self.spec_plan()[i]),
                ),
            )
        }
    }

    /// Plans the comparisons against the reference file at position `to`,
    /// which is `to_len` bytes long.
    pub fn new(to: usize, to_len: u64, config: &ComparisonConfig) -> (comparer: Comparer)
        requires
            config.valid(),
        ensures
            comparer == Comparer::spec_new(to, to_len, *config),
            comparer.valid(),
            comparer.threads <= config.max_threads,
    {
        let threads = plan_threads(to_len, config);
        Comparer { to, to_len, threads, buffer_size: config.buffer_size }
    }

    /// Assigns each worker its range of the reference file.
    pub fn plan(&self) -> (plan: Vec<Segment>)
        requires
            self.valid(),
        ensures
            plan@ == self.spec_plan(),
            is_plan(plan@, self.to_len as int, self.buffer_size as int),
    {
        assign(self.to_len, self.buffer_size, self.threads)
    }

    /// Compares the length that `file` was admitted with against the
    /// reference's.
    pub fn check_size(&self, file: usize, stat: &FileStat) -> (verdict: Verdict)
        ensures
            verdict == self.spec_check_size(file, *stat),
    {
        if stat.length != self.to_len {
            Verdict::DifferentSize {
                left: self.to,
                left_len: self.to_len,
                right: file,
                right_len: stat.length,
            }
        } else {
            Verdict::Same
        }
    }

    /// Turns the outcome of a scan against `file` into a verdict. The
    /// lengths are read only for a size mismatch, where they are the
    /// lengths of the two files as they are now.
    pub fn conclude(
        &self,
        outcome: SegmentOutcome,
        file: usize,
        left_len: u64,
        right_len: u64,
    ) -> (verdict: Verdict)
        ensures
            verdict == self.spec_conclude(outcome, file, left_len, right_len),
    {
        match outcome {
            SegmentOutcome::Same => Verdict::Same,
            SegmentOutcome::SizeMismatch => Verdict::DifferentSize {
                left: self.to,
                left_len,
                right: file,
                right_len,
            },
            SegmentOutcome::ContentMismatch => Verdict::DifferentContents {
                left: self.to,
                right: file,
            },
        }
    }

    /// Compares one range of the reference with the same range of `file`,
    /// both held in memory.
    pub fn compare_segment(
        &self,
        reference: &[u8],
        file: usize,
        other: &[u8],
        segment: Segment,
    ) -> (verdict: Verdict)
        requires
            self.valid(),
        ensures
            verdict == self.segment_verdict(reference@, file, other@, segment),
    {
        let outcome = scan_segment(reference, other, segment, self.buffer_size);
        self.conclude(outcome, file, reference.len() as u64, other.len() as u64)
    }

    /// Compares the reference with `file`, both held in memory: first the
    /// lengths, then range by range in the order of the plan, stopping at
    /// the first range that finds a difference.
    pub fn compare(&self, reference: &[u8], file: usize, other: &[u8]) -> (verdict: Verdict)
        requires
            self.valid(),
        ensures
            verdict == self.pair_verdict(reference@, file, other@),
            self.to_len == reference@.len() ==> verdict == exact_verdict(
                self.to,
                reference@,
                file,
                other@,
            ),
    {
        if other.len() as u64 != self.to_len {
            return Verdict::DifferentSize {
                left: self.to,
                left_len: self.to_len,
                right: file,
                right_len: other.len() as u64,
            };
        }
        let plan = self.plan();
        let ghost a = reference@;
        let ghost b = other@;
        let ghost verdicts = Seq::new(
            self.threads as nat,
            |i: int| self.segment_verdict(a, file, b, self.spec_plan()[i]),
        );
        let ghost length = self.to_len as int;
        let ghost size = self.buffer_size as int;
        let mut i: usize = 0;
        while i < plan.len()
            invariant
                self.valid(),
                a == reference@,
                b == other@,
                b.len() == self.to_len,
                length == self.to_len,
                size == self.buffer_size,
                plan@ == self.spec_plan(),
                is_plan(plan@, length, size),
                plan.len() == self.threads,
                verdicts == Seq::new(
                    self.threads as nat,
                    |i: int| self.segment_verdict(a, file, b, self.spec_plan()[i]),
                ),
                i <= plan.len(),
                forall|k: int| 0 <= k < i ==> verdicts[k] == Verdict::Same,
                i < plan.len() && length == a.len() ==> agree(a, b, 0, plan[i as int].start as int),
                i == plan.len() && length == a.len() ==> agree(a, b, 0, length),
            decreases plan.len() - i,
        {
            let segment = plan[i];
            let verdict = self.compare_segment(reference, file, other, segment);
            proof {
                assert(verdict == verdicts[i as int]);
                lemma_plan_within_length(plan@, length, size, i as int);
                if length == a.len() {
                    lemma_equal_length_outcome(
                        a,
                        b,
                        segment.start as int,
                        segment.end as int,
                        size,
                    );
                }
                if i + 1 < plan.len() {
                    assert(plan[i as int].end == plan[i as int + 1].start);
                }
            }
            if !verdict.is_same() {
                proof {
                    lemma_first_difference_skips_same(verdicts, 0, i as int);
                }
                return verdict;
            }
            i = i + 1;
        }
        proof {
            lemma_first_difference_skips_same(verdicts, 0, verdicts.len() as int);
            if length == a.len() {
                assert(a =~= b);
            }
        }
        Verdict::Same
    }
}

} // verus!
