//! Scanning one byte range of two files in lockstep, one buffer at a
//! time.
//!
//! `SegmentScan` holds the decisions of a scan and leaves the reading to
//! its caller: it says which bytes to read next and judges the two chunks
//! that came back. `scan_segment` runs a scan over two files held in
//! memory.

use crate::plan::{least, Segment};
use vstd::prelude::*;
use vstd::slice::slice_subrange;

verus! {

/// How the scan of one range ended.
#[derive(Clone, Copy, Debug, PartialEq, Eq, Structural)]
pub enum SegmentOutcome {
    /// Every byte read from the one file matched the other.
    Same,
    /// One file ran out of bytes before the other.
    SizeMismatch,
    /// Two chunks of equal length held different bytes.
    ContentMismatch,
}

/// What to do after a pair of chunks was judged.
#[derive(Clone, Copy, Debug, PartialEq, Eq, Structural)]
pub enum ScanStep {
    /// The chunks matched: read on.
    Continue,
    /// The scan is over.
    Done(SegmentOutcome),
}

/// The progress of a scan: the next offset to read at, where the range
/// ends, and how many bytes a read may ask for.
#[derive(Clone, Copy, Debug, PartialEq, Eq, Structural)]
pub struct SegmentScan {
    pub pos: u64,
    pub end: u64,
    pub buffer_size: u32,
}

impl SegmentScan {
    /// The offset and length of the next read from each file, or `None`
    /// once the end of the range is reached. A read never passes the end.
    pub open spec fn spec_next_read(self) -> Option<(u64, usize)> {
        if self.pos >= self.end {
            None
        } else {
            Some((self.pos, least(self.buffer_size as int, self.end - self.pos) as usize))
        }
    }

    /// The judgement of two chunks read at the current offset, and the
    /// scan after it. Past the end nothing is judged. Two empty chunks
    /// mean both files ended here. Chunks of different length mean one
    /// file ended first. Chunks with different bytes end the scan at
    /// once. Otherwise the scan moves on by the matched length.
    pub open spec fn spec_step(self, left: Seq<u8>, right: Seq<u8>) -> (SegmentScan, ScanStep) {
        if self.pos >= self.end {
            (self, ScanStep::Done(SegmentOutcome::Same))
        } else if left.len() == 0 && right.len() == 0 {
            (self, ScanStep::Done(SegmentOutcome::Same))
        } else if left.len() != right.len() {
            (self, ScanStep::Done(SegmentOutcome::SizeMismatch))
        } else if left != right {
            (self, ScanStep::Done(SegmentOutcome::ContentMismatch))
        } else {
            (
                SegmentScan {
                    pos: (self.pos + least(left.len() as int, self.end - self.pos)) as u64,
                    end: self.end,
                    buffer_size: self.buffer_size,
                },
                ScanStep::Continue,
            )
        }
    }

    /// Starts a scan of `segment` that reads `buffer_size` bytes at a
    /// time.
    pub fn new(segment: Segment, buffer_size: u32) -> (scan: SegmentScan)
        ensures
            scan == (SegmentScan { pos: segment.start, end: segment.end, buffer_size }),
    {
        SegmentScan { pos: segment.start, end: segment.end, buffer_size }
    }

    /// Says where to read next in both files, and how much.
    pub fn next_read(&self) -> (request: Option<(u64, usize)>)
        ensures
            request == self.spec_next_read(),
    {
        if self.pos >= self.end {
            None
        } else {
            let rest: u64 = self.end - self.pos;
            if rest < self.buffer_size as u64 {
                Some((self.pos, rest as usize))
            } else {
                Some((self.pos, self.buffer_size as usize))
            }
        }
    }

    /// Judges the chunks that the two reads returned and moves the scan
    /// on where they match.
    pub fn step(&mut self, left: &[u8], right: &[u8]) -> (step: ScanStep)
        ensures
            (*final(self), step) == old(self).spec_step(left@, right@),
    {
        if self.pos >= self.end {
            return ScanStep::Done(SegmentOutcome::Same);
        }
        if left.len() == 0 && right.len() == 0 {
            return ScanStep::Done(SegmentOutcome::Same);
        }
        if left.len() != right.len() {
            return ScanStep::Done(SegmentOutcome::SizeMismatch);
        }
        if !bytes_equal(left, right) {
            return ScanStep::Done(SegmentOutcome::ContentMismatch);
        }
        let rest: u64 = self.end - self.pos;
        let matched: u64 = if (left.len() as u64) < rest {
            left.len() as u64
        } else {
            rest
        };
        self.pos = self.pos + matched;
        ScanStep::Continue
    }
}

/// Whether two chunks hold the same bytes.
pub fn bytes_equal(left: &[u8], right: &[u8]) -> (equal: bool)
    ensures
        equal == (left@ == right@),
{
    if left.len() != right.len() {
        return false;
    }
    let mut i: usize = 0;
    while i < left.len()
        invariant
            left.len() == right.len(),
            i <= left.len(),
            forall|k: int| 0 <= k < i ==> left[k] == right[k],
        decreases left.len() - i,
    {
        if left[i] != right[i] {
            return false;
        }
        i = i + 1;
    }
    assert(left@ =~= right@);
    true
}

/// The bytes that a read of `len` bytes at `offset` returns from a file
/// that holds `data`: those that exist, none past the end of the file.
pub open spec fn window_of(data: Seq<u8>, offset: int, len: int) -> Seq<u8> {
    data.subrange(least(offset, data.len() as int), least(offset + len, data.len() as int))
}

/// Reads up to `len` bytes at `offset` from a file held in memory.
pub fn window<'a>(data: &'a [u8], offset: u64, len: usize) -> (chunk: &'a [u8])
    ensures
        chunk@ == window_of(data@, offset as int, len as int),
{
    let size: usize = data.len();
    if offset >= size as u64 {
        slice_subrange(data, size, size)
    } else {
        let lo: usize = offset as usize;
        let hi: usize = if len > size - lo {
            size
        } else {
            lo + len
        };
        slice_subrange(data, lo, hi)
    }
}

/// Where reading a file of `len` bytes stops within the range `[start,
/// end)`: at the end of the file if that lies in the range.
pub open spec fn readable_end(len: int, start: int, end: int) -> int {
    if len < start {
        start
    } else if len > end {
        end
    } else {
        len
    }
}

/// The two files hold the same byte at every offset in `[from, to)`.
pub open spec fn agree(a: Seq<u8>, b: Seq<u8>, from: int, to: int) -> bool {
    forall|i: int| from <= i < to ==> a[i] == b[i]
}

/// How the scan of `[start, end)` over files `a` and `b` ends when reads
/// ask for `buffer_size` bytes at a time.
///
/// Where both files stop at the same offset within the range, the scan
/// finds a difference exactly if some byte up to there differs. Where one
/// stops earlier, the chunk in which it stops differs in length from the
/// other file's; the scan reports that, unless a chunk before it already
/// held a different byte.
pub open spec fn segment_outcome(
    a: Seq<u8>,
    b: Seq<u8>,
    start: int,
    end: int,
    buffer_size: int,
) -> SegmentOutcome {
    if start >= end {
        SegmentOutcome::Same
    } else {
        let stop_a = readable_end(a.len() as int, start, end);
        let stop_b = readable_end(b.len() as int, start, end);
        if stop_a == stop_b {
            if agree(a, b, start, stop_a) {
                SegmentOutcome::Same
            } else {
                SegmentOutcome::ContentMismatch
            }
        } else {
            let first_stop = least(stop_a, stop_b);
            let whole = start + ((first_stop - start) / buffer_size) * buffer_size;
            if agree(a, b, start, whole) {
                SegmentOutcome::SizeMismatch
            } else {
                SegmentOutcome::ContentMismatch
            }
        }
    }
}

proof fn lemma_chunk_index(first_stop: int, start: int, j: int, c: int)
    requires
        c > 0,
        j >= 0,
        start + j * c <= first_stop,
    ensures
        (first_stop - start) / c >= j,
        first_stop < start + j * c + c ==> (first_stop - start) / c == j,
        ((first_stop - start) / c) * c >= j * c,
        first_stop < start + j * c + c ==> ((first_stop - start) / c) * c == j * c,
        first_stop >= start + j * c + c ==> ((first_stop - start) / c) * c >= j * c + c,
        (j + 1) * c == j * c + c,
{
    let d = first_stop - start;
    let q = d / c;
    assert(q >= j && (d < j * c + c ==> q == j) && (d >= j * c + c ==> q >= j + 1)
        && (j + 1) * c == j * c + c) by (nonlinear_arith)
        requires
            c > 0,
            j >= 0,
            j * c <= d,
            q == d / c,
    ;
    assert(q * c >= j * c && (q >= j + 1 ==> q * c >= j * c + c)) by (nonlinear_arith)
        requires
            q >= j,
            c > 0,
    ;
}

/// Scans `segment` of two files held in memory, reading `buffer_size`
/// bytes at a time.
pub fn scan_segment(reference: &[u8], other: &[u8], segment: Segment, buffer_size: u32) -> (outcome:
    SegmentOutcome)
    requires
        buffer_size > 0,
    ensures
        outcome == segment_outcome(
            reference@,
            other@,
            segment.start as int,
            segment.end as int,
            buffer_size as int,
        ),
{
    let mut scan = SegmentScan::new(segment, buffer_size);
    let ghost a = reference@;
    let ghost b = other@;
    let ghost s = segment.start as int;
    let ghost e = segment.end as int;
    let ghost c = buffer_size as int;
    let ghost stop_a = readable_end(a.len() as int, s, e);
    let ghost stop_b = readable_end(b.len() as int, s, e);
    let ghost first_stop = least(stop_a, stop_b);
    let ghost mut j: int = 0;
    proof {
        assert(0 * c == 0) by (nonlinear_arith);
    }
    loop
        invariant
            buffer_size > 0,
            a == reference@,
            b == other@,
            s == segment.start,
            e == segment.end,
            c == buffer_size,
            stop_a == readable_end(a.len() as int, s, e),
            stop_b == readable_end(b.len() as int, s, e),
            first_stop == least(stop_a, stop_b),
            scan.end == segment.end,
            scan.buffer_size == buffer_size,
            s <= scan.pos,
            s < e ==> scan.pos <= first_stop,
            agree(a, b, s, scan.pos as int),
            j >= 0,
            scan.pos == s + j * c || (stop_a == stop_b && scan.pos == stop_a),
        decreases e - scan.pos,
    {
        let ghost before = scan;
        let (offset, len) = match scan.next_read() {
            None => {
                return SegmentOutcome::Same;
            },
            Some(request) => request,
        };
        let left = window(reference, offset, len);
        let right = window(other, offset, len);
        let step = scan.step(left, right);
        proof {
            let pos = before.pos as int;
            if pos == s + j * c {
                lemma_chunk_index(first_stop, s, j, c);
            }
            assert(left@.len() == least(pos + len, stop_a) - pos);
            assert(right@.len() == least(pos + len, stop_b) - pos);
            if left@.len() == right@.len() && left@.len() > 0 {
                assert(pos < a.len() && pos < b.len());
                assert(pos == s + j * c);
                assert forall|t: int| 0 <= t < left@.len() implies left@[t] == a[pos + t]
                    && right@[t] == b[pos + t] by {}
                if left@ == right@ {
                    assert forall|i: int| s <= i < pos + left@.len() implies a[i] == b[i] by {
                        if i >= pos {
                            assert(left@[i - pos] == right@[i - pos]);
                        }
                    }
                    if left@.len() == c {
                        j = j + 1;
                    }
                } else {
                    let bound = if stop_a == stop_b {
                        stop_a
                    } else {
                        s + ((first_stop - s) / c) * c
                    };
                    assert(bound >= pos + left@.len());
                    if agree(a, b, s, bound) {
                        assert forall|t: int| 0 <= t < left@.len() implies left@[t]
                            == right@[t] by {
                            assert(a[pos + t] == b[pos + t]);
                        }
                        assert(left@ =~= right@);
                    }
                }
            }
        }
        match step {
            ScanStep::Continue => {},
            ScanStep::Done(outcome) => {
                return outcome;
            },
        }
    }
}

} // verus!
