//! Executing a copy plan: an in-memory executor verified against the plan
//! semantics, and a step-by-step cursor that the surrounding application
//! drives against a real forward-only source stream and a seekable device.

use vstd::prelude::*;
use vstd::pervasive::VecAdditionalExecFns;

use crate::errors::DasdError;
use crate::geometry::Geometry;
use crate::plan::{blocks_of, lemma_plan_structure, lemma_start_tracks_increase, plan_descriptors,
    plan_entry_shape, plan_ok, plan_ranges, tracks_needed, PartitionSpan, Range};

verus! {

/// Bytes of the image that precede any partition payload.  The image-format
/// contract guarantees the first MiB holds only header and metadata, which
/// the caller consumed separately before the copy starts, so the source
/// stream is taken to be positioned at this offset.
pub const STREAM_START: u64 = 1048576;

/// Whether the copy fails, at which range, and with which error.  `cursor`
/// is the image offset of the next unread stream byte; `src_end` is the
/// image offset just past the last stream byte.  `None` means every range
/// is reachable and fully delivered.
pub open spec fn copy_failure(
    ranges: Seq<Range>,
    i: int,
    cursor: int,
    src_end: int,
) -> Option<(int, DasdError)>
    decreases ranges.len() - i,
{
    if i < 0 || i >= ranges.len() {
        None
    } else if ranges[i].in_offset < cursor {
        Some(
            (
                i,
                DasdError::PlanConsistency {
                    in_offset: ranges[i].in_offset,
                    cursor: cursor as u64,
                },
            ),
        )
    } else if ranges[i].in_offset + ranges[i].length > src_end {
        Some((i, DasdError::TruncatedStream))
    } else {
        copy_failure(ranges, i + 1, ranges[i].in_offset + ranges[i].length, src_end)
    }
}

/// How many leading ranges are fully written before the copy stops.
pub open spec fn copy_written(ranges: Seq<Range>, cursor: int, src_end: int) -> int {
    match copy_failure(ranges, 0, cursor, src_end) {
        None => ranges.len() as int,
        Some((k, _)) => k,
    }
}

/// Destination byte `j` is written by one of the first `k` ranges.
pub open spec fn covered_by_first(ranges: Seq<Range>, k: int, j: int) -> bool {
    exists|i: int|
        0 <= i < k && (#[trigger] ranges[i]).out_offset <= j < ranges[i].out_offset
            + ranges[i].length
}

/// Output intervals of distinct ranges never touch the same destination
/// byte.
pub open spec fn out_ranges_disjoint(ranges: Seq<Range>) -> bool {
    forall|i: int, j: int|
        0 <= i < j < ranges.len() ==> ((#[trigger] ranges[i]).out_offset + ranges[i].length
            <= (#[trigger] ranges[j]).out_offset || ranges[j].out_offset + ranges[j].length
            <= ranges[i].out_offset)
}

/// Every range writes within the destination and its stream cursor stays
/// representable.
pub open spec fn ranges_fit(ranges: Seq<Range>, dest_len: int) -> bool {
    forall|i: int|
        0 <= i < ranges.len() ==> ((#[trigger] ranges[i]).out_offset + ranges[i].length <= dest_len
            && ranges[i].in_offset + ranges[i].length <= u64::MAX)
}

/// Execute a copy plan against an in-memory source and destination.
///
/// `source` holds the stream's bytes: `source[p]` is image byte
/// `STREAM_START + p`.  On success every range's destination interval holds
/// the corresponding source bytes; in every outcome, destination bytes
/// outside the intervals written so far are left exactly as found.  A range
/// beginning before the cursor aborts with `PlanConsistency` before
/// touching the destination for that range; a source too short to deliver a
/// range's bytes aborts with `TruncatedStream`.
pub fn apply_ranges(ranges: &Vec<Range>, source: &Vec<u8>, dest: &mut Vec<u8>) -> (r: Result<
    (),
    DasdError,
>)
    requires
        ranges_fit(ranges@, old(dest)@.len() as int),
        out_ranges_disjoint(ranges@),
    ensures
        final(dest)@.len() == old(dest)@.len(),
        ({
            let src_end = STREAM_START as int + source@.len();
            let k = copy_written(ranges@, STREAM_START as int, src_end);
            &&& (match copy_failure(ranges@, 0, STREAM_START as int, src_end) {
                None => r == Ok::<(), DasdError>(()),
                Some((fail_at, e)) => r == Err::<(), DasdError>(e),
            })
            &&& forall|t: int|
                0 <= t < k ==> final(dest)@.subrange(
                    (#[trigger] ranges@[t]).out_offset as int,
                    ranges@[t].out_offset + ranges@[t].length,
                ) == source@.subrange(
                    ranges@[t].in_offset - STREAM_START,
                    ranges@[t].in_offset + ranges@[t].length - STREAM_START,
                )
            &&& forall|j: int|
                0 <= j < old(dest)@.len() && !covered_by_first(ranges@, k, j) ==> final(dest)@[j]
                    == old(dest)@[j]
        }),
{
    let ghost src_end = STREAM_START as int + source@.len();
    let ghost orig_dest = dest@;
    let src_len: usize = source.len();
    let dest_len: usize = dest.len();
    proof {
        assert(source@.len() == src_len);
        assert(dest@.len() == dest_len);
    }
    let mut i: usize = 0;
    let mut pos: usize = 0;
    let mut cursor: u64 = STREAM_START;
    while i < ranges.len()
        invariant
            ranges_fit(ranges@, orig_dest.len() as int),
            out_ranges_disjoint(ranges@),
            orig_dest == old(dest)@,
            i <= ranges@.len(),
            pos <= source@.len(),
            source@.len() <= usize::MAX,
            orig_dest.len() <= usize::MAX,
            cursor == STREAM_START as int + pos,
            src_end == STREAM_START as int + source@.len(),
            dest@.len() == orig_dest.len(),
            copy_failure(ranges@, 0, STREAM_START as int, src_end) == copy_failure(
                ranges@,
                i as int,
                cursor as int,
                src_end,
            ),
            forall|t: int|
                0 <= t < i ==> ((#[trigger] ranges@[t]).in_offset >= STREAM_START
                    && ranges@[t].in_offset + ranges@[t].length <= src_end),
            forall|t: int|
                0 <= t < i ==> (forall|b: int|
                    0 <= b < (#[trigger] ranges@[t]).length ==> #[trigger] dest@[ranges@[t].out_offset
                        + b] == source@[ranges@[t].in_offset - STREAM_START + b]),
            forall|j: int|
                0 <= j < orig_dest.len() && !covered_by_first(ranges@, i as int, j) ==> dest@[j]
                    == orig_dest[j],
        decreases ranges@.len() - i,
    {
        let r = ranges[i];
        if r.in_offset < cursor {
            proof {
                report_written(ranges@, i as int, dest@, source@, orig_dest);
            }
            return Err(DasdError::PlanConsistency { in_offset: r.in_offset, cursor });
        }
        let skip = r.in_offset - cursor;
        let available = source.len() - pos;
        if skip > available as u64 || r.length > available as u64 - skip {
            proof {
                assert(r.in_offset + r.length > src_end);
                report_written(ranges@, i as int, dest@, source@, orig_dest);
            }
            return Err(DasdError::TruncatedStream);
        }
        pos = pos + skip as usize;
        cursor = r.in_offset;
        let ghost src_base = pos as int;
        let ghost pre_range = dest@;
        let mut b: usize = 0;
        while b < r.length as usize
            invariant
                b <= r.length,
                r == ranges@[i as int],
                0 <= i < ranges@.len(),
                pos as int == src_base,
                src_base == r.in_offset - STREAM_START,
                src_base + r.length <= source@.len(),
                source@.len() <= usize::MAX,
                r.out_offset + r.length <= dest@.len(),
                dest@.len() == pre_range.len(),
                pre_range.len() <= usize::MAX,
                forall|t: int|
                    0 <= t < b ==> #[trigger] dest@[r.out_offset + t] == source@[src_base + t],
                forall|j: int|
                    0 <= j < dest@.len() && !(r.out_offset <= j < r.out_offset + b) ==> dest@[j]
                        == pre_range[j],
            decreases r.length - b,
        {
            let byte = source[pos + b];
            dest.set(r.out_offset as usize + b, byte);
            b = b + 1;
        }
        pos = pos + r.length as usize;
        cursor = r.in_offset + r.length;
        i = i + 1;
        proof {
            assert forall|t: int| 0 <= t < i implies (forall|b2: int|
                0 <= b2 < (#[trigger] ranges@[t]).length ==> #[trigger] dest@[ranges@[t].out_offset
                    + b2] == source@[ranges@[t].in_offset - STREAM_START + b2]) by {
                if t < i - 1 {
                    assert forall|b2: int| 0 <= b2 < ranges@[t].length implies #[trigger] dest@[ranges@[t].out_offset
                        + b2] == source@[ranges@[t].in_offset - STREAM_START + b2] by {
                        let j = ranges@[t].out_offset + b2;
                        assert(ranges@[t].out_offset + ranges@[t].length <= ranges@[i - 1].out_offset
                            || ranges@[i - 1].out_offset + ranges@[i - 1].length
                            <= ranges@[t].out_offset);
                        assert(dest@[j] == pre_range[j]);
                    }
                }
            }
            assert forall|j: int|
                0 <= j < orig_dest.len() && !covered_by_first(ranges@, i as int, j) implies dest@[j]
                == orig_dest[j] by {
                assert(!covered_by_first(ranges@, i - 1, j));
                assert(!(ranges@[i - 1].out_offset <= j < ranges@[i - 1].out_offset + ranges@[i
                    - 1].length));
            }
        }
    }
    proof {
        report_written(ranges@, i as int, dest@, source@, orig_dest);
    }
    Ok(())
}

/// Convert the loop's pointwise facts about written bytes into the
/// subrange form of the public contract.
proof fn report_written(
    ranges: Seq<Range>,
    k: int,
    dest: Seq<u8>,
    source: Seq<u8>,
    orig_dest: Seq<u8>,
)
    requires
        0 <= k <= ranges.len(),
        ranges_fit(ranges, dest.len() as int),
        dest.len() == orig_dest.len(),
        forall|t: int|
            0 <= t < k ==> (forall|b: int|
                0 <= b < (#[trigger] ranges[t]).length ==> #[trigger] dest[ranges[t].out_offset
                    + b] == source[ranges[t].in_offset - STREAM_START + b]),
        forall|t: int|
            0 <= t < k ==> ((#[trigger] ranges[t]).in_offset >= STREAM_START && ranges[t].in_offset
                + ranges[t].length - STREAM_START <= source.len()),
    ensures
        forall|t: int|
            0 <= t < k ==> dest.subrange(
                (#[trigger] ranges[t]).out_offset as int,
                ranges[t].out_offset + ranges[t].length,
            ) == source.subrange(
                ranges[t].in_offset - STREAM_START,
                ranges[t].in_offset + ranges[t].length - STREAM_START,
            ),
{
    assert forall|t: int| 0 <= t < k implies dest.subrange(
        (#[trigger] ranges[t]).out_offset as int,
        ranges[t].out_offset + ranges[t].length,
    ) == source.subrange(
        ranges[t].in_offset - STREAM_START,
        ranges[t].in_offset + ranges[t].length - STREAM_START,
    ) by {
        let s1 = dest.subrange(ranges[t].out_offset as int, ranges[t].out_offset + ranges[t].length);
        let s2 = source.subrange(
            ranges[t].in_offset - STREAM_START,
            ranges[t].in_offset + ranges[t].length - STREAM_START,
        );
        assert forall|idx: int| 0 <= idx < s1.len() implies s1[idx] == s2[idx] by {
            assert(dest[ranges[t].out_offset + idx] == source[ranges[t].in_offset - STREAM_START
                + idx]);
        }
        assert(s1 =~= s2);
    }
}

/// A computed plan feeds the copier: every range writes inside its own
/// track span and track spans never overlap, so the plan's output
/// intervals are pairwise disjoint; and the stream cursor after any range
/// stays representable, as [`CopyCursor::new`] requires.
pub proof fn lemma_plan_feeds_copy(parts: Seq<PartitionSpan>, geo: Geometry, st: int)
    requires
        geo.wf(),
        plan_ok(parts, geo, st),
        st >= 0,
    ensures
        out_ranges_disjoint(plan_ranges(parts, geo, st)),
        forall|i: int|
            0 <= i < plan_ranges(parts, geo, st).len() ==> (#[trigger] plan_ranges(
                parts,
                geo,
                st,
            )[i]).in_offset + plan_ranges(parts, geo, st)[i].length <= u64::MAX,
{
    lemma_plan_structure(parts, geo, st);
    let rs = plan_ranges(parts, geo, st);
    let ds = plan_descriptors(parts, geo, st);
    let tb = geo.track_bytes();
    assert(tb >= 1) by (nonlinear_arith)
        requires
            geo.blocks_per_track >= 1,
            geo.bytes_per_block >= 1,
            tb == geo.blocks_per_track * geo.bytes_per_block,
    ;
    assert forall|i: int, j: int| 0 <= i < j < rs.len() implies ((#[trigger] rs[i]).out_offset
        + rs[i].length <= (#[trigger] rs[j]).out_offset || rs[j].out_offset + rs[j].length
        <= rs[i].out_offset) by {
        assert(plan_entry_shape(parts, geo, rs, ds, i));
        assert(plan_entry_shape(parts, geo, rs, ds, j));
        let bi = blocks_of(parts[i]);
        let tni = tracks_needed(parts[i], geo);
        let bpt = geo.blocks_per_track as int;
        let bpb = geo.bytes_per_block as int;
        // the range's bytes fit in its own track span
        vstd::arithmetic::div_mod::lemma_fundamental_div_mod(bi + bpt - 1, bpt);
        vstd::arithmetic::div_mod::lemma_mod_bound(bi + bpt - 1, bpt);
        assert(bi <= tni * bpt);
        vstd::arithmetic::mul::lemma_mul_inequality(bi, tni * bpt, bpb);
        assert(tni * bpt * bpb == tni * tb) by (nonlinear_arith)
            requires
                tb == bpt * bpb,
        ;
        assert(rs[i].length <= tni * tb);
        // the next span begins no earlier than this one ends
        assert(ds[(i + 1) - 1].start_track as int + tracks_needed(parts[(i + 1) - 1], geo) == ds[i
            + 1].start_track);
        if j > i + 1 {
            lemma_start_tracks_increase(parts, geo, st, i + 1, j);
        }
        let sti = ds[i].start_track as int;
        let stj = ds[j].start_track as int;
        assert(stj >= sti + tni);
        vstd::arithmetic::mul::lemma_mul_inequality(sti + tni, stj, tb);
        assert((sti + tni) * tb == sti * tb + tni * tb) by (nonlinear_arith);
        assert(rs[i].out_offset + rs[i].length <= rs[j].out_offset);
    }
    assert forall|i: int| 0 <= i < rs.len() implies (#[trigger] rs[i]).in_offset + rs[i].length
        <= u64::MAX by {
        assert(plan_entry_shape(parts, geo, rs, ds, i));
    }
}

/// One instruction to the application driving a real copy.
#[derive(Debug, Clone, Copy, PartialEq, Eq, Structural)]
pub enum CopyStep {
    /// The plan is inconsistent; stop without further I/O.
    Abort(DasdError),
    /// Read `amount` bytes from the source and discard them.
    Skip { amount: u64 },
    /// Seek the destination to `out_offset` and copy exactly `length`
    /// bytes from the source to it.
    Write { out_offset: u64, length: u64 },
    /// Read the rest of the source to exhaustion and discard it.
    Drain,
    /// Flush all buffered destination writes.
    Flush,
    /// Nothing remains to do.
    Done,
}

/// Where the copy stands.
#[derive(Debug, Clone, Copy, PartialEq, Eq, Structural)]
pub enum CopyPhase {
    /// Ranges are still being handed out.
    Ranges,
    /// All ranges were handed out; the drain instruction was issued.
    Draining,
    /// The flush instruction was issued.
    Flushing,
    /// The copy is over, successfully or not.
    Finished,
}

/// Step-by-step driver of a copy plan against a forward-only source.  The
/// application performs each returned [`CopyStep`] (the real reads, seeks,
/// writes and flushes) and asks for the next; the cursor arithmetic and the
/// consistency check live here, verified.  A short read while performing a
/// step is a `TruncatedStream` failure in the application.
pub struct CopyCursor {
    pub ranges: Vec<Range>,
    pub next: usize,
    pub cursor: u64,
    pub phase: CopyPhase,
}

impl CopyCursor {
    /// Cursor bookkeeping stays representable.
    pub open spec fn wf(self) -> bool {
        &&& self.next <= self.ranges@.len()
        &&& forall|i: int|
            0 <= i < self.ranges@.len() ==> (#[trigger] self.ranges@[i]).in_offset
                + self.ranges@[i].length <= u64::MAX
    }

    /// Begin a copy: the stream stands at [`STREAM_START`], no range handed
    /// out yet.
    pub fn new(ranges: Vec<Range>) -> (s: Self)
        requires
            forall|i: int|
                0 <= i < ranges@.len() ==> (#[trigger] ranges@[i]).in_offset + ranges@[i].length
                    <= u64::MAX,
        ensures
            s.wf(),
            s.ranges@ == ranges@,
            s.next == 0,
            s.cursor == STREAM_START,
            s.phase == CopyPhase::Ranges,
    {
        CopyCursor { ranges, next: 0, cursor: STREAM_START, phase: CopyPhase::Ranges }
    }

    /// Hand out the next instruction.  A range beginning before the cursor
    /// aborts the copy with `PlanConsistency` before any write instruction
    /// for it is issued, and every later call returns `Done`: the
    /// destination is not touched again.
    pub fn next_step(&mut self) -> (step: CopyStep)
        requires
            old(self).wf(),
        ensures
            final(self).wf(),
            final(self).ranges@ == old(self).ranges@,
            match old(self).phase {
                CopyPhase::Ranges => {
                    if old(self).next == old(self).ranges@.len() {
                        &&& step == CopyStep::Drain
                        &&& final(self).phase == CopyPhase::Draining
                        &&& final(self).next == old(self).next
                        &&& final(self).cursor == old(self).cursor
                    } else {
                        let r = old(self).ranges@[old(self).next as int];
                        if r.in_offset < old(self).cursor {
                            &&& step == CopyStep::Abort(
                                DasdError::PlanConsistency {
                                    in_offset: r.in_offset,
                                    cursor: old(self).cursor,
                                },
                            )
                            &&& final(self).phase == CopyPhase::Finished
                            &&& final(self).next == old(self).next
                            &&& final(self).cursor == old(self).cursor
                        } else if r.in_offset > old(self).cursor {
                            &&& step == CopyStep::Skip {
                                amount: (r.in_offset - old(self).cursor) as u64,
                            }
                            &&& final(self).phase == CopyPhase::Ranges
                            &&& final(self).next == old(self).next
                            &&& final(self).cursor == r.in_offset
                        } else {
                            &&& step == CopyStep::Write {
                                out_offset: r.out_offset,
                                length: r.length,
                            }
                            &&& final(self).phase == CopyPhase::Ranges
                            &&& final(self).next == old(self).next + 1
                            &&& final(self).cursor == r.in_offset + r.length
                        }
                    }
                },
                CopyPhase::Draining => {
                    &&& step == CopyStep::Flush
                    &&& final(self).phase == CopyPhase::Flushing
                    &&& final(self).next == old(self).next
                    &&& final(self).cursor == old(self).cursor
                },
                CopyPhase::Flushing => {
                    &&& step == CopyStep::Done
                    &&& final(self).phase == CopyPhase::Finished
                    &&& final(self).next == old(self).next
                    &&& final(self).cursor == old(self).cursor
                },
                CopyPhase::Finished => {
                    &&& step == CopyStep::Done
                    &&& final(self).phase == CopyPhase::Finished
                    &&& final(self).next == old(self).next
                    &&& final(self).cursor == old(self).cursor
                },
            },
    {
        match self.phase {
            CopyPhase::Ranges => {
                if self.next == self.ranges.len() {
                    self.phase = CopyPhase::Draining;
                    CopyStep::Drain
                } else {
                    let r = self.ranges[self.next];
                    if r.in_offset < self.cursor {
                        self.phase = CopyPhase::Finished;
                        CopyStep::Abort(
                            DasdError::PlanConsistency {
                                in_offset: r.in_offset,
                                cursor: self.cursor,
                            },
                        )
                    } else if r.in_offset > self.cursor {
                        let amount = r.in_offset - self.cursor;
                        self.cursor = r.in_offset;
                        CopyStep::Skip { amount }
                    } else {
                        self.cursor = r.in_offset + r.length;
                        self.next = self.next + 1;
                        CopyStep::Write { out_offset: r.out_offset, length: r.length }
                    }
                }
            },
            CopyPhase::Draining => {
                self.phase = CopyPhase::Flushing;
                CopyStep::Flush
            },
            CopyPhase::Flushing => {
                self.phase = CopyPhase::Finished;
                CopyStep::Done
            },
            CopyPhase::Finished => CopyStep::Done,
        }
    }
}

} // verus!
