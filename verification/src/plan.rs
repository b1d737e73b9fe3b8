//! Translating a sector-addressed partition table into a track-addressed
//! copy plan: byte ranges to copy and track descriptors to hand to the
//! partitioning tool.

use vstd::prelude::*;
use vstd::multiset::Multiset;
use vstd::relations::{sorted_by, total_ordering};
use vstd::seq_lib::lemma_sorted_unique;

use crate::errors::DasdError;
use crate::geometry::Geometry;

verus! {

/// The first two tracks of an ECKD DASD are reserved for device-internal
/// use; no partition may begin before this track.
pub const FIRST_DATA_TRACK: u64 = 2;

/// One used partition of the source table: starting and ending block
/// numbers, both inclusive.
#[derive(Debug, Clone, Copy, PartialEq, Eq, Structural)]
pub struct PartitionSpan {
    pub starting_block: u64,
    pub ending_block: u64,
}

/// One contiguous byte copy: `length` bytes are taken from the source
/// stream at `in_offset` and written to the device at `out_offset`.
#[derive(Debug, Clone, Copy, PartialEq, Eq, Structural)]
pub struct Range {
    pub in_offset: u64,
    pub out_offset: u64,
    pub length: u64,
}

/// Where a partition's track span ends: at a concrete track, or extended to
/// the end of the usable device (the final partition only).
#[derive(Debug, Clone, Copy, PartialEq, Eq, Structural)]
pub enum TrackEnd {
    Track(u64),
    Last,
}

/// One track-range record handed to the partitioning tool, in 1:1
/// correspondence with a [`Range`].
#[derive(Debug, Clone, Copy, PartialEq, Eq, Structural)]
pub struct TrackDescriptor {
    pub start_track: u64,
    pub end: TrackEnd,
}

/// A computed copy plan: byte ranges sorted ascending by `in_offset`, and
/// the matching track descriptors in partition order.
#[derive(Debug, PartialEq, Eq)]
pub struct Plan {
    pub ranges: Vec<Range>,
    pub descriptors: Vec<TrackDescriptor>,
}

/// Number of blocks a partition spans (both endpoints inclusive).
pub open spec fn blocks_of(p: PartitionSpan) -> int {
    p.ending_block - p.starting_block + 1
}

/// Number of whole tracks needed to hold the partition; a partial final
/// track still consumes a whole track.
pub open spec fn tracks_needed(p: PartitionSpan, geo: Geometry) -> int {
    (blocks_of(p) + geo.blocks_per_track - 1) / (geo.blocks_per_track as int)
}

/// Every quantity of this entry's range and descriptor is representable in
/// 64 bits, including the stream cursor after the copy and the following
/// entry's starting track.
pub open spec fn entry_fits(p: PartitionSpan, geo: Geometry, start_track: int) -> bool {
    &&& p.starting_block <= p.ending_block
    &&& blocks_of(p) <= u64::MAX
    &&& blocks_of(p) + geo.blocks_per_track - 1 <= u64::MAX
    &&& start_track + tracks_needed(p, geo) <= u64::MAX
    &&& start_track * geo.blocks_per_track <= u64::MAX
    &&& start_track * geo.blocks_per_track * geo.bytes_per_block <= u64::MAX
    &&& p.starting_block * geo.bytes_per_block <= u64::MAX
    &&& blocks_of(p) * geo.bytes_per_block <= u64::MAX
    &&& p.starting_block * geo.bytes_per_block + blocks_of(p) * geo.bytes_per_block <= u64::MAX
}

/// The byte range copied for a partition whose track span begins at
/// `start_track`.
pub open spec fn range_for(p: PartitionSpan, geo: Geometry, start_track: int) -> Range {
    Range {
        in_offset: (p.starting_block * geo.bytes_per_block) as u64,
        out_offset: (start_track * geo.blocks_per_track * geo.bytes_per_block) as u64,
        length: (blocks_of(p) * geo.bytes_per_block) as u64,
    }
}

/// The descriptor emitted for a partition; the final partition in on-disk
/// order extends to the end of the usable device instead of naming its end
/// track.
pub open spec fn descriptor_for(
    p: PartitionSpan,
    geo: Geometry,
    start_track: int,
    is_last: bool,
) -> TrackDescriptor {
    TrackDescriptor {
        start_track: start_track as u64,
        end: if is_last {
            TrackEnd::Last
        } else {
            TrackEnd::Track((start_track + tracks_needed(p, geo) - 1) as u64)
        },
    }
}

/// Every entry of the table fits when track spans are assigned left to
/// right starting at `start_track`.
pub open spec fn plan_ok(parts: Seq<PartitionSpan>, geo: Geometry, start_track: int) -> bool
    decreases parts.len(),
{
    parts.len() == 0 || (entry_fits(parts[0], geo, start_track) && plan_ok(
        parts.drop_first(),
        geo,
        start_track + tracks_needed(parts[0], geo),
    ))
}

/// The byte ranges of the plan, in partition order.
pub open spec fn plan_ranges(parts: Seq<PartitionSpan>, geo: Geometry, start_track: int) -> Seq<
    Range,
>
    decreases parts.len(),
{
    if parts.len() == 0 {
        Seq::empty()
    } else {
        seq![range_for(parts[0], geo, start_track)] + plan_ranges(
            parts.drop_first(),
            geo,
            start_track + tracks_needed(parts[0], geo),
        )
    }
}

/// The track descriptors of the plan, in partition order.
pub open spec fn plan_descriptors(
    parts: Seq<PartitionSpan>,
    geo: Geometry,
    start_track: int,
) -> Seq<TrackDescriptor>
    decreases parts.len(),
{
    if parts.len() == 0 {
        Seq::empty()
    } else {
        seq![descriptor_for(parts[0], geo, start_track, parts.len() == 1)] + plan_descriptors(
            parts.drop_first(),
            geo,
            start_track + tracks_needed(parts[0], geo),
        )
    }
}

/// Total order on ranges: by `in_offset`, then `out_offset`, then `length`.
pub open spec fn range_le(a: Range, b: Range) -> bool {
    if a.in_offset != b.in_offset {
        a.in_offset < b.in_offset
    } else if a.out_offset != b.out_offset {
        a.out_offset < b.out_offset
    } else {
        a.length <= b.length
    }
}

/// [`range_le`] as a relation value, for use with `sorted_by`.
pub open spec fn range_order() -> spec_fn(Range, Range) -> bool {
    |a: Range, b: Range| range_le(a, b)
}

/// The range order is a total order, so a sorted sequence of ranges is
/// determined by its multiset of elements.
pub proof fn lemma_range_order_total()
    ensures
        total_ordering(range_order()),
{
    let leq = range_order();
    assert forall|a: Range, b: Range| #[trigger] leq(a, b) && #[trigger] leq(b, a) implies a
        == b by {};
    assert forall|a: Range, b: Range| !(#[trigger] leq(a, b)) implies leq(b, a) by {};
}

/// Exec comparison matching [`range_le`].
fn range_before(a: &Range, b: &Range) -> (r: bool)
    ensures
        r == range_le(*a, *b),
{
    if a.in_offset != b.in_offset {
        a.in_offset < b.in_offset
    } else if a.out_offset != b.out_offset {
        a.out_offset < b.out_offset
    } else {
        a.length <= b.length
    }
}

/// Sort ranges ascending.  The collaborator's iteration order is expected
/// to already be ascending by starting block, but the invariant is enforced
/// rather than assumed: violating it downstream would silently corrupt
/// data.  On an already-sorted input the result is the input itself.
pub fn sort_ranges(v: Vec<Range>) -> (r: Vec<Range>)
    ensures
        sorted_by(r@, range_order()),
        r@.to_multiset() == v@.to_multiset(),
        sorted_by(v@, range_order()) ==> r@ == v@,
{
    broadcast use vstd::seq_lib::group_to_multiset_ensures;
    broadcast use vstd::multiset::group_multiset_axioms;

    let mut rest = v;
    let ghost orig = rest@;
    let mut out: Vec<Range> = Vec::new();
    while rest.len() > 0
        invariant
            out@.to_multiset().add(rest@.to_multiset()) == orig.to_multiset(),
            sorted_by(out@, range_order()),
            forall|a: int, b: int|
                0 <= a < out@.len() && 0 <= b < rest@.len() ==> range_le(
                    #[trigger] out@[a],
                    #[trigger] rest@[b],
                ),
        decreases rest@.len(),
    {
        let mut m: usize = 0;
        let mut k: usize = 1;
        while k < rest.len()
            invariant
                0 < rest@.len(),
                m < k <= rest@.len() || (m == 0 && k == 1 && k <= rest@.len()),
                forall|j: int| 0 <= j < k ==> range_le(rest@[m as int], #[trigger] rest@[j]),
            decreases rest@.len() - k,
        {
            if !range_before(&rest[m], &rest[k]) {
                proof {
                    assert forall|j: int| 0 <= j < k + 1 implies range_le(
                        rest@[k as int],
                        #[trigger] rest@[j],
                    ) by {
                        assert(range_le(rest@[k as int], rest@[m as int]));
                    }
                }
                m = k;
            }
            k += 1;
        }
        let ghost pre = rest@;
        let ghost pre_out = out@;
        let x = rest.remove(m);
        out.push(x);
        proof {
            vstd::seq_lib::to_multiset_remove(pre, m as int);
            vstd::seq_lib::to_multiset_build(pre_out, x);
            pre.to_multiset_ensures();
            assert(pre.contains(x));
            assert(pre.to_multiset().count(x) > 0);
            assert(out@.to_multiset().add(rest@.to_multiset()) =~= orig.to_multiset());
            assert forall|a: int, b: int|
                0 <= a < out@.len() && 0 <= b < rest@.len() implies range_le(
                #[trigger] out@[a],
                #[trigger] rest@[b],
            ) by {
                assert(rest@[b] == if b < m { pre[b] } else { pre[b + 1] });
            }
            assert forall|a: int, b: int| 0 <= a < b < out@.len() implies range_order()(
                #[trigger] out@[a],
                #[trigger] out@[b],
            ) by {}
        }
    }
    proof {
        assert(rest@.to_multiset() =~= Multiset::<Range>::empty());
        assert(out@.to_multiset().add(rest@.to_multiset()) =~= out@.to_multiset());
        if sorted_by(orig, range_order()) {
            lemma_range_order_total();
            lemma_sorted_unique(out@, orig, range_order());
        }
    }
    out
}

/// Compute the copy plan for the used partitions of the source table, in
/// ascending on-disk order, against the given device geometry.
///
/// The first [`FIRST_DATA_TRACK`] tracks are reserved; each partition is
/// assigned the next free run of whole tracks.  A table with no used
/// partitions is rejected; a table whose spans are inverted or whose
/// figures do not fit 64-bit byte arithmetic is malformed.
pub fn compute_plan(parts: &Vec<PartitionSpan>, geo: Geometry) -> (r: Result<Plan, DasdError>)
    requires
        geo.wf(),
    ensures
        parts@.len() == 0 ==> r == Err::<Plan, DasdError>(DasdError::NoPartitions),
        parts@.len() > 0 && !plan_ok(parts@, geo, FIRST_DATA_TRACK as int) ==> r == Err::<
            Plan,
            DasdError,
        >(DasdError::PartitionTable),
        parts@.len() > 0 && plan_ok(parts@, geo, FIRST_DATA_TRACK as int) ==> (r matches Ok(plan)
            && plan.descriptors@ == plan_descriptors(parts@, geo, FIRST_DATA_TRACK as int)
            && plan.ranges@.to_multiset() == plan_ranges(
            parts@,
            geo,
            FIRST_DATA_TRACK as int,
        ).to_multiset() && sorted_by(plan.ranges@, range_order()) && (sorted_by(
            plan_ranges(parts@, geo, FIRST_DATA_TRACK as int),
            range_order(),
        ) ==> plan.ranges@ == plan_ranges(parts@, geo, FIRST_DATA_TRACK as int))),
        r matches Ok(plan) ==> forall|k: int|
            0 <= k < plan.ranges@.len() ==> (#[trigger] plan.ranges@[k]).in_offset
                + plan.ranges@[k].length <= u64::MAX,
{
    if parts.len() == 0 {
        return Err(DasdError::NoPartitions);
    }
    let mut ranges: Vec<Range> = Vec::new();
    let mut descriptors: Vec<TrackDescriptor> = Vec::new();
    let mut start_track: u64 = FIRST_DATA_TRACK;
    let mut i: usize = 0;
    proof {
        assert(parts@.skip(0) =~= parts@);
    }
    while i < parts.len()
        invariant
            geo.wf(),
            0 < parts@.len(),
            i <= parts@.len(),
            ranges@.len() == i,
            plan_ok(parts@, geo, FIRST_DATA_TRACK as int) == plan_ok(
                parts@.skip(i as int),
                geo,
                start_track as int,
            ),
            ranges@ + plan_ranges(parts@.skip(i as int), geo, start_track as int) == plan_ranges(
                parts@,
                geo,
                FIRST_DATA_TRACK as int,
            ),
            descriptors@ + plan_descriptors(parts@.skip(i as int), geo, start_track as int)
                == plan_descriptors(parts@, geo, FIRST_DATA_TRACK as int),
        decreases parts@.len() - i,
    {
        let ghost tail = parts@.skip(i as int);
        proof {
            assert(tail.len() > 0);
            assert(tail[0] == parts@[i as int]);
            assert(tail.drop_first() =~= parts@.skip(i as int + 1));
        }
        let p = parts[i];
        // Each check below mirrors one conjunct of `entry_fits`; any failure
        // means the table does not describe representable byte ranges.
        if p.starting_block > p.ending_block {
            return Err(DasdError::PartitionTable);
        }
        let blocks = match (p.ending_block - p.starting_block).checked_add(1) {
            Some(b) => b,
            None => return Err(DasdError::PartitionTable),
        };
        let numer = match blocks.checked_add(geo.blocks_per_track - 1) {
            Some(n) => n,
            None => return Err(DasdError::PartitionTable),
        };
        let tn = numer / geo.blocks_per_track;
        let next_track = match start_track.checked_add(tn) {
            Some(t) => t,
            None => return Err(DasdError::PartitionTable),
        };
        let out_blocks = match start_track.checked_mul(geo.blocks_per_track) {
            Some(t) => t,
            None => return Err(DasdError::PartitionTable),
        };
        let out_offset = match out_blocks.checked_mul(geo.bytes_per_block) {
            Some(t) => t,
            None => return Err(DasdError::PartitionTable),
        };
        let in_offset = match p.starting_block.checked_mul(geo.bytes_per_block) {
            Some(t) => t,
            None => return Err(DasdError::PartitionTable),
        };
        let length = match blocks.checked_mul(geo.bytes_per_block) {
            Some(t) => t,
            None => return Err(DasdError::PartitionTable),
        };
        if in_offset.checked_add(length).is_none() {
            return Err(DasdError::PartitionTable);
        }
        proof {
            assert(entry_fits(p, geo, start_track as int));
            assert(tn == tracks_needed(p, geo));
            assert(tn >= 1) by (nonlinear_arith)
                requires
                    numer >= geo.blocks_per_track,
                    geo.blocks_per_track > 0,
                    tn == numer / geo.blocks_per_track,
            ;
        }
        let is_last = i == parts.len() - 1;
        proof {
            assert(is_last == (tail.len() == 1));
        }
        ranges.push(Range { in_offset, out_offset, length });
        if is_last {
            descriptors.push(TrackDescriptor { start_track, end: TrackEnd::Last });
        } else {
            descriptors.push(
                TrackDescriptor { start_track, end: TrackEnd::Track(next_track - 1) },
            );
        }
        proof {
            assert(Range { in_offset, out_offset, length } == range_for(
                p,
                geo,
                start_track as int,
            ));
            assert(descriptors@.last() == descriptor_for(p, geo, start_track as int, is_last));
            assert(plan_ranges(tail, geo, start_track as int) == seq![
                range_for(p, geo, start_track as int),
            ] + plan_ranges(tail.drop_first(), geo, start_track as int + tn));
            assert(ranges@ + plan_ranges(tail.drop_first(), geo, start_track as int + tn)
                =~= acc_with_tail_ranges(ranges@, tail, geo, start_track as int, tn as int));
            assert(descriptors@ + plan_descriptors(tail.drop_first(), geo, start_track as int + tn)
                =~= acc_with_tail_descs(descriptors@, tail, geo, start_track as int, tn as int));
        }
        start_track = next_track;
        i += 1;
    }
    proof {
        assert(parts@.skip(parts@.len() as int) =~= Seq::<PartitionSpan>::empty());
        assert(ranges@ + Seq::<Range>::empty() =~= ranges@);
        assert(descriptors@ + Seq::<TrackDescriptor>::empty() =~= descriptors@);
    }
    let ghost unsorted = ranges@;
    let ranges = sort_ranges(ranges);
    proof {
        broadcast use vstd::seq_lib::group_to_multiset_ensures;

        lemma_plan_structure(parts@, geo, FIRST_DATA_TRACK as int);
        let prs = plan_ranges(parts@, geo, FIRST_DATA_TRACK as int);
        let pds = plan_descriptors(parts@, geo, FIRST_DATA_TRACK as int);
        assert forall|k: int| 0 <= k < ranges@.len() implies (#[trigger] ranges@[k]).in_offset
            + ranges@[k].length <= u64::MAX by {
            let x = ranges@[k];
            assert(ranges@.contains(x));
            assert(ranges@.to_multiset().count(x) > 0);
            assert(prs.to_multiset().count(x) > 0);
            assert(prs.contains(x));
            let m = choose|m: int| 0 <= m < prs.len() && prs[m] == x;
            assert(plan_entry_shape(parts@, geo, prs, pds, m));
        }
    }
    Ok(Plan { ranges, descriptors })
}

/// The concatenation rewritten so the outer loop invariant matches after a
/// push: `(a.push(head)) + rest` equals `a + (head :: rest)`.
spec fn acc_with_tail_ranges(
    acc: Seq<Range>,
    tail: Seq<PartitionSpan>,
    geo: Geometry,
    start_track: int,
    tn: int,
) -> Seq<Range> {
    acc.drop_last() + plan_ranges(tail, geo, start_track)
}

/// Companion of [`acc_with_tail_ranges`] for descriptors.
spec fn acc_with_tail_descs(
    acc: Seq<TrackDescriptor>,
    tail: Seq<PartitionSpan>,
    geo: Geometry,
    start_track: int,
    tn: int,
) -> Seq<TrackDescriptor> {
    acc.drop_last() + plan_descriptors(tail, geo, start_track)
}

/// Ceiling division: tracks consumed by a byte or block count.
pub open spec fn ceil_div(a: int, b: int) -> int {
    (a + b - 1) / b
}

/// Ceiling division is invariant under scaling numerator and denominator by
/// the same positive factor.
proof fn lemma_ceil_div_scale(a: int, b: int, c: int)
    requires
        a >= 1,
        b >= 1,
        c >= 1,
    ensures
        ceil_div(a * c, b * c) == ceil_div(a, b),
{
    let q = ceil_div(a, b);
    vstd::arithmetic::div_mod::lemma_fundamental_div_mod(a + b - 1, b);
    let r = (a + b - 1) % b;
    assert(a <= q * b);
    assert(a >= q * b - b + 1);
    let big_a = a * c;
    let big_t = b * c;
    assert(big_t >= 1) by (nonlinear_arith)
        requires
            b >= 1,
            c >= 1,
            big_t == b * c,
    ;
    assert(big_a <= q * big_t) by (nonlinear_arith)
        requires
            a <= q * b,
            c >= 1,
            big_a == a * c,
            big_t == b * c,
    ;
    assert(big_a >= q * big_t - big_t + 1) by (nonlinear_arith)
        requires
            a >= q * b - b + 1,
            c >= 1,
            big_a == a * c,
            big_t == b * c,
    ;
    let r2 = big_a + big_t - 1 - q * big_t;
    assert(0 <= r2 < big_t);
    vstd::arithmetic::div_mod::lemma_fundamental_div_mod_converse_div(
        big_a + big_t - 1,
        big_t,
        q,
        r2,
    );
}

/// Per-index shape of a plan: the input side of each range is determined by
/// its partition alone; the output side lies at the descriptor's start
/// track; each non-final descriptor names its end track and exactly the
/// final one extends to the end of the device.
pub open spec fn plan_entry_shape(
    parts: Seq<PartitionSpan>,
    geo: Geometry,
    rs: Seq<Range>,
    ds: Seq<TrackDescriptor>,
    i: int,
) -> bool {
    &&& parts[i].starting_block <= parts[i].ending_block
    &&& tracks_needed(parts[i], geo) >= 1
    &&& rs[i].in_offset == parts[i].starting_block * geo.bytes_per_block
    &&& rs[i].length == blocks_of(parts[i]) * geo.bytes_per_block
    &&& rs[i].length >= 1
    &&& rs[i].in_offset + rs[i].length == (parts[i].ending_block + 1) * geo.bytes_per_block
    &&& rs[i].in_offset + rs[i].length <= u64::MAX
    &&& rs[i].out_offset == ds[i].start_track as int * geo.track_bytes()
    &&& ds[i].start_track as int + tracks_needed(parts[i], geo) <= u64::MAX
    &&& (i < parts.len() - 1 ==> ds[i].end == TrackEnd::Track(
        (ds[i].start_track as int + tracks_needed(parts[i], geo) - 1) as u64,
    ))
    &&& (i == parts.len() - 1 ==> ds[i].end == TrackEnd::Last)
}

/// Structure of a computed plan: one range and one descriptor per
/// partition, each shaped by [`plan_entry_shape`], with track spans
/// assigned left to right from `st`.
pub proof fn lemma_plan_structure(parts: Seq<PartitionSpan>, geo: Geometry, st: int)
    requires
        geo.wf(),
        plan_ok(parts, geo, st),
        st >= 0,
    ensures
        ({
            let rs = plan_ranges(parts, geo, st);
            let ds = plan_descriptors(parts, geo, st);
            &&& rs.len() == parts.len()
            &&& ds.len() == parts.len()
            &&& forall|i: int|
                0 <= i < parts.len() ==> #[trigger] plan_entry_shape(parts, geo, rs, ds, i)
            &&& forall|i: int| 0 <= i < parts.len() ==> #[trigger] ds[i].start_track >= st
            &&& parts.len() > 0 ==> ds[0].start_track == st
            &&& forall|i: int|
                0 <= i < parts.len() - 1 ==> #[trigger] ds[i + 1].start_track == ds[i].start_track
                    as int + tracks_needed(parts[i], geo)
        }),
    decreases parts.len(),
{
    if parts.len() == 0 {
        return ;
    }
    let p = parts[0];
    let tn = tracks_needed(p, geo);
    assert(entry_fits(p, geo, st));
    let numer = blocks_of(p) + geo.blocks_per_track - 1;
    assert(tn >= 1) by (nonlinear_arith)
        requires
            numer >= geo.blocks_per_track > 0,
            tn == numer / (geo.blocks_per_track as int),
    ;
    let tail = parts.drop_first();
    lemma_plan_structure(tail, geo, st + tn);
    let rs = plan_ranges(parts, geo, st);
    let ds = plan_descriptors(parts, geo, st);
    let rst = plan_ranges(tail, geo, st + tn);
    let dst = plan_descriptors(tail, geo, st + tn);
    assert(st * geo.blocks_per_track * geo.bytes_per_block == st * geo.track_bytes())
        by (nonlinear_arith);
    assert((p.starting_block + blocks_of(p)) * geo.bytes_per_block == p.starting_block
        * geo.bytes_per_block + blocks_of(p) * geo.bytes_per_block) by (nonlinear_arith);
    assert(blocks_of(p) * geo.bytes_per_block >= 1) by (nonlinear_arith)
        requires
            blocks_of(p) >= 1,
            geo.bytes_per_block >= 1,
    ;
    assert forall|i: int| 0 <= i < parts.len() implies #[trigger] plan_entry_shape(
        parts,
        geo,
        rs,
        ds,
        i,
    ) by {
        if i == 0 {
            assert(rs[0] == range_for(p, geo, st));
            assert(ds[0] == descriptor_for(p, geo, st, parts.len() == 1));
        } else {
            assert(plan_entry_shape(tail, geo, rst, dst, i - 1));
            assert(rs[i] == rst[i - 1]);
            assert(ds[i] == dst[i - 1]);
            assert(parts[i] == tail[i - 1]);
        }
    }
    assert forall|i: int| 0 <= i < parts.len() implies #[trigger] ds[i].start_track >= st by {
        if i > 0 {
            assert(ds[i] == dst[i - 1]);
            assert(dst[i - 1].start_track >= st + tn);
        }
    }
    assert forall|i: int| 0 <= i < parts.len() - 1 implies #[trigger] ds[i + 1].start_track
        == ds[i].start_track as int + tracks_needed(parts[i], geo) by {
        if i == 0 {
            assert(ds[1] == dst[0]);
            assert(dst[0].start_track == st + tn);
        } else {
            assert(ds[i + 1] == dst[i]);
            assert(ds[i] == dst[i - 1]);
            assert(dst[(i - 1) + 1].start_track == dst[i - 1].start_track as int + tracks_needed(
                tail[i - 1],
                geo,
            ));
            assert(parts[i] == tail[i - 1]);
        }
    }
}

/// Start tracks of a plan's descriptors strictly increase.
pub proof fn lemma_start_tracks_increase(parts: Seq<PartitionSpan>, geo: Geometry, st: int, i: int, j: int)
    requires
        geo.wf(),
        plan_ok(parts, geo, st),
        st >= 0,
        0 <= i < j < parts.len(),
    ensures
        plan_descriptors(parts, geo, st)[i].start_track < plan_descriptors(parts, geo, st)[j].start_track,
    decreases j - i,
{
    lemma_plan_structure(parts, geo, st);
    let ds = plan_descriptors(parts, geo, st);
    let rs = plan_ranges(parts, geo, st);
    assert(plan_entry_shape(parts, geo, rs, ds, j - 1));
    assert(ds[(j - 1) + 1].start_track == ds[j - 1].start_track as int + tracks_needed(
        parts[j - 1],
        geo,
    ));
    if j > i + 1 {
        lemma_start_tracks_increase(parts, geo, st, i, j - 1);
    }
}

/// In a table of used partitions in ascending, non-overlapping block
/// order, every earlier partition ends before a later one starts.
proof fn lemma_block_chain(parts: Seq<PartitionSpan>, i: int, j: int)
    requires
        forall|k: int|
            0 <= k < parts.len() - 1 ==> #[trigger] parts[k].ending_block < parts[k
                + 1].starting_block,
        forall|k: int|
            0 <= k < parts.len() ==> #[trigger] parts[k].starting_block <= parts[k].ending_block,
        0 <= i < j < parts.len(),
    ensures
        parts[i].ending_block < parts[j].starting_block,
    decreases j - i,
{
    if j > i + 1 {
        lemma_block_chain(parts, i, j - 1);
    }
}

/// Track layout of any computed plan: one descriptor per range; every
/// output offset is track-aligned and output offsets strictly increase;
/// each non-final descriptor's end track is its start track plus the tracks
/// its range needs, minus one; exactly the final descriptor extends to the
/// end of the usable device.
pub proof fn lemma_plan_track_layout(parts: Seq<PartitionSpan>, geo: Geometry, st: int)
    requires
        geo.wf(),
        plan_ok(parts, geo, st),
        st >= 0,
        parts.len() > 0,
    ensures
        ({
            let rs = plan_ranges(parts, geo, st);
            let ds = plan_descriptors(parts, geo, st);
            &&& rs.len() == parts.len()
            &&& ds.len() == parts.len()
            &&& forall|i: int|
                0 <= i < rs.len() ==> (#[trigger] rs[i].out_offset) as int % geo.track_bytes()
                    == 0
            &&& forall|i: int, j: int|
                0 <= i < j < rs.len() ==> #[trigger] rs[i].out_offset < #[trigger] rs[j].out_offset
            &&& forall|i: int|
                0 <= i < ds.len() - 1 ==> #[trigger] ds[i].end == TrackEnd::Track(
                    (ds[i].start_track as int + ceil_div(rs[i].length as int, geo.track_bytes())
                        - 1) as u64,
                )
            &&& ds[ds.len() - 1].end == TrackEnd::Last
            &&& forall|i: int| 0 <= i < ds.len() - 1 ==> !((#[trigger] ds[i].end) is Last)
        }),
{
    lemma_plan_structure(parts, geo, st);
    let rs = plan_ranges(parts, geo, st);
    let ds = plan_descriptors(parts, geo, st);
    assert(geo.track_bytes() >= 1) by (nonlinear_arith)
        requires
            geo.blocks_per_track >= 1,
            geo.bytes_per_block >= 1,
    ;
    assert forall|i: int| 0 <= i < rs.len() implies (#[trigger] rs[i].out_offset) as int
        % geo.track_bytes() == 0 by {
        assert(plan_entry_shape(parts, geo, rs, ds, i));
        vstd::arithmetic::div_mod::lemma_mod_multiples_basic(
            ds[i].start_track as int,
            geo.track_bytes(),
        );
    }
    assert forall|i: int, j: int| 0 <= i < j < rs.len() implies #[trigger] rs[i].out_offset
        < #[trigger] rs[j].out_offset by {
        assert(plan_entry_shape(parts, geo, rs, ds, i));
        assert(plan_entry_shape(parts, geo, rs, ds, j));
        lemma_start_tracks_increase(parts, geo, st, i, j);
        vstd::arithmetic::mul::lemma_mul_strict_inequality(
            ds[i].start_track as int,
            ds[j].start_track as int,
            geo.track_bytes(),
        );
    }
    assert forall|i: int| 0 <= i < ds.len() - 1 implies #[trigger] ds[i].end == TrackEnd::Track(
        (ds[i].start_track as int + ceil_div(rs[i].length as int, geo.track_bytes()) - 1) as u64,
    ) by {
        assert(plan_entry_shape(parts, geo, rs, ds, i));
        lemma_ceil_div_scale(
            blocks_of(parts[i]),
            geo.blocks_per_track as int,
            geo.bytes_per_block as int,
        );
        assert(blocks_of(parts[i]) * geo.bytes_per_block == rs[i].length);
        assert(geo.blocks_per_track as int * geo.bytes_per_block as int == geo.track_bytes());
        assert(ceil_div(rs[i].length as int, geo.track_bytes()) == tracks_needed(parts[i], geo));
    }
    assert(plan_entry_shape(parts, geo, rs, ds, parts.len() - 1));
    assert forall|i: int| 0 <= i < ds.len() - 1 implies !((#[trigger] ds[i].end) is Last) by {
        assert(plan_entry_shape(parts, geo, rs, ds, i));
    }
}

/// Ranges of a plan computed from used partitions in ascending,
/// non-overlapping block order are sorted ascending by input offset and
/// pairwise non-overlapping in input space.
pub proof fn lemma_plan_input_disjoint(parts: Seq<PartitionSpan>, geo: Geometry, st: int)
    requires
        geo.wf(),
        plan_ok(parts, geo, st),
        st >= 0,
        forall|k: int|
            0 <= k < parts.len() - 1 ==> #[trigger] parts[k].ending_block < parts[k
                + 1].starting_block,
    ensures
        ({
            let rs = plan_ranges(parts, geo, st);
            &&& forall|i: int, j: int|
                0 <= i < j < rs.len() ==> #[trigger] rs[i].in_offset + rs[i].length
                    <= #[trigger] rs[j].in_offset
            &&& forall|i: int, j: int|
                0 <= i < j < rs.len() ==> #[trigger] rs[i].in_offset < #[trigger] rs[j].in_offset
            &&& sorted_by(rs, range_order())
        }),
{
    lemma_plan_structure(parts, geo, st);
    let rs = plan_ranges(parts, geo, st);
    let ds = plan_descriptors(parts, geo, st);
    assert forall|k: int| 0 <= k < parts.len() implies #[trigger] parts[k].starting_block
        <= parts[k].ending_block by {
        assert(plan_entry_shape(parts, geo, rs, ds, k));
    }
    assert forall|i: int, j: int| 0 <= i < j < rs.len() implies #[trigger] rs[i].in_offset
        + rs[i].length <= #[trigger] rs[j].in_offset by {
        assert(plan_entry_shape(parts, geo, rs, ds, i));
        assert(plan_entry_shape(parts, geo, rs, ds, j));
        lemma_block_chain(parts, i, j);
        vstd::arithmetic::mul::lemma_mul_inequality(
            parts[i].ending_block as int + 1,
            parts[j].starting_block as int,
            geo.bytes_per_block as int,
        );
    }
    assert forall|i: int, j: int| 0 <= i < j < rs.len() implies #[trigger] rs[i].in_offset
        < #[trigger] rs[j].in_offset by {
        assert(plan_entry_shape(parts, geo, rs, ds, i));
        assert(rs[i].in_offset + rs[i].length <= rs[j].in_offset);
    }
    assert forall|i: int, j: int| 0 <= i < j < rs.len() implies range_order()(
        #[trigger] rs[i],
        #[trigger] rs[j],
    ) by {
        assert(rs[i].in_offset < rs[j].in_offset);
    }
}

} // verus!
