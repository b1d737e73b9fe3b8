//! Reading the partition table embedded in the leading bytes of the source
//! image, through the gptman crate, and collecting the used entries.

use vstd::prelude::*;
use vstd::relations::sorted_by;

use crate::errors::DasdError;
use crate::geometry::Geometry;
use crate::plan::{compute_plan, plan_ok, plan_ranges, plan_descriptors, range_order, Plan,
    PartitionSpan, FIRST_DATA_TRACK};

verus! {

/// One raw partition-table entry: the partition type identifier and the
/// block span, both endpoints inclusive.
pub struct GptEntry {
    pub type_guid: Vec<u8>,
    pub starting_lba: u64,
    pub ending_lba: u64,
}

/// The plain value of an entry.
pub open spec fn spec_entry(e: GptEntry) -> (Seq<u8>, u64, u64) {
    (e.type_guid@, e.starting_lba, e.ending_lba)
}

/// The plain values of a parsed entry list.
pub open spec fn spec_entries(s: Seq<GptEntry>) -> Seq<(Seq<u8>, u64, u64)> {
    s.map_values(|e: GptEntry| spec_entry(e))
}

/// What the gptman crate parses out of a table image at a given block
/// size: every entry in on-disk order, or nothing when the bytes hold no
/// readable table.
pub uninterp spec fn gpt_entries_of(header: Seq<u8>, bytes_per_block: u64) -> Option<
    Seq<(Seq<u8>, u64, u64)>,
>;

/// Little-endian 32-bit integer at `off`.
pub open spec fn le_u32_at(h: Seq<u8>, off: int) -> int {
    h[off] + h[off + 1] * 0x100 + h[off + 2] * 0x10000 + h[off + 3] * 0x1000000
}

/// Little-endian 64-bit integer at `off`.
pub open spec fn le_u64_at(h: Seq<u8>, off: int) -> int {
    le_u32_at(h, off) + le_u32_at(h, off + 4) * 0x100000000
}

/// A complete GPT header candidate stands at `off`: the signature, the
/// revision and the declared header size all match.  Only such a candidate
/// can carry gptman past its header validation into reading the entry
/// array (the checksum gate, which this test ignores, can only stop it
/// earlier, never let more through).
pub open spec fn candidate_live(h: Seq<u8>, off: int) -> bool {
    &&& 0 <= off
    &&& off + 92 <= h.len()
    &&& h[off] == 0x45 && h[off + 1] == 0x46 && h[off + 2] == 0x49 && h[off + 3] == 0x20
    &&& h[off + 4] == 0x50 && h[off + 5] == 0x41 && h[off + 6] == 0x52 && h[off + 7] == 0x54
    &&& h[off + 8] == 0 && h[off + 9] == 0 && h[off + 10] == 1 && h[off + 11] == 0
    &&& le_u32_at(h, off + 12) == 92
}

/// The entry whose 128 bytes begin at `base` marks a used partition: its
/// type identifier has a nonzero byte.
pub open spec fn entry_used_at(h: Seq<u8>, base: int) -> bool {
    exists|k: int| 0 <= k < 16 && #[trigger] h[base + k] != 0
}

/// The starting block number of the entry at `base`.
pub open spec fn entry_lba_at(h: Seq<u8>, base: int) -> int {
    le_u64_at(h, base + 32)
}

/// How many of the first `k` entries of the array at `arr` are used.
pub open spec fn used_count_upto(h: Seq<u8>, arr: int, k: int) -> int
    decreases k,
{
    if k <= 0 {
        0
    } else {
        used_count_upto(h, arr, k - 1) + if entry_used_at(h, arr + (k - 1) * 128) {
            1int
        } else {
            0int
        }
    }
}

/// gptman's partition-alignment search does not fail on this entry array:
/// it has no used entries, or some used entry starts at a nonzero block,
/// or its single used entry starts at block zero with the usable area also
/// beginning at zero (the search's own early return).  Outside these cases
/// the search unwraps an empty maximum and panics.
pub open spec fn alignment_safe(h: Seq<u8>, arr: int, n: int, first_usable: int) -> bool {
    ||| used_count_upto(h, arr, n) == 0
    ||| exists|i: int|
        0 <= i < n && #[trigger] entry_used_at(h, arr + i * 128) && entry_lba_at(h, arr + i * 128)
            != 0
    ||| (used_count_upto(h, arr, n) == 1 && first_usable == 0)
}

/// The header candidate at `off` cannot drive gptman into a panic or an
/// unbounded allocation: its entries are 128 bytes each (anything else
/// trips the entry-array checksum assertion), the entry count and array
/// stay within the image and 64-bit seek arithmetic, and whenever the
/// whole array is readable the alignment search is safe on it.
pub open spec fn candidate_safe(h: Seq<u8>, off: int, ss: int) -> bool {
    let pel = le_u64_at(h, off + 72);
    let n = le_u32_at(h, off + 80);
    let esz = le_u32_at(h, off + 84);
    let ful = le_u64_at(h, off + 40);
    n == 0 || {
        &&& esz == 128
        &&& n * 128 <= u32::MAX
        &&& n * 128 <= h.len()
        &&& pel * ss <= u64::MAX
        &&& pel * ss + n * 128 <= u64::MAX
        &&& (pel * ss + n * 128 <= h.len() ==> alignment_safe(h, pel * ss, n, ful))
    }
}

/// Where gptman looks for the backup header: the start of the last whole
/// block.
pub open spec fn backup_offset(len: int, ss: int) -> int {
    (len / ss - 1) * ss
}

/// Handing these bytes to gptman at this block size returns normally:
/// both header locations it tries — the second block, and the last whole
/// block — are either no complete header candidate (gptman then errors
/// out) or a safe one.
pub open spec fn parse_safe(h: Seq<u8>, ss: int) -> bool {
    &&& (candidate_live(h, ss) ==> candidate_safe(h, ss, ss))
    &&& (h.len() >= ss ==> (candidate_live(h, backup_offset(h.len() as int, ss))
        ==> candidate_safe(h, backup_offset(h.len() as int, ss), ss)))
}

/// Little-endian 32-bit read.
fn read_le_u32(h: &Vec<u8>, off: usize) -> (r: u32)
    requires
        off + 4 <= h@.len(),
    ensures
        r as int == le_u32_at(h@, off as int),
{
    let hl = h.len();
    proof {
        assert(off + 4 <= hl);
    }
    (h[off] as u32) + (h[off + 1] as u32) * 0x100 + (h[off + 2] as u32) * 0x10000 + (h[off + 3]
        as u32) * 0x1000000
}

/// Little-endian 64-bit read.
fn read_le_u64(h: &Vec<u8>, off: usize) -> (r: u64)
    requires
        off + 8 <= h@.len(),
    ensures
        r as int == le_u64_at(h@, off as int),
{
    let hl = h.len();
    proof {
        assert(off + 8 <= hl);
    }
    let lo = read_le_u32(h, off);
    let hi = read_le_u32(h, off + 4);
    (lo as u64) + (hi as u64) * 0x100000000
}

/// Whether the 16 identifier bytes at `base` have a nonzero byte.
fn guid_nonzero_at(h: &Vec<u8>, base: usize) -> (r: bool)
    requires
        base + 16 <= h@.len(),
    ensures
        r == entry_used_at(h@, base as int),
{
    let hl = h.len();
    proof {
        assert(base + 16 <= hl);
    }
    let mut k: usize = 0;
    let mut found = false;
    while k < 16
        invariant
            base + 16 <= h@.len(),
            h@.len() <= usize::MAX,
            k <= 16,
            found == exists|t: int| 0 <= t < k && #[trigger] h@[base + t] != 0,
        decreases 16 - k,
    {
        if h[base + k] != 0 {
            found = true;
        }
        k = k + 1;
    }
    proof {
        if found {
            let t = choose|t: int| 0 <= t < 16 && #[trigger] h@[base + t] != 0;
            assert(0 <= t < 16 && h@[base as int + t] != 0);
        } else if entry_used_at(h@, base as int) {
            let t = choose|t: int| 0 <= t < 16 && #[trigger] h@[base as int + t] != 0;
            assert(0 <= t < 16 && h@[base + t] != 0);
        }
    }
    found
}

/// Whether gptman's alignment search is safe on the entry array at `arr`.
fn alignment_safe_exec(h: &Vec<u8>, arr: u64, n: u32, first_usable: u64) -> (r: bool)
    requires
        arr as int + (n as int) * 128 <= h@.len(),
    ensures
        r == alignment_safe(h@, arr as int, n as int, first_usable as int),
{
    let hl = h.len();
    proof {
        assert(arr as int + (n as int) * 128 <= hl);
    }
    let mut i: u32 = 0;
    let mut used: u64 = 0;
    let mut nonzero = false;
    while i < n
        invariant
            arr as int + (n as int) * 128 <= h@.len(),
            h@.len() <= usize::MAX,
            i <= n,
            used <= i,
            used == used_count_upto(h@, arr as int, i as int),
            nonzero == exists|t: int|
                0 <= t < i && #[trigger] entry_used_at(h@, arr as int + t * 128) && entry_lba_at(
                    h@,
                    arr as int + t * 128,
                ) != 0,
        decreases n - i,
    {
        let base = arr as usize + (i as usize) * 128;
        let ghost pre_nonzero = nonzero;
        if guid_nonzero_at(h, base) {
            used = used + 1;
            if read_le_u64(h, base + 32) != 0 {
                nonzero = true;
            }
        }
        proof {
            assert forall|t: int|
                0 <= t < i + 1 && #[trigger] entry_used_at(h@, arr as int + t * 128) && entry_lba_at(
                    h@,
                    arr as int + t * 128,
                ) != 0 implies nonzero by {}
            if nonzero && !pre_nonzero {
                assert(entry_used_at(h@, arr as int + (i as int) * 128) && entry_lba_at(
                    h@,
                    arr as int + (i as int) * 128,
                ) != 0);
            }
        }
        i = i + 1;
    }
    proof {
        if nonzero {
            let t = choose|t: int|
                0 <= t < n && #[trigger] entry_used_at(h@, arr as int + t * 128) && entry_lba_at(
                    h@,
                    arr as int + t * 128,
                ) != 0;
            assert(0 <= t < n as int && entry_used_at(h@, arr as int + t * 128) && entry_lba_at(
                h@,
                arr as int + t * 128,
            ) != 0);
        }
    }
    used == 0 || nonzero || (used == 1 && first_usable == 0)
}

/// Whether the header candidate at `off` is absent, incomplete, or safe.
fn check_candidate(h: &Vec<u8>, off: u64, ss: u64) -> (r: bool)
    requires
        ss >= 1,
    ensures
        r == (candidate_live(h@, off as int) ==> candidate_safe(h@, off as int, ss as int)),
{
    let lenu = h.len() as u64;
    if lenu < 92 || off > lenu - 92 {
        return true;
    }
    let o = off as usize;
    if h[o] != 0x45 || h[o + 1] != 0x46 || h[o + 2] != 0x49 || h[o + 3] != 0x20 || h[o + 4] != 0x50
        || h[o + 5] != 0x41 || h[o + 6] != 0x52 || h[o + 7] != 0x54 {
        return true;
    }
    if h[o + 8] != 0 || h[o + 9] != 0 || h[o + 10] != 1 || h[o + 11] != 0 {
        return true;
    }
    if read_le_u32(h, o + 12) != 92 {
        return true;
    }
    let pel = read_le_u64(h, o + 72);
    let n = read_le_u32(h, o + 80);
    let esz = read_le_u32(h, o + 84);
    let ful = read_le_u64(h, o + 40);
    if n == 0 {
        return true;
    }
    if esz != 128 {
        return false;
    }
    let n128 = (n as u64) * 128;
    if n128 > 0xFFFF_FFFF || n128 > lenu {
        return false;
    }
    let pel_ss = match pel.checked_mul(ss) {
        Some(v) => v,
        None => return false,
    };
    let end = match pel_ss.checked_add(n128) {
        Some(v) => v,
        None => return false,
    };
    if end <= lenu {
        alignment_safe_exec(h, pel_ss, n, ful)
    } else {
        true
    }
}

/// Whether these image bytes can be handed to gptman at this block size.
/// The check reads the two header locations gptman tries and rejects any
/// complete candidate whose figures would drive gptman into a panic or an
/// unbounded allocation; every valid table passes.
pub fn gpt_parse_is_safe(header: &Vec<u8>, bytes_per_block: u64) -> (r: bool)
    requires
        bytes_per_block >= 1,
    ensures
        r == parse_safe(header@, bytes_per_block as int),
{
    let ok_primary = check_candidate(header, bytes_per_block, bytes_per_block);
    let lenu = header.len() as u64;
    let ok_backup = if lenu >= bytes_per_block {
        let q = lenu / bytes_per_block;
        proof {
            vstd::arithmetic::div_mod::lemma_fundamental_div_mod(
                lenu as int,
                bytes_per_block as int,
            );
            vstd::arithmetic::div_mod::lemma_mod_bound(lenu as int, bytes_per_block as int);
            assert(q as int * bytes_per_block as int <= lenu);
            assert(q >= 1) by (nonlinear_arith)
                requires
                    lenu >= bytes_per_block >= 1,
                    q == lenu / bytes_per_block,
            ;
            vstd::arithmetic::mul::lemma_mul_inequality(1, q as int, bytes_per_block as int);
        }
        let back = q * bytes_per_block - bytes_per_block;
        proof {
            assert((q as int - 1) * (bytes_per_block as int) == q as int * bytes_per_block as int
                - bytes_per_block as int) by (nonlinear_arith);
            assert(back as int == backup_offset(header@.len() as int, bytes_per_block as int));
        }
        check_candidate(header, back, bytes_per_block)
    } else {
        true
    };
    ok_primary && ok_backup
}

#[verifier::external_type_specification]
#[verifier::external_body]
pub struct ExGptmanError(gptman::Error);

/// Relies on gptman::GPT::read_from to parse the GPT embedded in the
/// leading bytes of the image (trying the primary header, then the backup)
/// and on GPT::iter for the entries in on-disk order.  The outcome is a
/// function of the bytes and the block size alone.  A zero block size is
/// excluded: gptman divides by it while locating the backup header.
/// `parse_safe` is required because gptman does not return normally on
/// every byte string: its entry-array checksum asserts that entries are
/// 128 bytes, its alignment search unwraps a maximum that an all-zero set
/// of starting blocks leaves empty, its seek arithmetic can overflow, and
/// its entry-array allocation is sized from an unchecked count.
#[verifier::external_body]
fn read_gpt_entries(header: &Vec<u8>, bytes_per_block: u64) -> (r: Result<
    Vec<GptEntry>,
    gptman::Error,
>)
    requires
        bytes_per_block > 0,
        parse_safe(header@, bytes_per_block as int),
    ensures
        r matches Ok(v) ==> gpt_entries_of(header@, bytes_per_block) == Some(spec_entries(v@)),
        r is Err ==> gpt_entries_of(header@, bytes_per_block) is None,
{
    let gpt = gptman::GPT::read_from(
        &mut std::io::Cursor::new(header.as_slice()),
        bytes_per_block,
    )?;
    Ok(
        gpt.iter().map(
            |(_, p)| GptEntry {
                type_guid: p.partition_type_guid.to_vec(),
                starting_lba: p.starting_lba,
                ending_lba: p.ending_lba,
            },
        ).collect(),
    )
}

/// An entry is used when its partition type identifier has any nonzero
/// byte.
pub open spec fn entry_is_used(e: (Seq<u8>, u64, u64)) -> bool {
    exists|i: int| 0 <= i < e.0.len() && e.0[i] != 0
}

/// The used entries' block spans, in on-disk order.
pub open spec fn used_spans(entries: Seq<(Seq<u8>, u64, u64)>) -> Seq<PartitionSpan>
    decreases entries.len(),
{
    if entries.len() == 0 {
        Seq::empty()
    } else {
        used_spans(entries.drop_last()) + (if entry_is_used(entries.last()) {
            seq![
                PartitionSpan {
                    starting_block: entries.last().1,
                    ending_block: entries.last().2,
                },
            ]
        } else {
            Seq::empty()
        })
    }
}

/// Whether this entry marks a used partition.
fn entry_used_exec(e: &GptEntry) -> (r: bool)
    ensures
        r == entry_is_used(spec_entry(*e)),
{
    let mut i: usize = 0;
    let mut found = false;
    while i < e.type_guid.len()
        invariant
            i <= e.type_guid@.len(),
            found == exists|k: int| 0 <= k < i && e.type_guid@[k] != 0,
        decreases e.type_guid@.len() - i,
    {
        if e.type_guid[i] != 0 {
            found = true;
        }
        i = i + 1;
    }
    proof {
        if found {
            let k = choose|k: int| 0 <= k < i && e.type_guid@[k] != 0;
            assert(0 <= k < spec_entry(*e).0.len() && spec_entry(*e).0[k] != 0);
        } else if entry_is_used(spec_entry(*e)) {
            let k = choose|k: int|
                0 <= k < spec_entry(*e).0.len() && spec_entry(*e).0[k] != 0;
            assert(0 <= k < i && e.type_guid@[k] != 0);
        }
    }
    found
}

/// Collect the block spans of the used partitions, in on-disk order.
fn used_partitions(entries: &Vec<GptEntry>) -> (r: Vec<PartitionSpan>)
    ensures
        r@ == used_spans(spec_entries(entries@)),
{
    let mut r: Vec<PartitionSpan> = Vec::new();
    let mut i: usize = 0;
    while i < entries.len()
        invariant
            i <= entries@.len(),
            r@ == used_spans(spec_entries(entries@).take(i as int)),
        decreases entries@.len() - i,
    {
        let ghost prefix = spec_entries(entries@).take(i as int + 1);
        proof {
            assert(prefix.drop_last() =~= spec_entries(entries@).take(i as int));
            assert(prefix.last() == spec_entry(entries@[i as int]));
        }
        let e = &entries[i];
        if entry_used_exec(e) {
            r.push(PartitionSpan { starting_block: e.starting_lba, ending_block: e.ending_lba });
        }
        proof {
            if entry_is_used(spec_entry(entries@[i as int])) {
                assert(r@ =~= used_spans(prefix));
            } else {
                assert(r@ =~= used_spans(prefix));
            }
        }
        i = i + 1;
    }
    proof {
        assert(spec_entries(entries@).take(entries@.len() as int) =~= spec_entries(entries@));
    }
    r
}

/// Parse the table embedded in the image header and compute the copy plan
/// for its used partitions against the device geometry.
///
/// Bytes that fail [`parse_safe`] — a header candidate whose figures the
/// parsing library cannot be trusted with — are malformed, as is an
/// unreadable table; a readable one with no used entries has no
/// partitions to install; otherwise the plan is exactly
/// [`compute_plan`]'s over the used spans in on-disk order.
pub fn plan_from_header(header: &Vec<u8>, geo: Geometry) -> (r: Result<Plan, DasdError>)
    requires
        geo.wf(),
    ensures
        !parse_safe(header@, geo.bytes_per_block as int) ==> r == Err::<Plan, DasdError>(
            DasdError::PartitionTable,
        ),
        parse_safe(header@, geo.bytes_per_block as int) && gpt_entries_of(
            header@,
            geo.bytes_per_block,
        ) is None ==> r == Err::<Plan, DasdError>(DasdError::PartitionTable),
        gpt_entries_of(header@, geo.bytes_per_block) matches Some(entries) ==> parse_safe(
            header@,
            geo.bytes_per_block as int,
        ) ==> {
            let spans = used_spans(entries);
            &&& (spans.len() == 0 ==> r == Err::<Plan, DasdError>(DasdError::NoPartitions))
            &&& (spans.len() > 0 && !plan_ok(spans, geo, FIRST_DATA_TRACK as int) ==> r == Err::<
                Plan,
                DasdError,
            >(DasdError::PartitionTable))
            &&& (spans.len() > 0 && plan_ok(spans, geo, FIRST_DATA_TRACK as int) ==> (r matches Ok(
                plan,
            ) && plan.descriptors@ == plan_descriptors(spans, geo, FIRST_DATA_TRACK as int)
                && plan.ranges@.to_multiset() == plan_ranges(
                spans,
                geo,
                FIRST_DATA_TRACK as int,
            ).to_multiset() && sorted_by(plan.ranges@, range_order()) && (sorted_by(
                plan_ranges(spans, geo, FIRST_DATA_TRACK as int),
                range_order(),
            ) ==> plan.ranges@ == plan_ranges(spans, geo, FIRST_DATA_TRACK as int))))
        },
{
    if !gpt_parse_is_safe(header, geo.bytes_per_block) {
        return Err(DasdError::PartitionTable);
    }
    let entries = match read_gpt_entries(header, geo.bytes_per_block) {
        Ok(v) => v,
        Err(_) => {
            return Err(DasdError::PartitionTable);
        },
    };
    let spans = used_partitions(&entries);
    compute_plan(&spans, geo)
}

} // verus!
