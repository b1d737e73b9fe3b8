//! Interpreting the textual output of the device-status query and the
//! partition-table probe, and building the status attribute path.

use vstd::prelude::*;
use vstd::string::StrSliceExecFns;
use vstd::string::StringExecFns;

verus! {

/// `needle` occurs in `hay` starting at position `i`.
pub open spec fn match_at(hay: Seq<char>, needle: Seq<char>, i: int) -> bool {
    &&& 0 <= i
    &&& i + needle.len() <= hay.len()
    &&& hay.subrange(i, i + needle.len()) == needle
}

/// `needle` occurs somewhere in `hay`.
pub open spec fn contains_seq(hay: Seq<char>, needle: Seq<char>) -> bool {
    exists|i: int| match_at(hay, needle, i)
}

/// Whether `hay` contains `needle` as a contiguous run of characters.
pub fn contains_str(hay: &str, needle: &str) -> (r: bool)
    ensures
        r == contains_seq(hay@, needle@),
{
    let hlen = hay.unicode_len();
    let nlen = needle.unicode_len();
    if nlen > hlen {
        proof {
            assert forall|i: int| !match_at(hay@, needle@, i) by {}
        }
        return false;
    }
    let mut i: usize = 0;
    while i <= hlen - nlen
        invariant
            nlen == needle@.len(),
            hlen == hay@.len(),
            nlen <= hlen,
            i <= hlen - nlen + 1,
            forall|k: int| 0 <= k < i ==> !match_at(hay@, needle@, k),
        decreases hlen - nlen + 1 - i,
    {
        let mut j: usize = 0;
        let mut matched = true;
        while j < nlen && matched
            invariant
                nlen == needle@.len(),
                hlen == hay@.len(),
                nlen <= hlen,
                i <= hlen - nlen,
                j <= nlen,
                matched ==> forall|t: int| 0 <= t < j ==> hay@[i + t] == needle@[t],
                !matched ==> j < nlen && hay@[i + j] != needle@[j as int],
            decreases nlen - j + (if matched { 1int } else { 0int }),
        {
            if hay.get_char(i + j) != needle.get_char(j) {
                matched = false;
            } else {
                j = j + 1;
            }
        }
        if matched {
            proof {
                assert(hay@.subrange(i as int, i + needle@.len()) =~= needle@);
                assert(match_at(hay@, needle@, i as int));
            }
            return true;
        }
        proof {
            assert forall|k: int| 0 <= k < i + 1 implies !match_at(hay@, needle@, k) by {
                if k == i {
                    if match_at(hay@, needle@, k) {
                        assert(hay@.subrange(k, k + needle@.len())[j as int] == needle@[j as int]);
                    }
                }
            }
        }
        i = i + 1;
    }
    proof {
        assert forall|k: int| !match_at(hay@, needle@, k) by {
            if 0 <= k && k + needle@.len() <= hay@.len() {
                assert(k < i);
            }
        }
    }
    false
}

/// The marker whose presence in the device's status attribute means the
/// device is not yet low-level formatted.
pub open spec fn unformatted_marker() -> Seq<char> {
    "unformatted"@
}

/// Interpret the device's status attribute: the device counts as formatted
/// exactly when the unformatted marker is absent.
pub fn status_reports_formatted(status: &str) -> (r: bool)
    ensures
        r == !contains_seq(status@, unformatted_marker()),
{
    let found = contains_str(status, "unformatted");
    !found
}

/// The diagnostic the partition-table probe prints when the disk label
/// block is invalid.
pub open spec fn invalid_label_marker() -> Seq<char> {
    "disk label block is invalid"@
}

/// Interpret the partition-table probe's output: the label is invalid
/// exactly when the diagnostic appears.
pub fn probe_reports_invalid_label(output: &str) -> (r: bool)
    ensures
        r == contains_seq(output@, invalid_label_marker()),
{
    contains_str(output, "disk label block is invalid")
}

/// Whitespace stripped from the end of a tool's output line.
pub open spec fn is_line_ws(c: char) -> bool {
    c == ' ' || c == '\t' || c == '\n' || c == '\r'
}

/// `s` with every trailing whitespace character removed.
pub open spec fn trimmed_end(s: Seq<char>) -> Seq<char>
    decreases s.len(),
{
    if s.len() == 0 {
        s
    } else if is_line_ws(s.last()) {
        trimmed_end(s.drop_last())
    } else {
        s
    }
}

/// The bus identifier as printed by the device-lookup tool: its output
/// with the trailing newline and any other trailing whitespace removed.
pub fn parse_bus_id(output: &str) -> (r: String)
    ensures
        r@ == trimmed_end(output@),
{
    let len = output.unicode_len();
    let mut cut = len;
    let mut done = false;
    proof {
        assert(output@.subrange(0, len as int) =~= output@);
    }
    while cut > 0 && !done
        invariant
            cut <= len,
            len == output@.len(),
            trimmed_end(output@) == trimmed_end(output@.subrange(0, cut as int)),
            done ==> cut > 0 && !is_line_ws(output@[cut - 1]),
        decreases cut + (if done { 0int } else { 1int }),
    {
        let c = output.get_char(cut - 1);
        if c == ' ' || c == '\t' || c == '\n' || c == '\r' {
            proof {
                let part = output@.subrange(0, cut as int);
                assert(part.last() == output@[cut - 1]);
                assert(part.drop_last() =~= output@.subrange(0, cut - 1));
            }
            cut = cut - 1;
        } else {
            done = true;
        }
    }
    proof {
        if cut == 0 {
            assert(trimmed_end(output@.subrange(0, 0)) =~= output@.subrange(0, 0));
        } else {
            assert(trimmed_end(output@.subrange(0, cut as int)) =~= output@.subrange(
                0,
                cut as int,
            ));
        }
    }
    let trimmed = output.substring_char(0, cut);
    String::from_str(trimmed)
}

/// The sysfs attribute that reports a device's formatted status, for the
/// device with the given bus identifier.
pub open spec fn status_attribute_path(bus_id: Seq<char>) -> Seq<char> {
    "/sys/bus/ccw/devices/"@ + bus_id + "/status"@
}

/// Build the path of the status attribute for a bus identifier.
pub fn ccw_status_path(bus_id: &str) -> (p: String)
    ensures
        p@ == status_attribute_path(bus_id@),
{
    let mut p = String::from_str("/sys/bus/ccw/devices/");
    p.append(bus_id);
    p.append("/status");
    proof {
        assert(p@ =~= status_attribute_path(bus_id@));
    }
    p
}

} // verus!
