//! Rendering track descriptors as the textual records the partitioning
//! tool reads from its standard input, one per line.

use vstd::prelude::*;
use vstd::string::StringExecFns;

use crate::errors::DasdError;
use crate::format::MAX_PARTITIONS;
use crate::plan::{TrackDescriptor, TrackEnd};

verus! {

/// The decimal digit character for `d`.
pub open spec fn digit_char(d: int) -> char {
    if d == 0 {
        '0'
    } else if d == 1 {
        '1'
    } else if d == 2 {
        '2'
    } else if d == 3 {
        '3'
    } else if d == 4 {
        '4'
    } else if d == 5 {
        '5'
    } else if d == 6 {
        '6'
    } else if d == 7 {
        '7'
    } else if d == 8 {
        '8'
    } else {
        '9'
    }
}

/// The decimal rendering of `n`, most significant digit first, no sign and
/// no leading zeros (a single zero for zero).
pub open spec fn dec_of(n: int) -> Seq<char>
    decreases n,
{
    if n < 10 {
        seq![digit_char(n)]
    } else {
        dec_of(n / 10).push(digit_char(n % 10))
    }
}

/// One decimal digit as a string.
fn digit_string(d: u64) -> (s: String)
    requires
        d < 10,
    ensures
        s@ == seq![digit_char(d as int)],
{
    proof {
        reveal_strlit("0");
        reveal_strlit("1");
        reveal_strlit("2");
        reveal_strlit("3");
        reveal_strlit("4");
        reveal_strlit("5");
        reveal_strlit("6");
        reveal_strlit("7");
        reveal_strlit("8");
        reveal_strlit("9");
    }
    let s = if d == 0 {
        "0"
    } else if d == 1 {
        "1"
    } else if d == 2 {
        "2"
    } else if d == 3 {
        "3"
    } else if d == 4 {
        "4"
    } else if d == 5 {
        "5"
    } else if d == 6 {
        "6"
    } else if d == 7 {
        "7"
    } else if d == 8 {
        "8"
    } else {
        "9"
    };
    proof {
        assert(s@ =~= seq![digit_char(d as int)]);
    }
    String::from_str(s)
}

/// Render `n` in decimal.
pub fn dec_string(n: u64) -> (s: String)
    ensures
        s@ == dec_of(n as int),
    decreases n,
{
    if n < 10 {
        digit_string(n)
    } else {
        let mut s = dec_string(n / 10);
        let d = digit_string(n % 10);
        s.append(d.as_str());
        proof {
            assert(s@ =~= dec_of(n as int));
        }
        s
    }
}

/// The textual record for one track descriptor: start track, end track or
/// the sentinel extending to the end of the device, and the native
/// partition type.
pub open spec fn descriptor_line(d: TrackDescriptor) -> Seq<char> {
    "["@ + dec_of(d.start_track as int) + ", "@ + (match d.end {
        TrackEnd::Track(e) => dec_of(e as int),
        TrackEnd::Last => "last"@,
    }) + ", native]"@
}

/// Render one descriptor as its textual record.
pub fn render_descriptor(d: &TrackDescriptor) -> (s: String)
    ensures
        s@ == descriptor_line(*d),
{
    let mut s = String::from_str("[");
    let start = dec_string(d.start_track);
    s.append(start.as_str());
    s.append(", ");
    match d.end {
        TrackEnd::Track(e) => {
            let end = dec_string(e);
            s.append(end.as_str());
        },
        TrackEnd::Last => {
            s.append("last");
        },
    }
    s.append(", native]");
    proof {
        assert(s@ =~= descriptor_line(*d));
    }
    s
}

/// The config body fed to the partitioning tool: every descriptor's record
/// in order, each followed by a newline.
pub open spec fn config_text(descs: Seq<TrackDescriptor>) -> Seq<char>
    decreases descs.len(),
{
    if descs.len() == 0 {
        Seq::empty()
    } else {
        descriptor_line(descs[0]) + "\n"@ + config_text(descs.drop_first())
    }
}

/// Build the newline-terminated config body for the partitioning tool.
/// More records than the tool honors are rejected before any tool is
/// invoked: the tool would silently apply only the first
/// [`MAX_PARTITIONS`] and the layout would be truncated.
pub fn build_partition_config(descs: &Vec<TrackDescriptor>) -> (r: Result<String, DasdError>)
    ensures
        descs@.len() > MAX_PARTITIONS ==> r == Err::<String, DasdError>(
            DasdError::ConfigLimit { requested: descs@.len() as usize },
        ),
        descs@.len() <= MAX_PARTITIONS ==> (r matches Ok(s) && s@ == config_text(descs@)),
{
    if descs.len() > MAX_PARTITIONS {
        return Err(DasdError::ConfigLimit { requested: descs.len() });
    }
    let mut s = String::new();
    let mut i: usize = 0;
    proof {
        assert(descs@.skip(0) =~= descs@);
    }
    while i < descs.len()
        invariant
            i <= descs@.len(),
            s@ + config_text(descs@.skip(i as int)) == config_text(descs@),
        decreases descs@.len() - i,
    {
        let ghost tail = descs@.skip(i as int);
        proof {
            assert(tail[0] == descs@[i as int]);
            assert(tail.drop_first() =~= descs@.skip(i as int + 1));
        }
        let line = render_descriptor(&descs[i]);
        s.append(line.as_str());
        s.append("\n");
        proof {
            assert(s@ + config_text(descs@.skip(i as int + 1)) =~= config_text(descs@));
        }
        i = i + 1;
    }
    proof {
        assert(descs@.skip(descs@.len() as int) =~= Seq::<TrackDescriptor>::empty());
        assert(s@ + Seq::<char>::empty() =~= s@);
    }
    Ok(s)
}

} // verus!
