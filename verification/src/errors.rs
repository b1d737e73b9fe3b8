//! Error taxonomy for planning, copying and formatting.

use vstd::prelude::*;

verus! {

/// Everything that can go wrong while preparing a device or installing an
/// image onto it.  Each variant names one failure class; functions state in
/// their contracts exactly which variant they return and when.
#[derive(Debug, Clone, Copy, PartialEq, Eq, Structural)]
pub enum DasdError {
    /// The device reported unusable geometry (zero sectors per track or a
    /// zero block size), or the geometry query itself failed.
    Geometry,
    /// The partition table contains no used partitions.
    NoPartitions,
    /// The partition table could not be parsed, or its entries do not
    /// describe representable byte ranges.
    PartitionTable,
    /// A copy range begins before the current stream cursor: the plan would
    /// revisit stream data that has already been consumed.
    PlanConsistency { in_offset: u64, cursor: u64 },
    /// The source stream ended before delivering all bytes the plan claims.
    TruncatedStream,
    /// Flushing buffered destination writes failed.
    Flush,
    /// More partitions were requested than the partitioning tool honors.
    ConfigLimit { requested: usize },
    /// An external tool could not be spawned, exited unsuccessfully, or
    /// produced undecodable output.
    ToolInvocation,
    /// A generic read, write, seek or open failure.
    Io,
}

} // verus!
