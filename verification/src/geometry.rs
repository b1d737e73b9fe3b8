//! Device track geometry and its validation.

use vstd::prelude::*;

use crate::errors::DasdError;

verus! {

/// Track geometry of the target device: how many bytes one block holds and
/// how many blocks one track holds.  Values are only constructed through
/// [`Geometry::new`], which rejects unusable figures, so a `Geometry` in the
/// rest of the library always satisfies [`Geometry::wf`].
#[derive(Debug, Clone, Copy, PartialEq, Eq, Structural)]
pub struct Geometry {
    pub bytes_per_block: u64,
    pub blocks_per_track: u64,
}

impl Geometry {
    /// Both figures are positive and one track's byte count is representable.
    pub open spec fn wf(self) -> bool {
        &&& self.bytes_per_block > 0
        &&& self.blocks_per_track > 0
        &&& self.blocks_per_track * self.bytes_per_block <= u64::MAX
    }

    /// Bytes held by one whole track.
    pub open spec fn track_bytes(self) -> int {
        self.blocks_per_track * self.bytes_per_block
    }

    /// Validate reported geometry.  A zero in either figure means the device
    /// cannot be planned against; a track too large to measure in bytes is
    /// rejected for the same reason.
    pub fn new(bytes_per_block: u64, blocks_per_track: u64) -> (r: Result<Geometry, DasdError>)
        ensures
            r is Ok <==> (bytes_per_block > 0 && blocks_per_track > 0
                && blocks_per_track * bytes_per_block <= u64::MAX),
            r matches Ok(g) ==> g == (Geometry { bytes_per_block, blocks_per_track }) && g.wf(),
            r is Err ==> r == Err::<Geometry, DasdError>(DasdError::Geometry),
    {
        if bytes_per_block == 0 || blocks_per_track == 0 {
            return Err(DasdError::Geometry);
        }
        match blocks_per_track.checked_mul(bytes_per_block) {
            Some(_) => Ok(Geometry { bytes_per_block, blocks_per_track }),
            None => Err(DasdError::Geometry),
        }
    }
}

/// Validate the sectors-per-track figure reported by the hardware geometry
/// query.  A device that reports zero geometry cannot be planned against.
pub fn validate_sectors_per_track(sectors: u8) -> (r: Result<u8, DasdError>)
    ensures
        sectors > 0 ==> r == Ok::<u8, DasdError>(sectors),
        sectors == 0 ==> r == Err::<u8, DasdError>(DasdError::Geometry),
{
    if sectors == 0 {
        Err(DasdError::Geometry)
    } else {
        Ok(sectors)
    }
}

} // verus!
