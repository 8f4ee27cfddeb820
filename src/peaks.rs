//! Peak records, with floating-point fields held as IEEE-754 bit patterns.
use vstd::prelude::*;

verus! {

/// A picked peak: an m/z coordinate, an intensity and its position in its list.
/// `mz` holds the bits of a 64-bit float, `intensity` those of a 32-bit float.
#[derive(Debug, Clone, Copy, PartialEq, Eq, Structural)]
pub struct CentroidPeak {
    pub mz: u64,
    pub intensity: u32,
    pub index: u32,
}

/// A peak with a known charge state. It is held at its m/z coordinate (the
/// bits of a 64-bit float): its neutral mass follows from `mz` and `charge`
/// by floating-point arithmetic, which callers apply at the edge.
#[derive(Debug, Clone, Copy, PartialEq, Eq, Structural)]
pub struct DeconvolutedPeak {
    pub mz: u64,
    pub intensity: u32,
    pub charge: i32,
    pub index: u32,
}

impl CentroidPeak {
    pub fn new(mz: u64, intensity: u32, index: u32) -> (r: CentroidPeak)
        ensures
            r == (CentroidPeak { mz, intensity, index }),
    {
        CentroidPeak { mz, intensity, index }
    }
}

impl DeconvolutedPeak {
    pub fn new(mz: u64, intensity: u32, charge: i32, index: u32) -> (r: DeconvolutedPeak)
        ensures
            r == (DeconvolutedPeak { mz, intensity, charge, index }),
    {
        DeconvolutedPeak { mz, intensity, charge, index }
    }
}

/// Each peak's index is its position in the list.
pub open spec fn centroids_indexed(peaks: Seq<CentroidPeak>) -> bool {
    forall|i: int| 0 <= i < peaks.len() ==> #[trigger] peaks[i].index == i as u32
}

/// Each peak's index is its position in the list.
pub open spec fn deconvoluted_indexed(peaks: Seq<DeconvolutedPeak>) -> bool {
    forall|i: int| 0 <= i < peaks.len() ==> #[trigger] peaks[i].index == i as u32
}

} // verus!
