//! Convenience type for converting between memory units.

use vstd::prelude::*;

verus! {

pub const KIB_SIZE: usize = 1024;
pub const MIB_SIZE: usize = 1024 * 1024;
pub const GIB_SIZE: usize = 1024 * 1024 * 1024;
pub const TIB_SIZE: u64 = 1024 * 1024 * 1024 * 1024;

/// A size in bytes, constructed from any of the supported units.
#[derive(Clone, Copy, PartialEq, Eq, Structural, Debug)]
pub struct MemorySize {
    pub bytes: usize,
}

impl MemorySize {
    /// The number of bytes this size stands for.
    pub open spec fn spec_bytes(self) -> usize {
        self.bytes
    }

    /// Constructs a new MemorySize from a given number of bytes.
    pub fn new(bytes: usize) -> (r: Self)
        ensures
            r.spec_bytes() == bytes,
    {
        Self { bytes }
    }

    pub fn from_kibibytes(kibibytes: usize) -> (r: Self)
        requires
            kibibytes * KIB_SIZE <= usize::MAX,
        ensures
            r.spec_bytes() == kibibytes * KIB_SIZE,
    {
        Self { bytes: kibibytes * KIB_SIZE }
    }

    pub fn from_mebibytes(mebibytes: usize) -> (r: Self)
        requires
            mebibytes * MIB_SIZE <= usize::MAX,
        ensures
            r.spec_bytes() == mebibytes * MIB_SIZE,
    {
        Self { bytes: mebibytes * MIB_SIZE }
    }

    pub fn from_gibibytes(gibibytes: usize) -> (r: Self)
        requires
            gibibytes * GIB_SIZE <= usize::MAX,
        ensures
            r.spec_bytes() == gibibytes * GIB_SIZE,
    {
        Self { bytes: gibibytes * GIB_SIZE }
    }

    pub fn from_tebibytes(tebibytes: usize) -> (r: Self)
        requires
            tebibytes * TIB_SIZE <= usize::MAX,
        ensures
            r.spec_bytes() == tebibytes * TIB_SIZE,
    {
        Self { bytes: ((tebibytes as u64) * TIB_SIZE) as usize }
    }

    pub fn as_bytes(&self) -> (r: usize)
        ensures
            r == self.spec_bytes(),
    {
        self.bytes
    }
}

} // verus!
