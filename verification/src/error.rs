//! Why a conversion was refused.

use vstd::prelude::*;

verus! {

/// The ways in which turning an ELF file into a flashable image fails.
#[derive(Clone, Copy, Debug, PartialEq, Eq, Structural)]
pub enum UtilError {
    /// The bytes are not a well-formed ELF file, or a segment names data
    /// that lies outside the file.
    MalformedElf,
    /// No segment of the file is eligible for flashing.
    NoLoadableSegments,
    /// The segment at `index` (among the eligible ones) starts at `address`,
    /// before the end of the one that precedes it.
    NegativeGap { index: usize, previous_end: u64, address: u64 },
    /// The segment at `index` (among the eligible ones), `size` bytes at
    /// `address`, does not fit a 32-bit image: the image would start above
    /// the 32-bit range, or the segment would end more than `u32::MAX` bytes
    /// after the image's start.
    AddressOverflow { index: usize, address: u64, size: u64 },
}

} // verus!
