//! The raw building blocks of the cache file format: the header, the
//! fixed-size records, the sentinel values and the alignment rule.

use vstd::prelude::*;

verus! {

use crate::source::SourcePosition;

/// The magic file preamble to identify cache files: the bytes `SMCA` read as
/// a little-endian `u32`.
pub const SMCACHE_MAGIC: u32 = 0x41434D53;

/// The byte-flipped magic, which indicates an endianness mismatch.
pub const SMCACHE_MAGIC_FLIPPED: u32 = 0x534D4341;

/// The current format version.
pub const SMCACHE_VERSION: u32 = 1;

/// Sentinel value used to denote an unknown file.
pub const NO_FILE_SENTINEL: u32 = u32::MAX;

/// Sentinel value used to denote an unknown/global scope.
pub const GLOBAL_SCOPE_SENTINEL: u32 = u32::MAX;

/// Sentinel value used to denote an anonymous function scope.
pub const ANONYMOUS_SCOPE_SENTINEL: u32 = u32::MAX - 1;

/// The cache binary header.
#[derive(Debug, Clone, Copy, PartialEq, Eq)]
pub struct Header {
    /// The file magic representing the file format and endianness.
    pub magic: u32,
    /// The format version.
    pub version: u32,
    /// The number of mappings covered by this file.
    pub num_mappings: u32,
    /// The total number of bytes in the string table.
    pub string_bytes: u32,
    /// Some reserved space in the header for future extensions that would
    /// not require a completely new parsing method.
    pub _reserved: [u8; 16],
}

/// A minified source position of line/column.
#[derive(Clone, Copy, Debug, PartialEq, Eq, PartialOrd, Ord, Structural)]
pub struct MinifiedSourcePosition {
    /// Zero-based line in the minified source.
    pub line: u32,
    /// Zero-based column in UTF-16 code units.
    pub column: u32,
}

impl core::convert::From<SourcePosition> for MinifiedSourcePosition {
    fn from(sp: SourcePosition) -> (r: Self)
        ensures
            r.line == sp.line && r.column == sp.column,
    {
        MinifiedSourcePosition { line: sp.line, column: sp.column }
    }
}

impl vstd::std_specs::convert::FromSpecImpl<SourcePosition> for MinifiedSourcePosition {
    open spec fn obeys_from_spec() -> bool {
        true
    }

    open spec fn from_spec(sp: SourcePosition) -> MinifiedSourcePosition {
        MinifiedSourcePosition { line: sp.line, column: sp.column }
    }
}

/// The original source location: file, line and scope.
#[derive(Clone, Copy, Debug, PartialEq, Eq, Structural)]
pub struct OriginalSourceLocation {
    /// Offset of the file name in the string table, or [`NO_FILE_SENTINEL`].
    pub file_idx: u32,
    /// Zero-based line in the original source.
    pub line: u32,
    /// Offset of the scope name in the string table, or one of the scope
    /// sentinels.
    pub scope_idx: u32,
}

/// Returns the amount left to add to `to_align` to reach the next multiple
/// of eight, or zero if it already is one.
pub fn align_to_eight(to_align: usize) -> (r: usize)
    ensures
        r < 8,
        (to_align + r) % 8 == 0,
{
    let remainder = to_align % 8;
    if remainder == 0 {
        remainder
    } else {
        8 - remainder
    }
}

} // verus!
