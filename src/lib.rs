//! Reader for compound files (OLE structured storage): header, allocation
//! tables, directory tree and stream contents, all checked against their
//! contracts.
use vstd::prelude::*;

pub mod bytes;
pub mod data_structures;
pub mod header;
pub mod chain;
pub mod sector;
pub mod directory;
pub mod tree;
pub mod compound;
pub mod text;

verus! {

/// Largest ordinary sector number.
pub const MAXREGSECT: u32 = 0xFFFF_FFFA;
/// Marks a sector that holds part of the DIFAT.
pub const DIFSECT: u32 = 0xFFFF_FFFC;
/// Marks a sector that holds part of the FAT.
pub const FATSECT: u32 = 0xFFFF_FFFD;
/// Ends a chain of sectors.
pub const ENDOFCHAIN: u32 = 0xFFFF_FFFE;
/// Marks an unallocated sector.
pub const FREESECT: u32 = 0xFFFF_FFFF;
/// "No entry" in a sibling or child link of a directory entry.
pub const NOSTREAM: u32 = 0xFFFF_FFFF;
/// Logical size of the file header.
pub const HEADER_SIZE: usize = 512;
/// Size of one directory entry record.
pub const DIR_ENTRY_SIZE: usize = 128;
/// Size of one mini-sector.
pub const MINI_SECTOR_SIZE: usize = 64;
/// Default size below which a stream lives in the mini-stream.
pub const DEFAULT_MINI_CUTOFF: u32 = 4096;

/// Why a header was refused.
#[derive(Debug, Clone, Copy, PartialEq, Eq, Structural)]
pub enum HeaderProblem {
    /// Fewer bytes than the header occupies.
    TooShort,
    /// The first eight bytes are not the signature.
    Signature,
    /// Major version and sector shift do not form a known pair.
    SectorShift,
    /// Mini-sector shift other than 6.
    MiniSectorShift,
}

/// Failures of the reader.
#[derive(Debug, Clone, Copy, PartialEq, Eq, Structural)]
pub enum CfbError {
    /// Fewer than eight bytes were available to probe.
    ShortRead,
    /// The header cannot be used.
    InvalidHeader(HeaderProblem),
    /// A sector or mini-sector lies beyond the end of its buffer.
    OutOfRange,
    /// A chain loops, leaves its table or is too short for its stream.
    CorruptChain,
    /// No entry answers to the path.
    NotFound,
    /// A directory record cannot be decoded.
    InvalidEntry,
}

/// Checks a decoded structure for policy violations that do not stop reading.
pub trait Validation {
    /// The policy violations that `validate` reports.
    spec fn spec_validate(&self) -> Seq<header::Diagnostic>;

    fn validate(&self) -> (r: Vec<header::Diagnostic>)
        ensures
            r@ == self.spec_validate(),
    ;
}

} // verus!
