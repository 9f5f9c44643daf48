//! The fixed-layout file header: decoding, validation and diagnostics.
use vstd::prelude::*;
use crate::bytes::{u16_le, u32_le, read_u16_le, read_u32_le};
use crate::data_structures::CLSID;
use crate::{CfbError, HeaderProblem, Validation, HEADER_SIZE};

verus! {

/// True when `b` starts with the compound file signature.
pub open spec fn has_magic(b: Seq<u8>) -> bool {
    b.len() >= 8 && b[0] == 0xD0u8 && b[1] == 0xCFu8 && b[2] == 0x11u8 && b[3] == 0xE0u8
        && b[4] == 0xA1u8 && b[5] == 0xB1u8 && b[6] == 0x1Au8 && b[7] == 0xE1u8
}

/// Probes the first eight bytes for the signature without decoding anything else.
pub fn is_ole(b: &[u8]) -> (r: Result<bool, CfbError>)
    ensures
        b@.len() < 8 ==> r == Err::<bool, CfbError>(CfbError::ShortRead),
        b@.len() >= 8 ==> r == Ok::<bool, CfbError>(has_magic(b@)),
{
    if b.len() < 8 {
        return Err(CfbError::ShortRead);
    }
    Ok(b[0] == 0xD0 && b[1] == 0xCF && b[2] == 0x11 && b[3] == 0xE0 && b[4] == 0xA1 && b[5]
        == 0xB1 && b[6] == 0x1A && b[7] == 0xE1)
}

/// A policy violation in a header that is still usable.
#[derive(Debug, Clone, Copy, PartialEq, Eq, Structural)]
pub enum Diagnostic {
    /// The header class id is not all zero.
    ClsidNotNull,
    /// The minor version is not 0x3E.
    MinorVersion,
    /// The byte-order mark is not 0xFFFE.
    ByteOrder,
    /// The six reserved bytes are not all zero.
    ReservedNotZero,
    /// A version 3 header counts directory sectors, which must be zero there.
    DirSectorsInVersion3,
    /// A version 4 header sector holds non-zero bytes past its first 512.
    PaddingNotZero,
    /// A sibling tree does not keep its names in order.
    SiblingOrder,
}

/// The decoded file header.
pub struct OleFileHeader {
    pub header_signature: [u8; 8],
    pub header_clsid: [u8; 16],
    pub minor_version: u16,
    pub major_version: u16,
    pub byte_order: u16,
    pub sector_shift: u16,
    pub mini_sector_shift: u16,
    pub reserved: [u8; 6],
    pub num_of_dir_sectors: u32,
    pub num_of_fat_sectors: u32,
    pub first_dir_sector_location: u32,
    pub transaction_sig_num: u32,
    pub mini_stream_cutoff_size: u32,
    pub first_mini_fat_sector_location: u32,
    pub num_of_mini_fat_sectors: u32,
    pub first_difat_sector_location: u32,
    pub num_of_difat_sectors: u32,
    /// The first 109 FAT sector locations.
    pub difat: [u32; 109],
    /// For version 4, the rest of the 4096-byte header sector is zero.
    pub padding_is_zero: bool,
}

/// End of the version 4 header sector within `b`.
pub open spec fn padding_end(b: Seq<u8>) -> int {
    if b.len() < 4096 {
        b.len() as int
    } else {
        4096
    }
}

/// The header sector holds nothing past the 512 meaningful bytes (version 4 only).
pub open spec fn padding_clean(b: Seq<u8>) -> bool {
    u16_le(b, 26) != 4 || all_zero(b.subrange(512, padding_end(b)))
}

/// Why the header at the start of `b` cannot be used, if it cannot.
pub open spec fn header_problem(b: Seq<u8>) -> Option<HeaderProblem> {
    if b.len() >= 8 && !has_magic(b) {
        Some(HeaderProblem::Signature)
    } else if b.len() < 512 {
        Some(HeaderProblem::TooShort)
    } else if !((u16_le(b, 26) == 3 && u16_le(b, 30) == 9) || (u16_le(b, 26) == 4 && u16_le(b, 30)
        == 12)) {
        Some(HeaderProblem::SectorShift)
    } else if u16_le(b, 32) != 6 {
        Some(HeaderProblem::MiniSectorShift)
    } else {
        None
    }
}

/// Each field of `h` is the one stored at its place in `b`.
pub open spec fn decodes_from(h: OleFileHeader, b: Seq<u8>) -> bool {
    &&& h.header_signature@ == b.subrange(0, 8)
    &&& h.header_clsid@ == b.subrange(8, 24)
    &&& h.minor_version == u16_le(b, 24)
    &&& h.major_version == u16_le(b, 26)
    &&& h.byte_order == u16_le(b, 28)
    &&& h.sector_shift == u16_le(b, 30)
    &&& h.mini_sector_shift == u16_le(b, 32)
    &&& h.reserved@ == b.subrange(34, 40)
    &&& h.num_of_dir_sectors == u32_le(b, 40)
    &&& h.num_of_fat_sectors == u32_le(b, 44)
    &&& h.first_dir_sector_location == u32_le(b, 48)
    &&& h.transaction_sig_num == u32_le(b, 52)
    &&& h.mini_stream_cutoff_size == u32_le(b, 56)
    &&& h.first_mini_fat_sector_location == u32_le(b, 60)
    &&& h.num_of_mini_fat_sectors == u32_le(b, 64)
    &&& h.first_difat_sector_location == u32_le(b, 68)
    &&& h.num_of_difat_sectors == u32_le(b, 72)
    &&& h.difat@ == Seq::new(109, |k: int| u32_le(b, 76 + 4 * k))
    &&& h.padding_is_zero == padding_clean(b)
}

/// The one diagnostic `d` when `c` holds, else none.
pub open spec fn diag_if(c: bool, d: Diagnostic) -> Seq<Diagnostic> {
    if c {
        seq![d]
    } else {
        seq![]
    }
}

/// True when every byte of `s` is zero.
pub open spec fn all_zero(s: Seq<u8>) -> bool {
    forall|i: int| 0 <= i < s.len() ==> s[i] == 0
}

impl OleFileHeader {
    /// The header fields fit together: known version, sector shift and mini-sector shift.
    pub open spec fn wf(&self) -> bool {
        &&& (self.major_version == 3 && self.sector_shift == 9) || (self.major_version == 4
            && self.sector_shift == 12)
        &&& self.mini_sector_shift == 6
        &&& self.difat@.len() == 109
    }

    /// Sector size in bytes.
    pub open spec fn spec_sector_size(&self) -> nat {
        if self.sector_shift == 9 {
            512
        } else {
            4096
        }
    }

    /// The policy violations of this header, in a fixed order.
    pub open spec fn spec_diagnostics(&self) -> Seq<Diagnostic> {
        diag_if(!all_zero(self.header_clsid@), Diagnostic::ClsidNotNull) + diag_if(
            self.minor_version != 0x3E,
            Diagnostic::MinorVersion,
        ) + diag_if(self.byte_order != 0xFFFE, Diagnostic::ByteOrder) + diag_if(
            !all_zero(self.reserved@),
            Diagnostic::ReservedNotZero,
        ) + diag_if(
            self.major_version == 3 && self.num_of_dir_sectors != 0,
            Diagnostic::DirSectorsInVersion3,
        ) + diag_if(!self.padding_is_zero, Diagnostic::PaddingNotZero)
    }

    pub fn sector_size(&self) -> (r: usize)
        requires
            self.wf(),
        ensures
            r == self.spec_sector_size(),
    {
        if self.sector_shift == 9 {
            512
        } else {
            4096
        }
    }

    /// Lists the policy violations of this header.
    pub fn diagnostics(&self) -> (r: Vec<Diagnostic>)
        ensures
            r@ == self.spec_diagnostics(),
    {
        let mut out: Vec<Diagnostic> = Vec::new();
        if !zero_bytes(&self.header_clsid) {
            out.push(Diagnostic::ClsidNotNull);
        }
        if self.minor_version != 0x3E {
            out.push(Diagnostic::MinorVersion);
        }
        if self.byte_order != 0xFFFE {
            out.push(Diagnostic::ByteOrder);
        }
        if !zero_bytes(&self.reserved) {
            out.push(Diagnostic::ReservedNotZero);
        }
        if self.major_version == 3 && self.num_of_dir_sectors != 0 {
            out.push(Diagnostic::DirSectorsInVersion3);
        }
        if !self.padding_is_zero {
            out.push(Diagnostic::PaddingNotZero);
        }
        assert(out@ =~= self.spec_diagnostics());
        out
    }
}

impl OleFileHeader {
    /// The eight signature bytes.
    pub fn header_signature(&self) -> (r: [u8; 8])
        ensures
            r@ == self.header_signature@,
    {
        self.header_signature
    }

    /// The header class id, which should be all zero.
    pub fn header_clsid(&self) -> (r: CLSID)
        ensures
            r.bytes@ == self.header_clsid@,
    {
        CLSID { bytes: self.header_clsid }
    }

    /// Version number for nonbreaking changes.
    pub fn minor_version(&self) -> (r: u16)
        ensures
            r == self.minor_version,
    {
        self.minor_version
    }

    /// Version number for breaking changes: 3 or 4.
    pub fn major_version(&self) -> (r: u16)
        ensures
            r == self.major_version,
    {
        self.major_version
    }

    /// The byte-order mark, 0xFFFE for little-endian.
    pub fn byte_order(&self) -> (r: u16)
        ensures
            r == self.byte_order,
    {
        self.byte_order
    }

    /// The sector size as a power of two: 9 for version 3, 12 for version 4.
    pub fn sector_shift(&self) -> (r: u16)
        ensures
            r == self.sector_shift,
    {
        self.sector_shift
    }

    /// The mini-sector size as a power of two: 6.
    pub fn mini_cector_shift(&self) -> (r: u16)
        ensures
            r == self.mini_sector_shift,
    {
        self.mini_sector_shift
    }

    /// The six reserved bytes, which should be zero.
    pub fn reserved(&self) -> (r: [u8; 6])
        ensures
            r@ == self.reserved@,
    {
        self.reserved
    }

    /// The number of directory sectors; version 3 files do not count them.
    pub fn num_of_dir_sectiors(&self) -> (r: Option<u32>)
        ensures
            self.major_version == 3 ==> r is None,
            self.major_version != 3 ==> r == Some(self.num_of_dir_sectors),
    {
        if self.major_version == 3 {
            None
        } else {
            Some(self.num_of_dir_sectors)
        }
    }

    /// The number of FAT sectors.
    pub fn num_of_fat_sectors(&self) -> (r: u32)
        ensures
            r == self.num_of_fat_sectors,
    {
        self.num_of_fat_sectors
    }

    /// The first sector of the directory stream.
    pub fn first_dir_sector_location(&self) -> (r: u32)
        ensures
            r == self.first_dir_sector_location,
    {
        self.first_dir_sector_location
    }

    /// The transaction signature number.
    pub fn transaction_sig_num(&self) -> (r: u32)
        ensures
            r == self.transaction_sig_num,
    {
        self.transaction_sig_num
    }

    /// Streams smaller than this live in the mini-stream.
    pub fn mini_stream_cutoff_size(&self) -> (r: u32)
        ensures
            r == self.mini_stream_cutoff_size,
    {
        self.mini_stream_cutoff_size
    }

    /// The first sector of the Mini-FAT.
    pub fn first_mini_fat_sector_location(&self) -> (r: u32)
        ensures
            r == self.first_mini_fat_sector_location,
    {
        self.first_mini_fat_sector_location
    }

    /// The number of Mini-FAT sectors.
    pub fn num_of_mini_fat_sectors(&self) -> (r: u32)
        ensures
            r == self.num_of_mini_fat_sectors,
    {
        self.num_of_mini_fat_sectors
    }

    /// The first DIFAT sector.
    pub fn first_difat_sector_location(&self) -> (r: u32)
        ensures
            r == self.first_difat_sector_location,
    {
        self.first_difat_sector_location
    }

    /// The number of DIFAT sectors.
    pub fn num_of_difat_sectors(&self) -> (r: u32)
        ensures
            r == self.num_of_difat_sectors,
    {
        self.num_of_difat_sectors
    }

    /// The FAT sector locations stored in the header itself.
    pub fn difat(&self) -> (r: [u32; 109])
        ensures
            r@ == self.difat@,
    {
        self.difat
    }
}

impl Validation for OleFileHeader {
    open spec fn spec_validate(&self) -> Seq<Diagnostic> {
        self.spec_diagnostics()
    }

    fn validate(&self) -> (r: Vec<Diagnostic>) {
        self.diagnostics()
    }
}

fn zero_range(s: &[u8], lo: usize, hi: usize) -> (r: bool)
    requires
        lo <= hi <= s@.len(),
    ensures
        r == all_zero(s@.subrange(lo as int, hi as int)),
{
    let mut i: usize = lo;
    while i < hi
        invariant
            lo <= i <= hi,
            hi <= s@.len(),
            forall|j: int| lo <= j < i ==> s@[j] == 0,
        decreases hi - i,
    {
        if s[i] != 0 {
            assert(s@.subrange(lo as int, hi as int)[i - lo] != 0);
            return false;
        }
        i = i + 1;
    }
    assert forall|j: int| 0 <= j < hi - lo implies s@.subrange(lo as int, hi as int)[j] == 0 by {
        assert(s@[lo + j] == 0);
    }
    true
}

fn zero_bytes(s: &[u8]) -> (r: bool)
    ensures
        r == all_zero(s@),
{
    let mut i: usize = 0;
    while i < s.len()
        invariant
            i <= s@.len(),
            forall|j: int| 0 <= j < i ==> s@[j] == 0,
        decreases s@.len() - i,
    {
        if s[i] != 0 {
            return false;
        }
        i = i + 1;
    }
    true
}

/// Decodes and checks the header at the start of `b`.
pub fn parse_header(b: &[u8]) -> (r: Result<OleFileHeader, CfbError>)
    ensures
        match header_problem(b@) {
            Some(p) => r == Err::<OleFileHeader, CfbError>(CfbError::InvalidHeader(p)),
            None => r is Ok,
        },
        r matches Ok(h) ==> h.wf() && decodes_from(h, b@),
{
    if b.len() >= 8 {
        match is_ole(b) {
            Ok(false) => {
                return Err(CfbError::InvalidHeader(HeaderProblem::Signature));
            },
            _ => {},
        }
    }
    if b.len() < HEADER_SIZE {
        return Err(CfbError::InvalidHeader(HeaderProblem::TooShort));
    }
    let major_version = read_u16_le(b, 26);
    let sector_shift = read_u16_le(b, 30);
    if !((major_version == 3 && sector_shift == 9) || (major_version == 4 && sector_shift == 12)) {
        return Err(CfbError::InvalidHeader(HeaderProblem::SectorShift));
    }
    let mini_sector_shift = read_u16_le(b, 32);
    if mini_sector_shift != 6 {
        return Err(CfbError::InvalidHeader(HeaderProblem::MiniSectorShift));
    }
    let header_signature: [u8; 8] = [b[0], b[1], b[2], b[3], b[4], b[5], b[6], b[7]];
    let header_clsid: [u8; 16] = [
        b[8], b[9], b[10], b[11], b[12], b[13], b[14], b[15], b[16], b[17], b[18], b[19], b[20],
        b[21], b[22], b[23],
    ];
    let reserved: [u8; 6] = [b[34], b[35], b[36], b[37], b[38], b[39]];
    let mut difat: [u32; 109] = [0u32; 109];
    let mut k: usize = 0;
    while k < 109
        invariant
            b@.len() >= 512,
            k <= 109,
            difat@.len() == 109,
            forall|j: int| 0 <= j < k ==> difat@[j] == u32_le(b@, 76 + 4 * j),
        decreases 109 - k,
    {
        difat[k] = read_u32_le(b, 76 + 4 * k);
        k = k + 1;
    }
    assert(difat@ =~= Seq::new(109, |j: int| u32_le(b@, 76 + 4 * j)));
    let end: usize = if b.len() < 4096 {
        b.len()
    } else {
        4096
    };
    let padding_is_zero = major_version != 4 || zero_range(b, 512, end);
    let h = OleFileHeader {
        header_signature,
        header_clsid,
        minor_version: read_u16_le(b, 24),
        major_version,
        byte_order: read_u16_le(b, 28),
        sector_shift,
        mini_sector_shift,
        reserved,
        num_of_dir_sectors: read_u32_le(b, 40),
        num_of_fat_sectors: read_u32_le(b, 44),
        first_dir_sector_location: read_u32_le(b, 48),
        transaction_sig_num: read_u32_le(b, 52),
        mini_stream_cutoff_size: read_u32_le(b, 56),
        first_mini_fat_sector_location: read_u32_le(b, 60),
        num_of_mini_fat_sectors: read_u32_le(b, 64),
        first_difat_sector_location: read_u32_le(b, 68),
        num_of_difat_sectors: read_u32_le(b, 72),
        difat,
        padding_is_zero,
    };
    assert(h.header_signature@ =~= b@.subrange(0, 8));
    assert(h.header_clsid@ =~= b@.subrange(8, 24));
    assert(h.reserved@ =~= b@.subrange(34, 40));
    Ok(h)
}

} // verus!
