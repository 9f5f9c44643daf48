//! Directory entries and the sibling trees that link them.
use vstd::prelude::*;
use crate::bytes::{u16_le, u32_le, read_u16_le, read_u32_le};
use crate::data_structures::FileTime;
use crate::text::{lossy_of, units_text};
use crate::CfbError;

verus! {

/// What a directory entry describes.
#[derive(Debug, Clone, Copy, PartialEq, Eq, Structural)]
pub enum EntryKind {
    Unallocated,
    Storage,
    Stream,
    Root,
}

/// One 128-byte directory record, decoded.
#[derive(Debug, Clone, Copy)]
pub struct DirectoryEntry {
    /// Position of the record in the directory stream.
    pub id: u32,
    /// The name buffer as UTF-16 code units; only the first `name_len` count.
    pub name: [u16; 32],
    /// Number of code units in the name, without its terminator.
    pub name_len: u16,
    pub kind: EntryKind,
    /// Red-black color byte.
    pub color: u8,
    pub left_sibling_id: u32,
    pub right_sibling_id: u32,
    pub child_id: u32,
    pub clsid: [u8; 16],
    pub state_bits: u32,
    pub creation_time: FileTime,
    pub modified_time: FileTime,
    pub starting_sector_offset: u32,
    pub stream_size: u64,
}

impl DirectoryEntry {
    /// The name as code units.
    pub open spec fn name_units(&self) -> Seq<u16> {
        self.name@.subrange(0, self.name_len as int)
    }

    pub open spec fn wf(&self) -> bool {
        self.name_len <= 32
    }

    /// The name as a string; unpaired surrogates become replacement characters.
    pub fn name_string(&self) -> (r: String)
        requires
            self.wf(),
        ensures
            r@ == lossy_of(self.name_units()),
    {
        let n = self.name_len as usize;
        let mut u: Vec<u16> = Vec::new();
        let mut i: usize = 0;
        while i < n
            invariant
                n == self.name_len,
                n <= 32,
                i <= n,
                u@ == self.name@.subrange(0, i as int),
            decreases n - i,
        {
            u.push(self.name[i]);
            i = i + 1;
            assert(u@ =~= self.name@.subrange(0, i as int));
        }
        units_text(u.as_slice())
    }
}

/// The kind stored in byte `k`, if `k` names one.
pub open spec fn kind_of(k: u8) -> Option<EntryKind> {
    if k == 0 {
        Some(EntryKind::Unallocated)
    } else if k == 1 {
        Some(EntryKind::Storage)
    } else if k == 2 {
        Some(EntryKind::Stream)
    } else if k == 5 {
        Some(EntryKind::Root)
    } else {
        None
    }
}

/// The record at `off` in `b` can be decoded: a known kind and a name length
/// that fits the 64-byte name buffer.
pub open spec fn record_ok(b: Seq<u8>, off: int) -> bool {
    kind_of(b[off + 66]) is Some && u16_le(b, off + 64) <= 64
}

/// Number of name code units for a stored byte length (the terminator is not counted).
pub open spec fn units_for(len_bytes: u16) -> u16 {
    if len_bytes < 2 {
        0
    } else {
        (len_bytes / 2 - 1) as u16
    }
}

/// `e` holds the fields of the record at `off` of `b`, which has position `id`.
pub open spec fn decodes_entry(e: DirectoryEntry, b: Seq<u8>, off: int, id: int) -> bool {
    &&& e.id == id
    &&& e.name@ == Seq::new(32, |k: int| u16_le(b, off + 2 * k))
    &&& e.name_len == units_for(u16_le(b, off + 64))
    &&& kind_of(b[off + 66]) == Some(e.kind)
    &&& e.color == b[off + 67]
    &&& e.left_sibling_id == u32_le(b, off + 68)
    &&& e.right_sibling_id == u32_le(b, off + 72)
    &&& e.child_id == u32_le(b, off + 76)
    &&& e.clsid@ == b.subrange(off + 80, off + 96)
    &&& e.state_bits == u32_le(b, off + 96)
    &&& e.creation_time == FileTime {
        low_date_time: u32_le(b, off + 100),
        high_date_time: u32_le(b, off + 104),
    }
    &&& e.modified_time == FileTime {
        low_date_time: u32_le(b, off + 108),
        high_date_time: u32_le(b, off + 112),
    }
    &&& e.starting_sector_offset == u32_le(b, off + 116)
    &&& e.stream_size as int == u32_le(b, off + 120) as int + u32_le(b, off + 124) as int
        * 0x1_0000_0000
}

fn read_kind(k: u8) -> (r: Result<EntryKind, CfbError>)
    ensures
        match kind_of(k) {
            Some(x) => r == Ok::<EntryKind, CfbError>(x),
            None => r == Err::<EntryKind, CfbError>(CfbError::InvalidEntry),
        },
{
    if k == 0 {
        Ok(EntryKind::Unallocated)
    } else if k == 1 {
        Ok(EntryKind::Storage)
    } else if k == 2 {
        Ok(EntryKind::Stream)
    } else if k == 5 {
        Ok(EntryKind::Root)
    } else {
        Err(CfbError::InvalidEntry)
    }
}

/// Decodes the record at `off` of `b` as entry `id`.
pub fn parse_entry(b: &[u8], off: usize, id: u32) -> (r: Result<DirectoryEntry, CfbError>)
    requires
        off + 128 <= b@.len(),
    ensures
        record_ok(b@, off as int) ==> (r matches Ok(e) && e.wf() && decodes_entry(
            e,
            b@,
            off as int,
            id as int,
        )),
        !record_ok(b@, off as int) ==> r == Err::<DirectoryEntry, CfbError>(
            CfbError::InvalidEntry,
        ),
{
    let len = b.len();
    assert(off + 128 <= len);
    let kind = read_kind(b[off + 66])?;
    let len_bytes = read_u16_le(b, off + 64);
    if len_bytes > 64 {
        return Err(CfbError::InvalidEntry);
    }
    let name_len: u16 = if len_bytes < 2 {
        0
    } else {
        len_bytes / 2 - 1
    };
    let name: [u16; 32] = [
        read_u16_le(b, off),
        read_u16_le(b, off + 2),
        read_u16_le(b, off + 4),
        read_u16_le(b, off + 6),
        read_u16_le(b, off + 8),
        read_u16_le(b, off + 10),
        read_u16_le(b, off + 12),
        read_u16_le(b, off + 14),
        read_u16_le(b, off + 16),
        read_u16_le(b, off + 18),
        read_u16_le(b, off + 20),
        read_u16_le(b, off + 22),
        read_u16_le(b, off + 24),
        read_u16_le(b, off + 26),
        read_u16_le(b, off + 28),
        read_u16_le(b, off + 30),
        read_u16_le(b, off + 32),
        read_u16_le(b, off + 34),
        read_u16_le(b, off + 36),
        read_u16_le(b, off + 38),
        read_u16_le(b, off + 40),
        read_u16_le(b, off + 42),
        read_u16_le(b, off + 44),
        read_u16_le(b, off + 46),
        read_u16_le(b, off + 48),
        read_u16_le(b, off + 50),
        read_u16_le(b, off + 52),
        read_u16_le(b, off + 54),
        read_u16_le(b, off + 56),
        read_u16_le(b, off + 58),
        read_u16_le(b, off + 60),
        read_u16_le(b, off + 62),
    ];
    let clsid: [u8; 16] = [
        b[off + 80],
        b[off + 81],
        b[off + 82],
        b[off + 83],
        b[off + 84],
        b[off + 85],
        b[off + 86],
        b[off + 87],
        b[off + 88],
        b[off + 89],
        b[off + 90],
        b[off + 91],
        b[off + 92],
        b[off + 93],
        b[off + 94],
        b[off + 95],
    ];
    let low = read_u32_le(b, off + 120);
    let high = read_u32_le(b, off + 124);
    let e = DirectoryEntry {
        id,
        name,
        name_len,
        kind,
        color: b[off + 67],
        left_sibling_id: read_u32_le(b, off + 68),
        right_sibling_id: read_u32_le(b, off + 72),
        child_id: read_u32_le(b, off + 76),
        clsid,
        state_bits: read_u32_le(b, off + 96),
        creation_time: FileTime {
            low_date_time: read_u32_le(b, off + 100),
            high_date_time: read_u32_le(b, off + 104),
        },
        modified_time: FileTime {
            low_date_time: read_u32_le(b, off + 108),
            high_date_time: read_u32_le(b, off + 112),
        },
        starting_sector_offset: read_u32_le(b, off + 116),
        stream_size: (high as u64) * 0x1_0000_0000 + low as u64,
    };
    assert(e.name@ =~= Seq::new(32, |k: int| u16_le(b@, off + 2 * k)));
    assert(e.clsid@ =~= b@.subrange(off + 80, off + 96));
    Ok(e)
}

/// Record `i` of directory stream `b` can be decoded.
pub open spec fn record_at_ok(b: Seq<u8>, i: int) -> bool {
    record_ok(b, 128 * i)
}

/// Every whole record of directory stream `b` can be decoded.
pub open spec fn records_ok(b: Seq<u8>) -> bool {
    forall|i: int| 0 <= i < b.len() / 128 ==> #[trigger] record_at_ok(b, i)
}

/// Splits a directory stream into 128-byte records and decodes each one;
/// record `i` becomes entry `i`. Trailing bytes short of a record are ignored.
pub fn parse_entries(b: &[u8]) -> (r: Result<Vec<DirectoryEntry>, CfbError>)
    requires
        b@.len() / 128 <= 0xFFFF_FFFF,
    ensures
        records_ok(b@) <==> r is Ok,
        !records_ok(b@) ==> r == Err::<Vec<DirectoryEntry>, CfbError>(CfbError::InvalidEntry),
        r matches Ok(es) ==> es@.len() == b@.len() / 128 && forall|i: int|
            0 <= i < es@.len() ==> (#[trigger] es@[i]).wf() && decodes_entry(
                es@[i],
                b@,
                128 * i,
                i,
            ),
{
    let len = b.len();
    let n = len / 128;
    let mut es: Vec<DirectoryEntry> = Vec::new();
    let mut i: usize = 0;
    while i < n
        invariant
            len == b@.len(),
            n == b@.len() / 128,
            n <= 0xFFFF_FFFF,
            i <= n,
            es@.len() == i,
            forall|j: int| 0 <= j < i ==> #[trigger] record_at_ok(b@, j),
            forall|j: int|
                0 <= j < i ==> (#[trigger] es@[j]).wf() && decodes_entry(es@[j], b@, 128 * j, j),
        decreases n - i,
    {
        assert(128 * i + 128 <= len) by (nonlinear_arith)
            requires
                i < n,
                n == len / 128,
        ;
        let e = match parse_entry(b, 128 * i, i as u32) {
            Ok(e) => e,
            Err(x) => {
                assert(!record_at_ok(b@, i as int));
                return Err(x);
            },
        };
        es.push(e);
        i = i + 1;
    }
    Ok(es)
}

} // verus!
