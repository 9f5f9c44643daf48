//! Plain value types carried by directory entries.
use vstd::prelude::*;
use crate::text::{ascii_chars, ascii_text};

verus! {

/// Clipboard format: Bitmap16 object.
pub const CF_BITMAP: u16 = 2;
/// Clipboard format: Windows metafile.
pub const CF_METAFILEPICT: u16 = 3;
/// Clipboard format: device-independent bitmap.
pub const CF_DIB: u16 = 8;
/// Clipboard format: enhanced metafile.
pub const CF_ENHMETAFILE: u16 = 0xE;

/// A class id (GUID): 16 bytes as stored on disk.
#[derive(Debug, Clone, Copy)]
pub struct CLSID {
    pub bytes: [u8; 16],
}

/// The ASCII upper-case hex digit for `n` (below 16).
pub open spec fn hex_digit(n: u8) -> u8 {
    if n < 10 {
        (48 + n) as u8
    } else {
        (55 + n) as u8
    }
}

/// The text of the first `i` bytes of a class id: two hex digits per byte, with
/// a dash before bytes 4, 6, 8 and 10. The first three fields are stored
/// little-endian, so printing their bytes in stored order shows them big-endian.
pub open spec fn clsid_text(b: Seq<u8>, i: int) -> Seq<u8>
    decreases i,
{
    if i <= 0 {
        seq![]
    } else {
        let dash: Seq<u8> = if i - 1 == 4 || i - 1 == 6 || i - 1 == 8 || i - 1 == 10 {
            seq![45u8]
        } else {
            seq![]
        };
        clsid_text(b, i - 1) + dash + seq![hex_digit(b[i - 1] / 16), hex_digit(b[i - 1] % 16)]
    }
}

fn hex_digit_of(n: u8) -> (r: u8)
    requires
        n < 16,
    ensures
        r == hex_digit(n),
        r < 128,
{
    if n < 10 {
        48 + n
    } else {
        55 + n
    }
}

impl CLSID {
    /// The all-zero class id.
    pub fn new() -> (r: CLSID)
        ensures
            forall|i: int| 0 <= i < 16 ==> r.bytes@[i] == 0,
    {
        CLSID { bytes: [0u8; 16] }
    }

    /// True when every byte is zero.
    pub fn is_null(&self) -> (r: bool)
        ensures
            r == forall|i: int| 0 <= i < 16 ==> self.bytes@[i] == 0,
    {
        let mut i: usize = 0;
        while i < 16
            invariant
                i <= 16,
                forall|j: int| 0 <= j < i ==> self.bytes@[j] == 0,
            decreases 16 - i,
        {
            if self.bytes[i] != 0 {
                return false;
            }
            i = i + 1;
        }
        true
    }

    /// The usual text form, `XXXXXXXX-XXXX-XXXX-XXXX-XXXXXXXXXXXX`.
    pub fn to_string(&self) -> (r: String)
        ensures
            r@ == ascii_chars(clsid_text(self.bytes@, 16)),
    {
        let mut out: Vec<u8> = Vec::new();
        let mut i: usize = 0;
        while i < 16
            invariant
                i <= 16,
                out@ == clsid_text(self.bytes@, i as int),
                forall|j: int| 0 <= j < out@.len() ==> out@[j] < 128,
            decreases 16 - i,
        {
            if i == 4 || i == 6 || i == 8 || i == 10 {
                out.push(45u8);
            }
            let x = self.bytes[i];
            out.push(hex_digit_of(x / 16));
            out.push(hex_digit_of(x % 16));
            i = i + 1;
            assert(out@ =~= clsid_text(self.bytes@, i as int));
        }
        ascii_text(out)
    }
}

impl Default for CLSID {
    fn default() -> (r: CLSID)
        ensures
            forall|i: int| 0 <= i < 16 ==> r.bytes@[i] == 0,
    {
        CLSID::new()
    }
}

impl PartialEq for CLSID {
    fn eq(&self, other: &CLSID) -> (r: bool) {
        let mut i: usize = 0;
        while i < 16
            invariant
                i <= 16,
                forall|j: int| 0 <= j < i ==> self.bytes@[j] == other.bytes@[j],
            decreases 16 - i,
        {
            if self.bytes[i] != other.bytes[i] {
                return false;
            }
            i = i + 1;
        }
        assert(self.bytes@ =~= other.bytes@);
        true
    }
}

impl vstd::std_specs::cmp::PartialEqSpecImpl for CLSID {
    open spec fn obeys_eq_spec() -> bool {
        true
    }

    open spec fn eq_spec(&self, other: &CLSID) -> bool {
        self.bytes@ == other.bytes@
    }
}

impl From<[u8; 16]> for CLSID {
    fn from(value: [u8; 16]) -> (r: CLSID) {
        CLSID { bytes: value }
    }
}

impl vstd::std_specs::convert::FromSpecImpl<[u8; 16]> for CLSID {
    open spec fn obeys_from_spec() -> bool {
        true
    }

    open spec fn from_spec(v: [u8; 16]) -> CLSID {
        CLSID { bytes: v }
    }
}

/// A 64-bit count of 100-nanosecond intervals since January 1, 1601 (UTC),
/// stored as two 32-bit halves.
#[derive(Debug, Clone, Copy, PartialEq, Eq, Structural)]
pub struct FileTime {
    pub low_date_time: u32,
    pub high_date_time: u32,
}

impl FileTime {
    /// The interval count as one number.
    pub open spec fn spec_ticks(&self) -> int {
        self.high_date_time as int * 0x1_0000_0000 + self.low_date_time as int
    }

    /// Combines the two halves into the 64-bit interval count.
    pub fn ticks(&self) -> (r: u64)
        ensures
            r as int == self.spec_ticks(),
    {
        (self.high_date_time as u64) * 0x1_0000_0000 + self.low_date_time as u64
    }
}

/// Initialization data for a printer.
pub struct DevModeA {
    pub device_name: String,
    pub form_name: String,
    pub spec_version: u16,
    pub driver_version: u16,
    pub size: u16,
    pub driver_extra: u16,
    pub fields: u32,
    pub orientation: u16,
    pub paper_size: u16,
    pub paper_length: u16,
    pub paper_width: u16,
    pub scale: u16,
    pub copies: u16,
    pub default_source: u16,
    pub print_quality: u16,
    pub color: u16,
    pub duplex: u16,
    pub y_res: u16,
    pub tt_option: u16,
    pub collate: u16,
    pub reserved0: u16,
    pub reserved1: u32,
    pub reserved2: u32,
    pub reserved3: u32,
    pub nup: u32,
    pub reserved4: u32,
    pub icm_method: u32,
    pub icm_intent: u32,
    pub media_type: u32,
    pub dither_type: u32,
    pub reserved5: u32,
    pub reserved6: u32,
    pub reserved7: u32,
    pub reserved8: u32,
}

/// Target-device information of an embedded object; carries no fields here.
pub struct DvTargetDevice {}

} // verus!
