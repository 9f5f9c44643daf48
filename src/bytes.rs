//! Little-endian integers in byte buffers.
use vstd::prelude::*;

verus! {

/// The little-endian `u16` at byte `i` of `b`.
pub open spec fn u16_le(b: Seq<u8>, i: int) -> u16 {
    (b[i] as int + b[i + 1] as int * 256) as u16
}

/// The little-endian `u32` at byte `i` of `b`.
pub open spec fn u32_le(b: Seq<u8>, i: int) -> u32 {
    (b[i] as int + b[i + 1] as int * 256 + b[i + 2] as int * 65536 + b[i + 3] as int
        * 16777216) as u32
}

/// `b` read as consecutive little-endian `u32` words; trailing bytes are ignored.
pub open spec fn words(b: Seq<u8>) -> Seq<u32> {
    Seq::new(b.len() / 4, |k: int| u32_le(b, 4 * k))
}

pub fn read_u16_le(b: &[u8], i: usize) -> (r: u16)
    requires
        i + 2 <= b@.len(),
    ensures
        r == u16_le(b@, i as int),
{
    b[i] as u16 + (b[i + 1] as u16) * 256
}

pub fn read_u32_le(b: &[u8], i: usize) -> (r: u32)
    requires
        i + 4 <= b@.len(),
    ensures
        r == u32_le(b@, i as int),
{
    b[i] as u32 + (b[i + 1] as u32) * 256 + (b[i + 2] as u32) * 65536 + (b[i + 3] as u32)
        * 16777216
}

/// Decodes `b` as little-endian `u32` words.
pub fn decode_words(b: &[u8]) -> (r: Vec<u32>)
    ensures
        r@ == words(b@),
{
    let len = b.len();
    let n = len / 4;
    let mut out: Vec<u32> = Vec::with_capacity(n);
    let mut k: usize = 0;
    while k < n
        invariant
            len == b@.len(),
            n == b@.len() / 4,
            k <= n,
            out@ == words(b@).subrange(0, k as int),
        decreases n - k,
    {
        assert(4 * k + 4 <= b@.len()) by (nonlinear_arith)
            requires
                k < n,
                n == b@.len() / 4,
        ;
        let w = read_u32_le(b, 4 * k);
        out.push(w);
        k = k + 1;
        assert(out@ =~= words(b@).subrange(0, k as int));
    }
    assert(out@ =~= words(b@));
    out
}

} // verus!
