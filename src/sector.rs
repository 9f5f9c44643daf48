//! The byte buffer seen as numbered sectors, and the allocation tables read from it.
use vstd::prelude::*;
use vstd::arithmetic::mul::lemma_mul_inequality;
use crate::bytes::{words, decode_words};
use crate::chain::{agrees, prepend, spec_walk, walk};
use crate::header::{OleFileHeader, parse_header, header_problem, decodes_from};
use crate::{CfbError, ENDOFCHAIN, MAXREGSECT};

verus! {

/// Bytes of the blocks named by `chain`, in order, where block `id` starts at
/// `base + id * size` in `data`. Fails when a block runs past the end of `data`.
pub open spec fn gather(data: Seq<u8>, base: int, size: int, chain: Seq<u32>) -> Result<
    Seq<u8>,
    CfbError,
>
    decreases chain.len(),
{
    if chain.len() == 0 {
        Ok(seq![])
    } else {
        let start = base + chain.last() as int * size;
        if start + size > data.len() {
            Err(CfbError::OutOfRange)
        } else {
            match gather(data, base, size, chain.drop_last()) {
                Ok(p) => Ok(p + data.subrange(start, start + size)),
                Err(e) => Err(e),
            }
        }
    }
}

proof fn lemma_gather_err_extends(
    data: Seq<u8>,
    base: int,
    size: int,
    c: Seq<u32>,
    i: int,
    k: int,
)
    requires
        0 <= i < k <= c.len(),
        gather(data, base, size, c.subrange(0, i + 1)) == Err::<Seq<u8>, CfbError>(
            CfbError::OutOfRange,
        ),
    ensures
        gather(data, base, size, c.subrange(0, k)) == Err::<Seq<u8>, CfbError>(
            CfbError::OutOfRange,
        ),
    decreases k - i,
{
    if k > i + 1 {
        lemma_gather_err_extends(data, base, size, c, i, k - 1);
        assert(c.subrange(0, k).drop_last() =~= c.subrange(0, k - 1));
    }
}

/// Copies the blocks named by `chain` out of `data` (see `gather`).
pub fn gather_blocks(data: &[u8], base: usize, size: usize, chain: &Vec<u32>) -> (r: Result<
    Vec<u8>,
    CfbError,
>)
    requires
        0 < size <= 4096,
        base <= 4096,
    ensures
        agrees(r, gather(data@, base as int, size as int, chain@)),
{
    let dlen = data.len();
    let mut out: Vec<u8> = Vec::new();
    let mut i: usize = 0;
    while i < chain.len()
        invariant
            0 < size <= 4096,
            base <= 4096,
            i <= chain@.len(),
            dlen == data@.len(),
            gather(data@, base as int, size as int, chain@.subrange(0, i as int)) == Ok::<
                Seq<u8>,
                CfbError,
            >(out@),
        decreases chain@.len() - i,
    {
        let id = chain[i];
        assert(chain@.subrange(0, i + 1).drop_last() =~= chain@.subrange(0, i as int));
        assert(chain@.subrange(0, i + 1).last() == id);
        assert((id as u64) * (size as u64) <= 0xFFFF_FFFFu64 * 4096) by (nonlinear_arith)
            requires
                size <= 4096,
        ;
        let start: u64 = base as u64 + (id as u64) * (size as u64);
        if start + size as u64 > dlen as u64 {
            proof {
                lemma_gather_err_extends(
                    data@,
                    base as int,
                    size as int,
                    chain@,
                    i as int,
                    chain@.len() as int,
                );
                assert(chain@.subrange(0, chain@.len() as int) =~= chain@);
            }
            return Err(CfbError::OutOfRange);
        }
        let s = start as usize;
        let end = s + size;
        let ghost prefix = out@;
        let mut j: usize = s;
        while j < end
            invariant
                end == s + size,
                end <= data@.len(),
                s <= j <= end,
                out@ == prefix + data@.subrange(s as int, j as int),
            decreases end - j,
        {
            out.push(data[j]);
            j = j + 1;
            assert(out@ =~= prefix + data@.subrange(s as int, j as int));
        }
        i = i + 1;
    }
    assert(chain@.subrange(0, chain@.len() as int) =~= chain@);
    Ok(out)
}

/// FAT sector locations held in the DIFAT sector chain from `cur`, `needed` of
/// them, reading at most `fuel` DIFAT sectors; `seen` are the DIFAT sectors
/// already read, and meeting one again is a loop. Each DIFAT sector holds
/// `ss / 4 - 1` locations and then the number of the next DIFAT sector; once
/// enough locations are read, the chain must end there with `ENDOFCHAIN`.
pub open spec fn difat_tail(
    data: Seq<u8>,
    ss: nat,
    cur: u32,
    needed: nat,
    fuel: nat,
    seen: Seq<u32>,
) -> Result<Seq<u32>, CfbError>
    decreases fuel,
{
    if needed == 0 {
        if seen.len() > 0 && cur != ENDOFCHAIN {
            Err(CfbError::CorruptChain)
        } else {
            Ok(seq![])
        }
    } else if fuel == 0 || cur > MAXREGSECT || seen.contains(cur) {
        Err(CfbError::CorruptChain)
    } else {
        match gather(data, ss as int, ss as int, seq![cur]) {
            Err(e) => Err(e),
            Ok(s) => {
                let w = words(s);
                let per = (ss / 4 - 1) as nat;
                let k = if needed < per {
                    needed
                } else {
                    per
                };
                prepend(
                    w.subrange(0, k as int),
                    difat_tail(
                        data,
                        ss,
                        w[per as int],
                        (needed - k) as nat,
                        (fuel - 1) as nat,
                        seen.push(cur),
                    ),
                )
            },
        }
    }
}

/// Where the FAT sectors of the file are: the first ones from the header, the
/// rest from the DIFAT chain, whose length is bounded by the number of sectors.
pub open spec fn fat_locations(data: Seq<u8>, h: OleFileHeader) -> Result<Seq<u32>, CfbError> {
    let n = h.num_of_fat_sectors as nat;
    let k: nat = if n < 109 {
        n
    } else {
        109
    };
    let ss = h.spec_sector_size();
    prepend(
        h.difat@.subrange(0, k as int),
        difat_tail(
            data,
            ss,
            h.first_difat_sector_location,
            (n - k) as nat,
            data.len() / ss,
            seq![],
        ),
    )
}

/// The FAT: every FAT sector, in order, read as little-endian words.
pub open spec fn fat_table(data: Seq<u8>, h: OleFileHeader) -> Result<Seq<u32>, CfbError> {
    match fat_locations(data, h) {
        Ok(l) => match gather(data, h.spec_sector_size() as int, h.spec_sector_size() as int, l) {
            Ok(g) => Ok(words(g)),
            Err(e) => Err(e),
        },
        Err(e) => Err(e),
    }
}

/// Number of sectors of size `ss` in `data` after the header sector.
pub open spec fn sector_count(data: Seq<u8>, ss: nat) -> nat {
    if data.len() / ss >= 1 {
        (data.len() / ss - 1) as nat
    } else {
        0
    }
}

/// The bytes of the sectors on the chain from `start` through `fat`; the
/// chain may not be longer than the file has sectors.
pub open spec fn chain_bytes(data: Seq<u8>, ss: nat, fat: Seq<u32>, start: u32) -> Result<
    Seq<u8>,
    CfbError,
> {
    match spec_walk(fat, start, sector_count(data, ss)) {
        Ok(c) => gather(data, ss as int, ss as int, c),
        Err(e) => Err(e),
    }
}

/// The Mini-FAT: the first `num_of_mini_fat_sectors` sectors of its chain,
/// read as little-endian words. A chain with fewer sectors is corrupt.
pub open spec fn minifat_table(data: Seq<u8>, h: OleFileHeader, fat: Seq<u32>) -> Result<
    Seq<u32>,
    CfbError,
> {
    let ss = h.spec_sector_size();
    let m = h.num_of_mini_fat_sectors as int;
    match spec_walk(fat, h.first_mini_fat_sector_location, sector_count(data, ss)) {
        Ok(c) => if c.len() < m {
            Err(CfbError::CorruptChain)
        } else {
            match gather(data, ss as int, ss as int, c.subrange(0, m)) {
                Ok(b) => Ok(words(b)),
                Err(e) => Err(e),
            }
        },
        Err(e) => Err(e),
    }
}

/// True when `x` is among the items of `v`.
fn contains_id(v: &Vec<u32>, x: u32) -> (r: bool)
    ensures
        r == v@.contains(x),
{
    let mut i: usize = 0;
    while i < v.len()
        invariant
            i <= v@.len(),
            forall|j: int| 0 <= j < i ==> v@[j] != x,
        decreases v@.len() - i,
    {
        if v[i] == x {
            return true;
        }
        i = i + 1;
    }
    false
}

/// The whole file as a byte buffer addressed by sector.
pub struct OLeFileBuffer {
    pub data: Vec<u8>,
}

impl OLeFileBuffer {
    pub fn new(data: Vec<u8>) -> (r: OLeFileBuffer)
        ensures
            r.data@ == data@,
    {
        OLeFileBuffer { data }
    }

    /// Decodes and checks the header.
    pub fn read_ole_file_header(&self) -> (r: Result<OleFileHeader, CfbError>)
        ensures
            match header_problem(self.data@) {
                Some(p) => r == Err::<OleFileHeader, CfbError>(CfbError::InvalidHeader(p)),
                None => r is Ok,
            },
            r matches Ok(h) ==> h.wf() && decodes_from(h, self.data@),
    {
        parse_header(self.data.as_slice())
    }

    /// The bytes of sector `id`.
    pub fn read_sector(&self, ss: usize, id: u32) -> (r: Result<Vec<u8>, CfbError>)
        requires
            ss == 512 || ss == 4096,
        ensures
            agrees(r, gather(self.data@, ss as int, ss as int, seq![id])),
    {
        let mut one: Vec<u32> = Vec::new();
        one.push(id);
        assert(one@ =~= seq![id]);
        gather_blocks(self.data.as_slice(), ss, ss, &one)
    }

    /// Locations of all FAT sectors, following the DIFAT chain past the header's own.
    pub fn read_difat_array(&self, h: &OleFileHeader) -> (r: Result<Vec<u32>, CfbError>)
        requires
            h.wf(),
        ensures
            agrees(r, fat_locations(self.data@, *h)),
    {
        let ss = h.sector_size();
        let n = h.num_of_fat_sectors;
        let k: u32 = if n < 109 {
            n
        } else {
            109
        };
        let mut locs: Vec<u32> = Vec::new();
        let mut i: usize = 0;
        while i < k as usize
            invariant
                h.wf(),
                k <= 109,
                i <= k,
                locs@ == h.difat@.subrange(0, i as int),
            decreases k - i,
        {
            locs.push(h.difat[i]);
            i = i + 1;
            assert(locs@ =~= h.difat@.subrange(0, i as int));
        }
        let mut needed: u32 = n - k;
        let mut cur: u32 = h.first_difat_sector_location;
        let mut fuel: usize = self.data.len() / ss;
        let per: usize = ss / 4 - 1;
        let mut seen: Vec<u32> = Vec::new();
        while needed > 0
            invariant
                h.wf(),
                ss == h.spec_sector_size(),
                per == ss / 4 - 1,
                fat_locations(self.data@, *h) == prepend(
                    locs@,
                    difat_tail(self.data@, ss as nat, cur, needed as nat, fuel as nat, seen@),
                ),
            decreases fuel,
        {
            if fuel == 0 || cur > MAXREGSECT || contains_id(&seen, cur) {
                return Err(CfbError::CorruptChain);
            }
            let sector = match self.read_sector(ss, cur) {
                Ok(s) => s,
                Err(e) => {
                    return Err(e);
                },
            };
            proof {
                assert(seq![cur].drop_last() =~= Seq::<u32>::empty());
                reveal_with_fuel(gather, 2);
                assert(sector@.len() == ss);
            }
            let w = decode_words(sector.as_slice());
            let take: u32 = if (needed as usize) < per {
                needed
            } else {
                per as u32
            };
            let ghost before = locs@;
            let mut j: usize = 0;
            while j < take as usize
                invariant
                    take <= per,
                    w@.len() == ss / 4,
                    per == ss / 4 - 1,
                    j <= take,
                    locs@ == before + w@.subrange(0, j as int),
                decreases take - j,
            {
                locs.push(w[j]);
                j = j + 1;
                assert(locs@ =~= before + w@.subrange(0, j as int));
            }
            proof {
                let tail = difat_tail(
                    self.data@,
                    ss as nat,
                    w@[per as int],
                    (needed - take) as nat,
                    (fuel - 1) as nat,
                    seen@.push(cur),
                );
                match tail {
                    Ok(r) => {
                        assert(before + (w@.subrange(0, take as int) + r) =~= locs@ + r);
                    },
                    Err(e) => {},
                }
            }
            seen.push(cur);
            cur = w[per];
            needed = needed - take;
            fuel = fuel - 1;
        }
        if seen.len() > 0 && cur != ENDOFCHAIN {
            return Err(CfbError::CorruptChain);
        }
        assert(locs@ + seq![] =~= locs@);
        Ok(locs)
    }

    /// The FAT, read from the sectors that the DIFAT locates.
    pub fn read_fat_sector(&self, h: &OleFileHeader) -> (r: Result<Vec<u32>, CfbError>)
        requires
            h.wf(),
        ensures
            agrees(r, fat_table(self.data@, *h)),
    {
        let locs = self.read_difat_array(h)?;
        let ss = h.sector_size();
        let bytes = gather_blocks(self.data.as_slice(), ss, ss, &locs)?;
        Ok(decode_words(bytes.as_slice()))
    }

    /// Number of sectors after the header sector.
    pub fn sector_count(&self, ss: usize) -> (r: usize)
        requires
            ss == 512 || ss == 4096,
        ensures
            r == sector_count(self.data@, ss as nat),
    {
        let n = self.data.len() / ss;
        if n >= 1 {
            n - 1
        } else {
            0
        }
    }

    /// The bytes of the regular-sector chain from `start`.
    pub fn read_chain(&self, ss: usize, fat: &Vec<u32>, start: u32) -> (r: Result<
        Vec<u8>,
        CfbError,
    >)
        requires
            ss == 512 || ss == 4096,
        ensures
            agrees(r, chain_bytes(self.data@, ss as nat, fat@, start)),
    {
        let c = walk(fat, start, self.sector_count(ss))?;
        gather_blocks(self.data.as_slice(), ss, ss, &c)
    }

    /// The Mini-FAT, read along its chain of regular sectors.
    pub fn read_mini_fat_sector(&self, h: &OleFileHeader, fat: &Vec<u32>) -> (r: Result<
        Vec<u32>,
        CfbError,
    >)
        requires
            h.wf(),
        ensures
            agrees(r, minifat_table(self.data@, *h, fat@)),
    {
        let ss = h.sector_size();
        let mut c = walk(fat, h.first_mini_fat_sector_location, self.sector_count(ss))?;
        let m = h.num_of_mini_fat_sectors;
        if (c.len() as u64) < m as u64 {
            return Err(CfbError::CorruptChain);
        }
        c.truncate(m as usize);
        let bytes = gather_blocks(self.data.as_slice(), ss, ss, &c)?;
        Ok(decode_words(bytes.as_slice()))
    }
}

proof fn lemma_gather_len(data: Seq<u8>, base: int, size: int, c: Seq<u32>)
    requires
        gather(data, base, size, c) is Ok,
        size >= 0,
        base >= 0,
    ensures
        gather(data, base, size, c) matches Ok(g) && g.len() == c.len() * size,
    decreases c.len(),
{
    if c.len() > 0 {
        lemma_gather_len(data, base, size, c.drop_last());
        assert(c.last() as int * size >= 0) by (nonlinear_arith)
            requires
                size >= 0,
        ;
        assert((c.len() - 1) * size + size == c.len() * size) by (nonlinear_arith);
    }
}

/// Byte `r` of block `q` of what `gather` collects is byte `r` of the block
/// that the chain names there.
pub proof fn lemma_gather_bytes(data: Seq<u8>, base: int, size: int, c: Seq<u32>, q: int, r: int)
    requires
        gather(data, base, size, c) is Ok,
        size > 0,
        base >= 0,
        0 <= q < c.len(),
        0 <= r < size,
    ensures
        gather(data, base, size, c) matches Ok(g) && q * size + r < g.len() && g[q * size + r]
            == data[base + c[q] as int * size + r],
    decreases c.len(),
{
    lemma_gather_len(data, base, size, c);
    let p = gather(data, base, size, c.drop_last())->Ok_0;
    lemma_gather_len(data, base, size, c.drop_last());
    assert(c.last() as int * size >= 0) by (nonlinear_arith)
        requires
            size >= 0,
    ;
    if q < c.len() - 1 {
        lemma_gather_bytes(data, base, size, c.drop_last(), q, r);
        lemma_block_within(q, c.len() - 1, size, r);
    } else {
        assert(q * size == (c.len() - 1) * size);
    }
    lemma_block_within(q, c.len() as int, size, r);
}

proof fn lemma_block_within(q: int, m: int, size: int, r: int)
    requires
        0 <= q < m,
        0 <= r < size,
    ensures
        q * size + r < m * size,
{
    lemma_mul_inequality(q + 1, m, size);
    assert((q + 1) * size == q * size + size) by (nonlinear_arith);
}

proof fn lemma_difat_tail_len(
    data: Seq<u8>,
    ss: nat,
    cur: u32,
    needed: nat,
    fuel: nat,
    seen: Seq<u32>,
)
    requires
        ss == 512 || ss == 4096,
        difat_tail(data, ss, cur, needed, fuel, seen) is Ok,
    ensures
        difat_tail(data, ss, cur, needed, fuel, seen) matches Ok(r) && r.len() == needed,
    decreases fuel,
{
    if needed > 0 {
        lemma_gather_len(data, ss as int, ss as int, seq![cur]);
        let s = gather(data, ss as int, ss as int, seq![cur])->Ok_0;
        let w = words(s);
        let per = (ss / 4 - 1) as nat;
        let k = if needed < per {
            needed
        } else {
            per
        };
        lemma_difat_tail_len(
            data,
            ss,
            w[per as int],
            (needed - k) as nat,
            (fuel - 1) as nat,
            seen.push(cur),
        );
    }
}

/// A FAT that loads has one entry for every slot of every FAT sector that the
/// header counts, however many of them the DIFAT chain had to locate.
pub proof fn lemma_fat_covers_all_sectors(data: Seq<u8>, h: OleFileHeader)
    requires
        h.wf(),
    ensures
        fat_table(data, h) matches Ok(t) ==> t.len() == h.num_of_fat_sectors as int * (
        h.spec_sector_size() / 4) as int,
{
    let ss = h.spec_sector_size();
    let n = h.num_of_fat_sectors as nat;
    let k: nat = if n < 109 {
        n
    } else {
        109
    };
    if fat_table(data, h) is Ok {
        lemma_difat_tail_len(
            data,
            ss,
            h.first_difat_sector_location,
            (n - k) as nat,
            data.len() / ss,
            seq![],
        );
        let l = fat_locations(data, h)->Ok_0;
        assert(l.len() == n);
        lemma_gather_len(data, ss as int, ss as int, l);
        let g = gather(data, ss as int, ss as int, l)->Ok_0;
        assert(g.len() / 4 == n * (ss / 4)) by (nonlinear_arith)
            requires
                g.len() == n * ss,
                ss == 512 || ss == 4096,
        ;
    }
}

} // verus!
