//! An opened compound file: header, tables and directory, and the streams read through them.
use vstd::prelude::*;
use crate::bytes::u32_le;
use crate::chain::{agrees, spec_walk, walk};
use crate::directory::{
    DirectoryEntry,
    EntryKind,
    decodes_entry,
    kind_of,
    parse_entries,
    records_ok,
};
use crate::header::{Diagnostic, OleFileHeader, decodes_from, header_problem, diag_if};
use crate::sector::{
    OLeFileBuffer,
    chain_bytes,
    fat_table,
    gather,
    gather_blocks,
    lemma_gather_bytes,
    minifat_table,
    sector_count,
};
use crate::tree::{
    all_wf,
    children_ids,
    lemma_inorder_in_range,
    order_warning,
    out_of_order_at,
    tree_out_of_order,
    entries_of,
    path_view,
    resolve_from,
    resolve_ids,
    spec_children,
};
use crate::text::{utf16_of, utf16_units};
use crate::{CfbError, MINI_SECTOR_SIZE};

verus! {

/// Size recorded in the root record at the start of directory stream `dir`.
pub open spec fn root_size(dir: Seq<u8>) -> int {
    u32_le(dir, 120) as int + u32_le(dir, 124) as int * 0x1_0000_0000
}

/// The directory stream of the file, read along its chain through `fat`.
pub open spec fn dir_bytes(data: Seq<u8>, h: OleFileHeader, fat: Seq<u32>) -> Result<
    Seq<u8>,
    CfbError,
> {
    chain_bytes(data, h.spec_sector_size(), fat, h.first_dir_sector_location)
}

/// The directory stream can be decoded and starts with a root record.
pub open spec fn dir_usable(dir: Seq<u8>) -> bool {
    &&& records_ok(dir)
    &&& 128 <= dir.len()
    &&& dir.len() / 128 <= 0xFFFF_FFFF
    &&& kind_of(dir[66]) == Some(EntryKind::Root)
}

/// How opening `data` with header `h` ends, stage by stage: FAT, directory
/// stream, directory records, mini-stream, Mini-FAT.
pub open spec fn open_status(data: Seq<u8>, h: OleFileHeader) -> Result<(), CfbError> {
    let ss = h.spec_sector_size();
    match fat_table(data, h) {
        Err(e) => Err(e),
        Ok(fat) => match dir_bytes(data, h, fat) {
            Err(e) => Err(e),
            Ok(dir) => if !dir_usable(dir) {
                Err(CfbError::InvalidEntry)
            } else {
                match chain_bytes(data, ss, fat, u32_le(dir, 116)) {
                    Err(e) => Err(e),
                    Ok(m) => if m.len() < root_size(dir) {
                        Err(CfbError::CorruptChain)
                    } else {
                        match minifat_table(data, h, fat) {
                            Err(e) => Err(e),
                            Ok(_) => Ok(()),
                        }
                    },
                }
            },
        },
    }
}

/// A compound file that opened: its buffer, header, tables and directory.
pub struct CompoundFile {
    pub buffer: OLeFileBuffer,
    pub header: OleFileHeader,
    pub fat: Vec<u32>,
    pub minifat: Vec<u32>,
    pub entries: Vec<DirectoryEntry>,
    pub mini_stream: Vec<u8>,
    pub diagnostics: Vec<Diagnostic>,
}

/// Bytes `b` cut to `size`, or `CorruptChain` when fewer are there.
pub open spec fn cut(b: Result<Seq<u8>, CfbError>, size: int) -> Result<Seq<u8>, CfbError> {
    match b {
        Ok(s) => if s.len() < size {
            Err(CfbError::CorruptChain)
        } else {
            Ok(s.subrange(0, size))
        },
        Err(e) => Err(e),
    }
}

/// Reading a stream reproduces its bytes exactly. When `read_stream`
/// succeeds it returns `stream_size` bytes, and the byte at offset `r` of
/// block `q` is byte `r` of the block that the stream's chain names at
/// position `q`: a file sector for streams of at least the cutoff size, a
/// 64-byte mini-sector of the mini-stream for smaller ones.
pub proof fn lemma_stream_bytes(cf: CompoundFile, e: DirectoryEntry, q: int, r: int)
    requires
        cf.wf(),
        cf.spec_stream(e) is Ok,
    ensures
        cf.spec_stream(e) matches Ok(b) && b.len() == e.stream_size,
        e.stream_size >= cf.header.mini_stream_cutoff_size ==> ({
            let ss = cf.header.spec_sector_size() as int;
            let data = cf.buffer.data@;
            spec_walk(cf.fat@, e.starting_sector_offset, sector_count(data, ss as nat)) matches Ok(
                c,
            ) && (0 <= q < c.len() && 0 <= r < ss && q * ss + r < e.stream_size ==> cf.spec_stream(
                e,
            )->Ok_0[q * ss + r] == data[ss + c[q] as int * ss + r])
        }),
        e.stream_size < cf.header.mini_stream_cutoff_size ==> ({
            let ms = cf.mini_stream@;
            spec_walk(cf.minifat@, e.starting_sector_offset, ms.len() / 64) matches Ok(c) && (0
                <= q < c.len() && 0 <= r < 64 && q * 64 + r < e.stream_size ==> cf.spec_stream(
                e,
            )->Ok_0[q * 64 + r] == ms[c[q] as int * 64 + r])
        }),
{
    let ss = cf.header.spec_sector_size() as int;
    let data = cf.buffer.data@;
    if e.stream_size >= cf.header.mini_stream_cutoff_size {
        let c = spec_walk(cf.fat@, e.starting_sector_offset, sector_count(data, ss as nat))->Ok_0;
        if 0 <= q < c.len() && 0 <= r < ss {
            lemma_gather_bytes(data, ss, ss, c, q, r);
        }
    } else {
        let ms = cf.mini_stream@;
        let c = spec_walk(cf.minifat@, e.starting_sector_offset, ms.len() / 64)->Ok_0;
        if 0 <= q < c.len() && 0 <= r < 64 {
            lemma_gather_bytes(ms, 0, 64, c, q, r);
        }
    }
}

impl CompoundFile {
    /// What opening produced: every table and the directory are those the
    /// stages give for this buffer.
    pub open spec fn wf(&self) -> bool {
        let data = self.buffer.data@;
        let ss = self.header.spec_sector_size();
        &&& self.header.wf()
        &&& decodes_from(self.header, data)
        &&& open_status(data, self.header) == Ok::<(), CfbError>(())
        &&& fat_table(data, self.header) == Ok::<Seq<u32>, CfbError>(self.fat@)
        &&& minifat_table(data, self.header, self.fat@) == Ok::<Seq<u32>, CfbError>(
            self.minifat@,
        )
        &&& dir_bytes(data, self.header, self.fat@) matches Ok(dir) && self.entries@.len() == dir.len()
            / 128 && (forall|i: int|
            0 <= i < self.entries@.len() ==> decodes_entry(
                #[trigger] self.entries@[i],
                dir,
                128 * i,
                i,
            )) && cut(chain_bytes(data, ss, self.fat@, u32_le(dir, 116)), root_size(dir)) == Ok::<
            Seq<u8>,
            CfbError,
        >(self.mini_stream@)
        &&& self.entries@.len() > 0
        &&& self.entries@.len() <= 0xFFFF_FFFF
        &&& self.entries@[0].kind == EntryKind::Root
        &&& all_wf(self.entries@)
    }

    /// Every warning about the file: the header's, then one if any sibling
    /// tree is out of name order.
    pub open spec fn spec_all_diagnostics(&self) -> Seq<Diagnostic> {
        self.header.spec_diagnostics() + diag_if(
            tree_out_of_order(self.entries@),
            Diagnostic::SiblingOrder,
        )
    }

    /// The recorded warnings are all the file's warnings.
    pub open spec fn reports_ok(&self) -> bool {
        self.diagnostics@ == self.spec_all_diagnostics()
    }

    /// The content of the stream that entry `e` describes: from regular sectors
    /// when its size reaches the cutoff, else from mini-sectors of the mini-stream.
    pub open spec fn spec_stream(&self, e: DirectoryEntry) -> Result<Seq<u8>, CfbError> {
        let raw = if e.stream_size >= self.header.mini_stream_cutoff_size {
            chain_bytes(
                self.buffer.data@,
                self.header.spec_sector_size(),
                self.fat@,
                e.starting_sector_offset,
            )
        } else {
            match spec_walk(self.minifat@, e.starting_sector_offset, self.mini_stream@.len() / 64) {
                Ok(c) => gather(self.mini_stream@, 0, 64, c),
                Err(x) => Err(x),
            }
        };
        cut(raw, e.stream_size as int)
    }

    /// Parses a whole compound file held in `data`.
    pub fn open(data: Vec<u8>) -> (r: Result<CompoundFile, CfbError>)
        ensures
            header_problem(data@) matches Some(p) ==> r == Err::<CompoundFile, CfbError>(
                CfbError::InvalidHeader(p),
            ),
            r matches Ok(cf) ==> cf.wf() && cf.reports_ok() && cf.buffer.data@ == data@,
            r matches Err(e) ==> header_problem(data@) is Some || forall|h: OleFileHeader|
                decodes_from(h, data@) ==> open_status(data@, h) == Err::<(), CfbError>(e),
    {
        let buffer = OLeFileBuffer::new(data);
        let header = buffer.read_ole_file_header()?;
        let ss = header.sector_size();
        let ghost d = buffer.data@;
        proof {
            assert forall|h: OleFileHeader| decodes_from(h, d) implies open_status(d, h)
                == open_status(d, header) by {
                assert(h.difat@ == header.difat@);
            }
        }
        let fat = buffer.read_fat_sector(&header)?;
        let dir = buffer.read_chain(ss, &fat, header.first_dir_sector_location)?;
        let dlen = dir.len();
        if dlen < 128 || dlen / 128 > 0xFFFF_FFFF {
            return Err(CfbError::InvalidEntry);
        }
        let entries = parse_entries(dir.as_slice())?;
        let root = entries[0];
        proof {
            assert(decodes_entry(entries@[0], dir@, 0, 0));
        }
        if !matches!(root.kind, EntryKind::Root) {
            return Err(CfbError::InvalidEntry);
        }
        let mut mini_stream = buffer.read_chain(ss, &fat, root.starting_sector_offset)?;
        if (mini_stream.len() as u64) < root.stream_size {
            return Err(CfbError::CorruptChain);
        }
        mini_stream.truncate(root.stream_size as usize);
        let minifat = buffer.read_mini_fat_sector(&header, &fat)?;
        let diagnostics = header.diagnostics();
        let mut cf = CompoundFile { buffer, header, fat, minifat, entries, mini_stream, diagnostics };
        if cf.sibling_order_broken() {
            cf.diagnostics.push(Diagnostic::SiblingOrder);
        }
        assert(cf.diagnostics@ =~= cf.spec_all_diagnostics());
        Ok(cf)
    }

    /// True when some storage's children, listed without error, are out of name order.
    #[verifier::rlimit(40)]
    fn sibling_order_broken(&self) -> (r: bool)
        requires
            self.wf(),
        ensures
            r == tree_out_of_order(self.entries@),
    {
        let n = self.entries.len();
        let mut i: usize = 0;
        while i < n
            invariant
                self.wf(),
                n == self.entries@.len(),
                i <= n,
                forall|j: int| 0 <= j < i ==> !#[trigger] out_of_order_at(self.entries@, j),
            decreases n - i,
        {
            let e = self.entries[i];
            assert(e.id == i);
            if matches!(e.kind, EntryKind::Storage) || matches!(e.kind, EntryKind::Root) {
                match self.children_of(&e) {
                    Ok(list) => {
                        if order_warning(&list).is_some() {
                            assert(out_of_order_at(self.entries@, i as int));
                            return true;
                        }
                    },
                    Err(_) => {},
                }
            }
            i = i + 1;
        }
        false
    }

    /// The root storage entry.
    pub fn root(&self) -> (r: DirectoryEntry)
        requires
            self.wf(),
        ensures
            r == self.entries@[0],
    {
        self.entries[0]
    }

    /// The file's warnings: the header's policy violations, then a sibling-order warning.
    pub fn diagnostics(&self) -> (r: &Vec<Diagnostic>)
        requires
            self.reports_ok(),
        ensures
            r@ == self.spec_all_diagnostics(),
    {
        &self.diagnostics
    }

    /// The children of `e`, in the order of its sibling tree.
    pub fn children_of(&self, e: &DirectoryEntry) -> (r: Result<Vec<DirectoryEntry>, CfbError>)
        requires
            self.wf(),
        ensures
            (e.id as int) >= self.entries@.len() ==> r == Err::<Vec<DirectoryEntry>, CfbError>(
                CfbError::NotFound,
            ),
            (e.id as int) < self.entries@.len() ==> match spec_children(
                self.entries@,
                e.id as int,
            ) {
                Ok(ids) => r matches Ok(v) && v@ == entries_of(self.entries@, ids) && all_wf(v@),
                Err(x) => r == Err::<Vec<DirectoryEntry>, CfbError>(x),
            },
    {
        if e.id as usize >= self.entries.len() {
            return Err(CfbError::NotFound);
        }
        let ids = children_ids(&self.entries, e.id as usize)?;
        let mut out: Vec<DirectoryEntry> = Vec::new();
        let mut k: usize = 0;
        while k < ids.len()
            invariant
                self.wf(),
                spec_children(self.entries@, e.id as int) == Ok::<Seq<u32>, CfbError>(ids@),
                k <= ids@.len(),
                out@ == Seq::new(k as nat, |j: int| self.entries@[ids@[j] as int]),
                all_wf(out@),
            decreases ids@.len() - k,
        {
            let i = ids[k] as usize;
            proof {
                lemma_inorder_in_range(
                    self.entries@,
                    self.entries@[e.id as int].child_id,
                    self.entries@.len(),
                    k as int,
                );
            }
            out.push(self.entries[i]);
            k = k + 1;
            assert(out@ =~= Seq::new(k as nat, |j: int| self.entries@[ids@[j] as int]));
        }
        Ok(out)
    }

    /// The entry that `path` names, each segment given as UTF-16 code units.
    pub fn resolve_units(&self, path: &Vec<Vec<u16>>) -> (r: Result<DirectoryEntry, CfbError>)
        requires
            self.wf(),
        ensures
            match resolve_from(self.entries@, 0, path_view(path@), 0) {
                Ok(id) => r == Ok::<DirectoryEntry, CfbError>(self.entries@[id as int]),
                Err(x) => r == Err::<DirectoryEntry, CfbError>(x),
            },
    {
        let id = resolve_ids(&self.entries, 0, path)?;
        Ok(self.entries[id as usize])
    }

    /// The entry that `path` names, one name per segment.
    pub fn resolve(&self, path: &Vec<String>) -> (r: Result<DirectoryEntry, CfbError>)
        requires
            self.wf(),
        ensures
            match resolve_from(
                self.entries@,
                0,
                Seq::new(path@.len(), |k: int| utf16_of(path@[k]@)),
                0,
            ) {
                Ok(id) => r == Ok::<DirectoryEntry, CfbError>(self.entries@[id as int]),
                Err(x) => r == Err::<DirectoryEntry, CfbError>(x),
            },
    {
        let mut units: Vec<Vec<u16>> = Vec::new();
        let mut k: usize = 0;
        while k < path.len()
            invariant
                k <= path@.len(),
                units@.len() == k,
                forall|j: int| 0 <= j < k ==> (#[trigger] units@[j])@ == utf16_of(path@[j]@),
            decreases path@.len() - k,
        {
            units.push(utf16_units(path[k].as_str()));
            k = k + 1;
        }
        assert(path_view(units@) =~= Seq::new(path@.len(), |k: int| utf16_of(path@[k]@)));
        self.resolve_units(&units)
    }

    /// The content of the stream that `e` describes.
    pub fn read_stream(&self, e: &DirectoryEntry) -> (r: Result<Vec<u8>, CfbError>)
        requires
            self.wf(),
        ensures
            agrees(r, self.spec_stream(*e)),
    {
        let mut raw = if e.stream_size >= self.header.mini_stream_cutoff_size as u64 {
            self.buffer.read_chain(self.header.sector_size(), &self.fat, e.starting_sector_offset)?
        } else {
            let c = walk(
                &self.minifat,
                e.starting_sector_offset,
                self.mini_stream.len() / MINI_SECTOR_SIZE,
            )?;
            gather_blocks(self.mini_stream.as_slice(), 0, MINI_SECTOR_SIZE, &c)?
        };
        if (raw.len() as u64) < e.stream_size {
            return Err(CfbError::CorruptChain);
        }
        raw.truncate(e.stream_size as usize);
        Ok(raw)
    }
}

} // verus!
