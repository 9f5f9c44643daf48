use cfbf::chain::walk;
use cfbf::compound::CompoundFile;
use cfbf::directory::EntryKind;
use cfbf::header::{is_ole, parse_header, Diagnostic};
use cfbf::sector::OLeFileBuffer;
use cfbf::tree::order_warning;
use cfbf::{CfbError, HeaderProblem, Validation, DIFSECT, ENDOFCHAIN, FATSECT, FREESECT, NOSTREAM};

const SS: usize = 512;
const MAGIC: [u8; 8] = [0xD0, 0xCF, 0x11, 0xE0, 0xA1, 0xB1, 0x1A, 0xE1];

fn put_u16(b: &mut [u8], off: usize, v: u16) {
    b[off..off + 2].copy_from_slice(&v.to_le_bytes());
}

fn put_u32(b: &mut [u8], off: usize, v: u32) {
    b[off..off + 4].copy_from_slice(&v.to_le_bytes());
}

struct Layout {
    fat_locations: Vec<u32>,
    first_dir: u32,
    first_minifat: u32,
    num_minifat: u32,
    first_difat: u32,
    num_difat: u32,
}

fn header(l: &Layout) -> Vec<u8> {
    let mut h = vec![0u8; SS];
    h[0..8].copy_from_slice(&MAGIC);
    put_u16(&mut h, 24, 0x3E);
    put_u16(&mut h, 26, 3);
    put_u16(&mut h, 28, 0xFFFE);
    put_u16(&mut h, 30, 9);
    put_u16(&mut h, 32, 6);
    put_u32(&mut h, 44, l.fat_locations.len() as u32);
    put_u32(&mut h, 48, l.first_dir);
    put_u32(&mut h, 56, 4096);
    put_u32(&mut h, 60, l.first_minifat);
    put_u32(&mut h, 64, l.num_minifat);
    put_u32(&mut h, 68, l.first_difat);
    put_u32(&mut h, 72, l.num_difat);
    for k in 0..109 {
        let v = if k < l.fat_locations.len() { l.fat_locations[k] } else { FREESECT };
        put_u32(&mut h, 76 + 4 * k, v);
    }
    h
}

fn words_sector(words: &[u32]) -> Vec<u8> {
    let mut s = vec![0xFFu8; SS];
    for (k, w) in words.iter().enumerate() {
        put_u32(&mut s, 4 * k, *w);
    }
    s
}

fn entry(name: &str, kind: u8, left: u32, right: u32, child: u32, start: u32, size: u64) -> Vec<u8> {
    let mut e = vec![0u8; 128];
    let units: Vec<u16> = name.encode_utf16().collect();
    for (k, u) in units.iter().enumerate() {
        put_u16(&mut e, 2 * k, *u);
    }
    if kind != 0 {
        put_u16(&mut e, 64, ((units.len() + 1) * 2) as u16);
    }
    e[66] = kind;
    e[67] = 1;
    put_u32(&mut e, 68, left);
    put_u32(&mut e, 72, right);
    put_u32(&mut e, 76, child);
    put_u32(&mut e, 116, start);
    put_u32(&mut e, 120, size as u32);
    put_u32(&mut e, 124, (size >> 32) as u32);
    e
}

fn dir_sector(entries: &[Vec<u8>]) -> Vec<u8> {
    let mut s = Vec::new();
    for e in entries {
        s.extend_from_slice(e);
    }
    while s.len() < SS {
        s.extend_from_slice(&entry("", 0, NOSTREAM, NOSTREAM, NOSTREAM, 0, 0));
    }
    s
}

fn assemble(l: &Layout, sectors: &[Vec<u8>]) -> Vec<u8> {
    let mut f = header(l);
    for s in sectors {
        assert_eq!(s.len(), SS);
        f.extend_from_slice(s);
    }
    f
}

fn payload(n: usize) -> Vec<u8> {
    (0..n).map(|i| (i * 7 + 3) as u8).collect()
}

/// Sector 0: FAT; 1: directory (root, "Test"); 2: Mini-FAT; 3: mini-stream.
fn mini_file(data: &[u8]) -> Vec<u8> {
    let fat = words_sector(&[FATSECT, ENDOFCHAIN, ENDOFCHAIN, ENDOFCHAIN]);
    let dir = dir_sector(&[
        entry("Root Entry", 5, NOSTREAM, NOSTREAM, 1, 3, 64),
        entry("Test", 2, NOSTREAM, NOSTREAM, NOSTREAM, 0, data.len() as u64),
    ]);
    let minifat = words_sector(&[ENDOFCHAIN]);
    let mut mini = vec![0u8; SS];
    mini[..data.len()].copy_from_slice(data);
    let l = Layout {
        fat_locations: vec![0],
        first_dir: 1,
        first_minifat: 2,
        num_minifat: 1,
        first_difat: ENDOFCHAIN,
        num_difat: 0,
    };
    assemble(&l, &[fat, dir, minifat, mini])
}

/// Sector 0: FAT; 1: directory (root, "Test"); 2.. : the stream.
fn regular_file(data: &[u8]) -> Vec<u8> {
    let n = data.len().div_ceil(SS);
    let mut fat_words = vec![FATSECT, ENDOFCHAIN];
    for k in 0..n {
        let s = 2 + k as u32;
        fat_words.push(if k + 1 == n { ENDOFCHAIN } else { s + 1 });
    }
    let mut sectors = vec![
        words_sector(&fat_words),
        dir_sector(&[
            entry("Root Entry", 5, NOSTREAM, NOSTREAM, 1, ENDOFCHAIN, 0),
            entry("Test", 2, NOSTREAM, NOSTREAM, NOSTREAM, 2, data.len() as u64),
        ]),
    ];
    for k in 0..n {
        let mut s = vec![0u8; SS];
        let end = usize::min(data.len(), (k + 1) * SS);
        s[..end - k * SS].copy_from_slice(&data[k * SS..end]);
        sectors.push(s);
    }
    let l = Layout {
        fat_locations: vec![0],
        first_dir: 1,
        first_minifat: ENDOFCHAIN,
        num_minifat: 0,
        first_difat: ENDOFCHAIN,
        num_difat: 0,
    };
    assemble(&l, &sectors)
}

fn path(p: &[&str]) -> Vec<String> {
    p.iter().map(|s| s.to_string()).collect()
}

#[test]
fn probe_accepts_signature() {
    let mut b = MAGIC.to_vec();
    b.extend_from_slice(&[0, 0]);
    assert_eq!(is_ole(&b), Ok(true));
    assert_eq!(is_ole(&MAGIC), Ok(true));
}

#[test]
fn probe_rejects_other_bytes() {
    let mut b = MAGIC.to_vec();
    b[7] = 0xE0;
    assert_eq!(is_ole(&b), Ok(false));
    assert_eq!(is_ole(&[0u8; 16]), Ok(false));
}

#[test]
fn probe_short_input_is_short_read() {
    assert_eq!(is_ole(&MAGIC[..7]), Err(CfbError::ShortRead));
    assert_eq!(is_ole(&[]), Err(CfbError::ShortRead));
}

#[test]
fn round_trip_mini_stream() {
    let data = payload(10);
    let cf = CompoundFile::open(mini_file(&data)).unwrap();
    let e = cf.resolve(&path(&["Test"])).unwrap();
    assert_eq!(e.kind, EntryKind::Stream);
    assert_eq!(e.stream_size, 10);
    assert_eq!(cf.read_stream(&e).unwrap(), data);
}

#[test]
fn round_trip_regular_stream() {
    let data = payload(5000);
    let cf = CompoundFile::open(regular_file(&data)).unwrap();
    let e = cf.resolve(&path(&["Test"])).unwrap();
    assert_eq!(e.stream_size, 5000);
    assert_eq!(cf.read_stream(&e).unwrap(), data);
}

#[test]
fn walk_follows_chain() {
    let t = vec![FATSECT, 2, 4, ENDOFCHAIN, ENDOFCHAIN];
    assert_eq!(walk(&t, 1, 5), Ok(vec![1, 2, 4]));
    assert_eq!(walk(&t, ENDOFCHAIN, 5), Ok(vec![]));
}

#[test]
fn walk_cycle_is_corrupt_chain() {
    let mut t = vec![FREESECT; 8];
    t[3] = 5;
    t[5] = 3;
    assert_eq!(walk(&t, 3, 8), Err(CfbError::CorruptChain));
    assert_eq!(walk(&t, 5, 8), Err(CfbError::CorruptChain));
}

#[test]
fn walk_out_of_table_is_corrupt_chain() {
    let t = vec![1, 9];
    assert_eq!(walk(&t, 0, 2), Err(CfbError::CorruptChain));
    assert_eq!(walk(&t, FREESECT, 2), Err(CfbError::CorruptChain));
}

#[test]
fn corrupt_stream_chain_fails_only_that_read() {
    let data = payload(5000);
    let mut f = regular_file(&data);
    // sector 5 points back to sector 3
    put_u32(&mut f, SS + 4 * 5, 3);
    let cf = CompoundFile::open(f).unwrap();
    let e = cf.resolve(&path(&["Test"])).unwrap();
    assert_eq!(cf.read_stream(&e), Err(CfbError::CorruptChain));
    assert_eq!(cf.root().kind, EntryKind::Root);
}

/// Root has one storage "S" holding streams "b" and "aa".
fn tree_file() -> Vec<u8> {
    let fat = words_sector(&[FATSECT, ENDOFCHAIN]);
    let dir = dir_sector(&[
        entry("Root Entry", 5, NOSTREAM, NOSTREAM, 1, ENDOFCHAIN, 0),
        entry("S", 1, NOSTREAM, NOSTREAM, 2, 0, 0),
        entry("aa", 2, 3, NOSTREAM, NOSTREAM, ENDOFCHAIN, 0),
        entry("b", 2, NOSTREAM, NOSTREAM, NOSTREAM, ENDOFCHAIN, 0),
    ]);
    let l = Layout {
        fat_locations: vec![0],
        first_dir: 1,
        first_minifat: ENDOFCHAIN,
        num_minifat: 0,
        first_difat: ENDOFCHAIN,
        num_difat: 0,
    };
    assemble(&l, &[fat, dir])
}

#[test]
fn resolve_missing_storage_is_not_found() {
    let cf = CompoundFile::open(tree_file()).unwrap();
    assert!(matches!(cf.resolve(&path(&["A", "B"])), Err(CfbError::NotFound)));
    assert!(matches!(cf.resolve(&path(&["S", "c"])), Err(CfbError::NotFound)));
}

#[test]
fn resolve_through_storage_ignores_case() {
    let cf = CompoundFile::open(tree_file()).unwrap();
    let e = cf.resolve(&path(&["s", "AA"])).unwrap();
    assert_eq!(e.id, 2);
    assert_eq!(e.name_string(), "aa");
    let root = cf.resolve(&path(&[])).unwrap();
    assert_eq!(root.id, 0);
}

#[test]
fn resolve_below_stream_is_not_found() {
    let cf = CompoundFile::open(tree_file()).unwrap();
    assert!(matches!(cf.resolve(&path(&["S", "b", "x"])), Err(CfbError::NotFound)));
}

#[test]
fn children_shorter_name_first() {
    let cf = CompoundFile::open(tree_file()).unwrap();
    let s = cf.resolve(&path(&["S"])).unwrap();
    let names: Vec<String> = cf.children_of(&s).unwrap().iter().map(|e| e.name_string()).collect();
    assert_eq!(names, vec!["b".to_string(), "aa".to_string()]);
    let top: Vec<String> =
        cf.children_of(&cf.root()).unwrap().iter().map(|e| e.name_string()).collect();
    assert_eq!(top, vec!["S".to_string()]);
}

#[test]
fn children_cycle_is_reported() {
    let mut f = tree_file();
    // "b" (entry 3) gets "aa" (entry 2) as its left sibling: 2 -> 3 -> 2
    put_u32(&mut f, SS + SS + 3 * 128 + 68, 2);
    let cf = CompoundFile::open(f).unwrap();
    let s = cf.resolve(&path(&["S"])).unwrap();
    assert!(matches!(cf.children_of(&s), Err(CfbError::CorruptChain)));
}

fn plain_header() -> Vec<u8> {
    header(&Layout {
        fat_locations: vec![0],
        first_dir: 1,
        first_minifat: ENDOFCHAIN,
        num_minifat: 0,
        first_difat: ENDOFCHAIN,
        num_difat: 0,
    })
}

#[test]
fn version_three_with_large_sectors_is_invalid() {
    let mut h = plain_header();
    put_u16(&mut h, 30, 12);
    assert!(matches!(
        parse_header(&h),
        Err(CfbError::InvalidHeader(HeaderProblem::SectorShift))
    ));
    assert!(matches!(
        CompoundFile::open(h),
        Err(CfbError::InvalidHeader(HeaderProblem::SectorShift))
    ));
}

#[test]
fn version_three_counting_dir_sectors_gives_one_diagnostic() {
    let mut h = plain_header();
    put_u32(&mut h, 40, 1);
    let hd = parse_header(&h).unwrap();
    assert_eq!(hd.diagnostics(), vec![Diagnostic::DirSectorsInVersion3]);
    assert_eq!(hd.validate(), vec![Diagnostic::DirSectorsInVersion3]);
    assert_eq!(hd.num_of_dir_sectiors(), None);
}

#[test]
fn clean_header_has_no_diagnostics() {
    let cf = CompoundFile::open(tree_file()).unwrap();
    assert!(cf.diagnostics().is_empty());
    assert_eq!(cf.header.sector_shift(), 9);
    assert_eq!(cf.header.major_version(), 3);
    assert_eq!(cf.header.difat()[0], 0);
}

#[test]
fn header_policy_diagnostics_in_order() {
    let mut h = plain_header();
    h[8] = 1;
    put_u16(&mut h, 24, 0x3B);
    put_u16(&mut h, 28, 0xFEFF);
    h[36] = 7;
    let hd = parse_header(&h).unwrap();
    assert_eq!(
        hd.diagnostics(),
        vec![
            Diagnostic::ClsidNotNull,
            Diagnostic::MinorVersion,
            Diagnostic::ByteOrder,
            Diagnostic::ReservedNotZero
        ]
    );
    assert!(!hd.header_clsid().is_null());
}

#[test]
fn header_errors() {
    let mut h = plain_header();
    h[0] = 0;
    assert!(matches!(parse_header(&h), Err(CfbError::InvalidHeader(HeaderProblem::Signature))));
    let h = plain_header();
    assert!(matches!(
        parse_header(&h[..100]),
        Err(CfbError::InvalidHeader(HeaderProblem::TooShort))
    ));
    let mut h = plain_header();
    put_u16(&mut h, 32, 7);
    assert!(matches!(
        parse_header(&h),
        Err(CfbError::InvalidHeader(HeaderProblem::MiniSectorShift))
    ));
    let mut h = plain_header();
    put_u16(&mut h, 26, 4);
    put_u16(&mut h, 30, 12);
    assert!(parse_header(&h).is_ok());
}

#[test]
fn missing_sector_is_out_of_range() {
    let buf = OLeFileBuffer::new(plain_header());
    assert_eq!(buf.read_sector(512, 0), Err(CfbError::OutOfRange));
    let f = tree_file();
    let buf = OLeFileBuffer::new(f);
    assert_eq!(buf.read_sector(512, 1).unwrap().len(), 512);
    assert_eq!(buf.read_sector(512, 2), Err(CfbError::OutOfRange));
    // the directory chain points past the end of the file
    let mut f = tree_file();
    put_u32(&mut f, 48, 7);
    put_u32(&mut f, SS, 0);
    let mut fat = vec![FATSECT, ENDOFCHAIN, 0, 0, 0, 0, 0, ENDOFCHAIN];
    fat.resize(128, FREESECT);
    f[SS..2 * SS].copy_from_slice(&words_sector(&fat));
    assert!(matches!(CompoundFile::open(f), Err(CfbError::OutOfRange)));
}

#[test]
fn unknown_entry_kind_is_invalid_entry() {
    let mut f = tree_file();
    f[SS + SS + 2 * 128 + 66] = 9;
    assert!(matches!(CompoundFile::open(f), Err(CfbError::InvalidEntry)));
}

#[test]
fn first_entry_must_be_root() {
    let mut f = tree_file();
    f[SS + SS + 66] = 1;
    assert!(matches!(CompoundFile::open(f), Err(CfbError::InvalidEntry)));
}

#[test]
fn fat_follows_difat_chain() {
    // 130 FAT sectors (0..=129), one DIFAT sector (130), the directory (131).
    let n_fat = 130u32;
    let difat_sector = 130u32;
    let dir_sector_id = 131u32;
    let mut table = vec![FREESECT; (n_fat as usize) * 128];
    for k in 0..n_fat {
        table[k as usize] = FATSECT;
    }
    table[difat_sector as usize] = DIFSECT;
    table[dir_sector_id as usize] = ENDOFCHAIN;
    let mut sectors: Vec<Vec<u8>> = Vec::new();
    for k in 0..n_fat as usize {
        sectors.push(words_sector(&table[k * 128..(k + 1) * 128]));
    }
    let mut difat_words: Vec<u32> = (109..n_fat).collect();
    difat_words.resize(127, FREESECT);
    difat_words.push(ENDOFCHAIN);
    sectors.push(words_sector(&difat_words));
    sectors.push(dir_sector(&[entry("Root Entry", 5, NOSTREAM, NOSTREAM, NOSTREAM, ENDOFCHAIN, 0)]));
    let l = Layout {
        fat_locations: (0..n_fat).collect(),
        first_dir: dir_sector_id,
        first_minifat: ENDOFCHAIN,
        num_minifat: 0,
        first_difat: difat_sector,
        num_difat: 1,
    };
    let f = assemble(&l, &sectors);
    let buf = OLeFileBuffer::new(f.clone());
    let h = buf.read_ole_file_header().unwrap();
    let locs = buf.read_difat_array(&h).unwrap();
    assert_eq!(locs, (0..n_fat).collect::<Vec<u32>>());
    let fat = buf.read_fat_sector(&h).unwrap();
    assert_eq!(fat, table);
    assert_eq!(fat[129], FATSECT);
    assert_eq!(fat[130], DIFSECT);
    let cf = CompoundFile::open(f).unwrap();
    assert_eq!(cf.root().kind, EntryKind::Root);
    assert!(cf.children_of(&cf.root()).unwrap().is_empty());
}

#[test]
fn difat_chain_cut_short_is_corrupt() {
    let l = Layout {
        fat_locations: (0..110).collect(),
        first_dir: 0,
        first_minifat: ENDOFCHAIN,
        num_minifat: 0,
        first_difat: ENDOFCHAIN,
        num_difat: 0,
    };
    let f = assemble(&l, &[]);
    let buf = OLeFileBuffer::new(f);
    let h = buf.read_ole_file_header().unwrap();
    assert_eq!(buf.read_difat_array(&h), Err(CfbError::CorruptChain));
}

#[test]
fn mini_fat_is_read_along_its_chain() {
    let f = mini_file(&payload(10));
    let buf = OLeFileBuffer::new(f);
    let h = buf.read_ole_file_header().unwrap();
    let fat = buf.read_fat_sector(&h).unwrap();
    assert_eq!(&fat[..4], &[FATSECT, ENDOFCHAIN, ENDOFCHAIN, ENDOFCHAIN]);
    let mini = buf.read_mini_fat_sector(&h, &fat).unwrap();
    assert_eq!(mini.len(), 128);
    assert_eq!(mini[0], ENDOFCHAIN);
    assert_eq!(mini[1], FREESECT);
}

#[test]
fn short_chain_for_size_is_corrupt() {
    let data = payload(10);
    let mut f = mini_file(&data);
    // claim 100 bytes in one 64-byte mini-sector
    put_u32(&mut f, SS + SS + 128 + 120, 100);
    let cf = CompoundFile::open(f).unwrap();
    let e = cf.resolve(&path(&["Test"])).unwrap();
    assert_eq!(cf.read_stream(&e), Err(CfbError::CorruptChain));
}

#[test]
fn walk_longer_than_sector_count_is_corrupt_chain() {
    let t = vec![1, 2, 3, ENDOFCHAIN];
    assert_eq!(walk(&t, 0, 4), Ok(vec![0, 1, 2, 3]));
    assert_eq!(walk(&t, 0, 3), Err(CfbError::CorruptChain));
}

#[test]
fn difat_sector_pointing_to_itself_is_corrupt() {
    // 237 FAT sectors: 109 in the header, the rest would need two DIFAT sectors.
    let mut difat_words: Vec<u32> = vec![0; 127];
    difat_words.push(0);
    let l = Layout {
        fat_locations: vec![0; 237],
        first_dir: 0,
        first_minifat: ENDOFCHAIN,
        num_minifat: 0,
        first_difat: 0,
        num_difat: 2,
    };
    let f = assemble(&l, &[words_sector(&difat_words), vec![0u8; SS]]);
    let buf = OLeFileBuffer::new(f.clone());
    let h = buf.read_ole_file_header().unwrap();
    assert_eq!(buf.read_difat_array(&h), Err(CfbError::CorruptChain));
    assert!(matches!(CompoundFile::open(f), Err(CfbError::CorruptChain)));
}

#[test]
fn mini_fat_takes_counted_sectors() {
    let mut f = mini_file(&payload(10));
    put_u32(&mut f, 64, 0);
    let buf = OLeFileBuffer::new(f.clone());
    let h = buf.read_ole_file_header().unwrap();
    let fat = buf.read_fat_sector(&h).unwrap();
    assert_eq!(buf.read_mini_fat_sector(&h, &fat), Ok(vec![]));
    put_u32(&mut f, 64, 2);
    let buf = OLeFileBuffer::new(f);
    let h = buf.read_ole_file_header().unwrap();
    assert_eq!(buf.read_mini_fat_sector(&h, &fat), Err(CfbError::CorruptChain));
}

#[test]
fn shared_sibling_is_corrupt() {
    let mut f = tree_file();
    // "aa" (entry 2) gets "b" (entry 3) on both sides
    put_u32(&mut f, SS + SS + 2 * 128 + 72, 3);
    let cf = CompoundFile::open(f).unwrap();
    let s = cf.resolve(&path(&["S"])).unwrap();
    assert!(matches!(cf.children_of(&s), Err(CfbError::CorruptChain)));
}

#[test]
fn sibling_order_warning() {
    let cf = CompoundFile::open(tree_file()).unwrap();
    let s = cf.resolve(&path(&["S"])).unwrap();
    assert_eq!(order_warning(&cf.children_of(&s).unwrap()), None);
    let mut f = tree_file();
    // "b" moves from the left to the right of "aa": listed ["aa", "b"]
    put_u32(&mut f, SS + SS + 2 * 128 + 68, NOSTREAM);
    put_u32(&mut f, SS + SS + 2 * 128 + 72, 3);
    let cf = CompoundFile::open(f).unwrap();
    let s = cf.resolve(&path(&["S"])).unwrap();
    let kids = cf.children_of(&s).unwrap();
    let names: Vec<String> = kids.iter().map(|e| e.name_string()).collect();
    assert_eq!(names, vec!["aa".to_string(), "b".to_string()]);
    assert_eq!(order_warning(&kids), Some(Diagnostic::SiblingOrder));
    assert_eq!(cf.diagnostics(), &vec![Diagnostic::SiblingOrder]);
}

#[test]
fn conformant_header_validates_clean() {
    let hd = parse_header(&plain_header()).unwrap();
    assert!(hd.validate().is_empty());
    let mut h = plain_header();
    h[20] = 0x55;
    let hd = parse_header(&h).unwrap();
    assert_eq!(hd.validate(), vec![Diagnostic::ClsidNotNull]);
}

#[test]
fn resolve_folds_non_ascii_letters() {
    let mut f = tree_file();
    // rename storage "S" (entry 1) to "É"
    put_u16(&mut f, SS + SS + 128, 0x00C9);
    let cf = CompoundFile::open(f).unwrap();
    let e = cf.resolve(&path(&["é", "aa"])).unwrap();
    assert_eq!(e.id, 2);
    assert!(matches!(cf.resolve(&path(&["e", "aa"])), Err(CfbError::NotFound)));
}

#[test]
fn difat_chain_not_ending_is_corrupt() {
    // 130 FAT sectors: 109 in the header, 21 in DIFAT sector 1, which points to itself.
    let mut difat_words: Vec<u32> = (109..130).collect();
    difat_words.resize(127, FREESECT);
    difat_words.push(1);
    let l = Layout {
        fat_locations: (0..130).collect(),
        first_dir: 0,
        first_minifat: ENDOFCHAIN,
        num_minifat: 0,
        first_difat: 1,
        num_difat: 1,
    };
    let f = assemble(&l, &[vec![0u8; SS], words_sector(&difat_words)]);
    let buf = OLeFileBuffer::new(f.clone());
    let h = buf.read_ole_file_header().unwrap();
    assert_eq!(buf.read_difat_array(&h), Err(CfbError::CorruptChain));
    assert!(matches!(CompoundFile::open(f), Err(CfbError::CorruptChain)));
}

fn version_four_header() -> Vec<u8> {
    let mut h = plain_header();
    put_u16(&mut h, 26, 4);
    put_u16(&mut h, 30, 12);
    h.resize(4096, 0);
    h
}

#[test]
fn version_four_padding_must_be_zero() {
    let h = version_four_header();
    assert!(parse_header(&h).unwrap().diagnostics().is_empty());
    let mut h = version_four_header();
    h[3000] = 1;
    assert_eq!(parse_header(&h).unwrap().diagnostics(), vec![Diagnostic::PaddingNotZero]);
    // past the header sector nothing counts as padding
    let mut h = version_four_header();
    h.push(9);
    assert!(parse_header(&h).unwrap().diagnostics().is_empty());
}
