use shin_tl::rom::allocate::{archive_fits, rom_allocate, rom_allocate_checked};
use shin_tl::rom::create::{walk_input_fs, InputDirectory, InputEntry, InputFile};
use shin_tl::rom::extract::rom_read_index;
use shin_tl::rom::index::RawEntry;
use shin_tl::rom::write::{index_fits_checked, rom_write_index, WriteWrapper};
use shin_tl::versions::{RomDirectoryOffsetDisposition, RomVersion, RomVersionFacts};

fn entry(name: &str, e: InputEntry) -> (String, Vec<u8>, InputEntry) {
    (name.to_string(), name.as_bytes().to_vec(), e)
}

/// `/a/x` (5 bytes) and `/b.txt` (3 bytes).
fn small_tree() -> InputDirectory {
    let a = InputDirectory(vec![entry("x", InputEntry::File(InputFile(5)))]);
    InputDirectory(vec![entry("a", InputEntry::Directory(a)), entry("b.txt", InputEntry::File(InputFile(3)))])
}

fn facts(version: RomVersion, disposition: RomDirectoryOffsetDisposition) -> RomVersionFacts {
    RomVersionFacts { version, head_bytes: vec![1, 2, 3, 4, 5, 6, 7, 8], directory_offset_disposition: disposition }
}

fn le32(v: u32) -> Vec<u8> {
    v.to_le_bytes().to_vec()
}

fn raw(flags: u32, offset: u32, size: u32) -> Vec<u8> {
    [le32(flags), le32(offset), le32(size)].concat()
}

#[test]
fn walk_gives_children_consecutive_indices() {
    // root
    // ├─ a (1)
    // │  ├─ c (3)
    // │  └─ d (4)
    // └─ b (2)
    //    └─ e (5)
    let dir = |entries: Vec<(String, Vec<u8>, InputEntry)>| InputEntry::Directory(InputDirectory(entries));
    let root = InputDirectory(vec![
        entry("a", dir(vec![entry("c", dir(vec![])), entry("d", dir(vec![]))])),
        entry("b", dir(vec![entry("e", dir(vec![]))])),
    ]);
    let walk = walk_input_fs(&root);
    let seen: Vec<(usize, usize, usize)> = walk.iter().map(|w| (w.index, w.parent, w.first_child)).collect();
    assert_eq!(seen, vec![(0, 0, 1), (1, 0, 3), (3, 1, 5), (4, 1, 5), (2, 0, 5), (5, 2, 6)]);
}

#[test]
fn allocate_small_tree() {
    let tree = small_tree();
    let r = rom_allocate(&facts(RomVersion::Rom2V1_1, RomDirectoryOffsetDisposition::FromIndexStart), &tree);
    assert_eq!(r.index_offset, 32);
    assert_eq!(r.directory_positions, vec![(32, 65), (112, 47)]);
    assert_eq!(r.directory_parent_indices, vec![0, 0]);
    assert_eq!(r.index_size, 128);
    assert_eq!(r.file_offset_multiplier, 0x200);
    assert_eq!(r.file_positions, vec![(512, 3), (1024, 5)]);
    assert_eq!(r.file_size, 1536);

    let r = rom_allocate(&facts(RomVersion::Rom1V2_1, RomDirectoryOffsetDisposition::FromStart), &tree);
    assert_eq!(r.index_offset, 16);
    assert_eq!(r.directory_positions, vec![(16, 65), (96, 47)]);
    assert_eq!(r.index_size, 144 - 16);
    assert_eq!(r.file_offset_multiplier, 0x800);
    assert_eq!(r.file_positions, vec![(0x800, 3), (0x1000, 5)]);
    assert_eq!(r.file_size, 0x1800);
}

#[test]
fn write_index_of_small_tree() {
    let tree = small_tree();
    let facts = facts(RomVersion::Rom2V1_1, RomDirectoryOffsetDisposition::FromIndexStart);
    let r = rom_allocate(&facts, &tree);
    let bytes = rom_write_index(&facts, &tree, &r);

    let mut expected = vec![1, 2, 3, 4, 5, 6, 7, 8];
    expected.extend(le32(128));
    expected.extend(le32(0x200));
    expected.extend(b"ShinTransltTools");
    // the root: four entries, then their names
    expected.extend(le32(4));
    expected.extend(raw(0x8000_0000 | 52, 0, 65));
    expected.extend(raw(0x8000_0000 | 54, 0, 65));
    expected.extend(raw(0x8000_0000 | 57, 5, 47));
    expected.extend(raw(59, 1, 3));
    expected.extend(b".\0..\0a\0b.txt\0");
    assert_eq!(expected.len(), 97);
    expected.extend([0u8; 15]);
    // `a`, at 112
    expected.extend(le32(3));
    expected.extend(raw(0x8000_0000 | 40, 5, 47));
    expected.extend(raw(0x8000_0000 | 42, 0, 65));
    expected.extend(raw(45, 2, 5));
    expected.extend(b".\0..\0x\0");
    assert_eq!(bytes, expected);
}

#[test]
fn write_index_counts_directory_offsets_from_the_start() {
    let tree = small_tree();
    let facts = facts(RomVersion::Rom1V2_1, RomDirectoryOffsetDisposition::FromStart);
    let r = rom_allocate(&facts, &tree);
    let bytes = rom_write_index(&facts, &tree, &r);
    assert_eq!(&bytes[8..16], &[128, 0, 0, 0, b'S', b'h', b'i', b'n']);
    // the root's `.` entry points at 16 / 16
    assert_eq!(&bytes[20..32], raw(0x8000_0000 | 52, 1, 65).as_slice());
    // `a` is at 96
    assert_eq!(&bytes[16 + 4 + 24..16 + 4 + 36], raw(0x8000_0000 | 57, 6, 47).as_slice());
    assert_eq!(bytes.len(), 96 + 47);
}

#[test]
fn write_wrapper_aligns() {
    let mut w = WriteWrapper { offset: 0x201 };
    assert_eq!(w.align(0x200), 0x1ff);
    assert_eq!(w.offset, 0x400);
    assert_eq!(w.align(0x200), 0);
    w.advance(3);
    assert_eq!(w.offset, 0x403);
}

#[test]
fn index_entries_read_back() {
    let tree = small_tree();
    let facts = facts(RomVersion::Rom2V1_1, RomDirectoryOffsetDisposition::FromIndexStart);
    let r = rom_allocate(&facts, &tree);
    let bytes = rom_write_index(&facts, &tree, &r);
    let root = r.directory_positions[0].0 as usize;
    assert_eq!(&bytes[root..root + 4], &[4, 0, 0, 0]);

    // the entry for `a` leads to where `a` was placed, and names it
    let a = RawEntry::read(&bytes, root + 4 + 12 * 2).unwrap();
    assert!(a.name_and_flags.is_directory());
    assert_eq!(r.index_offset + a.data_offset as u64 * 16, r.directory_positions[1].0);
    assert_eq!(a.data_size as u64, r.directory_positions[1].1);
    let name = root + a.name_and_flags.name_offset() as usize;
    assert_eq!(&bytes[name..name + 2], b"a\0");

    // the entry for `b.txt` leads to its data
    let b = RawEntry::read(&bytes, root + 4 + 12 * 3).unwrap();
    assert!(!b.name_and_flags.is_directory());
    assert_eq!(b.data_offset as u64 * r.file_offset_multiplier, r.file_positions[0].0);
    assert_eq!(b.data_size, 3);
    let name = root + b.name_and_flags.name_offset() as usize;
    assert_eq!(&bytes[name..name + 6], b"b.txt\0");

    // `..` of `a` leads back to the root
    let here = r.directory_positions[1].0 as usize;
    let up = RawEntry::read(&bytes, here + 4 + 12).unwrap();
    assert_eq!(r.index_offset + up.data_offset as u64 * 16, r.directory_positions[0].0);
}

fn written_archive(facts: &RomVersionFacts) -> Vec<u8> {
    let tree = small_tree();
    let r = rom_allocate(facts, &tree);
    let mut bytes = rom_write_index(facts, &tree, &r);
    bytes.resize(r.file_size as usize, 0);
    bytes
}

#[test]
fn read_index_gives_back_the_written_files() {
    let expected = vec![(b"a/x".to_vec(), 1024u64, 5u64), (b"b.txt".to_vec(), 512u64, 3u64)];
    let f = facts(RomVersion::Rom2V1_1, RomDirectoryOffsetDisposition::FromIndexStart);
    assert_eq!(rom_read_index(&f, &written_archive(&f)), Some(expected));

    let f = facts(RomVersion::Rom1V2_1, RomDirectoryOffsetDisposition::FromStart);
    let expected = vec![(b"a/x".to_vec(), 0x1000u64, 5u64), (b"b.txt".to_vec(), 0x800u64, 3u64)];
    assert_eq!(rom_read_index(&f, &written_archive(&f)), Some(expected));
}

#[test]
fn read_index_refuses_a_cut_archive() {
    let f = facts(RomVersion::Rom2V1_1, RomDirectoryOffsetDisposition::FromIndexStart);
    let bytes = written_archive(&f);
    assert_eq!(rom_read_index(&f, &bytes[..20]), None);
    // the root directory is there, but `a` is cut off
    assert_eq!(rom_read_index(&f, &bytes[..100]), None);
    // a name without its terminating zero
    assert_eq!(rom_read_index(&f, &bytes[..95]), None);
}

#[test]
fn checked_allocation_refuses_what_64_bits_cannot_address() {
    let f = facts(RomVersion::Rom2V1_1, RomDirectoryOffsetDisposition::FromIndexStart);
    let tree = small_tree();
    assert!(archive_fits(&f, &tree));
    let r = rom_allocate_checked(&f, &tree).unwrap();
    assert_eq!(r.file_size, 1536);
    assert!(index_fits_checked(&f, &r));

    let huge = InputDirectory(vec![entry("big", InputEntry::File(InputFile(u64::MAX - 100)))]);
    assert!(!archive_fits(&f, &huge));
    assert!(rom_allocate_checked(&f, &huge).is_none());

    // a 5 GiB file can be laid out, but its size does not fit the index
    let large = InputDirectory(vec![entry("big", InputEntry::File(InputFile(5 << 30)))]);
    let r = rom_allocate_checked(&f, &large).unwrap();
    assert!(!index_fits_checked(&f, &r));
}
