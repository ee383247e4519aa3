use shin_tl::rom::allocate::Allocator;
use shin_tl::rom::header::{RomHeader, RomHeaderV1, RomHeaderV2};
use shin_tl::rom::index::{NameOffsetAndFlags, RawEntry, DIRECTORY_OFFSET_MULTIPLIER};
use shin_tl::rom::progress::{ProgressAction, RomCounter, RomProgress, RomTimingSummary};
use shin_tl::versions::RomVersion;

#[test]
fn header_v1_read() {
    let data = [0x10, 0x20, 0, 0, 1, 2, 3, 4, 0xaa];
    let h = RomHeader::read(RomVersion::Rom1V2_1, &data).unwrap();
    assert_eq!(h.index_size(), 0x2010);
    assert_eq!(h.file_offset_multiplier(), 0x800);
    match h {
        RomHeader::V1(v1) => assert_eq!(v1.unk, [1, 2, 3, 4]),
        RomHeader::V2(_) => panic!("expected a version 1 header"),
    }
    assert!(RomHeader::read(RomVersion::Rom1V2_1, &data[..7]).is_none());
}

#[test]
fn header_v2_read() {
    let mut data = vec![0x00, 0x01, 0, 0, 0x00, 0x02, 0, 0];
    data.extend(1..=16u8);
    let h = RomHeader::read(RomVersion::Rom2V1_1, &data).unwrap();
    assert_eq!(h.index_size(), 0x100);
    assert_eq!(h.file_offset_multiplier(), 0x200);
    assert!(RomHeader::read(RomVersion::Rom2V1_0, &data[..23]).is_none());
    assert!(RomHeader::read(RomVersion::Rom2V1_0, &data).is_some());
}

#[test]
fn header_write_read_roundtrip() {
    let v1 = RomHeader::V1(RomHeaderV1 { index_size: 0xdeadbeef, unk: [9, 8, 7, 6] });
    let bytes = v1.write();
    assert_eq!(bytes, vec![0xef, 0xbe, 0xad, 0xde, 9, 8, 7, 6]);
    assert_eq!(bytes.len(), RomHeaderV1::SIZE);
    let back = RomHeader::read(RomVersion::Rom1V2_1, &bytes).unwrap();
    assert_eq!(back.write(), bytes);

    let v2 = RomHeader::V2(RomHeaderV2 { index_size: 5, file_offset_multiplier: 0x200, unk: [3; 16] });
    let bytes = v2.write();
    assert_eq!(bytes.len(), RomHeaderV2::SIZE);
    assert_eq!(&bytes[..8], &[5, 0, 0, 0, 0, 2, 0, 0]);
    let back = RomHeader::read(RomVersion::Rom2V1_1, &bytes).unwrap();
    assert_eq!(back.index_size(), 5);
    assert_eq!(back.file_offset_multiplier(), 0x200);
    assert_eq!(back.write(), bytes);
}

#[test]
fn name_offset_and_flags_fields() {
    let f = NameOffsetAndFlags(0x8000_0010);
    assert_eq!(f.name_offset(), 0x10);
    assert!(f.is_directory());
    let g = NameOffsetAndFlags(0x7fff_ffff);
    assert_eq!(g.name_offset(), 0x7fff_ffff);
    assert!(!g.is_directory());
    let h = f.with_name_offset(0xffff_ffff);
    assert_eq!(h.0, 0xffff_ffff);
    let d = NameOffsetAndFlags(0).with_is_directory(true).with_name_offset(42);
    assert_eq!(d.0, 0x8000_002a);
    assert_eq!(d.with_is_directory(false).0, 42);
    assert_eq!(DIRECTORY_OFFSET_MULTIPLIER, 0x10);
}

#[test]
fn entry_read_write_roundtrip() {
    let e = RawEntry { name_and_flags: NameOffsetAndFlags(0x8000_0004), data_offset: 0x10, data_size: 0x1234 };
    let bytes = e.write();
    assert_eq!(bytes, vec![4, 0, 0, 0x80, 0x10, 0, 0, 0, 0x34, 0x12, 0, 0]);
    assert_eq!(bytes.len(), RawEntry::SIZE);
    let mut data = vec![0xff, 0xff];
    data.extend_from_slice(&bytes);
    let back = RawEntry::read(&data, 2).unwrap();
    assert_eq!(back.name_and_flags.0, 0x8000_0004);
    assert_eq!(back.data_offset, 0x10);
    assert_eq!(back.data_size, 0x1234);
    assert!(RawEntry::read(&data, 3).is_none());
    assert!(RawEntry::read(&data, 100).is_none());
}

#[test]
fn allocator_allocates_and_aligns() {
    let mut a = Allocator::new(0x10);
    assert_eq!(a.allocate(5), 0x10);
    assert_eq!(a.position, 0x15);
    a.align(0x10);
    assert_eq!(a.position, 0x20);
    a.align(0x10);
    assert_eq!(a.position, 0x20);
    assert_eq!(a.allocate(0), 0x20);
    a.align(0x800);
    assert_eq!(a.position, 0x800);
}

#[test]
fn counters_count() {
    let mut c = RomCounter::new();
    c.add_file(100);
    c.add_file(23);
    c.add_directory();
    assert_eq!(c.files, 2);
    assert_eq!(c.bytes, 123);
    assert_eq!(c.directories, 1);

    let mut p = RomProgress::new(c);
    p.add_file(100);
    assert_eq!(p.running_counter.files, 1);
    assert_eq!(p.running_counter.bytes, 100);
    assert_eq!(p.total_counter.bytes, 123);

    let s = RomTimingSummary::new(ProgressAction::Extract);
    assert_eq!(s.action, ProgressAction::Extract);
}
