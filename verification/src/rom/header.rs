//! The archive header that follows the magic and version bytes.
use vstd::prelude::*;

use crate::le::{le_bytes, le_value, lemma_byte_bound_small, lemma_le_bytes_len, lemma_le_bytes_of_value, lemma_le_value_of_bytes};
use crate::snr::reader::Reader;
use crate::snr::writer::{RealWriter, Writer};
use crate::versions::RomVersion;

verus! {

/// The header of a version 1 archive.
#[derive(Debug, Clone, Copy)]
pub struct RomHeaderV1 {
    pub index_size: u32,
    pub unk: [u8; 4],
}

impl RomHeaderV1 {
    /// The file offset multiplier of every version 1 archive.
    pub const DEFAULT_FILE_OFFSET_MULTIPLIER: usize = 0x800;

    /// The size of the header in bytes.
    pub const SIZE: usize = 8;
}

/// The header of a version 2 archive.
#[derive(Debug, Clone, Copy)]
pub struct RomHeaderV2 {
    pub index_size: u32,
    pub file_offset_multiplier: u32,
    pub unk: [u8; 16],
}

impl RomHeaderV2 {
    /// The file offset multiplier written by default in version 2 archives.
    pub const DEFAULT_FILE_OFFSET_MULTIPLIER: usize = 0x200;

    /// The size of the header in bytes.
    pub const SIZE: usize = 24;
}

/// The header of an archive; which one is read depends on the archive version.
#[derive(Debug, Clone, Copy)]
pub enum RomHeader {
    V1(RomHeaderV1),
    V2(RomHeaderV2),
}

/// Whether an archive version has a version 1 header.
pub open spec fn has_v1_header(version: RomVersion) -> bool {
    version == RomVersion::Rom1V2_1
}

/// The size of the header of an archive version.
pub open spec fn header_size(version: RomVersion) -> nat {
    if has_v1_header(version) {
        8
    } else {
        24
    }
}

/// The little-endian bytes of a header.
pub open spec fn header_bytes(h: RomHeader) -> Seq<u8> {
    match h {
        RomHeader::V1(v) => le_bytes(v.index_size as nat, 4) + v.unk@,
        RomHeader::V2(v) => le_bytes(v.index_size as nat, 4) + le_bytes(v.file_offset_multiplier as nat, 4)
            + v.unk@,
    }
}

/// The file offset multiplier of new archives of `version`.
pub open spec fn default_multiplier(version: RomVersion) -> nat {
    if has_v1_header(version) {
        0x800
    } else {
        0x200
    }
}

/// Whether a header is of the kind an archive version has.
pub open spec fn header_matches(h: RomHeader, version: RomVersion) -> bool {
    (h is V1) == has_v1_header(version)
}

impl RomHeader {
    pub fn index_size(&self) -> (r: usize)
        ensures
            r == match *self {
                RomHeader::V1(h) => h.index_size,
                RomHeader::V2(h) => h.index_size,
            },
    {
        match self {
            RomHeader::V1(h) => h.index_size as usize,
            RomHeader::V2(h) => h.index_size as usize,
        }
    }

    /// The unit of file offsets: fixed in version 1, stored in the header in version 2.
    pub fn file_offset_multiplier(&self) -> (r: usize)
        ensures
            r == match *self {
                RomHeader::V1(_) => 0x800,
                RomHeader::V2(h) => h.file_offset_multiplier as int,
            },
    {
        match self {
            RomHeader::V1(_) => RomHeaderV1::DEFAULT_FILE_OFFSET_MULTIPLIER,
            RomHeader::V2(h) => h.file_offset_multiplier as usize,
        }
    }

    /// The file offset multiplier of new archives of `version`.
    pub fn default_file_offset_multiplier(version: RomVersion) -> (r: usize)
        ensures
            r == default_multiplier(version),
    {
        match version {
            RomVersion::Rom1V2_1 => RomHeaderV1::DEFAULT_FILE_OFFSET_MULTIPLIER,
            RomVersion::Rom2V1_0 | RomVersion::Rom2V1_1 => RomHeaderV2::DEFAULT_FILE_OFFSET_MULTIPLIER,
        }
    }

    /// Reads the header of an archive of `version` from the start of `data`; `None` where
    /// `data` is too short.
    pub fn read(version: RomVersion, data: &[u8]) -> (r: Option<Self>)
        ensures
            r is None <==> data@.len() < header_size(version),
            r matches Some(h) ==> header_matches(h, version) && header_bytes(h) == data@.take(
                header_size(version) as int,
            ),
    {
        let mut reader = Reader::new(data, 0);
        match version {
            RomVersion::Rom1V2_1 => {
                if data.len() < RomHeaderV1::SIZE {
                    return None;
                }
                let index_size = reader.take_u32();
                let unk_bytes = reader.take(4);
                let unk = [unk_bytes[0], unk_bytes[1], unk_bytes[2], unk_bytes[3]];
                proof {
                    lemma_le_bytes_of_value(data@.subrange(0, 4));
                    assert(unk@ =~= data@.subrange(4, 8));
                    assert(data@.take(8) =~= data@.subrange(0, 4) + data@.subrange(4, 8));
                }
                Some(RomHeader::V1(RomHeaderV1 { index_size, unk }))
            },
            _ => {
                if data.len() < RomHeaderV2::SIZE {
                    return None;
                }
                let index_size = reader.take_u32();
                let file_offset_multiplier = reader.take_u32();
                let u = reader.take(16);
                let unk = [
                    u[0], u[1], u[2], u[3], u[4], u[5], u[6], u[7], u[8], u[9], u[10], u[11], u[12],
                    u[13], u[14], u[15],
                ];
                proof {
                    lemma_le_bytes_of_value(data@.subrange(0, 4));
                    lemma_le_bytes_of_value(data@.subrange(4, 8));
                    assert(unk@ =~= data@.subrange(8, 24));
                    assert(data@.take(24) =~= data@.subrange(0, 4) + data@.subrange(4, 8) + data@.subrange(
                        8,
                        24,
                    ));
                }
                Some(RomHeader::V2(RomHeaderV2 { index_size, file_offset_multiplier, unk }))
            },
        }
    }

    /// The bytes of this header.
    pub fn write(&self) -> (r: Vec<u8>)
        ensures
            r@ == header_bytes(*self),
    {
        let mut writer = RealWriter::new(Vec::new());
        match self {
            RomHeader::V1(h) => {
                proof {
                    lemma_le_bytes_len(h.index_size as nat, 4);
                }
                writer.put_u32(h.index_size);
                writer.put(h.unk.as_slice());
            },
            RomHeader::V2(h) => {
                proof {
                    lemma_le_bytes_len(h.index_size as nat, 4);
                    lemma_le_bytes_len(h.file_offset_multiplier as nat, 4);
                }
                writer.put_u32(h.index_size);
                writer.put_u32(h.file_offset_multiplier);
                writer.put(h.unk.as_slice());
            },
        }
        writer.into_buffer()
    }
}

/// Reading back a written header gives the header, whatever follows it.
pub proof fn lemma_header_write_read(h: RomHeader, version: RomVersion, rest: Seq<u8>)
    requires
        header_matches(h, version),
    ensures
        header_bytes(h).len() == header_size(version),
        (header_bytes(h) + rest).take(header_size(version) as int) == header_bytes(h),
{
    match h {
        RomHeader::V1(v) => {
            lemma_le_bytes_len(v.index_size as nat, 4);
        },
        RomHeader::V2(v) => {
            lemma_le_bytes_len(v.index_size as nat, 4);
            lemma_le_bytes_len(v.file_offset_multiplier as nat, 4);
        },
    }
    assert((header_bytes(h) + rest).take(header_size(version) as int) =~= header_bytes(h));
}

/// Two headers of the same version with the same bytes are the same header.
pub proof fn lemma_header_bytes_injective(a: RomHeader, b: RomHeader, version: RomVersion)
    requires
        header_matches(a, version),
        header_matches(b, version),
        header_bytes(a) == header_bytes(b),
    ensures
        a == b,
{
    broadcast use vstd::array::group_array_axioms;

    lemma_byte_bound_small();
    match (a, b) {
        (RomHeader::V1(x), RomHeader::V1(y)) => {
            lemma_le_bytes_len(x.index_size as nat, 4);
            lemma_le_bytes_len(y.index_size as nat, 4);
            assert(header_bytes(a).take(4) =~= le_bytes(x.index_size as nat, 4));
            assert(header_bytes(b).take(4) =~= le_bytes(y.index_size as nat, 4));
            lemma_le_value_of_bytes(x.index_size as nat, 4);
            lemma_le_value_of_bytes(y.index_size as nat, 4);
            assert(x.unk@ =~= header_bytes(a).skip(4));
            assert(y.unk@ =~= header_bytes(b).skip(4));
            assert(x.unk@ == y.unk@);
            assert(x.index_size == y.index_size);
            assert(x.unk =~= y.unk);
        },
        (RomHeader::V2(x), RomHeader::V2(y)) => {
            lemma_le_bytes_len(x.index_size as nat, 4);
            lemma_le_bytes_len(y.index_size as nat, 4);
            lemma_le_bytes_len(x.file_offset_multiplier as nat, 4);
            lemma_le_bytes_len(y.file_offset_multiplier as nat, 4);
            assert(header_bytes(a).take(4) =~= le_bytes(x.index_size as nat, 4));
            assert(header_bytes(b).take(4) =~= le_bytes(y.index_size as nat, 4));
            assert(header_bytes(a).subrange(4, 8) =~= le_bytes(x.file_offset_multiplier as nat, 4));
            assert(header_bytes(b).subrange(4, 8) =~= le_bytes(y.file_offset_multiplier as nat, 4));
            lemma_le_value_of_bytes(x.index_size as nat, 4);
            lemma_le_value_of_bytes(y.index_size as nat, 4);
            lemma_le_value_of_bytes(x.file_offset_multiplier as nat, 4);
            lemma_le_value_of_bytes(y.file_offset_multiplier as nat, 4);
            assert(x.unk@ =~= header_bytes(a).skip(8));
            assert(y.unk@ =~= header_bytes(b).skip(8));
            assert(x.unk@ == y.unk@);
            assert(x.index_size == y.index_size);
            assert(x.file_offset_multiplier == y.file_offset_multiplier);
            assert(x.unk =~= y.unk);
        },
        _ => {},
    }
}

/// Reading a written header gives the header back: a header of the same version read from
/// the written bytes (whatever follows them) is the header that was written.
pub proof fn lemma_header_roundtrip(h: RomHeader, read: RomHeader, version: RomVersion, rest: Seq<u8>)
    requires
        header_matches(h, version),
        header_matches(read, version),
        header_bytes(read) == (header_bytes(h) + rest).take(header_size(version) as int),
    ensures
        read == h,
{
    lemma_header_write_read(h, version, rest);
    lemma_header_bytes_injective(read, h, version);
}

} // verus!
