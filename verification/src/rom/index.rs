//! The entries of the archive index.
use vstd::prelude::*;

use crate::le::{le_bytes, lemma_byte_bound_small, lemma_le_bytes_len, lemma_le_bytes_of_value, lemma_le_value_of_bytes};
use crate::snr::reader::Reader;
use crate::snr::writer::{RealWriter, Writer};

verus! {

/// The unit of directory data offsets.
pub const DIRECTORY_OFFSET_MULTIPLIER: usize = 0x10;

/// The name offset of an entry (its low 31 bits) and whether the entry is a directory
/// (its top bit).
#[derive(Clone, Copy, Debug, PartialEq, Eq, Structural)]
pub struct NameOffsetAndFlags(pub u32);

impl NameOffsetAndFlags {
    /// Offset to the name of the entry, in bytes, relative to the beginning of the
    /// directory data.
    pub fn name_offset(&self) -> (r: u32)
        ensures
            r == self.0 & 0x7fff_ffff,
    {
        self.0 & 0x7fff_ffff
    }

    /// Whether the entry is a directory.
    pub fn is_directory(&self) -> (r: bool)
        ensures
            r == (self.0 & 0x8000_0000 != 0),
    {
        self.0 & 0x8000_0000 != 0
    }

    /// The value with the name offset replaced by the low 31 bits of `value`.
    pub fn with_name_offset(self, value: u32) -> (r: Self)
        ensures
            r.0 == (self.0 & 0x8000_0000) | (value & 0x7fff_ffff),
    {
        NameOffsetAndFlags((self.0 & 0x8000_0000) | (value & 0x7fff_ffff))
    }

    /// The value with the directory flag replaced by `value`.
    pub fn with_is_directory(self, value: bool) -> (r: Self)
        ensures
            r.0 == (self.0 & 0x7fff_ffff) | (if value {
                0x8000_0000u32
            } else {
                0u32
            }),
    {
        NameOffsetAndFlags((self.0 & 0x7fff_ffff) | if value {
            0x8000_0000u32
        } else {
            0u32
        })
    }
}

/// Each field reads back what was set, and setting one field keeps the other.
pub proof fn lemma_name_offset_and_flags_fields(x: u32, offset: u32, dir: bool)
    ensures
        (((x & 0x8000_0000) | (offset & 0x7fff_ffff)) & 0x7fff_ffff) == offset & 0x7fff_ffff,
        (((x & 0x8000_0000) | (offset & 0x7fff_ffff)) & 0x8000_0000) == x & 0x8000_0000,
        (((x & 0x7fff_ffff) | (if dir { 0x8000_0000u32 } else { 0u32 })) & 0x8000_0000 != 0) == dir,
        (((x & 0x7fff_ffff) | (if dir { 0x8000_0000u32 } else { 0u32 })) & 0x7fff_ffff) == x & 0x7fff_ffff,
{
    assert((((x & 0x8000_0000) | (offset & 0x7fff_ffff)) & 0x7fff_ffff) == offset & 0x7fff_ffff)
        by (bit_vector);
    assert((((x & 0x8000_0000) | (offset & 0x7fff_ffff)) & 0x8000_0000) == x & 0x8000_0000)
        by (bit_vector);
    if dir {
        assert((((x & 0x7fff_ffff) | 0x8000_0000u32) & 0x8000_0000 != 0) == true) by (bit_vector);
        assert((((x & 0x7fff_ffff) | 0x8000_0000u32) & 0x7fff_ffff) == x & 0x7fff_ffff) by (bit_vector);
    } else {
        assert((((x & 0x7fff_ffff) | 0u32) & 0x8000_0000 != 0) == false) by (bit_vector);
        assert((((x & 0x7fff_ffff) | 0u32) & 0x7fff_ffff) == x & 0x7fff_ffff) by (bit_vector);
    }
}

/// One directory entry in the archive index describing a file or a directory.
#[derive(Debug, Clone, Copy)]
pub struct RawEntry {
    /// Combined name offset and `is_directory` flag.
    pub name_and_flags: NameOffsetAndFlags,
    /// Offset to the entry data, divided by the offset multiplier.
    pub data_offset: u32,
    /// Size of the entry data, in bytes.
    pub data_size: u32,
}

/// The little-endian bytes of an entry.
pub open spec fn entry_bytes(e: RawEntry) -> Seq<u8> {
    le_bytes(e.name_and_flags.0 as nat, 4) + le_bytes(e.data_offset as nat, 4) + le_bytes(
        e.data_size as nat,
        4,
    )
}

impl RawEntry {
    /// The size of an entry in bytes.
    pub const SIZE: usize = 0xc;

    /// Reads an entry from `data` at `pos`; `None` where fewer than twelve bytes remain.
    pub fn read(data: &[u8], pos: usize) -> (r: Option<Self>)
        ensures
            r is None <==> data@.len() < pos + 12,
            r matches Some(e) ==> entry_bytes(e) == data@.subrange(pos as int, pos + 12),
    {
        if data.len() < 12 || pos > data.len() - 12 {
            return None;
        }
        let mut reader = Reader::new(data, pos);
        let name_and_flags = reader.take_u32();
        let data_offset = reader.take_u32();
        let data_size = reader.take_u32();
        proof {
            let p = pos as int;
            lemma_le_bytes_of_value(data@.subrange(p, p + 4));
            lemma_le_bytes_of_value(data@.subrange(p + 4, p + 8));
            lemma_le_bytes_of_value(data@.subrange(p + 8, p + 12));
            assert(data@.subrange(p, p + 12) =~= data@.subrange(p, p + 4) + data@.subrange(p + 4, p + 8)
                + data@.subrange(p + 8, p + 12));
        }
        Some(RawEntry { name_and_flags: NameOffsetAndFlags(name_and_flags), data_offset, data_size })
    }

    /// The bytes of this entry.
    pub fn write(&self) -> (r: Vec<u8>)
        ensures
            r@ == entry_bytes(*self),
    {
        let mut writer = RealWriter::new(Vec::new());
        proof {
            lemma_le_bytes_len(self.name_and_flags.0 as nat, 4);
            lemma_le_bytes_len(self.data_offset as nat, 4);
            lemma_le_bytes_len(self.data_size as nat, 4);
        }
        writer.put_u32(self.name_and_flags.0);
        writer.put_u32(self.data_offset);
        writer.put_u32(self.data_size);
        writer.into_buffer()
    }
}

/// An entry takes twelve bytes.
pub proof fn lemma_entry_bytes_len(e: RawEntry)
    ensures
        entry_bytes(e).len() == 12,
{
    lemma_le_bytes_len(e.name_and_flags.0 as nat, 4);
    lemma_le_bytes_len(e.data_offset as nat, 4);
    lemma_le_bytes_len(e.data_size as nat, 4);
}

/// Reading a written entry gives the entry back.
pub proof fn lemma_entry_roundtrip(e: RawEntry, read: RawEntry)
    requires
        entry_bytes(read) == entry_bytes(e),
    ensures
        read == e,
{
    lemma_byte_bound_small();
    let a = entry_bytes(read);
    lemma_le_bytes_len(read.name_and_flags.0 as nat, 4);
    lemma_le_bytes_len(read.data_offset as nat, 4);
    lemma_le_bytes_len(read.data_size as nat, 4);
    lemma_le_bytes_len(e.name_and_flags.0 as nat, 4);
    lemma_le_bytes_len(e.data_offset as nat, 4);
    lemma_le_bytes_len(e.data_size as nat, 4);
    assert(a.subrange(0, 4) =~= le_bytes(read.name_and_flags.0 as nat, 4));
    assert(a.subrange(0, 4) =~= le_bytes(e.name_and_flags.0 as nat, 4));
    assert(a.subrange(4, 8) =~= le_bytes(read.data_offset as nat, 4));
    assert(a.subrange(4, 8) =~= le_bytes(e.data_offset as nat, 4));
    assert(a.subrange(8, 12) =~= le_bytes(read.data_size as nat, 4));
    assert(a.subrange(8, 12) =~= le_bytes(e.data_size as nat, 4));
    lemma_le_value_of_bytes(read.name_and_flags.0 as nat, 4);
    lemma_le_value_of_bytes(e.name_and_flags.0 as nat, 4);
    lemma_le_value_of_bytes(read.data_offset as nat, 4);
    lemma_le_value_of_bytes(e.data_offset as nat, 4);
    lemma_le_value_of_bytes(read.data_size as nat, 4);
    lemma_le_value_of_bytes(e.data_size as nat, 4);
}

} // verus!
