//! Writing the index of a new archive from its planned layout.
use vstd::prelude::*;

use crate::le::{le_bytes, lemma_le_bytes_len};
use crate::rom::allocate::{
    archive_size, directory_layout, directory_layout_end, directory_size, entries_file_sizes, file_layout,
    file_layout_end, index_end, index_start, is_layout, lemma_directory_layout_end, lemma_directory_layout_index,
    lemma_directory_layout_len, lemma_file_layout_end, lemma_file_layout_len, lemma_next_multiple_of, names_size,
    next_multiple_of,
    walk_file_sizes, AllocatedRom,
};
use crate::rom::create::{
    directory_count, lemma_walk_tree_indices, subdirectory_count, walk_input_fs, walk_tree, walked, InputDirectory,
    InputEntry, WalkedDirectory,
};
use crate::rom::header::{header_bytes, RomHeader, RomHeaderV1, RomHeaderV2};
use crate::rom::index::{entry_bytes, NameOffsetAndFlags, RawEntry};
use crate::rom::progress::RomCounter;
use crate::snr::writer::{RealWriter, Writer};
use crate::versions::{RomDirectoryOffsetDisposition, RomVersion, RomVersionFacts};

verus! {

/// The first word of an index entry: the directory flag in the top bit, the low 31 bits of
/// the name offset below it.
pub open spec fn entry_flags(is_directory: bool, name_offset: nat) -> u32 {
    (if is_directory {
        0x8000_0000u32
    } else {
        0u32
    }) | ((name_offset as u32) & 0x7fff_ffff)
}

/// An index entry.
pub open spec fn index_entry(is_directory: bool, name_offset: nat, data_offset: nat, data_size: nat) -> RawEntry {
    RawEntry {
        name_and_flags: NameOffsetAndFlags(entry_flags(is_directory, name_offset)),
        data_offset: data_offset as u32,
        data_size: data_size as u32,
    }
}

/// What directory offsets count from: the start of the archive or of its index.
pub open spec fn directory_base(r: AllocatedRom, disposition: RomDirectoryOffsetDisposition) -> nat {
    match disposition {
        RomDirectoryOffsetDisposition::FromStart => 0,
        RomDirectoryOffsetDisposition::FromIndexStart => r.index_offset as nat,
    }
}

/// The entry for the directory with index `index`, whose name is at `name_offset`.
pub open spec fn directory_entry(
    r: AllocatedRom,
    disposition: RomDirectoryOffsetDisposition,
    name_offset: nat,
    index: nat,
) -> RawEntry {
    let p = r.directory_positions@[index as int];
    index_entry(true, name_offset, ((p.0 - directory_base(r, disposition)) / 16) as nat, p.1 as nat)
}

/// The entry for the file with index `index`, whose name is at `name_offset`.
pub open spec fn file_entry(r: AllocatedRom, name_offset: nat, index: nat) -> RawEntry {
    let p = r.file_positions@[index as int];
    index_entry(false, name_offset, (p.0 / r.file_offset_multiplier) as nat, p.1 as nat)
}

/// The entries for the entries of `es` from `i` on, whose names start at `name_offset`; the
/// next directory among them has index `dir_index`, the next file `file_index`.
pub open spec fn entries_bytes(
    r: AllocatedRom,
    disposition: RomDirectoryOffsetDisposition,
    es: Seq<(String, Vec<u8>, InputEntry)>,
    i: int,
    name_offset: nat,
    dir_index: nat,
    file_index: nat,
) -> Seq<u8>
    decreases es.len() - i,
{
    if i < 0 || i >= es.len() {
        Seq::empty()
    } else {
        let next_name = name_offset + es[i].1@.len() + 1;
        match es[i].2 {
            InputEntry::Directory(_) => entry_bytes(directory_entry(r, disposition, name_offset, dir_index))
                + entries_bytes(r, disposition, es, i + 1, next_name, dir_index + 1, file_index),
            InputEntry::File(_) => entry_bytes(file_entry(r, name_offset, file_index)) + entries_bytes(
                r,
                disposition,
                es,
                i + 1,
                next_name,
                dir_index,
                file_index + 1,
            ),
        }
    }
}

/// The names of the entries of `es` from `i` on, each followed by a zero byte.
pub open spec fn names_bytes(es: Seq<(String, Vec<u8>, InputEntry)>, i: int) -> Seq<u8>
    decreases es.len() - i,
{
    if i < 0 || i >= es.len() {
        Seq::empty()
    } else {
        es[i].1@ + seq![0u8] + names_bytes(es, i + 1)
    }
}

/// Where the names of a directory with `n` entries start: after the entry count and the
/// entries, `.` and `..` included.
pub open spec fn names_start(n: nat) -> nat {
    4 + 12 * (n + 2)
}

/// The bytes of the directory `w` of the walk (index, parent, first subdirectory,
/// directory) whose first file has index `file_index`: the entry count, the entries for `.`,
/// `..` and each entry, then their names.
pub open spec fn directory_bytes(
    r: AllocatedRom,
    disposition: RomDirectoryOffsetDisposition,
    w: (nat, nat, nat, InputDirectory),
    file_index: nat,
) -> Seq<u8> {
    let es = w.3.0@;
    let ns = names_start(es.len());
    le_bytes(es.len() + 2, 4) + entry_bytes(directory_entry(r, disposition, ns, w.0)) + entry_bytes(
        directory_entry(r, disposition, ns + 2, w.1),
    ) + entries_bytes(r, disposition, es, 0, ns + 5, w.2, file_index) + seq![46u8, 0u8] + seq![46u8, 46u8, 0u8]
        + names_bytes(es, 0)
}

/// The directories of `ws` written from position `pos`, each after zero bytes up to a
/// multiple of 16; the first file of the first directory has index `file_index`.
pub open spec fn directories_bytes(
    r: AllocatedRom,
    disposition: RomDirectoryOffsetDisposition,
    ws: Seq<(nat, nat, nat, InputDirectory)>,
    pos: nat,
    file_index: nat,
) -> Seq<u8>
    decreases ws.len(),
{
    if ws.len() == 0 {
        Seq::empty()
    } else {
        let p = next_multiple_of(pos, 16);
        let b = directory_bytes(r, disposition, ws[0], file_index);
        Seq::new((p - pos) as nat, |_i: int| 0u8) + b + directories_bytes(
            r,
            disposition,
            ws.drop_first(),
            p + b.len(),
            file_index + entries_file_sizes(ws[0].3.0@, 0).len(),
        )
    }
}

/// The header of a new archive: the index size, the file offset multiplier in version 2,
/// and bytes naming the tool in place of the unknown field.
pub open spec fn new_header(r: AllocatedRom, version: RomVersion) -> RomHeader {
    match version {
        RomVersion::Rom1V2_1 => RomHeader::V1(RomHeaderV1 { index_size: r.index_size as u32, unk: [83, 104, 105, 110] }),
        _ => RomHeader::V2(
            RomHeaderV2 {
                index_size: r.index_size as u32,
                file_offset_multiplier: r.file_offset_multiplier as u32,
                unk: [83, 104, 105, 110, 84, 114, 97, 110, 115, 108, 116, 84, 111, 111, 108, 115],
            },
        ),
    }
}

/// The start of a new archive up to the end of its last directory: the magic and version
/// bytes, the header and the directories in the order of the walk.
pub open spec fn index_bytes(r: AllocatedRom, facts: RomVersionFacts, root: InputDirectory) -> Seq<u8> {
    facts.head_bytes@ + header_bytes(new_header(r, facts.version)) + directories_bytes(
        r,
        facts.directory_offset_disposition,
        walk_tree(root),
        index_start(facts),
        0,
    )
}

/// Whether every value that the index stores in 32 bits fits there: the index size, each
/// directory offset (in units of 16, from where directory offsets count) and size, and each
/// file offset (in units of the multiplier) and size. Name offsets lie inside their
/// directory, so they fit with its size.
pub open spec fn index_fits(r: AllocatedRom, facts: RomVersionFacts) -> bool {
    let base = directory_base(r, facts.directory_offset_disposition);
    &&& r.index_size <= u32::MAX
    &&& forall|i: int|
        0 <= i < r.directory_positions@.len() ==> {
            let p = #[trigger] r.directory_positions@[i];
            base <= p.0 && (p.0 - base) / 16 <= u32::MAX && p.1 <= u32::MAX
        }
    &&& forall|i: int|
        0 <= i < r.file_positions@.len() ==> {
            let p = #[trigger] r.file_positions@[i];
            p.0 / r.file_offset_multiplier <= u32::MAX && p.1 <= u32::MAX
        }
}

/// Whether every value that the index of the layout `r` stores in 32 bits fits there, as
/// `rom_write_index` needs.
pub fn index_fits_checked(facts: &RomVersionFacts, r: &AllocatedRom) -> (ok: bool)
    requires
        r.file_offset_multiplier > 0,
    ensures
        ok == index_fits(*r, *facts),
{
    let base: u64 = match facts.directory_offset_disposition {
        RomDirectoryOffsetDisposition::FromStart => 0,
        RomDirectoryOffsetDisposition::FromIndexStart => r.index_offset,
    };
    let limit: u64 = 0xffff_ffff;
    if r.index_size > limit {
        return false;
    }
    let mut i: usize = 0;
    while i < r.directory_positions.len()
        invariant
            i <= r.directory_positions@.len(),
            base == directory_base(*r, facts.directory_offset_disposition),
            limit == u32::MAX,
            forall|j: int|
                0 <= j < i ==> {
                    let p = #[trigger] r.directory_positions@[j];
                    base <= p.0 && (p.0 - base) / 16 <= u32::MAX && p.1 <= u32::MAX
                },
        decreases r.directory_positions@.len() - i,
    {
        let (offset, size) = r.directory_positions[i];
        if offset < base || (offset - base) / 16 > limit || size > limit {
            return false;
        }
        i = i + 1;
    }
    let mut i: usize = 0;
    while i < r.file_positions.len()
        invariant
            i <= r.file_positions@.len(),
            r.file_offset_multiplier > 0,
            limit == u32::MAX,
            forall|j: int|
                0 <= j < i ==> {
                    let p = #[trigger] r.file_positions@[j];
                    p.0 / r.file_offset_multiplier <= u32::MAX && p.1 <= u32::MAX
                },
        decreases r.file_positions@.len() - i,
    {
        let (offset, size) = r.file_positions[i];
        if offset / r.file_offset_multiplier > limit || size > limit {
            return false;
        }
        i = i + 1;
    }
    true
}

/// Tracks how many bytes of an archive were written.
pub struct WriteWrapper {
    pub offset: u64,
}

impl WriteWrapper {
    /// Moves past the zero bytes up to the next multiple of `alignment` and returns how many
    /// there are.
    pub fn align(&mut self, alignment: u64) -> (r: u64)
        requires
            alignment > 0,
            next_multiple_of(old(self).offset as nat, alignment as nat) <= u64::MAX,
        ensures
            final(self).offset == next_multiple_of(old(self).offset as nat, alignment as nat),
            r == final(self).offset - old(self).offset,
    {
        let rem = self.offset % alignment;
        let delta = if rem != 0 {
            alignment - rem
        } else {
            0
        };
        self.offset = self.offset + delta;
        delta
    }

    /// Moves past `n` written bytes.
    pub fn advance(&mut self, n: u64)
        requires
            old(self).offset + n <= u64::MAX,
        ensures
            final(self).offset == old(self).offset + n,
    {
        self.offset = self.offset + n;
    }
}

/// The entry with the given fields.
fn make_entry(is_directory: bool, name_offset: u64, data_offset: u64, data_size: u64) -> (r: RawEntry)
    requires
        name_offset <= u32::MAX,
        data_offset <= u32::MAX,
        data_size <= u32::MAX,
    ensures
        r == index_entry(is_directory, name_offset as nat, data_offset as nat, data_size as nat),
{
    let flags = NameOffsetAndFlags(0).with_is_directory(is_directory);
    let name_and_flags = flags.with_name_offset(name_offset as u32);
    proof {
        let o = name_offset as u32;
        if is_directory {
            assert((((0u32 & 0x7fff_ffff) | 0x8000_0000u32) & 0x8000_0000) | (o & 0x7fff_ffff) == 0x8000_0000u32 | (o
                & 0x7fff_ffff)) by (bit_vector);
        } else {
            assert((((0u32 & 0x7fff_ffff) | 0u32) & 0x8000_0000) | (o & 0x7fff_ffff) == 0u32 | (o & 0x7fff_ffff))
                by (bit_vector);
        }
    }
    RawEntry { name_and_flags, data_offset: data_offset as u32, data_size: data_size as u32 }
}

/// Appends the bytes of `entry`.
fn push_entry(out: &mut Vec<u8>, entry: &RawEntry)
    ensures
        final(out)@ == old(out)@ + entry_bytes(*entry),
{
    let bytes = entry.write();
    out.extend_from_slice(bytes.as_slice());
}

/// The entry for the directory with index `index`.
fn directory_entry_of(
    r: &AllocatedRom,
    disposition: RomDirectoryOffsetDisposition,
    name_offset: u64,
    index: usize,
) -> (e: RawEntry)
    requires
        index < r.directory_positions@.len(),
        name_offset <= u32::MAX,
        ({
            let p = r.directory_positions@[index as int];
            let base = directory_base(*r, disposition);
            base <= p.0 && (p.0 - base) / 16 <= u32::MAX && p.1 <= u32::MAX
        }),
    ensures
        e == directory_entry(*r, disposition, name_offset as nat, index as nat),
{
    let (offset, size) = r.directory_positions[index];
    let relative = match disposition {
        RomDirectoryOffsetDisposition::FromStart => offset,
        RomDirectoryOffsetDisposition::FromIndexStart => offset - r.index_offset,
    };
    make_entry(true, name_offset, relative / 16, size)
}

/// Whether every directory position and file position stores in 32 bits.
pub open spec fn positions_fit(r: AllocatedRom, disposition: RomDirectoryOffsetDisposition) -> bool {
    &&& r.file_offset_multiplier > 0
    &&& forall|i: int|
        0 <= i < r.directory_positions@.len() ==> {
            let p = #[trigger] r.directory_positions@[i];
            let base = directory_base(r, disposition);
            base <= p.0 && (p.0 - base) / 16 <= u32::MAX && p.1 <= u32::MAX
        }
    &&& forall|i: int|
        0 <= i < r.file_positions@.len() ==> {
            let p = #[trigger] r.file_positions@[i];
            p.0 / r.file_offset_multiplier <= u32::MAX && p.1 <= u32::MAX
        }
}

/// Appends the entries for the entries of `es`, whose names start at `name_offset`; the
/// first directory among them has index `dir_index`, the first file `file_index`.
fn write_entries(
    out: &mut Vec<u8>,
    r: &AllocatedRom,
    disposition: RomDirectoryOffsetDisposition,
    es: &Vec<(String, Vec<u8>, InputEntry)>,
    name_offset: u64,
    dir_index: usize,
    file_index: usize,
)
    requires
        dir_index + subdirectory_count(es@, 0) <= r.directory_positions@.len(),
        file_index + entries_file_sizes(es@, 0).len() <= r.file_positions@.len(),
        name_offset + names_size(es@, 0) <= u32::MAX,
        positions_fit(*r, disposition),
    ensures
        final(out)@ == old(out)@ + entries_bytes(
            *r,
            disposition,
            es@,
            0,
            name_offset as nat,
            dir_index as nat,
            file_index as nat,
        ),
{
    let ghost start = out@;
    let ghost goal = entries_bytes(*r, disposition, es@, 0, name_offset as nat, dir_index as nat, file_index as nat);
    let n = es.len();
    let mut name_offset = name_offset;
    let mut dir_index = dir_index;
    let mut file_index = file_index;
    let ghost first_name = name_offset;
    let mut i: usize = 0;
    while i < n
        invariant
            i <= n,
            n == es@.len(),
            dir_index + subdirectory_count(es@, i as int) <= r.directory_positions@.len(),
            file_index + entries_file_sizes(es@, i as int).len() <= r.file_positions@.len(),
            name_offset == first_name + names_size(es@, 0) - names_size(es@, i as int),
            first_name + names_size(es@, 0) <= u32::MAX,
            names_size(es@, i as int) <= names_size(es@, 0),
            positions_fit(*r, disposition),
            out@ + entries_bytes(*r, disposition, es@, i as int, name_offset as nat, dir_index as nat, file_index as nat)
                == start + goal,
        decreases n - i,
    {
        let ghost before = out@;
        let ghost rest = entries_bytes(
            *r,
            disposition,
            es@,
            i as int,
            name_offset as nat,
            dir_index as nat,
            file_index as nat,
        );
        proof {
            assert(names_size(es@, i as int) == es@[i as int].1@.len() + 1 + names_size(es@, i + 1));
        }
        let name_len = es[i].1.len() as u64;
        match &es[i].2 {
            InputEntry::Directory(_) => {
                proof {
                    assert(subdirectory_count(es@, i as int) == 1 + subdirectory_count(es@, i + 1));
                    assert(entries_file_sizes(es@, i as int) == entries_file_sizes(es@, i + 1));
                }
                push_entry(out, &directory_entry_of(r, disposition, name_offset, dir_index));
                let directory_total = r.directory_positions.len();
                assert(dir_index < directory_total);
                dir_index = dir_index + 1;
            },
            InputEntry::File(f) => {
                proof {
                    assert(subdirectory_count(es@, i as int) == subdirectory_count(es@, i + 1));
                    assert(entries_file_sizes(es@, i as int) == seq![f.0] + entries_file_sizes(es@, i + 1));
                }
                let (offset, size) = r.file_positions[file_index];
                push_entry(out, &make_entry(false, name_offset, offset / r.file_offset_multiplier, size));
                let file_total = r.file_positions.len();
                assert(file_index < file_total);
                file_index = file_index + 1;
            },
        }
        name_offset = name_offset + name_len + 1;
        i = i + 1;
        proof {
            assert(out@ + entries_bytes(
                *r,
                disposition,
                es@,
                i as int,
                name_offset as nat,
                dir_index as nat,
                file_index as nat,
            ) =~= before + rest);
        }
    }
    proof {
        assert(out@ + entries_bytes(
            *r,
            disposition,
            es@,
            i as int,
            name_offset as nat,
            dir_index as nat,
            file_index as nat,
        ) =~= out@);
    }
}

/// Appends the names of the entries of `es`, each followed by a zero byte.
fn write_names(out: &mut Vec<u8>, es: &Vec<(String, Vec<u8>, InputEntry)>)
    ensures
        final(out)@ == old(out)@ + names_bytes(es@, 0),
{
    let ghost start = out@;
    let n = es.len();
    let mut i: usize = 0;
    while i < n
        invariant
            i <= n,
            n == es@.len(),
            out@ + names_bytes(es@, i as int) == start + names_bytes(es@, 0),
        decreases n - i,
    {
        let ghost before = out@;
        out.extend_from_slice(es[i].1.as_slice());
        out.push(0);
        proof {
            assert(out@ + names_bytes(es@, i + 1) =~= before + names_bytes(es@, i as int));
        }
        i = i + 1;
    }
    proof {
        assert(out@ + names_bytes(es@, n as int) =~= out@);
    }
}

/// Appends the bytes of the directory `w` whose first file has index `file_index`.
fn write_directory(
    out: &mut Vec<u8>,
    r: &AllocatedRom,
    disposition: RomDirectoryOffsetDisposition,
    w: &WalkedDirectory,
    file_index: usize,
)
    requires
        w.index < r.directory_positions@.len(),
        w.parent < r.directory_positions@.len(),
        w.first_child + subdirectory_count(w.directory.0@, 0) <= r.directory_positions@.len(),
        file_index + entries_file_sizes(w.directory.0@, 0).len() <= r.file_positions@.len(),
        positions_fit(*r, disposition),
        names_start(w.directory.0@.len()) + 5 + names_size(w.directory.0@, 0) <= u32::MAX,
    ensures
        final(out)@ == old(out)@ + directory_bytes(
            *r,
            disposition,
            (w.index as nat, w.parent as nat, w.first_child as nat, *w.directory),
            file_index as nat,
        ),
{
    let es = &w.directory.0;
    let n = es.len();
    let ghost start = out@;
    let ns: u64 = 4 + 12 * (n as u64 + 2);
    let ghost dot = entry_bytes(directory_entry(*r, disposition, ns as nat, w.index as nat));
    let ghost dotdot = entry_bytes(directory_entry(*r, disposition, (ns + 2) as nat, w.parent as nat));
    let ghost entries = entries_bytes(*r, disposition, es@, 0, (ns + 5) as nat, w.first_child as nat, file_index as nat);
    let mut writer = RealWriter::new(Vec::new());
    proof {
        lemma_le_bytes_len((n + 2) as nat, 4);
    }
    writer.put_u32((n + 2) as u32);
    let count_bytes = writer.into_buffer();
    out.extend_from_slice(count_bytes.as_slice());
    assert(out@ == start + le_bytes((n + 2) as nat, 4));
    let ghost s1 = out@;
    push_entry(out, &directory_entry_of(r, disposition, ns, w.index));
    assert(out@ == s1 + dot);
    let ghost s2 = out@;
    push_entry(out, &directory_entry_of(r, disposition, ns + 2, w.parent));
    assert(out@ == s2 + dotdot);
    let ghost s3 = out@;
    write_entries(out, r, disposition, es, ns + 5, w.first_child, file_index);
    assert(out@ == s3 + entries);
    let ghost s4 = out@;
    out.push(46);
    out.push(0);
    out.push(46);
    out.push(46);
    out.push(0);
    assert(out@ =~= s4 + seq![46u8, 0u8] + seq![46u8, 46u8, 0u8]);
    let ghost s5 = out@;
    write_names(out, es);
    proof {
        assert(out@ == s5 + names_bytes(es@, 0));
        assert(names_start(es@.len()) == ns);
        assert(directory_bytes(
            *r,
            disposition,
            (w.index as nat, w.parent as nat, w.first_child as nat, *w.directory),
            file_index as nat,
        ) == le_bytes((n + 2) as nat, 4) + dot + dotdot + entries + seq![46u8, 0u8] + seq![46u8, 46u8, 0u8] + names_bytes(
            es@,
            0,
        ));
        assert(out@ =~= start + (le_bytes((n + 2) as nat, 4) + dot + dotdot + entries + seq![46u8, 0u8] + seq![
            46u8,
            46u8,
            0u8,
        ] + names_bytes(es@, 0)));
    }
}

/// The number of files among `entries`.
fn count_files(entries: &Vec<(String, Vec<u8>, InputEntry)>) -> (r: usize)
    ensures
        r == entries_file_sizes(entries@, 0).len(),
{
    let len = entries.len();
    let mut k = len;
    let mut n: usize = 0;
    while k > 0
        invariant
            k <= len,
            len == entries@.len(),
            n == entries_file_sizes(entries@, k as int).len(),
            n <= len - k,
        decreases k,
    {
        k = k - 1;
        if let InputEntry::File(_) = &entries[k].2 {
            n = n + 1;
        }
    }
    n
}

/// The start of a new archive of `facts` with the tree `input` and the layout `allocated`,
/// up to the end of its last directory: the magic and version bytes, the header (with the
/// index size, the file offset multiplier in version 2, and bytes naming the tool in the
/// unknown field), then each directory in the order of the walk, at its planned position.
/// Every value that the index stores in 32 bits has to fit there.
pub fn rom_write_index(facts: &RomVersionFacts, input: &InputDirectory, allocated: &AllocatedRom) -> (r: Vec<u8>)
    requires
        is_layout(*allocated, *facts, *input),
        index_fits(*allocated, *facts),
        directory_count(*input) < usize::MAX,
    ensures
        r@ == index_bytes(*allocated, *facts, *input),
{
    let ghost ws = walk_tree(*input);
    let ghost disposition = facts.directory_offset_disposition;
    let ghost start = index_start(*facts);
    let ghost dirs = directory_layout(ws, start);
    let ghost a = allocated.file_offset_multiplier as nat;
    let ghost sizes = walk_file_sizes(ws);
    proof {
        lemma_walk_tree_indices(*input);
        lemma_directory_layout_end(ws, start);
        lemma_next_multiple_of(directory_layout_end(ws, start), 16);
        lemma_file_layout_end(sizes, index_end(*facts, *input), a);
        lemma_next_multiple_of(file_layout_end(sizes, index_end(*facts, *input), a), a);
        lemma_file_layout_len(sizes, index_end(*facts, *input), a);
        assert(allocated.file_positions@.len() == sizes.len());
    }
    let mut out: Vec<u8> = Vec::new();
    out.extend_from_slice(facts.head_bytes.as_slice());
    let header = match facts.version {
        RomVersion::Rom1V2_1 => RomHeader::V1(
            RomHeaderV1 { index_size: allocated.index_size as u32, unk: [83, 104, 105, 110] },
        ),
        RomVersion::Rom2V1_0 | RomVersion::Rom2V1_1 => RomHeader::V2(
            RomHeaderV2 {
                index_size: allocated.index_size as u32,
                file_offset_multiplier: allocated.file_offset_multiplier as u32,
                unk: [83, 104, 105, 110, 84, 114, 97, 110, 115, 108, 116, 84, 111, 111, 108, 115],
            },
        ),
    };
    proof {
        assert(header == new_header(*allocated, facts.version));
    }
    let header_data = header.write();
    out.extend_from_slice(header_data.as_slice());
    let ghost prefix = out@;
    proof {
        assert(prefix =~= facts.head_bytes@ + header_bytes(new_header(*allocated, facts.version)));
        match header {
            RomHeader::V1(h) => {
                lemma_le_bytes_len(h.index_size as nat, 4);
            },
            RomHeader::V2(h) => {
                lemma_le_bytes_len(h.index_size as nat, 4);
                lemma_le_bytes_len(h.file_offset_multiplier as nat, 4);
            },
        }
        assert(prefix.len() == start);
        assert(ws.skip(0) =~= ws);
    }

    let walk = walk_input_fs(input);
    let count = walk.len();
    let disposition = facts.directory_offset_disposition;
    let mut file_index: usize = 0;
    let mut k: usize = 0;
    while k < count
        invariant
            walked(walk@) == ws,
            ws == walk_tree(*input),
            start == index_start(*facts),
            count == ws.len(),
            k <= count,
            disposition == facts.directory_offset_disposition,
            positions_fit(*allocated, disposition),
            allocated.directory_positions@.len() == ws.len(),
            forall|j: int|
                0 <= j < ws.len() ==> #[trigger] allocated.directory_positions@[ws[j].0 as int] == (
                    dirs[j].0 as u64,
                    dirs[j].1 as u64,
                ),
            forall|j: int| 0 <= j < ws.len() ==> #[trigger] ws[j].0 < ws.len(),
            forall|j: int| 0 <= j < ws.len() ==> #[trigger] ws[j].1 < ws.len(),
            forall|j: int|
                0 <= j < ws.len() ==> #[trigger] ws[j].2 + subdirectory_count(ws[j].3.0@, 0) <= ws.len(),
            dirs == directory_layout(ws, start),
            directory_layout_end(ws, start) <= u64::MAX,
            file_index + walk_file_sizes(ws.skip(k as int)).len() == allocated.file_positions@.len(),
            out@ + directories_bytes(*allocated, disposition, ws.skip(k as int), out@.len() as nat, file_index as nat)
                == prefix + directories_bytes(*allocated, disposition, ws, start, 0),
        decreases count - k,
    {
        let ghost rest = ws.skip(k as int);
        let ghost pos = out@.len() as nat;
        let w = &walk[k];
        proof {
            assert(walked(walk@)[k as int] == (w.index as nat, w.parent as nat, w.first_child as nat, *w.directory));
            assert(rest[0] == ws[k as int]);
            assert(rest.drop_first() =~= ws.skip(k + 1));
            lemma_directory_layout_index(ws, start, k as int);
            assert(allocated.directory_positions@[ws[k as int].0 as int] == (dirs[k as int].0 as u64, dirs[k as int].1 as u64));
            assert(directory_size(*w.directory) <= u32::MAX);
        }
        let before_pad = out.len();
        let pad = (16 - before_pad % 16) % 16;
        let ghost before = out@;
        proof {
            assert(pad == next_multiple_of(pos, 16) - pos);
        }
        let mut z: usize = 0;
        while z < pad
            invariant
                z <= pad,
                out@ == before + Seq::new(z as nat, |_i: int| 0u8),
            decreases pad - z,
        {
            out.push(0);
            z = z + 1;
            assert(out@ =~= before + Seq::new(z as nat, |_i: int| 0u8));
        }
        let ghost padded = out@;
        proof {
            assert(w.directory.0@ == ws[k as int].3.0@);
            assert(walk_file_sizes(rest) == entries_file_sizes(ws[k as int].3.0@, 0) + walk_file_sizes(ws.skip(k + 1)));
        }
        write_directory(&mut out, allocated, disposition, w, file_index);
        let files = count_files(&w.directory.0);
        let file_total = allocated.file_positions.len();
        assert(file_index + files <= file_total);
        proof {
            let b = directory_bytes(*allocated, disposition, ws[k as int], file_index as nat);
            assert(out@ == padded + b);
            assert(directories_bytes(*allocated, disposition, rest, pos, file_index as nat) == Seq::new(
                (next_multiple_of(pos, 16) - pos) as nat,
                |_i: int| 0u8,
            ) + b + directories_bytes(
                *allocated,
                disposition,
                ws.skip(k + 1),
                next_multiple_of(pos, 16) + b.len(),
                (file_index + files) as nat,
            ));
            assert(out@ + directories_bytes(
                *allocated,
                disposition,
                ws.skip(k + 1),
                out@.len() as nat,
                (file_index + files) as nat,
            ) =~= before + directories_bytes(*allocated, disposition, rest, pos, file_index as nat));
        }
        file_index = file_index + files;
        k = k + 1;
    }
    proof {
        assert(ws.skip(count as int) =~= Seq::<(nat, nat, nat, InputDirectory)>::empty());
    }
    out
}

/// The total of `sizes`.
pub open spec fn sizes_total(sizes: Seq<u64>) -> nat
    decreases sizes.len(),
{
    if sizes.len() == 0 {
        0
    } else {
        sizes[0] as nat + sizes_total(sizes.drop_first())
    }
}

/// The files of the tree `input` and their bytes, counted in the order of the walk; the
/// directories are not counted.
pub fn rom_count(input: &InputDirectory) -> (r: RomCounter)
    requires
        directory_count(*input) < usize::MAX,
        walk_file_sizes(walk_tree(*input)).len() <= u64::MAX,
        sizes_total(walk_file_sizes(walk_tree(*input))) <= u64::MAX,
    ensures
        r.directories == 0,
        r.files == walk_file_sizes(walk_tree(*input)).len(),
        r.bytes == sizes_total(walk_file_sizes(walk_tree(*input))),
{
    let ghost ws = walk_tree(*input);
    let ghost all = walk_file_sizes(ws);
    let walk = walk_input_fs(input);
    let count = walk.len();
    let mut counter = RomCounter::new();
    let ghost mut remaining = all;
    proof {
        assert(ws.skip(0) =~= ws);
    }
    let mut k: usize = 0;
    while k < count
        invariant
            walked(walk@) == ws,
            count == ws.len(),
            k <= count,
            counter.directories == 0,
            remaining == walk_file_sizes(ws.skip(k as int)),
            counter.files + remaining.len() == all.len(),
            counter.bytes + sizes_total(remaining) == sizes_total(all),
            all.len() <= u64::MAX,
            sizes_total(all) <= u64::MAX,
        decreases count - k,
    {
        let directory = walk[k].directory;
        proof {
            assert(walked(walk@)[k as int].3 == *directory);
            assert(ws.skip(k as int)[0] == ws[k as int]);
            assert(ws.skip(k as int).drop_first() =~= ws.skip(k + 1));
        }
        let mut i: usize = 0;
        while i < directory.0.len()
            invariant
                i <= directory.0@.len(),
                counter.directories == 0,
                remaining == entries_file_sizes(directory.0@, i as int) + walk_file_sizes(ws.skip(k + 1)),
                counter.files + remaining.len() == all.len(),
                counter.bytes + sizes_total(remaining) == sizes_total(all),
                all.len() <= u64::MAX,
                sizes_total(all) <= u64::MAX,
            decreases directory.0@.len() - i,
        {
            if let InputEntry::File(file) = &directory.0[i].2 {
                proof {
                    assert(directory.0@[i as int].2 == InputEntry::File(*file));
                    assert(remaining[0] == file.0);
                    assert(remaining.drop_first() =~= entries_file_sizes(directory.0@, i + 1) + walk_file_sizes(
                        ws.skip(k + 1),
                    ));
                }
                counter.add_file(file.0);
                proof {
                    remaining = remaining.drop_first();
                }
            }
            i = i + 1;
        }
        proof {
            assert(entries_file_sizes(directory.0@, i as int) =~= Seq::<u64>::empty());
            assert(remaining =~= walk_file_sizes(ws.skip(k + 1)));
        }
        k = k + 1;
    }
    proof {
        assert(ws.skip(count as int) =~= Seq::<(nat, nat, nat, InputDirectory)>::empty());
    }
    counter
}

/// Each entry takes twelve bytes.
pub(crate) proof fn lemma_entries_bytes_len(
    r: AllocatedRom,
    disposition: RomDirectoryOffsetDisposition,
    es: Seq<(String, Vec<u8>, InputEntry)>,
    i: int,
    name_offset: nat,
    dir_index: nat,
    file_index: nat,
)
    requires
        0 <= i <= es.len(),
    ensures
        entries_bytes(r, disposition, es, i, name_offset, dir_index, file_index).len() == 12 * (es.len() - i),
    decreases es.len() - i,
{
    if i < es.len() {
        let next_name = name_offset + es[i].1@.len() + 1;
        match es[i].2 {
            InputEntry::Directory(_) => {
                lemma_entries_bytes_len(r, disposition, es, i + 1, next_name, dir_index + 1, file_index);
                crate::rom::index::lemma_entry_bytes_len(directory_entry(r, disposition, name_offset, dir_index));
            },
            InputEntry::File(_) => {
                lemma_entries_bytes_len(r, disposition, es, i + 1, next_name, dir_index, file_index + 1);
                crate::rom::index::lemma_entry_bytes_len(file_entry(r, name_offset, file_index));
            },
        }
    }
}

/// The names take the bytes the layout counts for them.
pub(crate) proof fn lemma_names_bytes_len(es: Seq<(String, Vec<u8>, InputEntry)>, i: int)
    requires
        0 <= i,
    ensures
        names_bytes(es, i).len() == names_size(es, i),
    decreases es.len() - i,
{
    if i < es.len() {
        lemma_names_bytes_len(es, i + 1);
    }
}

/// A directory takes the bytes the layout counts for it.
pub proof fn lemma_directory_bytes_len(
    r: AllocatedRom,
    disposition: RomDirectoryOffsetDisposition,
    w: (nat, nat, nat, InputDirectory),
    file_index: nat,
)
    ensures
        directory_bytes(r, disposition, w, file_index).len() == directory_size(w.3),
{
    let es = w.3.0@;
    let ns = names_start(es.len());
    lemma_le_bytes_len(es.len() + 2, 4);
    crate::rom::index::lemma_entry_bytes_len(directory_entry(r, disposition, ns, w.0));
    crate::rom::index::lemma_entry_bytes_len(directory_entry(r, disposition, ns + 2, w.1));
    lemma_entries_bytes_len(r, disposition, es, 0, ns + 5, w.2, file_index);
    lemma_names_bytes_len(es, 0);
}

/// Every directory is written where the layout places it: the bytes of the `k`-th
/// directory of the walk, whose first file comes after the files of the directories before
/// it, lie at its planned position, and the directories end where the layout ends them.
pub proof fn lemma_directories_placed(
    r: AllocatedRom,
    disposition: RomDirectoryOffsetDisposition,
    ws: Seq<(nat, nat, nat, InputDirectory)>,
    pos: nat,
    file_index: nat,
    k: int,
)
    requires
        0 <= k < ws.len(),
    ensures
        ({
            let b = directories_bytes(r, disposition, ws, pos, file_index);
            let p = directory_layout(ws, pos)[k];
            &&& b.len() == directory_layout_end(ws, pos) - pos
            &&& b.subrange(p.0 - pos, p.0 - pos + p.1) == directory_bytes(
                r,
                disposition,
                ws[k],
                file_index + walk_file_sizes(ws.take(k)).len(),
            )
        }),
    decreases k,
{
    let o = next_multiple_of(pos, 16);
    let first = directory_bytes(r, disposition, ws[0], file_index);
    let next_files = file_index + entries_file_sizes(ws[0].3.0@, 0).len();
    let tail = directories_bytes(r, disposition, ws.drop_first(), o + first.len(), next_files);
    let b = directories_bytes(r, disposition, ws, pos, file_index);
    lemma_next_multiple_of(pos, 16);
    lemma_directory_bytes_len(r, disposition, ws[0], file_index);
    lemma_directories_len(r, disposition, ws.drop_first(), o + first.len(), next_files);
    lemma_directory_layout_len(ws.drop_first(), o + first.len());
    assert(b == Seq::new((o - pos) as nat, |_i: int| 0u8) + first + tail);
    assert(directory_layout(ws, pos) == seq![(o, directory_size(ws[0].3))] + directory_layout(
        ws.drop_first(),
        o + first.len(),
    ));
    if k == 0 {
        assert(ws.take(0) =~= Seq::<(nat, nat, nat, InputDirectory)>::empty());
        assert(b.subrange(o - pos, o - pos + first.len()) =~= first);
    } else {
        lemma_directories_placed(r, disposition, ws.drop_first(), o + first.len(), next_files, k - 1);
        let p = directory_layout(ws.drop_first(), o + first.len())[k - 1];
        assert(directory_layout(ws, pos)[k] == p);
        lemma_directory_layout_index(ws.drop_first(), o + first.len(), k - 1);
        assert(b.subrange(p.0 - pos, p.0 - pos + p.1) =~= tail.subrange(
            p.0 - (o + first.len()),
            p.0 - (o + first.len()) + p.1,
        ));
        assert(ws.drop_first()[k - 1] == ws[k]);
        assert(ws.take(k) =~= seq![ws[0]] + ws.drop_first().take(k - 1));
        assert(walk_file_sizes(ws.take(k)) == entries_file_sizes(ws[0].3.0@, 0) + walk_file_sizes(
            ws.drop_first().take(k - 1),
        )) by {
            assert(ws.take(k)[0] == ws[0]);
            assert(ws.take(k).drop_first() =~= ws.drop_first().take(k - 1));
        }
    }
}

/// The directories end where the layout ends them.
pub(crate) proof fn lemma_directories_len(
    r: AllocatedRom,
    disposition: RomDirectoryOffsetDisposition,
    ws: Seq<(nat, nat, nat, InputDirectory)>,
    pos: nat,
    file_index: nat,
)
    ensures
        directories_bytes(r, disposition, ws, pos, file_index).len() == directory_layout_end(ws, pos) - pos,
        pos <= directory_layout_end(ws, pos),
    decreases ws.len(),
{
    lemma_directory_layout_end(ws, pos);
    if ws.len() > 0 {
        let o = next_multiple_of(pos, 16);
        lemma_next_multiple_of(pos, 16);
        lemma_directory_bytes_len(r, disposition, ws[0], file_index);
        lemma_directories_len(
            r,
            disposition,
            ws.drop_first(),
            o + directory_size(ws[0].3),
            file_index + entries_file_sizes(ws[0].3.0@, 0).len(),
        );
    }
}

/// The entries for the entries of `es` from `i` on, as `entries_bytes` writes them.
pub open spec fn entries_list(
    r: AllocatedRom,
    disposition: RomDirectoryOffsetDisposition,
    es: Seq<(String, Vec<u8>, InputEntry)>,
    i: int,
    name_offset: nat,
    dir_index: nat,
    file_index: nat,
) -> Seq<RawEntry>
    decreases es.len() - i,
{
    if i < 0 || i >= es.len() {
        Seq::empty()
    } else {
        let next_name = name_offset + es[i].1@.len() + 1;
        match es[i].2 {
            InputEntry::Directory(_) => seq![directory_entry(r, disposition, name_offset, dir_index)] + entries_list(
                r,
                disposition,
                es,
                i + 1,
                next_name,
                dir_index + 1,
                file_index,
            ),
            InputEntry::File(_) => seq![file_entry(r, name_offset, file_index)] + entries_list(
                r,
                disposition,
                es,
                i + 1,
                next_name,
                dir_index,
                file_index + 1,
            ),
        }
    }
}

/// The entries of the directory `w` of the walk in the order they are written: `.`, `..`,
/// then one for each of its entries.
pub open spec fn directory_entries(
    r: AllocatedRom,
    disposition: RomDirectoryOffsetDisposition,
    w: (nat, nat, nat, InputDirectory),
    file_index: nat,
) -> Seq<RawEntry> {
    let es = w.3.0@;
    let ns = names_start(es.len());
    seq![directory_entry(r, disposition, ns, w.0), directory_entry(r, disposition, ns + 2, w.1)] + entries_list(
        r,
        disposition,
        es,
        0,
        ns + 5,
        w.2,
        file_index,
    )
}

/// The `t`-th entry written for the entries of `es` from `i` on takes the twelve bytes
/// from `12 * t`.
proof fn lemma_entries_bytes_at(
    r: AllocatedRom,
    disposition: RomDirectoryOffsetDisposition,
    es: Seq<(String, Vec<u8>, InputEntry)>,
    i: int,
    name_offset: nat,
    dir_index: nat,
    file_index: nat,
    t: int,
)
    requires
        0 <= i,
        0 <= t < es.len() - i,
    ensures
        entries_list(r, disposition, es, i, name_offset, dir_index, file_index).len() == es.len() - i,
        entries_bytes(r, disposition, es, i, name_offset, dir_index, file_index).subrange(12 * t, 12 * t + 12)
            == entry_bytes(entries_list(r, disposition, es, i, name_offset, dir_index, file_index)[t]),
    decreases es.len() - i,
{
    let next_name = name_offset + es[i].1@.len() + 1;
    let (head, d2, f2) = match es[i].2 {
        InputEntry::Directory(_) => (directory_entry(r, disposition, name_offset, dir_index), dir_index + 1, file_index),
        InputEntry::File(_) => (file_entry(r, name_offset, file_index), dir_index, file_index + 1),
    };
    let tail = entries_bytes(r, disposition, es, i + 1, next_name, d2, f2);
    let tail_list = entries_list(r, disposition, es, i + 1, next_name, d2, f2);
    crate::rom::index::lemma_entry_bytes_len(head);
    lemma_entries_bytes_len(r, disposition, es, i + 1, next_name, d2, f2);
    assert(entries_bytes(r, disposition, es, i, name_offset, dir_index, file_index) == entry_bytes(head) + tail);
    assert(entries_list(r, disposition, es, i, name_offset, dir_index, file_index) == seq![head] + tail_list);
    if i + 1 < es.len() {
        lemma_entries_bytes_at(r, disposition, es, i + 1, next_name, d2, f2, 0);
    } else {
        assert(tail_list =~= Seq::<RawEntry>::empty());
    }
    if t == 0 {
        assert((entry_bytes(head) + tail).subrange(0, 12) =~= entry_bytes(head));
    } else {
        lemma_entries_bytes_at(r, disposition, es, i + 1, next_name, d2, f2, t - 1);
        assert((entry_bytes(head) + tail).subrange(12 * t, 12 * t + 12) =~= tail.subrange(
            12 * (t - 1),
            12 * (t - 1) + 12,
        ));
    }
}

/// What a directory of the index reads back as: its first four bytes hold the number of
/// its entries (two more than the directory has, for `.` and `..`), and entry `j` takes the
/// twelve bytes from `4 + 12 * j`. Reading an entry from those bytes gives it back (see
/// `lemma_entry_roundtrip`).
pub proof fn lemma_directory_entries_read_back(
    r: AllocatedRom,
    disposition: RomDirectoryOffsetDisposition,
    w: (nat, nat, nat, InputDirectory),
    file_index: nat,
    j: int,
)
    requires
        0 <= j < w.3.0@.len() + 2,
    ensures
        directory_entries(r, disposition, w, file_index).len() == w.3.0@.len() + 2,
        directory_bytes(r, disposition, w, file_index).subrange(0, 4) == le_bytes(w.3.0@.len() + 2, 4),
        directory_bytes(r, disposition, w, file_index).subrange(4 + 12 * j, 16 + 12 * j) == entry_bytes(
            directory_entries(r, disposition, w, file_index)[j],
        ),
{
    let es = w.3.0@;
    let ns = names_start(es.len());
    let dot = directory_entry(r, disposition, ns, w.0);
    let dotdot = directory_entry(r, disposition, ns + 2, w.1);
    let eb = entries_bytes(r, disposition, es, 0, ns + 5, w.2, file_index);
    let el = entries_list(r, disposition, es, 0, ns + 5, w.2, file_index);
    let rest = seq![46u8, 0u8] + seq![46u8, 46u8, 0u8] + names_bytes(es, 0);
    let b = directory_bytes(r, disposition, w, file_index);
    lemma_le_bytes_len(es.len() + 2, 4);
    crate::rom::index::lemma_entry_bytes_len(dot);
    crate::rom::index::lemma_entry_bytes_len(dotdot);
    lemma_entries_bytes_len(r, disposition, es, 0, ns + 5, w.2, file_index);
    assert(b =~= le_bytes(es.len() + 2, 4) + entry_bytes(dot) + entry_bytes(dotdot) + eb + rest);
    assert(b.subrange(0, 4) =~= le_bytes(es.len() + 2, 4));
    if es.len() > 0 {
        lemma_entries_bytes_at(r, disposition, es, 0, ns + 5, w.2, file_index, 0);
    } else {
        assert(el =~= Seq::<RawEntry>::empty());
    }
    if j == 0 {
        assert(b.subrange(4, 16) =~= entry_bytes(dot));
    } else if j == 1 {
        assert(b.subrange(16, 28) =~= entry_bytes(dotdot));
    } else {
        lemma_entries_bytes_at(r, disposition, es, 0, ns + 5, w.2, file_index, j - 2);
        assert(b.subrange(4 + 12 * j, 16 + 12 * j) =~= eb.subrange(12 * (j - 2), 12 * (j - 2) + 12));
    }
}

} // verus!
