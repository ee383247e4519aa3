//! Reading the index of a new archive gives back the files that went into it.
use vstd::prelude::*;

use crate::le::{le_bytes, lemma_byte_bound_small, lemma_le_bytes_len, lemma_le_value_of_bytes};
use crate::rom::allocate::{
    directory_layout, directory_layout_end, directory_size, entries_file_sizes, file_layout, file_layout_end,
    index_start, is_layout, lemma_directory_layout_disjoint,
    lemma_directory_layout_index, lemma_directory_layout_len, lemma_file_layout_disjoint,
    lemma_file_layout_len, lemma_next_multiple_of, names_size, next_multiple_of, walk_file_sizes, AllocatedRom,
};
use crate::rom::create::{
    directory_count, entries_directory_count, lemma_walk_entries_len, lemma_walk_len, lemma_walk_tree_indices,
    subdirectory_count, walk, walk_entries, walk_tree, InputDirectory, InputEntry,
};
use crate::rom::extract::{index_files, index_reading, read_directory, read_entries, u32_at, IndexReading};
use crate::rom::index::{entry_bytes, RawEntry};
use crate::rom::header::{header_bytes, lemma_header_write_read};
use crate::rom::write::{
    directory_base, directory_bytes, directory_entry, entries_bytes, entry_flags, file_entry, index_bytes, index_fits,
    lemma_directories_placed, lemma_directory_bytes_len, lemma_directory_entries_read_back, lemma_entries_bytes_len,
    lemma_directories_len, lemma_names_bytes_len, names_bytes, names_start, new_header,
};
use crate::versions::{RomDirectoryOffsetDisposition, RomVersionFacts};
use crate::snr::reactor::rewrite::stringer::first_zero;

verus! {

/// Whether `rom` holds the bytes `b` from `p` on.
pub open spec fn holds_at(rom: Seq<u8>, p: nat, b: Seq<u8>) -> bool {
    p + b.len() <= rom.len() && rom.subrange(p as int, (p + b.len()) as int) == b
}

/// A part of bytes that `rom` holds is held where that part starts.
proof fn lemma_holds_part(rom: Seq<u8>, p: nat, b: Seq<u8>, x: nat, y: nat)
    requires
        holds_at(rom, p, b),
        x <= y <= b.len(),
    ensures
        holds_at(rom, p + x, b.subrange(x as int, y as int)),
{
    assert(rom.subrange((p + x) as int, (p + y) as int) =~= b.subrange(x as int, y as int)) by {
        assert forall|t: int| 0 <= t < y - x implies rom.subrange((p + x) as int, (p + y) as int)[t] == b.subrange(
            x as int,
            y as int,
        )[t] by {
            assert(rom.subrange(p as int, (p + b.len()) as int)[x + t] == rom[p + x + t]);
        }
    }
}

/// A 32-bit value written at `p` reads back.
proof fn lemma_read_u32(rom: Seq<u8>, p: nat, v: nat)
    requires
        holds_at(rom, p, le_bytes(v, 4)),
        v < 0x1_0000_0000,
    ensures
        u32_at(rom, p as int) == v,
        p + 4 <= rom.len(),
{
    lemma_byte_bound_small();
    lemma_le_value_of_bytes(v, 4);
}

/// The three values of an entry written at `p` read back.
proof fn lemma_read_entry(rom: Seq<u8>, p: nat, e: RawEntry)
    requires
        holds_at(rom, p, entry_bytes(e)),
    ensures
        p + 12 <= rom.len(),
        u32_at(rom, p as int) == e.name_and_flags.0,
        u32_at(rom, (p + 4) as int) == e.data_offset,
        u32_at(rom, (p + 8) as int) == e.data_size,
{
    let b = entry_bytes(e);
    lemma_le_bytes_len(e.name_and_flags.0 as nat, 4);
    lemma_le_bytes_len(e.data_offset as nat, 4);
    lemma_le_bytes_len(e.data_size as nat, 4);
    assert(b.subrange(0, 4) =~= le_bytes(e.name_and_flags.0 as nat, 4));
    assert(b.subrange(4, 8) =~= le_bytes(e.data_offset as nat, 4));
    assert(b.subrange(8, 12) =~= le_bytes(e.data_size as nat, 4));
    lemma_holds_part(rom, p, b, 0, 4);
    lemma_holds_part(rom, p, b, 4, 8);
    lemma_holds_part(rom, p, b, 8, 12);
    lemma_read_u32(rom, p, e.name_and_flags.0 as nat);
    lemma_read_u32(rom, p + 4, e.data_offset as nat);
    lemma_read_u32(rom, p + 8, e.data_size as nat);
}

/// The first zero of `s` is at `n` where `s` holds no zero before `n` and a zero there.
proof fn lemma_first_zero_at(s: Seq<u8>, n: nat)
    requires
        n < s.len(),
        s[n as int] == 0,
        forall|t: int| 0 <= t < n ==> s[t] != 0,
    ensures
        first_zero(s) == n,
    decreases n,
{
    if n > 0 {
        assert(s[0] != 0);
        lemma_first_zero_at(s.drop_first(), (n - 1) as nat);
    }
}

/// A name written at `p` with its terminating zero reads back, where it holds no zero.
proof fn lemma_read_name(rom: Seq<u8>, p: nat, name: Seq<u8>, rest: Seq<u8>)
    requires
        holds_at(rom, p, name + seq![0u8] + rest),
        !name.contains(0u8),
    ensures
        p <= rom.len(),
        first_zero(rom.skip(p as int)) == name.len(),
        name.len() < rom.len() - p,
        rom.skip(p as int).take(name.len() as int) == name,
{
    let b = name + seq![0u8] + rest;
    let s = rom.skip(p as int);
    assert forall|t: int| 0 <= t < name.len() implies s[t] != 0 by {
        assert(rom.subrange(p as int, (p + b.len()) as int)[t] == b[t]);
        assert(name[t] != 0u8);
    }
    assert(rom.subrange(p as int, (p + b.len()) as int)[name.len() as int] == b[name.len() as int]);
    lemma_first_zero_at(s, name.len());
    assert(s.take(name.len() as int) =~= name) by {
        assert forall|t: int| 0 <= t < name.len() implies s.take(name.len() as int)[t] == name[t] by {
            assert(rom.subrange(p as int, (p + b.len()) as int)[t] == b[t]);
        }
    }
}

/// The flags of an entry tell a directory from a file, and the low 31 bits give its name
/// offset back.
proof fn lemma_entry_flags(is_directory: bool, n: nat)
    requires
        n < 0x8000_0000,
    ensures
        (entry_flags(is_directory, n) >= 0x8000_0000) == is_directory,
        entry_flags(is_directory, n) % 0x8000_0000 == n,
{
    let m = n as u32;
    if is_directory {
        assert((0x8000_0000u32 | (m & 0x7fff_ffff)) >= 0x8000_0000 && (0x8000_0000u32 | (m & 0x7fff_ffff))
            % 0x8000_0000 == m) by (bit_vector)
            requires
                m < 0x8000_0000,
        ;
    } else {
        assert((0u32 | (m & 0x7fff_ffff)) < 0x8000_0000 && (0u32 | (m & 0x7fff_ffff)) % 0x8000_0000 == m)
            by (bit_vector)
            requires
                m < 0x8000_0000,
        ;
    }
}

/// The sizes of the files of two runs of directories, one after the other.
proof fn lemma_walk_file_sizes_add(s: Seq<(nat, nat, nat, InputDirectory)>, t: Seq<(nat, nat, nat, InputDirectory)>)
    ensures
        walk_file_sizes(s + t) == walk_file_sizes(s) + walk_file_sizes(t),
    decreases s.len(),
{
    if s.len() > 0 {
        assert((s + t).drop_first() =~= s.drop_first() + t);
        assert((s + t)[0] == s[0]);
        lemma_walk_file_sizes_add(s.drop_first(), t);
        assert(walk_file_sizes(s + t) =~= walk_file_sizes(s) + walk_file_sizes(t));
    } else {
        assert(s + t =~= t);
        assert(walk_file_sizes(s) + walk_file_sizes(t) =~= walk_file_sizes(t));
    }
}

/// The number of files in the tree under `d`.
pub open spec fn tree_file_count(d: InputDirectory) -> nat
    decreases d, 0int,
{
    entries_file_count(d.0@, 0)
}

/// The number of files in the trees under the entries of `es` from `i` on.
pub open spec fn entries_file_count(es: Seq<(String, Vec<u8>, InputEntry)>, i: int) -> nat
    decreases es, es.len() - i,
{
    if i < 0 || i >= es.len() {
        0
    } else {
        match es[i].2 {
            InputEntry::Directory(c) => tree_file_count(c) + entries_file_count(es, i + 1),
            InputEntry::File(_) => 1 + entries_file_count(es, i + 1),
        }
    }
}

/// The walk under `d` meets as many files as the tree holds.
proof fn lemma_walk_files(d: InputDirectory, index: nat, parent: nat, counter: nat)
    ensures
        walk_file_sizes(walk(d, index, parent, counter)).len() == tree_file_count(d),
    decreases d, 0int,
{
    let es = d.0@;
    let we = walk_entries(es, 0, counter, index, counter + subdirectory_count(es, 0));
    let w = walk(d, index, parent, counter);
    assert(w[0] == (index, parent, counter, d));
    assert(w.drop_first() =~= we);
    lemma_walk_entries_files(es, 0, counter, index, counter + subdirectory_count(es, 0));
}

/// The walk of the entries of `es` from `i` on meets the files of their trees but their own.
proof fn lemma_walk_entries_files(
    es: Seq<(String, Vec<u8>, InputEntry)>,
    i: int,
    next: nat,
    parent: nat,
    counter: nat,
)
    requires
        0 <= i,
    ensures
        walk_file_sizes(walk_entries(es, i, next, parent, counter)).len() + entries_file_sizes(es, i).len()
            == entries_file_count(es, i),
    decreases es, es.len() - i,
{
    if i < es.len() {
        match es[i].2 {
            InputEntry::Directory(c) => {
                let w = walk(c, next, parent, counter);
                let c2 = (counter + w.len() - 1) as nat;
                lemma_walk_files(c, next, parent, counter);
                lemma_walk_entries_files(es, i + 1, next + 1, parent, c2);
                lemma_walk_file_sizes_add(w, walk_entries(es, i + 1, next + 1, parent, c2));
            },
            InputEntry::File(_) => {
                lemma_walk_entries_files(es, i + 1, next, parent, counter);
            },
        }
    }
}

/// Directories laid out from `pos` take at least 33 bytes each.
proof fn lemma_directory_layout_least(ws: Seq<(nat, nat, nat, InputDirectory)>, pos: nat)
    ensures
        pos + 33 * ws.len() <= directory_layout_end(ws, pos),
    decreases ws.len(),
{
    if ws.len() > 0 {
        lemma_next_multiple_of(pos, 16);
        lemma_directory_layout_least(ws.drop_first(), next_multiple_of(pos, 16) + directory_size(ws[0].3));
    }
}

/// The files under `d`, in the order in which its index lists them (a subdirectory's files
/// in place of its entry), each as its path below `path` and its number in the order in
/// which a new archive stores files: those of `d` itself from `f` on, those of its
/// subtrees after them.
pub open spec fn tree_files(d: InputDirectory, path: Seq<u8>, f: nat) -> Seq<(Seq<u8>, nat)>
    decreases d, 0int,
{
    entries_files(d.0@, 0, path, f, f + entries_file_sizes(d.0@, 0).len())
}

/// The files under the entries of `es` from `i` on: the next file of the directory itself
/// has number `f`, the first file of the next subtree number `g`.
pub open spec fn entries_files(es: Seq<(String, Vec<u8>, InputEntry)>, i: int, path: Seq<u8>, f: nat, g: nat) -> Seq<
    (Seq<u8>, nat),
>
    decreases es, es.len() - i,
{
    if i < 0 || i >= es.len() {
        Seq::empty()
    } else {
        match es[i].2 {
            InputEntry::Directory(c) => tree_files(c, path + es[i].1@ + seq![47u8], g) + entries_files(
                es,
                i + 1,
                path,
                f,
                g + tree_file_count(c),
            ),
            InputEntry::File(_) => seq![(path + es[i].1@, f)] + entries_files(es, i + 1, path, f + 1, g),
        }
    }
}

/// Files by number, each with the position and size that the layout `r` gives it.
pub open spec fn located(r: AllocatedRom, files: Seq<(Seq<u8>, nat)>) -> Seq<(Seq<u8>, u64, u64)> {
    files.map_values(|f: (Seq<u8>, nat)| (f.0, r.file_positions@[f.1 as int].0, r.file_positions@[f.1 as int].1))
}

/// Whether `rom` is an archive written for the tree `root` with the layout `r`: it starts
/// with the index bytes (the files follow). Beyond what writing needs, the index starts at a
/// multiple of 16 (the root directory is read where the index starts), each directory takes
/// less than 2 GiB (the name offsets keep 31 bits), no name holds a zero byte (names end at
/// one), and the archive is addressable with 64-bit offsets.
pub open spec fn written(facts: RomVersionFacts, root: InputDirectory, r: AllocatedRom, rom: Seq<u8>) -> bool {
    let ws = walk_tree(root);
    let b = index_bytes(r, facts, root);
    &&& is_layout(r, facts, root)
    &&& index_fits(r, facts)
    &&& index_start(facts) % 16 == 0
    &&& rom.len() <= u64::MAX
    &&& b.len() <= rom.len()
    &&& rom.take(b.len() as int) == b
    &&& forall|i: int| 0 <= i < r.directory_positions@.len() ==> #[trigger] r.directory_positions@[i].1 < 0x8000_0000
    &&& forall|k: int, t: int|
        0 <= k < ws.len() && 0 <= t < ws[k].3.0@.len() ==> !(#[trigger] ws[k].3.0@[t]).1@.contains(0u8)
}

/// How the index of an archive with the layout `r` is read.
pub open spec fn reading(r: AllocatedRom, facts: RomVersionFacts) -> IndexReading {
    IndexReading {
        base: directory_base(r, facts.directory_offset_disposition) as u64,
        multiplier: r.file_offset_multiplier,
    }
}

/// The `k`-th directory of the walk lies in the archive where the layout places it, at a
/// multiple of 16, and its position is stored under its index.
proof fn lemma_directory_in_rom(facts: RomVersionFacts, root: InputDirectory, r: AllocatedRom, rom: Seq<u8>, k: int)
    requires
        written(facts, root, r, rom),
        0 <= k < walk_tree(root).len(),
    ensures
        ({
            let ws = walk_tree(root);
            let p = directory_layout(ws, index_start(facts))[k];
            &&& holds_at(
                rom,
                p.0,
                directory_bytes(r, facts.directory_offset_disposition, ws[k], walk_file_sizes(ws.take(k)).len()),
            )
            &&& p.0 % 16 == 0
            &&& p.1 == directory_size(ws[k].3)
            &&& p.1 < 0x8000_0000
            &&& r.directory_positions@[ws[k].0 as int] == (p.0 as u64, p.1 as u64)
            &&& ws[k].0 < ws.len()
        }),
{
    let ws = walk_tree(root);
    let disposition = facts.directory_offset_disposition;
    let start = index_start(facts);
    let p = directory_layout(ws, start)[k];
    let h = new_header(r, facts.version);
    let b = crate::rom::write::directories_bytes(r, disposition, ws, start, 0);
    let all = index_bytes(r, facts, root);
    lemma_walk_tree_indices(root);
    lemma_header_write_read(h, facts.version, Seq::empty());
    lemma_directories_placed(r, disposition, ws, start, 0, k);
    lemma_directory_layout_index(ws, start, k);
    lemma_directory_layout_disjoint(ws, start, k);
    lemma_directory_bytes_len(r, disposition, ws[k], walk_file_sizes(ws.take(k)).len());
    assert(all.len() == start + b.len());
    assert(holds_at(rom, start, b)) by {
        assert(rom.subrange(start as int, (start + b.len()) as int) =~= b) by {
            assert forall|t: int| 0 <= t < b.len() implies rom.subrange(start as int, (start + b.len()) as int)[t]
                == b[t] by {
                assert(rom.take(all.len() as int)[start + t] == all[start + t]);
            }
        }
    }
    lemma_holds_part(rom, start, b, (p.0 - start) as nat, (p.0 - start + p.1) as nat);
    assert(r.directory_positions@[ws[k].0 as int] == (p.0 as u64, p.1 as u64));
}

/// Reading the directory of the walk at `k`, whose walk is that of the tree under `d`,
/// gives the files of that tree, at the positions and with the sizes of the layout.
proof fn lemma_read_tree(
    facts: RomVersionFacts,
    root: InputDirectory,
    r: AllocatedRom,
    rom: Seq<u8>,
    k: int,
    d: InputDirectory,
    index: nat,
    parent: nat,
    counter: nat,
    path: Seq<u8>,
    depth: nat,
)
    requires
        written(facts, root, r, rom),
        0 <= k,
        k + directory_count(d) <= walk_tree(root).len(),
        walk_tree(root).subrange(k, k + directory_count(d)) == walk(d, index, parent, counter),
        depth >= directory_count(d),
    ensures
        read_directory(rom, reading(r, facts), directory_layout(walk_tree(root), index_start(facts))[k].0, path, depth)
            == Some(located(r, tree_files(d, path, walk_file_sizes(walk_tree(root).take(k)).len()))),
    decreases d, 0int, 0int,
{
    let ws = walk_tree(root);
    let disposition = facts.directory_offset_disposition;
    let es = d.0@;
    let m = subdirectory_count(es, 0);
    lemma_directory_layout_len(ws, index_start(facts));
    let w = ws[k];
    let f = walk_file_sizes(ws.take(k)).len();
    let bytes = directory_bytes(r, disposition, w, f);
    let pos = directory_layout(ws, index_start(facts))[k].0;
    let ns = names_start(es.len());
    let eb = entries_bytes(r, disposition, es, 0, ns + 5, counter, f);
    lemma_walk_len(d, index, parent, counter);
    lemma_walk_entries_len(es, 0, counter, index, counter + m);
    assert(walk(d, index, parent, counter)[0] == (index, parent, counter, d));
    assert(w == walk(d, index, parent, counter)[0]);
    lemma_directory_in_rom(facts, root, r, rom, k);
    lemma_directory_entries_read_back(r, disposition, w, f, 0);
    lemma_directory_bytes_len(r, disposition, w, f);
    lemma_le_bytes_len(es.len() + 2, 4);
    lemma_holds_part(rom, pos, bytes, 0, 4);
    lemma_read_u32(rom, pos, es.len() + 2);
    // the entries and the names, as the entries lemma takes them
    lemma_entries_bytes_len(r, disposition, es, 0, ns + 5, counter, f);
    lemma_names_bytes_len(es, 0);
    crate::rom::index::lemma_entry_bytes_len(directory_entry(r, disposition, ns, w.0));
    crate::rom::index::lemma_entry_bytes_len(directory_entry(r, disposition, ns + 2, w.1));
    assert(bytes.subrange(28, 28 + 12 * es.len() as int) =~= eb);
    assert(bytes.subrange((ns + 5) as int, bytes.len() as int) =~= names_bytes(es, 0));
    // the walk of the entries follows the directory itself
    let we = walk_entries(es, 0, counter, index, counter + m);
    assert(ws.subrange(k + 1, k + 1 + entries_directory_count(es, 0)) =~= we) by {
        assert(walk(d, index, parent, counter).drop_first() =~= we);
        assert forall|t: int| 0 <= t < we.len() implies ws.subrange(k + 1, k + 1 + entries_directory_count(es, 0))[t]
            == we[t] by {
            assert(ws.subrange(k, k + directory_count(d))[t + 1] == ws[k + 1 + t]);
        }
    }
    // the files of the directory come after those of the directories before it
    assert(ws.take(k + 1) =~= ws.take(k) + seq![w]);
    assert(ws =~= ws.take(k + 1) + ws.skip(k + 1));
    lemma_walk_file_sizes_add(ws.take(k), seq![w]);
    lemma_walk_file_sizes_add(ws.take(k + 1), ws.skip(k + 1));
    assert(seq![w].drop_first() =~= Seq::<(nat, nat, nat, InputDirectory)>::empty());
    assert(seq![w][0] == w);
    assert(walk_file_sizes(Seq::<(nat, nat, nat, InputDirectory)>::empty()) =~= Seq::<u64>::empty());
    assert(walk_file_sizes(seq![w]) =~= entries_file_sizes(es, 0));
    lemma_read_entries(facts, root, r, rom, k, d, 0, ns + 5, counter, f, k + 1, counter + m, path, (depth - 1) as nat);
}

/// Whether the directory `bytes` holds the entries of `es` from `i` on after the first
/// `i`, written with the name offset, the directory index and the file index that they
/// start from, and their names at its end.
pub open spec fn entries_from(
    bytes: Seq<u8>,
    r: AllocatedRom,
    disposition: RomDirectoryOffsetDisposition,
    es: Seq<(String, Vec<u8>, InputEntry)>,
    i: int,
    name_offset: nat,
    dir_index: nat,
    file_index: nat,
) -> bool {
    &&& 4 + 12 * (es.len() + 2) + names_size(es, 0) <= bytes.len()
    &&& bytes.subrange(4 + 12 * (i + 2), 4 + 12 * (es.len() as int + 2)) == entries_bytes(
        r,
        disposition,
        es,
        i,
        name_offset,
        dir_index,
        file_index,
    )
    &&& name_offset + names_size(es, i) == bytes.len()
    &&& bytes.subrange(name_offset as int, bytes.len() as int) == names_bytes(es, i)
}

/// Whether the directory of the walk at `k` (which is `d`) holds its entries from `i` on as
/// `entries_from` says.
pub open spec fn entries_written_from(
    facts: RomVersionFacts,
    root: InputDirectory,
    r: AllocatedRom,
    k: int,
    d: InputDirectory,
    i: int,
    name_offset: nat,
    dir_index: nat,
    file_index: nat,
) -> bool {
    let ws = walk_tree(root);
    entries_from(
        directory_bytes(r, facts.directory_offset_disposition, ws[k], walk_file_sizes(ws.take(k)).len()),
        r,
        facts.directory_offset_disposition,
        d.0@,
        i,
        name_offset,
        dir_index,
        file_index,
    )
}

/// The entry written for entry `i` of `es`.
pub open spec fn entry_written(
    r: AllocatedRom,
    disposition: RomDirectoryOffsetDisposition,
    es: Seq<(String, Vec<u8>, InputEntry)>,
    i: int,
    name_offset: nat,
    dir_index: nat,
    file_index: nat,
) -> RawEntry {
    match es[i].2 {
        InputEntry::Directory(_) => directory_entry(r, disposition, name_offset, dir_index),
        InputEntry::File(_) => file_entry(r, name_offset, file_index),
    }
}

/// Entry `i` of a directory that `rom` holds at `pos` reads back: its three values, whether
/// it is a directory, and its name; and the entries after it were written after it.
proof fn lemma_entry_read_back(
    rom: Seq<u8>,
    pos: nat,
    bytes: Seq<u8>,
    r: AllocatedRom,
    disposition: RomDirectoryOffsetDisposition,
    es: Seq<(String, Vec<u8>, InputEntry)>,
    i: int,
    name_offset: nat,
    dir_index: nat,
    file_index: nat,
)
    requires
        holds_at(rom, pos, bytes),
        bytes.len() < 0x8000_0000,
        0 <= i < es.len(),
        !es[i].1@.contains(0u8),
        entries_from(bytes, r, disposition, es, i, name_offset, dir_index, file_index),
    ensures
        ({
            let e = pos + 4 + 12 * (i + 2);
            let head = entry_written(r, disposition, es, i, name_offset, dir_index, file_index);
            let flags = u32_at(rom, e);
            let name_at = rom.skip((pos + flags % 0x8000_0000) as int);
            let next_name = name_offset + es[i].1@.len() + 1;
            &&& e + 12 <= rom.len()
            &&& flags == head.name_and_flags.0
            &&& u32_at(rom, e + 4) == head.data_offset
            &&& u32_at(rom, e + 8) == head.data_size
            &&& (flags >= 0x8000_0000) == (es[i].2 is Directory)
            &&& flags % 0x8000_0000 == name_offset
            &&& pos + name_offset <= rom.len()
            &&& first_zero(name_at) < rom.len() - (pos + name_offset)
            &&& name_at.take(first_zero(name_at) as int) == es[i].1@
            &&& entries_from(
                bytes,
                r,
                disposition,
                es,
                i + 1,
                next_name,
                if es[i].2 is Directory {
                    dir_index + 1
                } else {
                    dir_index
                },
                if es[i].2 is Directory {
                    file_index
                } else {
                    file_index + 1
                },
            )
        }),
{
    let n = es.len();
    let j: int = i + 2;
    let e = (pos + 4 + 12 * j) as nat;
    let name = es[i].1@;
    let next_name = name_offset + name.len() + 1;
    let head = entry_written(r, disposition, es, i, name_offset, dir_index, file_index);
    let d2 = if es[i].2 is Directory { dir_index + 1 } else { dir_index };
    let f2 = if es[i].2 is Directory { file_index } else { file_index + 1 };
    let tail = entries_bytes(r, disposition, es, i + 1, next_name, d2, f2);
    crate::rom::index::lemma_entry_bytes_len(head);
    lemma_entries_bytes_len(r, disposition, es, i + 1, next_name, d2, f2);
    assert(entries_bytes(r, disposition, es, i, name_offset, dir_index, file_index) == entry_bytes(head) + tail);
    assert(bytes.subrange(4 + 12 * j, 16 + 12 * j) =~= entry_bytes(head)) by {
        assert(bytes.subrange(4 + 12 * j, 16 + 12 * j) =~= bytes.subrange(4 + 12 * j, 4 + 12 * (n as int + 2)).subrange(
            0,
            12,
        ));
    }
    assert(bytes.subrange(4 + 12 * (j + 1), 4 + 12 * (n as int + 2)) =~= tail) by {
        assert(bytes.subrange(4 + 12 * (j + 1), 4 + 12 * (n as int + 2)) =~= bytes.subrange(
            4 + 12 * j,
            4 + 12 * (n as int + 2),
        ).subrange(12, 12 * (n - i) as int));
    }
    lemma_holds_part(rom, pos, bytes, (4 + 12 * j) as nat, (16 + 12 * j) as nat);
    lemma_read_entry(rom, e, head);
    lemma_names_bytes_len(es, i + 1);
    assert(names_bytes(es, i) == name + seq![0u8] + names_bytes(es, i + 1));
    lemma_holds_part(rom, pos, bytes, name_offset, bytes.len());
    lemma_read_name(rom, pos + name_offset, name, names_bytes(es, i + 1));
    assert(bytes.subrange(next_name as int, bytes.len() as int) =~= names_bytes(es, i + 1)) by {
        assert(bytes.subrange(next_name as int, bytes.len() as int) =~= bytes.subrange(
            name_offset as int,
            bytes.len() as int,
        ).subrange(name.len() + 1int, names_size(es, i) as int));
    }
    lemma_entry_flags(es[i].2 is Directory, name_offset);
}

/// Reading the entries from `i` on of the directory of the walk at `k` (which is `d`) gives
/// the files under them; `name_offset`, `dir_index` and `file_index` are those with which
/// the index was written from entry `i` on, and the walk of their subtrees starts at `kw`.
proof fn lemma_read_entries(
    facts: RomVersionFacts,
    root: InputDirectory,
    r: AllocatedRom,
    rom: Seq<u8>,
    k: int,
    d: InputDirectory,
    i: int,
    name_offset: nat,
    dir_index: nat,
    file_index: nat,
    kw: int,
    counter: nat,
    path: Seq<u8>,
    depth: nat,
)
    requires
        written(facts, root, r, rom),
        0 <= k < walk_tree(root).len(),
        walk_tree(root)[k].3 == d,
        0 <= i <= d.0@.len(),
        entries_written_from(facts, root, r, k, d, i, name_offset, dir_index, file_index),
        0 <= kw,
        kw + entries_directory_count(d.0@, i) <= walk_tree(root).len(),
        walk_tree(root).subrange(kw, kw + entries_directory_count(d.0@, i)) == walk_entries(
            d.0@,
            i,
            dir_index,
            walk_tree(root)[k].0,
            counter,
        ),
        file_index + entries_file_sizes(d.0@, i).len() <= walk_file_sizes(walk_tree(root)).len(),
        depth >= entries_directory_count(d.0@, i),
    ensures
        read_entries(
            rom,
            reading(r, facts),
            directory_layout(walk_tree(root), index_start(facts))[k].0,
            path,
            (i + 2) as nat,
            (d.0@.len() + 2) as nat,
            depth,
        ) == Some(located(r, entries_files(d.0@, i, path, file_index, walk_file_sizes(walk_tree(root).take(kw)).len()))),
    decreases d.0@, d.0@.len() - i, 1int,
{
    let ws = walk_tree(root);
    let es = d.0@;
    let g = walk_file_sizes(ws.take(kw)).len();
    lemma_directory_layout_len(ws, index_start(facts));
    if i >= es.len() {
        assert(located(r, entries_files(es, i, path, file_index, g)) =~= Seq::<(Seq<u8>, u64, u64)>::empty());
        return;
    }
    let name = es[i].1@;
    let next_name = name_offset + name.len() + 1;
    let full = path + name;
    let pos = directory_layout(ws, index_start(facts))[k].0;
    let bytes = directory_bytes(r, facts.directory_offset_disposition, ws[k], walk_file_sizes(ws.take(k)).len());
    lemma_directory_in_rom(facts, root, r, rom, k);
    lemma_directory_bytes_len(r, facts.directory_offset_disposition, ws[k], walk_file_sizes(ws.take(k)).len());
    assert(!es[i].1@.contains(0u8));
    lemma_entry_read_back(
        rom,
        pos,
        bytes,
        r,
        facts.directory_offset_disposition,
        es,
        i,
        name_offset,
        dir_index,
        file_index,
    );
    match es[i].2 {
        InputEntry::File(_) => {
            let rest = entries_files(es, i + 1, path, file_index + 1, g);
            lemma_read_entries(
                facts,
                root,
                r,
                rom,
                k,
                d,
                i + 1,
                next_name,
                dir_index,
                file_index + 1,
                kw,
                counter,
                path,
                depth,
            );
            lemma_read_file_entry(facts, root, r, rom, name_offset, file_index);
            assert(located(r, entries_files(es, i, path, file_index, g)) =~= located(
                r,
                seq![(full, file_index)],
            ) + located(r, rest));
        },
        InputEntry::Directory(_) => {
            lemma_read_subdirectory_entry(
                facts,
                root,
                r,
                rom,
                k,
                d,
                i,
                name_offset,
                dir_index,
                file_index,
                kw,
                counter,
                path,
                depth,
            );
        },
    }
}

/// The step of `lemma_read_entries` at a subdirectory: its entry leads to where the layout
/// placed it, and reading it gives the files of its tree.
proof fn lemma_read_subdirectory_entry(
    facts: RomVersionFacts,
    root: InputDirectory,
    r: AllocatedRom,
    rom: Seq<u8>,
    k: int,
    d: InputDirectory,
    i: int,
    name_offset: nat,
    dir_index: nat,
    file_index: nat,
    kw: int,
    counter: nat,
    path: Seq<u8>,
    depth: nat,
)
    requires
        written(facts, root, r, rom),
        0 <= k < walk_tree(root).len(),
        walk_tree(root)[k].3 == d,
        0 <= i < d.0@.len(),
        d.0@[i].2 is Directory,
        entries_written_from(facts, root, r, k, d, i, name_offset, dir_index, file_index),
        0 <= kw,
        kw + entries_directory_count(d.0@, i) <= walk_tree(root).len(),
        walk_tree(root).subrange(kw, kw + entries_directory_count(d.0@, i)) == walk_entries(
            d.0@,
            i,
            dir_index,
            walk_tree(root)[k].0,
            counter,
        ),
        file_index + entries_file_sizes(d.0@, i).len() <= walk_file_sizes(walk_tree(root)).len(),
        depth >= entries_directory_count(d.0@, i),
    ensures
        read_entries(
            rom,
            reading(r, facts),
            directory_layout(walk_tree(root), index_start(facts))[k].0,
            path,
            (i + 2) as nat,
            (d.0@.len() + 2) as nat,
            depth,
        ) == Some(located(r, entries_files(d.0@, i, path, file_index, walk_file_sizes(walk_tree(root).take(kw)).len()))),
    decreases d.0@, d.0@.len() - i, 0int,
{
    let ws = walk_tree(root);
    let es = d.0@;
    let disposition = facts.directory_offset_disposition;
    let c = reading(r, facts);
    let g = walk_file_sizes(ws.take(kw)).len();
    let name = es[i].1@;
    let next_name = name_offset + name.len() + 1;
    let full = path + name;
    let w0 = ws[k].0;
    let dirs = directory_layout(ws, index_start(facts));
    lemma_walk_tree_indices(root);
    lemma_directory_layout_len(ws, index_start(facts));
    let pos = dirs[k].0;
    let bytes = directory_bytes(r, disposition, ws[k], walk_file_sizes(ws.take(k)).len());
    lemma_directory_in_rom(facts, root, r, rom, k);
    lemma_directory_bytes_len(r, disposition, ws[k], walk_file_sizes(ws.take(k)).len());
    assert(!es[i].1@.contains(0u8));
    lemma_entry_read_back(rom, pos, bytes, r, disposition, es, i, name_offset, dir_index, file_index);
    match es[i].2 {
        InputEntry::Directory(child) => {
            let wc = walk(child, dir_index, w0, counter);
            let cnt2 = (counter + wc.len() - 1) as nat;
            let n_child = directory_count(child);
            lemma_walk_len(child, dir_index, w0, counter);
            lemma_walk_entries_len(es, i + 1, dir_index + 1, w0, cnt2);
            let rest_walk = walk_entries(es, i + 1, dir_index + 1, w0, cnt2);
            assert(walk_entries(es, i, dir_index, w0, counter) == wc + rest_walk);
            assert(ws.subrange(kw, kw + n_child) =~= wc) by {
                assert forall|t: int| 0 <= t < n_child implies ws.subrange(kw, kw + n_child)[t] == wc[t] by {
                    assert(ws.subrange(kw, kw + entries_directory_count(es, i))[t] == ws[kw + t]);
                }
            }
            assert(ws.subrange(kw + n_child, kw + n_child + entries_directory_count(es, i + 1)) =~= rest_walk) by {
                assert forall|t: int| 0 <= t < rest_walk.len() implies ws.subrange(
                    kw + n_child,
                    kw + n_child + entries_directory_count(es, i + 1),
                )[t] == rest_walk[t] by {
                    assert(ws.subrange(kw, kw + entries_directory_count(es, i))[n_child + t] == ws[kw + n_child + t]);
                }
            }
            // where the entry leads
            assert(wc[0] == (dir_index, w0, counter, child));
            assert(ws[kw] == wc[0]) by {
                assert(ws.subrange(kw, kw + n_child)[0] == ws[kw]);
            }
            lemma_directory_in_rom(facts, root, r, rom, kw);
            let target = dirs[kw].0;
            let base = directory_base(r, disposition);
            let p = r.directory_positions@[dir_index as int];
            assert(p.0 == target);
            assert(base % 16 == 0);
            assert(base <= p.0 && (p.0 - base) / 16 <= u32::MAX);
            let offset = u32_at(rom, pos + 4 + 12 * (i + 2) + 4);
            assert(offset == (p.0 - base) / 16);
            assert(c.base + offset * 16 == target) by (nonlinear_arith)
                requires
                    c.base == base,
                    offset == (p.0 - base) / 16,
                    p.0 == target,
                    base <= p.0,
                    base % 16 == 0,
                    target % 16 == 0,
            ;
            // the subtree
            lemma_read_tree(facts, root, r, rom, kw, child, dir_index, w0, counter, full.push(47u8), depth);
            assert(full.push(47u8) =~= path + name + seq![47u8]);
            // the entries after it
            assert(ws.take(kw + n_child) =~= ws.take(kw) + wc) by {
                assert forall|t: int| 0 <= t < n_child implies #[trigger] ws.take(kw + n_child)[kw + t] == wc[t] by {
                    assert(ws.subrange(kw, kw + n_child)[t] == ws[kw + t]);
                }
            }
            lemma_walk_file_sizes_add(ws.take(kw), wc);
            lemma_walk_files(child, dir_index, w0, counter);
            lemma_read_entries(
                facts,
                root,
                r,
                rom,
                k,
                d,
                i + 1,
                next_name,
                dir_index + 1,
                file_index,
                kw + n_child,
                cnt2,
                path,
                depth,
            );
            assert(located(r, entries_files(es, i, path, file_index, g)) =~= located(
                r,
                tree_files(child, path + name + seq![47u8], g),
            ) + located(r, entries_files(es, i + 1, path, file_index, g + tree_file_count(child))));
        },
        InputEntry::File(_) => {},
    }
}

/// The entry of the file with number `index` leads back to its position and size.
proof fn lemma_read_file_entry(
    facts: RomVersionFacts,
    root: InputDirectory,
    r: AllocatedRom,
    rom: Seq<u8>,
    name_offset: nat,
    index: nat,
)
    requires
        written(facts, root, r, rom),
        index < walk_file_sizes(walk_tree(root)).len(),
    ensures
        ({
            let e = file_entry(r, name_offset, index);
            let p = r.file_positions@[index as int];
            &&& e.data_offset as nat * r.file_offset_multiplier == p.0
            &&& e.data_size == p.1
        }),
{
    let ws = walk_tree(root);
    let sizes = walk_file_sizes(ws);
    let a = r.file_offset_multiplier as nat;
    let ie = crate::rom::allocate::index_end(facts, root);
    let fl = file_layout(sizes, ie, a);
    lemma_file_layout_len(sizes, ie, a);
    lemma_file_layout_disjoint(sizes, ie, a, index as int);
    lemma_next_multiple_of(file_layout_end(sizes, ie, a), a);
    let x = fl[index as int].0;
    let p = r.file_positions@[index as int];
    assert(p == (x as u64, fl[index as int].1 as u64));
    assert(p.0 == x);
    assert(p.0 as nat / a <= u32::MAX && p.1 <= u32::MAX);
    assert((x / a) * a == x) by (nonlinear_arith)
        requires
            a > 0,
            x % a == 0,
    {
        vstd::arithmetic::div_mod::lemma_fundamental_div_mod(x as int, a as int);
    }
}

/// Reading the index of an archive that `rom_allocate` laid out and `rom_write_index` wrote
/// gives back every file of the tree that went into it, in the order in which the index
/// lists them (the files of a subdirectory in place of its entry), each with its path (the
/// names down to it, joined by `/`) and with the position and size that the layout gave it.
pub proof fn lemma_read_index_of_written(facts: RomVersionFacts, root: InputDirectory, r: AllocatedRom, rom: Seq<u8>)
    requires
        written(facts, root, r, rom),
    ensures
        index_files(facts, rom) == Some(located(r, tree_files(root, Seq::empty(), 0))),
{
    let ws = walk_tree(root);
    let disposition = facts.directory_offset_disposition;
    let head = facts.head_bytes@.len();
    let start = index_start(facts);
    let h = new_header(r, facts.version);
    let hb = header_bytes(h);
    let all = index_bytes(r, facts, root);
    lemma_walk_tree_indices(root);
    lemma_header_write_read(h, facts.version, Seq::empty());
    lemma_directories_len(r, disposition, ws, start, 0);
    assert(holds_at(rom, head, hb)) by {
        assert(rom.subrange(head as int, (head + hb.len()) as int) =~= hb) by {
            assert forall|t: int| 0 <= t < hb.len() implies rom.subrange(head as int, (head + hb.len()) as int)[t]
                == hb[t] by {
                assert(rom.take(all.len() as int)[head + t] == all[head + t]);
            }
        }
    }
    // the header gives the index size and, in version 2, the multiplier
    lemma_le_bytes_len(r.index_size as u32 as nat, 4);
    lemma_le_bytes_len(r.file_offset_multiplier as u32 as nat, 4);
    assert(hb.subrange(0, 4) =~= le_bytes(r.index_size as u32 as nat, 4));
    lemma_holds_part(rom, head, hb, 0, 4);
    lemma_read_u32(rom, head, r.index_size as u32 as nat);
    if !crate::rom::header::has_v1_header(facts.version) {
        assert(hb.subrange(4, 8) =~= le_bytes(r.file_offset_multiplier as u32 as nat, 4));
        lemma_holds_part(rom, head, hb, 4, 8);
        lemma_read_u32(rom, head + 4, r.file_offset_multiplier as u32 as nat);
    }
    assert(index_reading(facts, rom) == reading(r, facts));
    // the directories nest no deeper than the index allows
    lemma_directory_layout_least(ws, start);
    lemma_next_multiple_of(directory_layout_end(ws, start), 16);
    let depth = crate::rom::extract::index_depth(u32_at(rom, head as int));
    assert(depth >= directory_count(root));
    // the root starts the index
    lemma_directory_layout_len(ws, start);
    assert(directory_layout(ws, start)[0].0 == start);
    assert(ws.subrange(0, directory_count(root) as int) =~= walk(root, 0, 0, 1));
    assert(ws.take(0) =~= Seq::<(nat, nat, nat, InputDirectory)>::empty());
    assert(walk_file_sizes(Seq::<(nat, nat, nat, InputDirectory)>::empty()) =~= Seq::<u64>::empty());
    lemma_read_tree(facts, root, r, rom, 0, root, 0, 0, 1, Seq::empty(), depth);
}

} // verus!
