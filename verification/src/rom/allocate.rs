//! Planning where each part of a new archive goes.
use vstd::prelude::*;

use crate::rom::create::{
    directory_count, lemma_walk_tree_indices, walk_input_fs, walk_tree, walked, InputDirectory, InputEntry,
};
use crate::rom::header::{default_multiplier, header_size, RomHeader, RomHeaderV1, RomHeaderV2};
use crate::rom::index::{RawEntry, DIRECTORY_OFFSET_MULTIPLIER};
use crate::versions::{RomVersion, RomVersionFacts};

verus! {

/// The smallest multiple of `a` that is at least `p`.
pub open spec fn next_multiple_of(p: nat, a: nat) -> nat
    recommends
        a > 0,
{
    if p % a == 0 {
        p
    } else {
        (p + (a - p % a)) as nat
    }
}

/// `next_multiple_of` is a multiple of `a`, at least `p`, and less than `a` past it.
pub proof fn lemma_next_multiple_of(p: nat, a: nat)
    requires
        a > 0,
    ensures
        next_multiple_of(p, a) % a == 0,
        p <= next_multiple_of(p, a) < p + a,
{
    if p % a != 0 {
        let pi = p as int;
        let ai = a as int;
        let q = pi / ai;
        let r = pi % ai;
        vstd::arithmetic::div_mod::lemma_fundamental_div_mod(pi, ai);
        assert(pi + (ai - r) == (q + 1) * ai) by (nonlinear_arith)
            requires
                pi == ai * q + r,
        ;
        vstd::arithmetic::div_mod::lemma_mod_multiples_basic(q + 1, ai);
    }
}

/// Hands out consecutive positions in the archive.
pub struct Allocator {
    pub position: u64,
}

impl Allocator {
    pub fn new(initial_position: u64) -> (r: Self)
        ensures
            r.position == initial_position,
    {
        Allocator { position: initial_position }
    }

    /// Reserves `size` bytes and returns where they start.
    pub fn allocate(&mut self, size: u64) -> (r: u64)
        requires
            old(self).position + size <= u64::MAX,
        ensures
            r == old(self).position,
            final(self).position == old(self).position + size,
    {
        let position = self.position;
        self.position = self.position + size;
        position
    }

    /// Moves to the next multiple of `alignment`.
    pub fn align(&mut self, alignment: u64)
        requires
            alignment > 0,
            next_multiple_of(old(self).position as nat, alignment as nat) <= u64::MAX,
        ensures
            final(self).position == next_multiple_of(old(self).position as nat, alignment as nat),
    {
        let rem = self.position % alignment;
        if rem != 0 {
            self.position = self.position + (alignment - rem);
        }
    }
}

/// The planned layout of a new archive: the position and size of each directory and file,
/// the parent of each directory, where the index starts and how long it is, the total size
/// and the unit of file offsets.
pub struct AllocatedRom {
    pub directory_positions: Vec<(u64, u64)>,
    pub file_positions: Vec<(u64, u64)>,
    pub directory_parent_indices: Vec<usize>,
    pub index_offset: u64,
    pub index_size: u64,
    pub file_size: u64,
    pub file_offset_multiplier: u64,
}

/// Whether `a` comes before `b` in the order of byte strings.
pub open spec fn bytes_less(a: Seq<u8>, b: Seq<u8>) -> bool
    decreases a.len(),
{
    if b.len() == 0 {
        false
    } else if a.len() == 0 {
        true
    } else if a[0] != b[0] {
        a[0] < b[0]
    } else {
        bytes_less(a.drop_first(), b.drop_first())
    }
}

/// Whether the entries of a directory are sorted by their encoded names, without repeats.
pub open spec fn entries_sorted(es: Seq<(String, Vec<u8>, InputEntry)>) -> bool {
    forall|i: int| 0 <= i < es.len() - 1 ==> bytes_less(#[trigger] es[i].1@, es[i + 1].1@)
}

/// The bytes the names of the entries of `es` from `i` on take, each with its terminating
/// zero.
pub open spec fn names_size(es: Seq<(String, Vec<u8>, InputEntry)>, i: int) -> nat
    decreases es.len() - i,
{
    if i < 0 || i >= es.len() {
        0
    } else {
        es[i].1@.len() + 1 + names_size(es, i + 1)
    }
}

/// The bytes a directory takes in the index: the entry count, the entries (with `.` and
/// `..`) and their names.
pub open spec fn directory_size(d: InputDirectory) -> nat {
    4 + 12 * (d.0@.len() + 2) + 2 + 3 + names_size(d.0@, 0)
}

/// The position and size of each directory of `ws`, in that order, laid out from `pos`,
/// each at a multiple of 16.
pub open spec fn directory_layout(ws: Seq<(nat, nat, nat, InputDirectory)>, pos: nat) -> Seq<(nat, nat)>
    decreases ws.len(),
{
    if ws.len() == 0 {
        Seq::empty()
    } else {
        let o = next_multiple_of(pos, 16);
        seq![(o, directory_size(ws[0].3))] + directory_layout(ws.drop_first(), o + directory_size(ws[0].3))
    }
}

/// Where the directories of `ws` laid out from `pos` end.
pub open spec fn directory_layout_end(ws: Seq<(nat, nat, nat, InputDirectory)>, pos: nat) -> nat
    decreases ws.len(),
{
    if ws.len() == 0 {
        pos
    } else {
        directory_layout_end(ws.drop_first(), next_multiple_of(pos, 16) + directory_size(ws[0].3))
    }
}

/// The sizes of the files among the entries of `es` from `i` on.
pub open spec fn entries_file_sizes(es: Seq<(String, Vec<u8>, InputEntry)>, i: int) -> Seq<u64>
    decreases es.len() - i,
{
    if i < 0 || i >= es.len() {
        Seq::empty()
    } else {
        match es[i].2 {
            InputEntry::File(f) => seq![f.0] + entries_file_sizes(es, i + 1),
            InputEntry::Directory(_) => entries_file_sizes(es, i + 1),
        }
    }
}

/// The sizes of the files of the directories of `ws`, directory by directory.
pub open spec fn walk_file_sizes(ws: Seq<(nat, nat, nat, InputDirectory)>) -> Seq<u64>
    decreases ws.len(),
{
    if ws.len() == 0 {
        Seq::empty()
    } else {
        entries_file_sizes(ws[0].3.0@, 0) + walk_file_sizes(ws.drop_first())
    }
}

/// The position and size of files of `sizes`, in that order, laid out from `pos`, each at
/// a multiple of `a`.
pub open spec fn file_layout(sizes: Seq<u64>, pos: nat, a: nat) -> Seq<(nat, nat)>
    decreases sizes.len(),
{
    if sizes.len() == 0 {
        Seq::empty()
    } else {
        let o = next_multiple_of(pos, a);
        seq![(o, sizes[0] as nat)] + file_layout(sizes.drop_first(), o + sizes[0] as nat, a)
    }
}

/// Where the files of `sizes` laid out from `pos` end.
pub open spec fn file_layout_end(sizes: Seq<u64>, pos: nat, a: nat) -> nat
    decreases sizes.len(),
{
    if sizes.len() == 0 {
        pos
    } else {
        file_layout_end(sizes.drop_first(), next_multiple_of(pos, a) + sizes[0] as nat, a)
    }
}

/// Where the index of a new archive starts: after the magic and version bytes and the
/// header.
pub open spec fn index_start(facts: RomVersionFacts) -> nat {
    facts.head_bytes@.len() + header_size(facts.version)
}

/// Where the index of a new archive with the tree `root` ends: after its directories, at a
/// multiple of 16.
pub open spec fn index_end(facts: RomVersionFacts, root: InputDirectory) -> nat {
    next_multiple_of(directory_layout_end(walk_tree(root), index_start(facts)), 16)
}

/// The size of a new archive with the tree `root`: its files follow the index, and the
/// archive ends at a multiple of the file offset multiplier.
pub open spec fn archive_size(facts: RomVersionFacts, root: InputDirectory) -> nat {
    let a = default_multiplier(facts.version);
    next_multiple_of(file_layout_end(walk_file_sizes(walk_tree(root)), index_end(facts, root), a), a)
}

/// Whether `r` is the layout of a new archive of `facts` with the tree `root`: the index
/// starts after the header, the directories follow in the order of the walk (each stored at
/// its index, with its parent's index), and the files follow the index in the order in which
/// the walk meets them.
pub open spec fn is_layout(r: AllocatedRom, facts: RomVersionFacts, root: InputDirectory) -> bool {
    let ws = walk_tree(root);
    let dirs = directory_layout(ws, index_start(facts));
    let a = default_multiplier(facts.version);
    &&& r.index_offset == index_start(facts)
    &&& r.index_size == index_end(facts, root) - index_start(facts)
    &&& r.file_offset_multiplier == a
    &&& r.file_size == archive_size(facts, root)
    &&& r.directory_positions@.len() == ws.len()
    &&& r.directory_parent_indices@.len() == ws.len()
    &&& forall|k: int|
        0 <= k < ws.len() ==> #[trigger] r.directory_positions@[ws[k].0 as int] == (
            dirs[k].0 as u64,
            dirs[k].1 as u64,
        ) && r.directory_parent_indices@[ws[k].0 as int] == ws[k].1
    &&& r.file_positions@ == file_layout(walk_file_sizes(ws), index_end(facts, root), a).map_values(
        |p: (nat, nat)| (p.0 as u64, p.1 as u64),
    )
}

/// The directories laid out from `pos` end no earlier than the first one ends.
pub proof fn lemma_directory_layout_end(ws: Seq<(nat, nat, nat, InputDirectory)>, pos: nat)
    ensures
        pos <= directory_layout_end(ws, pos),
        ws.len() > 0 ==> next_multiple_of(pos, 16) + directory_size(ws[0].3) <= directory_layout_end(ws, pos),
    decreases ws.len(),
{
    if ws.len() > 0 {
        lemma_next_multiple_of(pos, 16);
        lemma_directory_layout_end(ws.drop_first(), next_multiple_of(pos, 16) + directory_size(ws[0].3));
    }
}

/// There is one position per directory.
pub proof fn lemma_directory_layout_len(ws: Seq<(nat, nat, nat, InputDirectory)>, pos: nat)
    ensures
        directory_layout(ws, pos).len() == ws.len(),
    decreases ws.len(),
{
    if ws.len() > 0 {
        lemma_directory_layout_len(ws.drop_first(), next_multiple_of(pos, 16) + directory_size(ws[0].3));
    }
}

/// The `k`-th directory laid out from `pos` has its size and ends before the last one ends.
pub proof fn lemma_directory_layout_index(ws: Seq<(nat, nat, nat, InputDirectory)>, pos: nat, k: int)
    requires
        0 <= k < ws.len(),
    ensures
        directory_layout(ws, pos)[k].1 == directory_size(ws[k].3),
        pos <= directory_layout(ws, pos)[k].0,
        directory_layout(ws, pos)[k].0 + directory_layout(ws, pos)[k].1 <= directory_layout_end(ws, pos),
    decreases k,
{
    let o = next_multiple_of(pos, 16);
    let rest = directory_layout(ws.drop_first(), o + directory_size(ws[0].3));
    lemma_next_multiple_of(pos, 16);
    lemma_directory_layout_end(ws, pos);
    lemma_directory_layout_len(ws.drop_first(), o + directory_size(ws[0].3));
    assert(directory_layout(ws, pos) == seq![(o, directory_size(ws[0].3))] + rest);
    if k > 0 {
        lemma_directory_layout_index(ws.drop_first(), o + directory_size(ws[0].3), k - 1);
        assert(directory_layout(ws, pos)[k] == rest[k - 1]);
        assert(ws.drop_first()[k - 1] == ws[k]);
    } else {
        assert(directory_layout(ws, pos)[0] == (o, directory_size(ws[0].3)));
    }
}

/// The directories laid out from `pos` start at multiples of 16, in order, without
/// overlapping.
pub proof fn lemma_directory_layout_disjoint(ws: Seq<(nat, nat, nat, InputDirectory)>, pos: nat, k: int)
    requires
        0 <= k < ws.len(),
    ensures
        directory_layout(ws, pos)[k].0 % 16 == 0,
        k + 1 < ws.len() ==> directory_layout(ws, pos)[k].0 + directory_layout(ws, pos)[k].1 <= directory_layout(
            ws,
            pos,
        )[k + 1].0,
    decreases k,
{
    let o = next_multiple_of(pos, 16);
    let p2 = o + directory_size(ws[0].3);
    let rest = directory_layout(ws.drop_first(), p2);
    lemma_next_multiple_of(pos, 16);
    lemma_directory_layout_len(ws.drop_first(), p2);
    assert(directory_layout(ws, pos) == seq![(o, directory_size(ws[0].3))] + rest);
    if k > 0 {
        lemma_directory_layout_disjoint(ws.drop_first(), p2, k - 1);
        assert(directory_layout(ws, pos)[k] == rest[k - 1]);
        if k + 1 < ws.len() {
            assert(directory_layout(ws, pos)[k + 1] == rest[k]);
        }
    } else if ws.len() > 1 {
        lemma_directory_layout_index(ws.drop_first(), p2, 0);
        assert(directory_layout(ws, pos)[1] == rest[0]);
    }
}

/// The files laid out from `pos` start at multiples of `a`, in order, without overlapping,
/// each with its size, and end where the layout ends.
pub proof fn lemma_file_layout_disjoint(sizes: Seq<u64>, pos: nat, a: nat, i: int)
    requires
        a > 0,
        0 <= i < sizes.len(),
    ensures
        file_layout(sizes, pos, a)[i].0 % a == 0,
        file_layout(sizes, pos, a)[i].1 == sizes[i],
        pos <= file_layout(sizes, pos, a)[i].0,
        file_layout(sizes, pos, a)[i].0 + file_layout(sizes, pos, a)[i].1 <= file_layout_end(sizes, pos, a),
        i + 1 < sizes.len() ==> file_layout(sizes, pos, a)[i].0 + file_layout(sizes, pos, a)[i].1 <= file_layout(
            sizes,
            pos,
            a,
        )[i + 1].0,
    decreases sizes.len(),
{
    let o = next_multiple_of(pos, a);
    let p2 = o + sizes[0] as nat;
    let rest = file_layout(sizes.drop_first(), p2, a);
    lemma_next_multiple_of(pos, a);
    lemma_file_layout_len(sizes.drop_first(), p2, a);
    lemma_file_layout_end(sizes, pos, a);
    assert(file_layout(sizes, pos, a) == seq![(o, sizes[0] as nat)] + rest);
    if i > 0 {
        lemma_file_layout_disjoint(sizes.drop_first(), p2, a, i - 1);
        assert(file_layout(sizes, pos, a)[i] == rest[i - 1]);
        if i + 1 < sizes.len() {
            assert(file_layout(sizes, pos, a)[i + 1] == rest[i]);
        }
    } else if sizes.len() > 1 {
        lemma_file_layout_disjoint(sizes.drop_first(), p2, a, 0);
        assert(file_layout(sizes, pos, a)[1] == rest[0]);
    }
}

/// There is one position per file.
pub proof fn lemma_file_layout_len(sizes: Seq<u64>, pos: nat, a: nat)
    ensures
        file_layout(sizes, pos, a).len() == sizes.len(),
    decreases sizes.len(),
{
    if sizes.len() > 0 {
        lemma_file_layout_len(sizes.drop_first(), next_multiple_of(pos, a) + sizes[0] as nat, a);
    }
}

/// The files laid out from `pos` end no earlier than the first one ends.
pub proof fn lemma_file_layout_end(sizes: Seq<u64>, pos: nat, a: nat)
    requires
        a > 0,
    ensures
        pos <= file_layout_end(sizes, pos, a),
        sizes.len() > 0 ==> next_multiple_of(pos, a) + sizes[0] <= file_layout_end(sizes, pos, a),
    decreases sizes.len(),
{
    if sizes.len() > 0 {
        lemma_next_multiple_of(pos, a);
        lemma_file_layout_end(sizes.drop_first(), next_multiple_of(pos, a) + sizes[0] as nat, a);
    }
}

/// Plans the layout of a new archive of `facts` with the tree `input`: where each directory
/// and each file goes, and the size of the index and of the archive. The entries of every
/// directory have to be sorted by their encoded names, and the archive has to be
/// addressable with 64-bit offsets.
pub fn rom_allocate(facts: &RomVersionFacts, input: &InputDirectory) -> (r: AllocatedRom)
    requires
        forall|k: int|
            0 <= k < walk_tree(*input).len() ==> entries_sorted(#[trigger] walk_tree(*input)[k].3.0@),
        directory_count(*input) < usize::MAX,
        archive_size(*facts, *input) <= u64::MAX,
    ensures
        is_layout(r, *facts, *input),
{
    let ghost ws = walk_tree(*input);
    let ghost start = index_start(*facts);
    let ghost a = default_multiplier(facts.version);
    let ghost dirs = directory_layout(ws, start);
    let ghost iend = index_end(*facts, *input);
    let ghost sizes = walk_file_sizes(ws);
    proof {
        lemma_walk_tree_indices(*input);
        lemma_directory_layout_end(ws, start);
        lemma_next_multiple_of(directory_layout_end(ws, start), 16);
        lemma_file_layout_end(sizes, iend, a);
        lemma_next_multiple_of(file_layout_end(sizes, iend, a), a);
    }
    let mut allocator = Allocator::new(0);
    allocator.allocate(facts.head_bytes.len() as u64);
    let header_size: usize = match facts.version {
        RomVersion::Rom1V2_1 => RomHeaderV1::SIZE,
        RomVersion::Rom2V1_0 | RomVersion::Rom2V1_1 => RomHeaderV2::SIZE,
    };
    allocator.allocate(header_size as u64);
    let index_offset = allocator.position;
    proof {
        assert(index_offset == start);
        lemma_directory_layout_len(ws, start);
        assert(ws.skip(0) =~= ws);
        assert(dirs.skip(0) =~= dirs);
    }

    let walk = walk_input_fs(input);
    let count = walk.len();
    let mut directory_positions: Vec<(u64, u64)> = Vec::new();
    let mut directory_parent_indices: Vec<usize> = Vec::new();
    while directory_positions.len() < count
        invariant
            directory_positions@.len() <= count,
            directory_parent_indices@.len() == directory_positions@.len(),
        decreases count - directory_positions@.len(),
    {
        directory_positions.push((u64::MAX, u64::MAX));
        directory_parent_indices.push(0);
    }

    let mut k: usize = 0;
    while k < count
        invariant
            walked(walk@) == ws,
            count == ws.len(),
            k <= count,
            directory_positions@.len() == count,
            directory_parent_indices@.len() == count,
            forall|j: int| 0 <= j < ws.len() ==> #[trigger] ws[j].0 < ws.len(),
            forall|i: int, j: int| 0 <= i < j < ws.len() ==> #[trigger] ws[i].0 != #[trigger] ws[j].0,
            dirs.len() == ws.len(),
            directory_layout(ws.skip(k as int), allocator.position as nat) == dirs.skip(k as int),
            directory_layout_end(ws.skip(k as int), allocator.position as nat) == directory_layout_end(ws, start),
            directory_layout_end(ws, start) <= u64::MAX,
            forall|j: int|
                0 <= j < k ==> #[trigger] directory_positions@[ws[j].0 as int] == (dirs[j].0 as u64, dirs[j].1 as u64)
                    && directory_parent_indices@[ws[j].0 as int] == ws[j].1,
        decreases count - k,
    {
        let ghost rest = ws.skip(k as int);
        let ghost pos0 = allocator.position as nat;
        let entry = &walk[k];
        let directory = entry.directory;
        proof {
            assert(walked(walk@)[k as int] == (entry.index as nat, entry.parent as nat, entry.first_child as nat, *directory));
            assert(rest[0] == ws[k as int]);
            assert(rest.drop_first() =~= ws.skip(k + 1));
            assert(ws[k as int].3 == *directory);
            lemma_directory_layout_end(rest, allocator.position as nat);
            lemma_next_multiple_of(allocator.position as nat, 16);
            assert(dirs.skip(k as int)[0] == dirs[k as int]);
            assert(dirs.skip(k as int).drop_first() =~= dirs.skip(k + 1));
        }
        let ghost dir_end = next_multiple_of(allocator.position as nat, 16) + directory_size(*directory);
        allocator.align(DIRECTORY_OFFSET_MULTIPLIER as u64);
        let entries_count = directory.0.len() as u64 + 2;
        proof {
            assert(RawEntry::SIZE == 12);
            assert(allocator.position + 4 + entries_count * 12 <= allocator.position + directory_size(*directory));
        }
        let my_offset = allocator.allocate(4 + entries_count * RawEntry::SIZE as u64);
        allocator.allocate(2);
        allocator.allocate(3);
        let mut i: usize = 0;
        while i < directory.0.len()
            invariant
                i <= directory.0@.len(),
                allocator.position + names_size(directory.0@, i as int) == dir_end,
                dir_end <= u64::MAX,
            decreases directory.0@.len() - i,
        {
            allocator.allocate(directory.0[i].1.len() as u64 + 1);
            i = i + 1;
        }
        let my_size = allocator.position - my_offset;
        proof {
            assert(directory_layout(rest, pos0)[0] == (next_multiple_of(pos0, 16), directory_size(rest[0].3)));
            assert(dirs[k as int] == (my_offset as nat, my_size as nat));
        }
        assert(ws[k as int].0 < ws.len());
        let ghost old_positions = directory_positions@;
        let ghost old_parents = directory_parent_indices@;
        directory_positions.set(entry.index, (my_offset, my_size));
        directory_parent_indices.set(entry.index, entry.parent);
        proof {
            assert forall|j: int| 0 <= j < k + 1 implies #[trigger] directory_positions@[ws[j].0 as int] == (
                dirs[j].0 as u64,
                dirs[j].1 as u64,
            ) && directory_parent_indices@[ws[j].0 as int] == ws[j].1 by {
                if j < k {
                    assert(ws[j].0 != ws[k as int].0);
                    assert(old_positions[ws[j].0 as int] == (dirs[j].0 as u64, dirs[j].1 as u64));
                    assert(old_parents[ws[j].0 as int] == ws[j].1);
                }
            }
        }
        k = k + 1;
    }

    proof {
        assert(ws.skip(count as int) =~= Seq::<(nat, nat, nat, InputDirectory)>::empty());
        assert(allocator.position == directory_layout_end(ws, start));
    }
    allocator.align(16);
    assert(allocator.position == iend);
    let index_size = allocator.position - index_offset;
    let file_offset_multiplier = RomHeader::default_file_offset_multiplier(facts.version) as u64;

    let mut file_positions: Vec<(u64, u64)> = Vec::new();
    let ghost mut remaining: Seq<u64> = sizes;
    let ghost all_files = file_layout(sizes, iend, a);
    let mut k: usize = 0;
    while k < count
        invariant
            walked(walk@) == ws,
            count == ws.len(),
            k <= count,
            file_offset_multiplier == a,
            a > 0,
            remaining == walk_file_sizes(ws.skip(k as int)),
            file_positions@.map_values(|p: (u64, u64)| (p.0 as nat, p.1 as nat)) + file_layout(
                remaining,
                allocator.position as nat,
                a,
            ) == all_files,
            file_layout_end(remaining, allocator.position as nat, a) == file_layout_end(sizes, iend, a),
            file_layout_end(sizes, iend, a) <= u64::MAX,
        decreases count - k,
    {
        let directory = walk[k].directory;
        proof {
            assert(ws.skip(k as int)[0] == ws[k as int]);
            assert(ws.skip(k as int).drop_first() =~= ws.skip(k + 1));
            assert(ws[k as int].3 == *directory);
        }
        let mut i: usize = 0;
        while i < directory.0.len()
            invariant
                i <= directory.0@.len(),
                file_offset_multiplier == a,
                a > 0,
                remaining == entries_file_sizes(directory.0@, i as int) + walk_file_sizes(ws.skip(k + 1)),
                file_positions@.map_values(|p: (u64, u64)| (p.0 as nat, p.1 as nat)) + file_layout(
                    remaining,
                    allocator.position as nat,
                    a,
                ) == all_files,
                file_layout_end(remaining, allocator.position as nat, a) == file_layout_end(sizes, iend, a),
                file_layout_end(sizes, iend, a) <= u64::MAX,
            decreases directory.0@.len() - i,
        {
            if let InputEntry::File(file) = &directory.0[i].2 {
                let ghost before = file_positions@.map_values(|p: (u64, u64)| (p.0 as nat, p.1 as nat));
                let ghost rem0 = remaining;
                let ghost pos0 = allocator.position as nat;
                proof {
                    assert(directory.0@[i as int].2 == InputEntry::File(*file));
                    assert(rem0[0] == file.0);
                    lemma_file_layout_end(rem0, pos0, a);
                    lemma_next_multiple_of(pos0, a);
                }
                allocator.align(file_offset_multiplier);
                let my_offset = allocator.position;
                let my_size = file.0;
                allocator.allocate(my_size);
                file_positions.push((my_offset, my_size));
                proof {
                    assert(file_positions@.map_values(|p: (u64, u64)| (p.0 as nat, p.1 as nat)) =~= before.push(
                        (my_offset as nat, my_size as nat),
                    ));
                    remaining = rem0.drop_first();
                    assert(remaining =~= entries_file_sizes(directory.0@, i + 1) + walk_file_sizes(ws.skip(k + 1)));
                    assert(before.push((my_offset as nat, my_size as nat)) + file_layout(
                        remaining,
                        allocator.position as nat,
                        a,
                    ) =~= before + file_layout(rem0, pos0, a));
                }
            }
            i = i + 1;
        }
        proof {
            assert(entries_file_sizes(directory.0@, i as int) =~= Seq::<u64>::empty());
            assert(remaining =~= walk_file_sizes(ws.skip(k + 1)));
        }
        k = k + 1;
    }
    proof {
        assert(ws.skip(count as int) =~= Seq::<(nat, nat, nat, InputDirectory)>::empty());
    }
    proof {
        assert(walk_file_sizes(ws.skip(count as int)) =~= Seq::<u64>::empty());
        assert(file_positions@.map_values(|p: (u64, u64)| (p.0 as nat, p.1 as nat)) =~= all_files);
        assert(file_positions@ =~= all_files.map_values(|p: (nat, nat)| (p.0 as u64, p.1 as u64)));
        assert(allocator.position == file_layout_end(sizes, iend, a));
    }
    allocator.align(file_offset_multiplier);
    assert(allocator.position == archive_size(*facts, *input));

    AllocatedRom {
        directory_positions,
        file_positions,
        directory_parent_indices,
        index_offset,
        index_size,
        file_size: allocator.position,
        file_offset_multiplier,
    }
}

/// `p` moved up to the next multiple of `a`.
fn align_up(p: u128, a: u128) -> (r: u128)
    requires
        a > 0,
        p + a <= u128::MAX,
    ensures
        r == next_multiple_of(p as nat, a as nat),
{
    let rem = p % a;
    if rem == 0 {
        p
    } else {
        p + (a - rem)
    }
}

/// Whether a new archive of `facts` with the tree `input` can be addressed with 64-bit
/// offsets, that is whether its size fits in 64 bits.
pub fn archive_fits(facts: &RomVersionFacts, input: &InputDirectory) -> (r: bool)
    requires
        directory_count(*input) < usize::MAX,
    ensures
        r == (archive_size(*facts, *input) <= u64::MAX),
{
    let ghost ws = walk_tree(*input);
    let ghost start = index_start(*facts);
    let ghost a = default_multiplier(facts.version);
    let ghost iend = index_end(*facts, *input);
    let ghost sizes = walk_file_sizes(ws);
    let ghost total = archive_size(*facts, *input);
    proof {
        lemma_walk_tree_indices(*input);
        lemma_directory_layout_end(ws, start);
        lemma_next_multiple_of(directory_layout_end(ws, start), 16);
        lemma_file_layout_end(sizes, iend, a);
        lemma_next_multiple_of(file_layout_end(sizes, iend, a), a);
        assert(ws.skip(0) =~= ws);
    }
    let limit: u128 = 0xffff_ffff_ffff_ffff;
    let header_size: usize = match facts.version {
        RomVersion::Rom1V2_1 => RomHeaderV1::SIZE,
        RomVersion::Rom2V1_0 | RomVersion::Rom2V1_1 => RomHeaderV2::SIZE,
    };
    let mut pos: u128 = facts.head_bytes.len() as u128 + header_size as u128;
    if pos > limit {
        return false;
    }
    let walk = walk_input_fs(input);
    let count = walk.len();
    let mut k: usize = 0;
    while k < count
        invariant
            walked(walk@) == ws,
            count == ws.len(),
            k <= count,
            pos <= limit,
            limit == 0xffff_ffff_ffff_ffffu128,
            total == archive_size(*facts, *input),
            directory_layout_end(ws.skip(k as int), pos as nat) == directory_layout_end(ws, start),
            directory_layout_end(ws, start) <= total,
        decreases count - k,
    {
        let ghost rest = ws.skip(k as int);
        let directory = walk[k].directory;
        proof {
            assert(walked(walk@)[k as int].3 == *directory);
            assert(rest[0] == ws[k as int]);
            assert(rest.drop_first() =~= ws.skip(k + 1));
            lemma_directory_layout_end(rest, pos as nat);
            lemma_directory_layout_end(ws.skip(k + 1), next_multiple_of(pos as nat, 16) + directory_size(*directory));
            lemma_next_multiple_of(pos as nat, 16);
        }
        let ghost dir_end = next_multiple_of(pos as nat, 16) + directory_size(*directory);
        let ghost pos0 = pos as nat;
        pos = align_up(pos, 16);
        pos = pos + 4 + 12 * (directory.0.len() as u128 + 2) + 2 + 3;
        proof {
            assert(ws[k as int].3 == *directory);
            assert(dir_end <= directory_layout_end(rest, pos0));
        }
        if pos > limit {
            assert(pos <= dir_end);
            return false;
        }
        let mut i: usize = 0;
        while i < directory.0.len()
            invariant
                i <= directory.0@.len(),
                pos <= limit,
                limit == 0xffff_ffff_ffff_ffffu128,
                total == archive_size(*facts, *input),
            total == archive_size(*facts, *input),
            limit == 0xffff_ffff_ffff_ffffu128,
            total == archive_size(*facts, *input),
                pos + names_size(directory.0@, i as int) == dir_end,
                dir_end <= total,
            decreases directory.0@.len() - i,
        {
            proof {
                assert(names_size(directory.0@, i as int) == directory.0@[i as int].1@.len() + 1 + names_size(
                    directory.0@,
                    i + 1,
                ));
            }
            pos = pos + directory.0[i].1.len() as u128 + 1;
            if pos > limit {
                assert(pos <= dir_end);
                return false;
            }
            i = i + 1;
        }
        k = k + 1;
    }
    proof {
        assert(ws.skip(count as int) =~= Seq::<(nat, nat, nat, InputDirectory)>::empty());
    }
    pos = align_up(pos, 16);
    if pos > limit {
        return false;
    }
    let multiplier = RomHeader::default_file_offset_multiplier(facts.version) as u128;
    let ghost mut remaining: Seq<u64> = sizes;
    let mut k: usize = 0;
    while k < count
        invariant
            walked(walk@) == ws,
            count == ws.len(),
            k <= count,
            multiplier == a,
            a <= 0x800,
            a > 0,
            pos <= limit,
            limit == 0xffff_ffff_ffff_ffffu128,
            total == archive_size(*facts, *input),
            remaining == walk_file_sizes(ws.skip(k as int)),
            file_layout_end(remaining, pos as nat, a) == file_layout_end(sizes, iend, a),
            file_layout_end(sizes, iend, a) <= total,
        decreases count - k,
    {
        let directory = walk[k].directory;
        proof {
            assert(walked(walk@)[k as int].3 == *directory);
            assert(ws.skip(k as int)[0] == ws[k as int]);
            assert(ws.skip(k as int).drop_first() =~= ws.skip(k + 1));
        }
        let mut i: usize = 0;
        while i < directory.0.len()
            invariant
                i <= directory.0@.len(),
                multiplier == a,
                a <= 0x800,
                a > 0,
                pos <= limit,
                limit == 0xffff_ffff_ffff_ffffu128,
                total == archive_size(*facts, *input),
            total == archive_size(*facts, *input),
            limit == 0xffff_ffff_ffff_ffffu128,
            total == archive_size(*facts, *input),
                remaining == entries_file_sizes(directory.0@, i as int) + walk_file_sizes(ws.skip(k + 1)),
                file_layout_end(remaining, pos as nat, a) == file_layout_end(sizes, iend, a),
                file_layout_end(sizes, iend, a) <= total,
            decreases directory.0@.len() - i,
        {
            if let InputEntry::File(file) = &directory.0[i].2 {
                let ghost rem0 = remaining;
                let ghost pos0 = pos as nat;
                proof {
                    assert(directory.0@[i as int].2 == InputEntry::File(*file));
                    assert(rem0[0] == file.0);
                    lemma_file_layout_end(rem0, pos0, a);
                    lemma_next_multiple_of(pos0, a);
                    lemma_file_layout_end(rem0.drop_first(), next_multiple_of(pos0, a) + file.0 as nat, a);
                }
                pos = align_up(pos, multiplier);
                pos = pos + file.0 as u128;
                if pos > limit {
                    assert(pos <= file_layout_end(rem0, pos0, a));
                    return false;
                }
                proof {
                    remaining = rem0.drop_first();
                    assert(remaining =~= entries_file_sizes(directory.0@, i + 1) + walk_file_sizes(ws.skip(k + 1)));
                }
            }
            i = i + 1;
        }
        proof {
            assert(entries_file_sizes(directory.0@, i as int) =~= Seq::<u64>::empty());
            assert(remaining =~= walk_file_sizes(ws.skip(k + 1)));
        }
        k = k + 1;
    }
    proof {
        assert(ws.skip(count as int) =~= Seq::<(nat, nat, nat, InputDirectory)>::empty());
        assert(walk_file_sizes(ws.skip(count as int)) =~= Seq::<u64>::empty());
    }
    pos = align_up(pos, multiplier);
    pos <= limit
}

/// Plans the layout of a new archive as `rom_allocate` does, where the archive can be
/// addressed with 64-bit offsets; `None` where it is too large.
pub fn rom_allocate_checked(facts: &RomVersionFacts, input: &InputDirectory) -> (r: Option<AllocatedRom>)
    requires
        forall|k: int|
            0 <= k < walk_tree(*input).len() ==> entries_sorted(#[trigger] walk_tree(*input)[k].3.0@),
        directory_count(*input) < usize::MAX,
    ensures
        r is Some <==> archive_size(*facts, *input) <= u64::MAX,
        r matches Some(layout) ==> is_layout(layout, *facts, *input),
{
    if archive_fits(facts, input) {
        Some(rom_allocate(facts, input))
    } else {
        None
    }
}

} // verus!
