//! Reading the files of an archive from its index.
use vstd::prelude::*;

use crate::le::le_value;
use crate::rom::header::{has_v1_header, header_size, RomHeaderV1, RomHeaderV2};
use crate::snr::reactor::rewrite::stringer::first_zero;
use crate::snr::reader::Reader;
use crate::versions::{RomDirectoryOffsetDisposition, RomVersion, RomVersionFacts};

verus! {

/// The little-endian 32-bit value at `p` of `rom`.
pub open spec fn u32_at(rom: Seq<u8>, p: int) -> nat {
    le_value(rom.subrange(p, p + 4))
}

/// Where the things an index reader needs come from: directory offsets count from `base` in
/// units of 16, file offsets from the start in units of `multiplier`.
pub struct IndexReading {
    pub base: u64,
    pub multiplier: u64,
}

/// The files under the directory at `p` of `rom`, each as its path (`path` followed by the
/// names down to it, separated by `/`), its offset and its size, in the order of the
/// directory's entries, a subdirectory's files in place of its entry; the entries `.` and
/// `..` (the first two) are skipped. `None` where something lies outside `rom`, a name has no
/// terminating zero, or directories nest deeper than `depth`.
pub open spec fn read_directory(rom: Seq<u8>, c: IndexReading, p: nat, path: Seq<u8>, depth: nat) -> Option<
    Seq<(Seq<u8>, u64, u64)>,
>
    decreases depth, 0int, 0int,
{
    if depth == 0 || p + 4 > rom.len() {
        None
    } else {
        read_entries(rom, c, p, path, 2, u32_at(rom, p as int), (depth - 1) as nat)
    }
}

/// The files of the entries `j` up to `n` of the directory at `p`.
pub open spec fn read_entries(
    rom: Seq<u8>,
    c: IndexReading,
    p: nat,
    path: Seq<u8>,
    j: nat,
    n: nat,
    depth: nat,
) -> Option<Seq<(Seq<u8>, u64, u64)>>
    decreases depth, 1int, n - j,
{
    if j >= n {
        Some(Seq::empty())
    } else {
        let e = p + 4 + 12 * j;
        if e + 12 > rom.len() {
            None
        } else {
            let flags = u32_at(rom, e as int);
            let offset = u32_at(rom, (e + 4) as int);
            let size = u32_at(rom, (e + 8) as int);
            let name_pos = p + flags % 0x8000_0000;
            if name_pos > rom.len() || first_zero(rom.skip(name_pos as int)) >= rom.len() - name_pos {
                None
            } else {
                let full = path + rom.skip(name_pos as int).take(first_zero(rom.skip(name_pos as int)) as int);
                let here = if flags >= 0x8000_0000 {
                    read_directory(rom, c, (c.base + offset * 16) as nat, full.push(47u8), depth)
                } else {
                    Some(seq![(full, (offset * c.multiplier) as u64, size as u64)])
                };
                match here {
                    None => None,
                    Some(files) => match read_entries(rom, c, p, path, j + 1, n, depth) {
                        None => None,
                        Some(rest) => Some(files + rest),
                    },
                }
            }
        }
    }
}

/// What an index reader of an archive of `facts` needs: directory offsets count from the
/// start or from the index (which follows the magic and version bytes and the header), file
/// offsets are in units of the multiplier that version 1 fixes and version 2 stores after
/// the index size.
pub open spec fn index_reading(facts: RomVersionFacts, rom: Seq<u8>) -> IndexReading {
    let head = facts.head_bytes@.len();
    IndexReading {
        base: match facts.directory_offset_disposition {
            RomDirectoryOffsetDisposition::FromStart => 0,
            RomDirectoryOffsetDisposition::FromIndexStart => (head + header_size(facts.version)) as u64,
        },
        multiplier: if has_v1_header(facts.version) {
            0x800
        } else {
            u32_at(rom, (head + 4) as int) as u64
        },
    }
}

/// How deep directories of an index of `index_size` bytes can nest: each directory takes at
/// least 28 bytes.
pub open spec fn index_depth(index_size: nat) -> nat {
    index_size / 28 + 1
}

/// The files of an archive of `facts`: those under the root directory, which starts the
/// index; `None` where the header or the index does not fit in `rom`.
pub open spec fn index_files(facts: RomVersionFacts, rom: Seq<u8>) -> Option<Seq<(Seq<u8>, u64, u64)>> {
    let head = facts.head_bytes@.len();
    let start = head + header_size(facts.version);
    if rom.len() < start {
        None
    } else {
        read_directory(
            rom,
            index_reading(facts, rom),
            start,
            Seq::empty(),
            index_depth(u32_at(rom, head as int)),
        )
    }
}

/// The little-endian 32-bit value at `p`.
fn read_u32(rom: &[u8], p: usize) -> (r: u32)
    requires
        p + 4 <= rom@.len(),
    ensures
        r == u32_at(rom@, p as int),
{
    let mut reader = Reader::new(rom, p);
    reader.take_u32()
}

/// The zero-terminated name at `p`, or `None` where it has no terminating zero.
fn read_name(rom: &[u8], p: usize) -> (r: Option<Vec<u8>>)
    requires
        p <= rom@.len(),
    ensures
        r matches Some(name) ==> first_zero(rom@.skip(p as int)) < rom@.len() - p && name@ == rom@.skip(
            p as int,
        ).take(first_zero(rom@.skip(p as int)) as int),
        r is None ==> first_zero(rom@.skip(p as int)) >= rom@.len() - p,
{
    let mut name: Vec<u8> = Vec::new();
    let mut i = p;
    proof {
        assert(rom@.skip(p as int).take(0) =~= Seq::<u8>::empty());
    }
    while i < rom.len() && rom[i] != 0
        invariant
            p <= i <= rom@.len(),
            name@ == rom@.skip(p as int).take(i - p),
            first_zero(rom@.skip(p as int)) == (i - p) + first_zero(rom@.skip(i as int)),
        decreases rom@.len() - i,
    {
        name.push(rom[i]);
        proof {
            assert(rom@.skip(i as int).drop_first() =~= rom@.skip(i + 1));
            assert(name@ =~= rom@.skip(p as int).take(i + 1 - p));
        }
        i = i + 1;
    }
    if i < rom.len() {
        Some(name)
    } else {
        None
    }
}

/// Appends the files under the directory at `p` to `out`; `false` where `read_directory`
/// gives `None`.
fn read_directory_into(
    rom: &[u8],
    c: &IndexReading,
    p: u64,
    path: &Vec<u8>,
    depth: usize,
    out: &mut Vec<(Vec<u8>, u64, u64)>,
) -> (ok: bool)
    requires
        c.multiplier <= u32::MAX,
    ensures
        ok == read_directory(rom@, *c, p as nat, path@, depth as nat) is Some,
        ok ==> files_view(final(out)@) == files_view(old(out)@) + read_directory(
            rom@,
            *c,
            p as nat,
            path@,
            depth as nat,
        ).unwrap(),
    decreases depth, 0int, 0int,
{
    if depth == 0 || p > rom.len() as u64 || rom.len() - (p as usize) < 4 {
        return false;
    }
    let n = read_u32(rom, p as usize);
    read_entries_into(rom, c, p, path, 2, n as u64, depth - 1, out)
}

/// The files with their paths viewed as byte sequences.
pub open spec fn files_view(files: Seq<(Vec<u8>, u64, u64)>) -> Seq<(Seq<u8>, u64, u64)> {
    files.map_values(|f: (Vec<u8>, u64, u64)| (f.0@, f.1, f.2))
}

/// Appends the files of the entries `j` up to `n` of the directory at `p` to `out`; `false`
/// where `read_entries` gives `None`.
fn read_entries_into(
    rom: &[u8],
    c: &IndexReading,
    p: u64,
    path: &Vec<u8>,
    j: u64,
    n: u64,
    depth: usize,
    out: &mut Vec<(Vec<u8>, u64, u64)>,
) -> (ok: bool)
    requires
        p + 4 <= rom@.len(),
        n <= u32::MAX,
        c.multiplier <= u32::MAX,
    ensures
        ok == read_entries(rom@, *c, p as nat, path@, j as nat, n as nat, depth as nat) is Some,
        ok ==> files_view(final(out)@) == files_view(old(out)@) + read_entries(
            rom@,
            *c,
            p as nat,
            path@,
            j as nat,
            n as nat,
            depth as nat,
        ).unwrap(),
    decreases depth, 1int, n - j,
{
    if j >= n {
        proof {
            assert(files_view(out@) + Seq::<(Seq<u8>, u64, u64)>::empty() =~= files_view(out@));
        }
        return true;
    }
    let len = rom.len() as u64;
    if p > len || (len - p) < 4 + 12 * j + 12 {
        return false;
    }
    let e = (p + 4 + 12 * j) as usize;
    let flags = read_u32(rom, e);
    let offset = read_u32(rom, e + 4);
    let size = read_u32(rom, e + 8);
    let name_offset = flags % 0x8000_0000;
    if (name_offset as u64) > len - p {
        return false;
    }
    let name_pos = (p + name_offset as u64) as usize;
    let name = match read_name(rom, name_pos) {
        Some(name) => name,
        None => return false,
    };
    let mut full: Vec<u8> = Vec::new();
    full.extend_from_slice(path.as_slice());
    full.extend_from_slice(name.as_slice());
    let ghost before = files_view(out@);
    let ghost name_at = rom@.skip(name_pos as int);
    proof {
        assert(full@ =~= path@ + name_at.take(first_zero(name_at) as int));
        assert(name_pos == p + flags % 0x8000_0000);
    }
    let ghost mut here_files: Seq<(Seq<u8>, u64, u64)> = Seq::empty();
    if flags >= 0x8000_0000 {
        let mut dir_path = full;
        dir_path.push(47);
        let target = c.base as u128 + offset as u128 * 16;
        proof {
            assert(dir_path@ =~= full@.push(47u8));
            assert(target == c.base + offset * 16);
        }
        if target > len as u128 {
            proof {
                assert(read_directory(rom@, *c, target as nat, dir_path@, depth as nat) is None);
            }
            return false;
        }
        let ok = read_directory_into(rom, c, target as u64, &dir_path, depth, out);
        if !ok {
            return false;
        }
        proof {
            here_files = read_directory(rom@, *c, target as nat, dir_path@, depth as nat).unwrap();
        }
    } else {
        assert(offset * c.multiplier <= 0xffff_ffff * 0xffff_ffff) by (nonlinear_arith)
            requires
                offset <= 0xffff_ffff,
                c.multiplier <= 0xffff_ffff,
        ;
        let file_offset = offset as u64 * c.multiplier;
        let ghost fv = full@;
        out.push((full, file_offset, size as u64));
        proof {
            here_files = seq![(fv, file_offset, size as u64)];
            assert(files_view(out@) =~= before + here_files);
        }
    }
    let ghost mid = files_view(out@);
    let ok = read_entries_into(rom, c, p, path, j + 1, n, depth, out);
    proof {
        if ok {
            let rest = read_entries(rom@, *c, p as nat, path@, (j + 1) as nat, n as nat, depth as nat).unwrap();
            assert(files_view(out@) =~= before + (here_files + rest));
        }
    }
    ok
}

/// The files of an archive of `facts` in `rom`, each as its path, its offset and its size,
/// read from its index; `None` where the index does not fit in `rom`.
pub fn rom_read_index(facts: &RomVersionFacts, rom: &[u8]) -> (r: Option<Vec<(Vec<u8>, u64, u64)>>)
    ensures
        match r {
            Some(files) => index_files(*facts, rom@) == Some(files_view(files@)),
            None => index_files(*facts, rom@) is None,
        },
{
    let head = facts.head_bytes.len();
    let header_len: usize = match facts.version {
        RomVersion::Rom1V2_1 => RomHeaderV1::SIZE,
        RomVersion::Rom2V1_0 | RomVersion::Rom2V1_1 => RomHeaderV2::SIZE,
    };
    if rom.len() < head || rom.len() - head < header_len {
        return None;
    }
    let start = head + header_len;
    let index_size = read_u32(rom, head);
    let multiplier: u64 = match facts.version {
        RomVersion::Rom1V2_1 => 0x800,
        RomVersion::Rom2V1_0 | RomVersion::Rom2V1_1 => read_u32(rom, head + 4) as u64,
    };
    let base: u64 = match facts.directory_offset_disposition {
        RomDirectoryOffsetDisposition::FromStart => 0,
        RomDirectoryOffsetDisposition::FromIndexStart => start as u64,
    };
    let c = IndexReading { base, multiplier };
    let mut out: Vec<(Vec<u8>, u64, u64)> = Vec::new();
    let root: Vec<u8> = Vec::new();
    let ok = read_directory_into(rom, &c, start as u64, &root, (index_size / 28 + 1) as usize, &mut out);
    proof {
        assert(root@ =~= Seq::<u8>::empty());
        assert(files_view(Seq::<(Vec<u8>, u64, u64)>::empty()) =~= Seq::<(Seq<u8>, u64, u64)>::empty());
        assert(c == index_reading(*facts, rom@));
    }
    if ok {
        proof {
            assert(files_view(out@) =~= Seq::<(Seq<u8>, u64, u64)>::empty() + files_view(out@));
        }
        Some(out)
    } else {
        None
    }
}

} // verus!
