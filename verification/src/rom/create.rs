//! The directory tree that goes into a new archive, and the order in which it is walked.
use vstd::prelude::*;

verus! {

/// A file to put into a new archive, by its size in bytes; its contents are copied by
/// whoever writes the archive.
pub struct InputFile(pub u64);

/// An entry of a directory of a new archive.
pub enum InputEntry {
    Directory(InputDirectory),
    File(InputFile),
}

/// A directory of a new archive: each entry with its name and its name in the archive's
/// encoding.
pub struct InputDirectory(pub Vec<(String, Vec<u8>, InputEntry)>);

/// The number of directories among the entries of `es` from `i` on.
pub open spec fn subdirectory_count(es: Seq<(String, Vec<u8>, InputEntry)>, i: int) -> nat
    decreases es.len() - i,
{
    if i < 0 || i >= es.len() {
        0
    } else {
        (if es[i].2 is Directory {
            1nat
        } else {
            0nat
        }) + subdirectory_count(es, i + 1)
    }
}

/// The directories of the tree under `d`, `d` first, as the walk enters them: each as its
/// index, the index of its parent, the index of its first subdirectory, and the directory.
///
/// The walk gives the subdirectories of a directory consecutive indices from `counter`
/// when it enters that directory, and then enters each of them in turn; `index` and
/// `parent` are the indices of `d` and of its parent.
pub open spec fn walk(d: InputDirectory, index: nat, parent: nat, counter: nat) -> Seq<(nat, nat, nat, InputDirectory)>
    decreases d, 0int,
{
    seq![(index, parent, counter, d)] + walk_entries(
        d.0@,
        0,
        counter,
        index,
        counter + subdirectory_count(d.0@, 0),
    )
}

/// The walk of the subdirectories among the entries of `es` from `i` on, the next of which
/// has index `next`, their parent index `parent`, with `counter` the next index to hand out.
pub open spec fn walk_entries(
    es: Seq<(String, Vec<u8>, InputEntry)>,
    i: int,
    next: nat,
    parent: nat,
    counter: nat,
) -> Seq<(nat, nat, nat, InputDirectory)>
    decreases es, es.len() - i,
{
    if i < 0 || i >= es.len() {
        Seq::empty()
    } else {
        match es[i].2 {
            InputEntry::Directory(c) => {
                let w = walk(c, next, parent, counter);
                w + walk_entries(es, i + 1, next + 1, parent, (counter + w.len() - 1) as nat)
            },
            InputEntry::File(_) => walk_entries(es, i + 1, next, parent, counter),
        }
    }
}

/// The walk of a whole tree: the root has index 0 and is its own parent.
pub open spec fn walk_tree(root: InputDirectory) -> Seq<(nat, nat, nat, InputDirectory)> {
    walk(root, 0, 0, 1)
}

/// The number of directories in the tree under `d`, `d` included.
pub open spec fn directory_count(d: InputDirectory) -> nat
    decreases d, 0int,
{
    1 + entries_directory_count(d.0@, 0)
}

/// The number of directories in the trees under the entries of `es` from `i` on.
pub open spec fn entries_directory_count(es: Seq<(String, Vec<u8>, InputEntry)>, i: int) -> nat
    decreases es, es.len() - i,
{
    if i < 0 || i >= es.len() {
        0
    } else {
        match es[i].2 {
            InputEntry::Directory(c) => directory_count(c) + entries_directory_count(es, i + 1),
            InputEntry::File(_) => entries_directory_count(es, i + 1),
        }
    }
}

/// A directory as the walk enters it.
pub struct WalkedDirectory<'a> {
    /// The index of the directory.
    pub index: usize,
    /// The index of its parent (the root is its own parent).
    pub parent: usize,
    /// The index of its first subdirectory; the others follow it.
    pub first_child: usize,
    pub directory: &'a InputDirectory,
}

/// The walk recorded in `ws`, by index, parent index, first subdirectory index and directory.
pub open spec fn walked(ws: Seq<WalkedDirectory>) -> Seq<(nat, nat, nat, InputDirectory)> {
    Seq::new(ws.len(), |k: int| (ws[k].index as nat, ws[k].parent as nat, ws[k].first_child as nat, *ws[k].directory))
}

/// The walk has one element per directory, whatever the indices it starts from.
pub proof fn lemma_walk_len(d: InputDirectory, index: nat, parent: nat, counter: nat)
    ensures
        walk(d, index, parent, counter).len() == directory_count(d),
    decreases d, 0int,
{
    lemma_walk_entries_len(d.0@, 0, counter, index, counter + subdirectory_count(d.0@, 0));
}

/// The walk of entries has one element per directory under them.
pub proof fn lemma_walk_entries_len(
    es: Seq<(String, Vec<u8>, InputEntry)>,
    i: int,
    next: nat,
    parent: nat,
    counter: nat,
)
    ensures
        walk_entries(es, i, next, parent, counter).len() == entries_directory_count(es, i),
    decreases es, es.len() - i,
{
    if 0 <= i < es.len() {
        match es[i].2 {
            InputEntry::Directory(c) => {
                lemma_walk_len(c, next, parent, counter);
                lemma_walk_entries_len(es, i + 1, next + 1, parent, (counter + directory_count(c) - 1) as nat);
            },
            InputEntry::File(_) => {
                lemma_walk_entries_len(es, i + 1, next, parent, counter);
            },
        }
    }
}

/// The number of directories among `entries`.
fn count_subdirectories(entries: &Vec<(String, Vec<u8>, InputEntry)>) -> (r: usize)
    ensures
        r == subdirectory_count(entries@, 0),
{
    let len = entries.len();
    let mut k = len;
    let mut n: usize = 0;
    while k > 0
        invariant
            k <= len,
            len == entries@.len(),
            n == subdirectory_count(entries@, k as int),
            n <= entries@.len() - k,
        decreases k,
    {
        k = k - 1;
        if let InputEntry::Directory(_) = &entries[k].2 {
            n = n + 1;
        }
    }
    n
}

/// Appends the walk of the tree under `d` to `out`, with `counter` the next index to hand
/// out; `counter` ends past the indices handed out.
fn walk_directory<'a>(
    d: &'a InputDirectory,
    index: usize,
    parent: usize,
    counter: &mut usize,
    out: &mut Vec<WalkedDirectory<'a>>,
)
    requires
        *old(counter) + directory_count(*d) <= usize::MAX,
    ensures
        walked(final(out)@) == walked(old(out)@) + walk(*d, index as nat, parent as nat, *old(counter) as nat),
        *final(counter) == *old(counter) + directory_count(*d) - 1,
    decreases *d, 0int,
{
    proof {
        lemma_walk_len(*d, index as nat, parent as nat, *counter as nat);
        lemma_walk_entries_len(
            d.0@,
            0,
            *counter as nat,
            index as nat,
            (*counter + subdirectory_count(d.0@, 0)) as nat,
        );
    }
    let ghost out0 = walked(out@);
    let first_child = *counter;
    out.push(WalkedDirectory { index, parent, first_child, directory: d });
    proof {
        assert(walked(out@) =~= out0 + seq![(index as nat, parent as nat, first_child as nat, *d)]);
        lemma_subdirectories_within(d.0@, 0);
    }
    let subdirectories = count_subdirectories(&d.0);
    *counter = *counter + subdirectories;
    let mut next = first_child;
    let mut i: usize = 0;
    while i < d.0.len()
        invariant
            i <= d.0@.len(),
            first_child + directory_count(*d) <= usize::MAX,
            next == first_child + subdirectory_count(d.0@, 0) - subdirectory_count(d.0@, i as int),
            *counter == first_child + directory_count(*d) - 1 - entries_directory_count(d.0@, i as int)
                + subdirectory_count(d.0@, i as int),
            entries_directory_count(d.0@, i as int) <= entries_directory_count(d.0@, 0),
            directory_count(*d) == 1 + entries_directory_count(d.0@, 0),
            subdirectory_count(d.0@, 0) <= entries_directory_count(d.0@, 0),
            subdirectory_count(d.0@, i as int) <= entries_directory_count(d.0@, i as int),
            walked(out@) + walk_entries(d.0@, i as int, next as nat, index as nat, *counter as nat) == out0 + walk(
                *d,
                index as nat,
                parent as nat,
                first_child as nat,
            ),
        decreases d.0@.len() - i,
    {
        proof {
            lemma_subdirectories_within(d.0@, i + 1);
        }
        match &d.0[i].2 {
            InputEntry::Directory(c) => {
                proof {
                    assert(d.0@[i as int].2 == InputEntry::Directory(*c));
                    lemma_walk_len(*c, next as nat, index as nat, *counter as nat);
                }
                let ghost before = walked(out@);
                let ghost c0 = *counter;
                walk_directory(c, next, index, counter, out);
                proof {
                    assert(walked(out@) + walk_entries(d.0@, i + 1, (next + 1) as nat, index as nat, *counter as nat)
                        =~= before + walk_entries(d.0@, i as int, next as nat, index as nat, c0 as nat));
                }
                next = next + 1;
            },
            InputEntry::File(_) => {},
        }
        i = i + 1;
    }
    proof {
        assert(walked(out@) + Seq::<(nat, nat, nat, InputDirectory)>::empty() =~= walked(out@));
    }
}

/// Every directory entry counts as one directory below it.
proof fn lemma_subdirectories_within(es: Seq<(String, Vec<u8>, InputEntry)>, i: int)
    requires
        0 <= i,
    ensures
        subdirectory_count(es, i) <= entries_directory_count(es, i),
    decreases es.len() - i,
{
    if i < es.len() {
        lemma_subdirectories_within(es, i + 1);
        match es[i].2 {
            InputEntry::Directory(c) => {
                assert(directory_count(c) >= 1);
            },
            InputEntry::File(_) => {},
        }
    }
}

/// The directories of the tree under `root` in the order in which they are entered: the
/// root first with index 0, then the subdirectories of each entered directory, which got
/// consecutive indices when their parent was entered.
pub fn walk_input_fs(root: &InputDirectory) -> (r: Vec<WalkedDirectory<'_>>)
    requires
        directory_count(*root) < usize::MAX,
    ensures
        walked(r@) == walk_tree(*root),
{
    let mut out: Vec<WalkedDirectory<'_>> = Vec::new();
    let mut counter: usize = 1;
    walk_directory(root, 0, 0, &mut counter, &mut out);
    proof {
        assert(walked(Seq::<WalkedDirectory>::empty()) =~= Seq::<(nat, nat, nat, InputDirectory)>::empty());
        assert(Seq::<(nat, nat, nat, InputDirectory)>::empty() + walk_tree(*root) =~= walk_tree(*root));
    }
    out
}

/// The walk under `d` gives `d` the index `index` and the other directories distinct
/// indices from `counter` on, one for each.
pub proof fn lemma_walk_indices(d: InputDirectory, index: nat, parent: nat, counter: nat)
    ensures
        walk(d, index, parent, counter)[0].0 == index,
        forall|k: int|
            1 <= k < walk(d, index, parent, counter).len() ==> counter <= #[trigger] walk(d, index, parent, counter)[k].0
                < counter + walk(d, index, parent, counter).len() - 1,
        forall|j: int, k: int|
            1 <= j < k < walk(d, index, parent, counter).len() ==> #[trigger] walk(d, index, parent, counter)[j].0
                != #[trigger] walk(d, index, parent, counter)[k].0,
        walk(d, index, parent, counter)[0].1 == parent,
        forall|k: int|
            1 <= k < walk(d, index, parent, counter).len() ==> {
                let x = #[trigger] walk(d, index, parent, counter)[k].1;
                x == index || counter <= x < counter + walk(d, index, parent, counter).len() - 1
            },
        forall|k: int|
            0 <= k < walk(d, index, parent, counter).len() ==> {
                let e = #[trigger] walk(d, index, parent, counter)[k];
                counter <= e.2 && e.2 + subdirectory_count(e.3.0@, 0) <= counter + walk(
                    d,
                    index,
                    parent,
                    counter,
                ).len() - 1
            },
    decreases d, 0int,
{
    let m = subdirectory_count(d.0@, 0);
    let w = walk(d, index, parent, counter);
    let we = walk_entries(d.0@, 0, counter, index, counter + m);
    lemma_walk_entries_indices(d.0@, 0, counter, index, counter + m);
    assert forall|k: int| 1 <= k < w.len() implies w[k] == we[k - 1] by {}
    assert forall|k: int| 1 <= k < w.len() implies counter <= #[trigger] w[k].0 < counter + w.len() - 1 by {
        assert(w[k] == we[k - 1]);
    }
    assert forall|j: int, k: int| 1 <= j < k < w.len() implies #[trigger] w[j].0 != #[trigger] w[k].0 by {
        assert(w[j] == we[j - 1]);
        assert(w[k] == we[k - 1]);
    }
    lemma_walk_entries_len(d.0@, 0, counter, index, counter + m);
    lemma_subdirectories_within(d.0@, 0);
    assert forall|k: int| 1 <= k < w.len() implies {
        let x = #[trigger] w[k].1;
        x == index || counter <= x < counter + w.len() - 1
    } by {
        assert(w[k] == we[k - 1]);
    }
    assert forall|k: int| 0 <= k < w.len() implies {
        let e = #[trigger] w[k];
        counter <= e.2 && e.2 + subdirectory_count(e.3.0@, 0) <= counter + w.len() - 1
    } by {
        if k > 0 {
            assert(w[k] == we[k - 1]);
        }
    }
}

/// The walk of the entries of `es` from `i` on gives their `m` subdirectories the indices
/// from `next` and the directories below them distinct indices from `counter` on.
pub proof fn lemma_walk_entries_indices(
    es: Seq<(String, Vec<u8>, InputEntry)>,
    i: int,
    next: nat,
    parent: nat,
    counter: nat,
)
    requires
        0 <= i,
        next + subdirectory_count(es, i) <= counter,
    ensures
        walk_entries(es, i, next, parent, counter).len() >= subdirectory_count(es, i),
        forall|k: int|
            0 <= k < walk_entries(es, i, next, parent, counter).len() ==> {
                let x = #[trigger] walk_entries(es, i, next, parent, counter)[k].0;
                ||| next <= x < next + subdirectory_count(es, i)
                ||| counter <= x < counter + walk_entries(es, i, next, parent, counter).len() - subdirectory_count(es, i)
            },
        forall|j: int, k: int|
            0 <= j < k < walk_entries(es, i, next, parent, counter).len() ==> #[trigger] walk_entries(
                es,
                i,
                next,
                parent,
                counter,
            )[j].0 != #[trigger] walk_entries(es, i, next, parent, counter)[k].0,
        forall|k: int|
            0 <= k < walk_entries(es, i, next, parent, counter).len() ==> {
                let x = #[trigger] walk_entries(es, i, next, parent, counter)[k].1;
                ||| x == parent
                ||| next <= x < next + subdirectory_count(es, i)
                ||| counter <= x < counter + walk_entries(es, i, next, parent, counter).len() - subdirectory_count(es, i)
            },
        forall|k: int|
            0 <= k < walk_entries(es, i, next, parent, counter).len() ==> {
                let e = #[trigger] walk_entries(es, i, next, parent, counter)[k];
                counter <= e.2 && e.2 + subdirectory_count(e.3.0@, 0) <= counter + walk_entries(
                    es,
                    i,
                    next,
                    parent,
                    counter,
                ).len() - subdirectory_count(es, i)
            },
    decreases es, es.len() - i,
{
    if i < es.len() {
        let w = walk_entries(es, i, next, parent, counter);
        let m = subdirectory_count(es, i);
        match es[i].2 {
            InputEntry::Directory(c) => {
                let wc = walk(c, next, parent, counter);
                let l = wc.len();
                lemma_walk_len(c, next, parent, counter);
                lemma_walk_indices(c, next, parent, counter);
                let c2 = (counter + l - 1) as nat;
                let rest = walk_entries(es, i + 1, next + 1, parent, c2);
                lemma_walk_entries_indices(es, i + 1, next + 1, parent, c2);
                assert(w == wc + rest);
                assert forall|k: int| 0 <= k < w.len() implies {
                    let x = #[trigger] w[k].0;
                    ||| next <= x < next + m
                    ||| counter <= x < counter + w.len() - m
                } by {
                    if k >= l {
                        assert(w[k] == rest[k - l]);
                    } else {
                        assert(w[k] == wc[k]);
                    }
                }
                assert forall|j: int, k: int| 0 <= j < k < w.len() implies #[trigger] w[j].0 != #[trigger] w[k].0 by {
                    if k < l {
                        assert(w[k] == wc[k]);
                        assert(w[j] == wc[j]);
                    } else if j < l {
                        assert(w[j] == wc[j]);
                        assert(w[k] == rest[k - l]);
                    } else {
                        assert(w[j] == rest[j - l]);
                        assert(w[k] == rest[k - l]);
                    }
                }
                assert forall|k: int| 0 <= k < w.len() implies {
                    let x = #[trigger] w[k].1;
                    ||| x == parent
                    ||| next <= x < next + m
                    ||| counter <= x < counter + w.len() - m
                } by {
                    if k >= l {
                        assert(w[k] == rest[k - l]);
                    } else {
                        assert(w[k] == wc[k]);
                    }
                }
                assert forall|k: int| 0 <= k < w.len() implies {
                    let e = #[trigger] w[k];
                    counter <= e.2 && e.2 + subdirectory_count(e.3.0@, 0) <= counter + w.len() - m
                } by {
                    if k >= l {
                        assert(w[k] == rest[k - l]);
                    } else {
                        assert(w[k] == wc[k]);
                    }
                }
            },
            InputEntry::File(_) => {
                lemma_walk_entries_indices(es, i + 1, next, parent, counter);
            },
        }
    }
}

/// The walk of a whole tree gives its directories the indices below their number, each
/// one once.
pub proof fn lemma_walk_tree_indices(root: InputDirectory)
    ensures
        walk_tree(root).len() == directory_count(root),
        forall|k: int| 0 <= k < walk_tree(root).len() ==> #[trigger] walk_tree(root)[k].0 < walk_tree(root).len(),
        forall|j: int, k: int|
            0 <= j < k < walk_tree(root).len() ==> #[trigger] walk_tree(root)[j].0 != #[trigger] walk_tree(root)[k].0,
        forall|k: int| 0 <= k < walk_tree(root).len() ==> #[trigger] walk_tree(root)[k].1 < walk_tree(root).len(),
        forall|k: int|
            0 <= k < walk_tree(root).len() ==> #[trigger] walk_tree(root)[k].2 + subdirectory_count(
                walk_tree(root)[k].3.0@,
                0,
            ) <= walk_tree(root).len(),
{
    lemma_walk_len(root, 0, 0, 1);
    lemma_walk_indices(root, 0, 0, 1);
    let w = walk_tree(root);
    assert forall|k: int| 0 <= k < w.len() implies #[trigger] w[k].0 < w.len() by {
        if k > 0 {
            assert(1 <= w[k].0);
        }
    }
    assert forall|j: int, k: int| 0 <= j < k < w.len() implies #[trigger] w[j].0 != #[trigger] w[k].0 by {
        if j == 0 {
            assert(1 <= w[k].0);
        }
    }    assert forall|k: int| 0 <= k < w.len() implies #[trigger] w[k].1 < w.len() by {
        if k > 0 {
            let x = w[k].1;
        }
    }
    assert forall|k: int| 0 <= k < w.len() implies #[trigger] w[k].2 + subdirectory_count(w[k].3.0@, 0) <= w.len() by {
        let e = w[k];
    }
}

} // verus!
