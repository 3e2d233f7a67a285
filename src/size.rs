//! Size accounting: the bytes held by the regular files under a directory.
//!
//! The caller walks the tree (without following symbolic links, so that a
//! cycle cannot trap the walk) and hands over each entry it could inspect;
//! entries it could not inspect are left out and so count nothing.

use crate::engine::capped;
use vstd::prelude::*;

verus! {

/// The kind of a directory entry.
#[derive(Debug, Clone, Copy, PartialEq, Eq, Structural)]
pub enum EntryKind {
    File,
    Directory,
    Symlink,
    Other,
}

/// One inspected entry of a walk: its kind and its length in bytes.
#[derive(Debug, Clone, Copy, PartialEq, Eq, Structural)]
pub struct WalkEntry {
    pub kind: EntryKind,
    pub len: u64,
}

/// What an entry contributes: its length when it is a regular file, else nothing.
pub open spec fn contribution(e: WalkEntry) -> nat {
    if e.kind == EntryKind::File {
        e.len as nat
    } else {
        0
    }
}

/// The total length of the regular files among `es`.
pub open spec fn file_bytes(es: Seq<WalkEntry>) -> nat
    decreases es.len(),
{
    if es.len() == 0 {
        0
    } else {
        file_bytes(es.drop_last()) + contribution(es.last())
    }
}

/// The size of a directory tree from the entries of its walk: the sum of the
/// lengths of its regular files (at most `u64::MAX`). A missing or empty tree
/// has no entries, and so size zero.
pub fn calculate_directory_size(entries: &Vec<WalkEntry>) -> (r: u64)
    ensures
        r == capped(file_bytes(entries@)),
        entries@.len() == 0 ==> r == 0,
{
    let mut total: u64 = 0;
    let mut i: usize = 0;
    while i < entries.len()
        invariant
            i <= entries.len(),
            total == capped(file_bytes(entries@.take(i as int))),
        decreases entries.len() - i,
    {
        assert(entries@.take(i + 1).drop_last() =~= entries@.take(i as int));
        let e = entries[i];
        if e.kind == EntryKind::File {
            total = total.saturating_add(e.len);
        }
        i = i + 1;
    }
    assert(entries@.take(entries.len() as int) =~= entries@);
    total
}

proof fn lemma_file_bytes_remove(es: Seq<WalkEntry>, j: int)
    requires
        0 <= j < es.len(),
    ensures
        file_bytes(es) == file_bytes(es.remove(j)) + contribution(es[j]),
    decreases es.len(),
{
    if j == es.len() - 1 {
        assert(es.remove(j) =~= es.drop_last());
    } else {
        lemma_file_bytes_remove(es.drop_last(), j);
        assert(es.remove(j).drop_last() =~= es.drop_last().remove(j));
        assert(es.remove(j).last() == es.last());
    }
}

/// The size does not depend on the order in which the walk meets the
/// entries: two walks of an unmodified tree give the same entries, perhaps
/// in another order, and so the same size.
pub proof fn lemma_size_independent_of_walk_order(a: Seq<WalkEntry>, b: Seq<WalkEntry>)
    requires
        a.to_multiset() == b.to_multiset(),
    ensures
        file_bytes(a) == file_bytes(b),
    decreases a.len(),
{
    broadcast use vstd::seq_lib::group_to_multiset_ensures;
    broadcast use vstd::multiset::group_multiset_axioms;

    if a.len() == 0 {
        assert(a.to_multiset().len() == 0);
        assert(b.to_multiset().len() == b.len());
        assert(b.len() == 0);
    } else {
        let x = a.last();
        assert(a.drop_last().push(x) =~= a);
        assert(a.to_multiset().count(x) > 0);
        assert(b.contains(x));
        let j = choose|j: int| 0 <= j < b.len() && b[j] == x;
        lemma_file_bytes_remove(b, j);
        assert(b.remove(j).to_multiset() == b.to_multiset().remove(x));
        assert(a.drop_last().to_multiset() =~= a.to_multiset().remove(x));
        lemma_size_independent_of_walk_order(a.drop_last(), b.remove(j));
    }
}

} // verus!
