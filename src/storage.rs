//! Storage accounting: the size of a directory tree, read ahead of time into an
//! [`Entry`] so that the policy on unreadable parts can be stated and proved.

use vstd::prelude::*;

verus! {

/// One filesystem entry as the directory-size sampler sees it.
#[derive(Debug)]
pub enum Entry {
    /// A regular file of the given length in bytes.
    File(u64),
    /// A directory whose listing could be read, with its entries.
    Dir(Vec<Entry>),
    /// An entry whose metadata or listing could not be read.
    Unreadable,
    /// A symbolic link, socket or other entry that is neither followed nor counted.
    Other,
}

/// The bytes held by the regular files under `e`; unreadable parts count nothing.
pub open spec fn tree_size(e: Entry) -> nat
    decreases e,
{
    match e {
        Entry::File(n) => n as nat,
        Entry::Dir(children) => entries_size(children@),
        _ => 0,
    }
}

/// The bytes held under each of the entries `s`, summed.
pub open spec fn entries_size(s: Seq<Entry>) -> nat
    decreases s,
{
    if s.len() == 0 {
        0
    } else {
        entries_size(s.subrange(0, s.len() - 1)) + tree_size(s[s.len() - 1])
    }
}

/// `n`, or `u64::MAX` when it is larger.
pub open spec fn cap_u64(n: nat) -> u64 {
    if n > u64::MAX {
        u64::MAX
    } else {
        n as u64
    }
}

/// What the sampler returns for a top-level path: nothing when the path itself
/// cannot be read, else the bytes under it (capped at `u64::MAX`).
pub open spec fn sampled_size(e: Entry) -> Option<u64> {
    match e {
        Entry::Unreadable => None,
        _ => Some(cap_u64(tree_size(e))),
    }
}

/// The bytes under `e`, capped at `u64::MAX`.
fn capped_tree_size(e: &Entry) -> (r: u64)
    ensures
        r == cap_u64(tree_size(*e)),
    decreases e,
{
    match e {
        Entry::File(n) => *n,
        Entry::Dir(children) => {
            let mut acc: u64 = 0;
            let mut i: usize = 0;
            while i < children.len()
                invariant
                    i <= children.len(),
                    *e == Entry::Dir(*children),
                    acc == cap_u64(entries_size(children@.subrange(0, i as int))),
                decreases children.len() - i,
            {
                proof {
                    assert(decreases_to!(*e => (*e)->Dir_0));
                    assert((*e)->Dir_0 == *children);
                    assert(decreases_to!(*children => children@));
                    assert(decreases_to!(children@ => children@[i as int]));
                    assert(decreases_to!(*e => children@[i as int]));
                }
                let s = capped_tree_size(&children[i]);
                let ghost pre = children@.subrange(0, i + 1);
                assert(pre.subrange(0, pre.len() - 1) == children@.subrange(0, i as int));
                assert(pre[pre.len() - 1] == children@[i as int]);
                acc = acc.saturating_add(s);
                i = i + 1;
            }
            assert(children@.subrange(0, children.len() as int) == children@);
            acc
        },
        Entry::Unreadable => 0,
        Entry::Other => 0,
    }
}

/// The size in bytes of the tree that a path holds: the file's own size for a
/// file, the sum over the regular files below it for a directory. Unreadable
/// subdirectories and entries are skipped; only an unreadable top yields `None`.
pub fn dir_size(e: &Entry) -> (r: Option<u64>)
    ensures
        r == sampled_size(*e),
{
    match e {
        Entry::Unreadable => None,
        _ => Some(capped_tree_size(e)),
    }
}

/// Removing one entry from a listing takes its size out of the sum.
proof fn lemma_entries_size_remove(s: Seq<Entry>, i: int)
    requires
        0 <= i < s.len(),
    ensures
        entries_size(s) == entries_size(s.remove(i)) + tree_size(s[i]),
    decreases s.len(),
{
    let last = s.len() - 1;
    if i == last {
        assert(s.remove(i) == s.subrange(0, last));
    } else {
        let t = s.subrange(0, last);
        lemma_entries_size_remove(t, i);
        let r = s.remove(i);
        assert(r.subrange(0, r.len() - 1) == t.remove(i));
        assert(r[r.len() - 1] == s[last]);
    }
}

/// An unreadable subdirectory does not make the sample fail: the directory's
/// size is the sum over its other entries.
pub proof fn lemma_unreadable_entry_skipped(children: Vec<Entry>, i: int)
    requires
        0 <= i < children@.len(),
        children@[i] is Unreadable,
    ensures
        sampled_size(Entry::Dir(children)) == Some(cap_u64(entries_size(children@.remove(i)))),
{
    lemma_entries_size_remove(children@, i);
}

} // verus!
