//! File names and paths as raw bytes, with `/` as the separator.

use vstd::prelude::*;
use vstd::slice::slice_subrange;
use crate::bytes::{copy_bytes, push_bytes};

verus! {

/// The byte `.`, which sets an extension off from a file name's stem.
pub const DOT: u8 = 46;

/// The byte `/`, which separates the components of a path.
pub const SEPARATOR: u8 = 47;

/// The file name `..`.
pub open spec fn parent_name() -> Seq<u8> {
    seq![DOT, DOT]
}

/// `i` is the index of the last dot of `file_name`, and that dot is not the
/// first byte.
pub open spec fn splits_at(file_name: Seq<u8>, i: int) -> bool {
    &&& 0 < i < file_name.len()
    &&& file_name[i] == DOT
    &&& forall|j: int| i < j < file_name.len() ==> file_name[j] != DOT
}

/// Whether a file name has an extension: it is not `..`, and it holds a dot
/// behind its first byte.
pub open spec fn has_extension(file_name: Seq<u8>) -> bool {
    file_name != parent_name() && exists|i: int| splits_at(file_name, i)
}

/// The index of the dot at which a file name that has an extension is split.
pub open spec fn split_index(file_name: Seq<u8>) -> int {
    choose|i: int| splits_at(file_name, i)
}

/// The stem of a file name: what stands before its last dot, or the whole name
/// where it has no extension.
pub open spec fn file_stem(file_name: Seq<u8>) -> Seq<u8> {
    if has_extension(file_name) {
        file_name.subrange(0, split_index(file_name))
    } else {
        file_name
    }
}

/// The extension of a file name: what stands behind its last dot, if that dot
/// is not the first byte and the name is not `..`.
pub open spec fn file_extension(file_name: Seq<u8>) -> Option<Seq<u8>> {
    if has_extension(file_name) {
        Some(file_name.subrange(split_index(file_name) + 1, file_name.len() as int))
    } else {
        None
    }
}

/// A file name is split at one index only.
pub proof fn lemma_split_unique(file_name: Seq<u8>, i: int)
    requires
        splits_at(file_name, i),
    ensures
        split_index(file_name) == i,
{
    let j = split_index(file_name);
    if j < i {
        assert(file_name[i] != DOT);
    } else if i < j {
        assert(file_name[j] != DOT);
    }
}

/// A stem that is not empty, a dot and an extension without a dot are split
/// into that stem and that extension again.
pub proof fn lemma_split_joined(stem: Seq<u8>, extension: Seq<u8>)
    requires
        stem.len() > 0,
        extension.len() > 0,
        forall|i: int| 0 <= i < extension.len() ==> extension[i] != DOT,
    ensures
        file_stem(stem + seq![DOT] + extension) == stem,
        file_extension(stem + seq![DOT] + extension) == Some(extension),
{
    let file_name = stem + seq![DOT] + extension;
    let at = stem.len() as int;
    assert(file_name[at] == DOT);
    assert forall|j: int| at < j < file_name.len() implies file_name[j] != DOT by {
        assert(file_name[j] == extension[j - at - 1]);
    }
    assert(splits_at(file_name, at));
    lemma_split_unique(file_name, at);
    assert(file_name.len() >= 3);
    assert(parent_name().len() == 2);
    assert(file_name.subrange(0, at) =~= stem);
    assert(file_name.subrange(at + 1, file_name.len() as int) =~= extension);
}

/// Splits a file name into its stem and its extension.
pub fn split_file_name(file_name: &[u8]) -> (parts: (Vec<u8>, Option<Vec<u8>>))
    ensures
        parts.0@ == file_stem(file_name@),
        match parts.1 {
            Some(extension) => file_extension(file_name@) == Some(extension@),
            None => file_extension(file_name@) is None,
        },
{
    let n: usize = file_name.len();
    if n == 2 && file_name[0] == DOT && file_name[1] == DOT {
        assert(file_name@ =~= parent_name());
        return (copy_bytes(file_name), None);
    }
    assert(file_name@ != parent_name()) by {
        if file_name@ == parent_name() {
            assert(parent_name().len() == 2);
            assert(parent_name()[0] == DOT);
            assert(parent_name()[1] == DOT);
        }
    }
    let mut i: usize = n;
    while i > 0 && file_name[i - 1] != DOT
        invariant
            i <= n,
            n == file_name@.len(),
            forall|j: int| i <= j < n ==> file_name@[j] != DOT,
        decreases i,
    {
        i -= 1;
    }
    if i <= 1 {
        proof {
            if has_extension(file_name@) {
                let at = split_index(file_name@);
                assert(file_name@[at] == DOT);
            }
        }
        (copy_bytes(file_name), None)
    } else {
        proof {
            assert(splits_at(file_name@, i - 1));
            lemma_split_unique(file_name@, i - 1);
        }
        let stem = copy_bytes(slice_subrange(file_name, 0, i - 1));
        let extension = copy_bytes(slice_subrange(file_name, i, n));
        (stem, Some(extension))
    }
}

/// Whether a path starts at the root.
pub open spec fn is_absolute(path: Seq<u8>) -> bool {
    path.len() > 0 && path[0] == SEPARATOR
}

/// `child` below `base`: an absolute `child` stands for itself; otherwise it
/// follows `base`, after a separator unless `base` is empty or ends in one.
pub open spec fn joined(base: Seq<u8>, child: Seq<u8>) -> Seq<u8> {
    if is_absolute(child) {
        child
    } else if base.len() == 0 || base.last() == SEPARATOR {
        base + child
    } else {
        base + seq![SEPARATOR] + child
    }
}

/// The path of `child` below `base`.
pub fn join_path(base: &[u8], child: &[u8]) -> (path: Vec<u8>)
    ensures
        path@ == joined(base@, child@),
{
    if child.len() > 0 && child[0] == SEPARATOR {
        return copy_bytes(child);
    }
    let mut path = copy_bytes(base);
    if base.len() > 0 && base[base.len() - 1] != SEPARATOR {
        path.push(SEPARATOR);
        assert(path@ =~= base@ + seq![SEPARATOR]);
    }
    push_bytes(&mut path, child);
    path
}

} // verus!
