//! A model of materializing extracted entries on a destination filesystem.
//!
//! The destination is a map from relative paths to nodes.  Writing one entry
//! creates the node under its path — overwriting whatever was there — and
//! creates every missing ancestor directory on the way, which is how the
//! extractor's host recreates structure even when explicit directory records
//! are sparse.  The law here is extraction idempotence: materializing the
//! same entry sequence onto the same destination twice leaves exactly the
//! state that one pass leaves.

use vstd::prelude::*;
use vstd::map::*;
use crate::model::{EntryKind, EntrySpec};

verus! {

/// One node of the destination tree: a directory, or a file with its bytes.
pub enum FsNode {
    Directory,
    File(Seq<u8>),
}

/// `k` is a proper ancestor of the path `p`: the part of `p` before one of
/// its separators.
pub open spec fn ancestor_of(k: Seq<char>, p: Seq<char>) -> bool {
    exists|i: int| 0 <= i < p.len() && p[i] == '/' && k == #[trigger] p.take(i)
}

/// The nodes that materializing one entry creates or overwrites: the entry's
/// own node under its path, and a directory under every ancestor.
pub open spec fn node_bindings(e: EntrySpec) -> Map<Seq<char>, FsNode> {
    Map::new(
        |k: Seq<char>| k == e.path || ancestor_of(k, e.path),
        |k: Seq<char>|
            if k == e.path && e.kind is File {
                FsNode::File(e.data)
            } else {
                FsNode::Directory
            },
    )
}

/// The destination state after materializing the entries, in order, onto
/// `fs`: each entry's bindings land on top of what is already there.
pub open spec fn apply_entries(fs: Map<Seq<char>, FsNode>, es: Seq<EntrySpec>) -> Map<
    Seq<char>,
    FsNode,
>
    decreases es.len(),
{
    if es.len() == 0 {
        fs
    } else {
        apply_entries(fs.union_prefer_right(node_bindings(es[0])), es.skip(1))
    }
}

/// The bindings of a whole entry sequence, a later entry overriding an
/// earlier one on the same path.
pub open spec fn all_bindings(es: Seq<EntrySpec>) -> Map<Seq<char>, FsNode>
    decreases es.len(),
{
    if es.len() == 0 {
        Map::<Seq<char>, FsNode>::empty()
    } else {
        node_bindings(es[0]).union_prefer_right(all_bindings(es.skip(1)))
    }
}

/// Materializing a sequence is one overlay: the destination after the pass
/// is the starting state with the sequence's bindings laid on top.
pub proof fn lemma_apply_as_overlay(fs: Map<Seq<char>, FsNode>, es: Seq<EntrySpec>)
    ensures
        apply_entries(fs, es) == fs.union_prefer_right(all_bindings(es)),
    decreases es.len(),
{
    if es.len() == 0 {
        assert(fs.union_prefer_right(all_bindings(es)) =~= fs);
    } else {
        let b = node_bindings(es[0]);
        lemma_apply_as_overlay(fs.union_prefer_right(b), es.skip(1));
        assert(fs.union_prefer_right(b).union_prefer_right(all_bindings(es.skip(1)))
            =~= fs.union_prefer_right(b.union_prefer_right(all_bindings(es.skip(1)))));
    }
}

/// Idempotence of extraction: materializing the same entries onto the same
/// destination twice yields the same final tree as materializing them once —
/// the second pass overwrites each node with itself.
pub proof fn lemma_apply_idempotent(fs: Map<Seq<char>, FsNode>, es: Seq<EntrySpec>)
    ensures
        apply_entries(apply_entries(fs, es), es) == apply_entries(fs, es),
{
    lemma_apply_as_overlay(fs, es);
    lemma_apply_as_overlay(fs.union_prefer_right(all_bindings(es)), es);
    assert(fs.union_prefer_right(all_bindings(es)).union_prefer_right(all_bindings(es))
        =~= fs.union_prefer_right(all_bindings(es)));
}

/// A path no entry of `es` binds — neither as its own path nor as an
/// ancestor — is bound by none of the sequence's bindings.
proof fn lemma_path_unbound(es: Seq<EntrySpec>, p: Seq<char>)
    requires
        forall|j: int|
            0 <= j < es.len() ==> (#[trigger] es[j]).path != p && !ancestor_of(p, es[j].path),
    ensures
        !all_bindings(es).dom().contains(p),
    decreases es.len(),
{
    if es.len() > 0 {
        assert forall|j: int|
            0 <= j < es.skip(1).len() implies (#[trigger] es.skip(1)[j]).path != p
            && !ancestor_of(p, es.skip(1)[j].path) by {
            assert(es.skip(1)[j] == es[j + 1]);
        }
        lemma_path_unbound(es.skip(1), p);
        assert(!node_bindings(es[0]).dom().contains(p));
    }
}

/// Overwrite semantics at one path: a file entry whose path no later entry
/// touches — neither writing it nor creating it as an ancestor directory —
/// ends up on the destination holding exactly that entry's bytes, whatever
/// stood there before (an earlier file is overwritten, not appended to or
/// duplicated).
pub proof fn lemma_last_write_wins(fs: Map<Seq<char>, FsNode>, es: Seq<EntrySpec>, k: int)
    requires
        0 <= k < es.len(),
        es[k].kind is File,
        forall|j: int|
            k < j < es.len() ==> (#[trigger] es[j]).path != es[k].path && !ancestor_of(
                es[k].path,
                es[j].path,
            ),
    ensures
        apply_entries(fs, es).dom().contains(es[k].path),
        apply_entries(fs, es)[es[k].path] == FsNode::File(es[k].data),
{
    lemma_apply_as_overlay(fs, es);
    lemma_bindings_last_write(es, k);
}

/// The bindings of the sequence hold the untouched file entry's node.
proof fn lemma_bindings_last_write(es: Seq<EntrySpec>, k: int)
    requires
        0 <= k < es.len(),
        es[k].kind is File,
        forall|j: int|
            k < j < es.len() ==> (#[trigger] es[j]).path != es[k].path && !ancestor_of(
                es[k].path,
                es[j].path,
            ),
    ensures
        all_bindings(es).dom().contains(es[k].path),
        all_bindings(es)[es[k].path] == FsNode::File(es[k].data),
    decreases es.len(),
{
    let p = es[k].path;
    if k == 0 {
        assert(node_bindings(es[0]).dom().contains(p));
        assert(node_bindings(es[0])[p] == FsNode::File(es[0].data));
        assert forall|j: int|
            0 <= j < es.skip(1).len() implies (#[trigger] es.skip(1)[j]).path != p
            && !ancestor_of(p, es.skip(1)[j].path) by {
            assert(es.skip(1)[j] == es[j + 1]);
        }
        lemma_path_unbound(es.skip(1), p);
    } else {
        assert forall|j: int|
            k - 1 < j < es.skip(1).len() implies (#[trigger] es.skip(1)[j]).path != es.skip(
            1,
        )[k - 1].path && !ancestor_of(es.skip(1)[k - 1].path, es.skip(1)[j].path) by {
            assert(es.skip(1)[j] == es[j + 1]);
            assert(es.skip(1)[k - 1] == es[k]);
        }
        assert(es.skip(1)[k - 1] == es[k]);
        lemma_bindings_last_write(es.skip(1), k - 1);
    }
}

} // verus!
