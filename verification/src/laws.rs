//! The laws of the archive format, stated and proved over the record model.
//!
//! These connect [`crate::archiver::build_archive`] and
//! [`crate::extractor::extract_archive`] through their contracts: what a
//! build writes ([`plan`]) is exactly what an extraction reads back
//! ([`entries_of`]), every stored name is canonical, and a safe source tree
//! yields an archive whose extraction cannot be rejected.

use vstd::prelude::*;
use vstd::assert_seqs_equal;
use crate::model::{
    all_safe, entries_of, entry_of_record, norm_entry, norm_tree, plan, record_of, wf_entry,
    wf_tree, EntryKind, EntrySpec, Record,
};
use crate::paths::{
    forward_slashed, lemma_normalize_forward_slashed, lemma_push_slash_safe, normalize, safe_name,
    with_dir_slash,
};

verus! {

/// Every non-root entry's normalized path is a safe record name.  The tree
/// root itself (empty normalized path) contributes no record and is exempt,
/// so a whole directory walk's output can satisfy this.
pub open spec fn safe_tree(es: Seq<EntrySpec>) -> bool {
    forall|i: int|
        0 <= i < es.len() ==> (normalize(#[trigger] es[i].path).len() > 0 ==> safe_name(
            normalize(es[i].path),
        ))
}

/// Mapping records to entries distributes over concatenation.
proof fn lemma_entries_of_add(a: Seq<Record>, b: Seq<Record>)
    ensures
        entries_of(a + b) == entries_of(a) + entries_of(b),
{
    assert_seqs_equal!(entries_of(a + b) == entries_of(a) + entries_of(b));
}

/// A well-formed tree restricted to its tail stays well-formed.
proof fn lemma_wf_tree_skip(es: Seq<EntrySpec>)
    requires
        wf_tree(es),
        es.len() > 0,
    ensures
        wf_tree(es.skip(1)),
{
    assert forall|i: int| 0 <= i < es.skip(1).len() implies wf_entry(#[trigger] es.skip(1)[i]) by {
        assert(es.skip(1)[i] == es[i + 1]);
    }
}

/// Round trip of the archive format: reading back the records that a build
/// of a well-formed source tree writes yields exactly the source entries —
/// paths normalized, the tree root dropped, byte contents untouched.
///
/// A tree is well-formed when no entry's normalized path ends in a
/// separator and only root directories have empty paths, which is how a
/// directory walk reports a real tree.  (A file whose own name contains a
/// trailing backslash normalizes to a directory-marker name and is excluded
/// by that premise.)
pub proof fn lemma_round_trip(es: Seq<EntrySpec>)
    requires
        wf_tree(es),
    ensures
        entries_of(plan(es)) == norm_tree(es),
    decreases es.len(),
{
    if es.len() == 0 {
        assert(entries_of(plan(es)) =~= norm_tree(es));
    } else {
        let e = es[0];
        let np = normalize(e.path);
        lemma_wf_tree_skip(es);
        lemma_round_trip(es.skip(1));
        lemma_entries_of_add(record_of(e), plan(es.skip(1)));
        assert(wf_entry(e));
        match e.kind {
            EntryKind::File => {
                let r = (np, e.data);
                assert(record_of(e) =~= seq![r]);
                assert(entry_of_record(r) == norm_entry(e));
                assert(entries_of(seq![r]) =~= seq![entry_of_record(r)]);
                assert(norm_tree(es) == seq![norm_entry(e)] + norm_tree(es.skip(1)));
                assert(entries_of(plan(es)) =~= norm_tree(es));
            },
            EntryKind::Directory => {
                if np.len() == 0 {
                    assert(record_of(e) =~= Seq::<Record>::empty());
                    assert(Seq::<Record>::empty() + plan(es.skip(1)) =~= plan(es.skip(1)));
                    assert(plan(es) =~= plan(es.skip(1)));
                    assert(norm_tree(es) == norm_tree(es.skip(1)));
                    assert(entries_of(plan(es)) =~= norm_tree(es));
                } else {
                    lemma_normalize_forward_slashed(e.path);
                    assert(np.last() != '\\');
                    assert(np.last() != '/');
                    assert(with_dir_slash(np) == np.push('/'));
                    let r = (np.push('/'), Seq::<u8>::empty());
                    assert(record_of(e) =~= seq![r]);
                    assert(np.push('/').len() == np.len() + 1);
                    assert(np.push('/').last() == '/');
                    assert(np.push('/').take(np.len() as int) =~= np);
                    assert(entry_of_record(r) == norm_entry(e));
                    assert(entries_of(seq![r]) =~= seq![entry_of_record(r)]);
                    assert(norm_tree(es) == seq![norm_entry(e)] + norm_tree(es.skip(1)));
                    assert(entries_of(plan(es)) =~= norm_tree(es));
                }
            },
        }
    }
}

/// Every record name a build writes is in canonical forward-slash form:
/// whatever separator convention the source paths used, the archive stores
/// single-forward-slash names.
pub proof fn lemma_plan_names_normalized(es: Seq<EntrySpec>)
    ensures
        forall|i: int|
            0 <= i < plan(es).len() ==> forward_slashed(#[trigger] plan(es)[i].0),
    decreases es.len(),
{
    if es.len() > 0 {
        let e = es[0];
        lemma_plan_names_normalized(es.skip(1));
        lemma_normalize_forward_slashed(e.path);
        assert forall|i: int| 0 <= i < plan(es).len() implies forward_slashed(
            #[trigger] plan(es)[i].0,
        ) by {
            if i < record_of(e).len() {
                assert(plan(es)[i] == record_of(e)[i]);
                if e.kind is Directory && normalize(e.path).len() > 0 {
                    let np = normalize(e.path);
                    if !(np.last() == '/' || np.last() == '\\') {
                        assert forall|k: int|
                            0 <= k < np.push('/').len() implies np.push('/')[k] != '\\' by {
                            if k < np.len() {
                                assert(np.push('/')[k] == np[k]);
                            }
                        }
                    }
                }
            } else {
                assert(plan(es)[i] == plan(es.skip(1))[i - record_of(e).len()]);
            }
        }
    }
}

/// A build of a well-formed tree whose normalized paths are all safe writes
/// only safe record names: extracting such an archive is never rejected as
/// path traversal.
pub proof fn lemma_plan_safe(es: Seq<EntrySpec>)
    requires
        wf_tree(es),
        safe_tree(es),
    ensures
        all_safe(plan(es)),
    decreases es.len(),
{
    if es.len() > 0 {
        let e = es[0];
        let np = normalize(e.path);
        lemma_wf_tree_skip(es);
        assert forall|i: int|
            0 <= i < es.skip(1).len() implies (normalize(#[trigger] es.skip(1)[i].path).len() > 0
                ==> safe_name(normalize(es.skip(1)[i].path))) by {
            assert(es.skip(1)[i] == es[i + 1]);
        }
        lemma_plan_safe(es.skip(1));
        assert(wf_entry(e));
        if e.kind is File {
            assert(np.len() > 0);
            assert(safe_name(np));
        }
        if e.kind is Directory && np.len() > 0 {
            assert(safe_name(np));
            lemma_normalize_forward_slashed(e.path);
            assert(np.last() != '\\');
            assert(np.last() != '/');
            assert(with_dir_slash(np) == np.push('/'));
            lemma_push_slash_safe(np);
        }
        assert forall|i: int| 0 <= i < plan(es).len() implies safe_name(
            #[trigger] plan(es)[i].0,
        ) by {
            if i < record_of(e).len() {
                assert(plan(es)[i] == record_of(e)[i]);
            } else {
                assert(plan(es)[i] == plan(es.skip(1))[i - record_of(e).len()]);
            }
        }
    }
}

/// Empty directory preservation: a directory entry with a non-empty
/// normalized path — files inside it or none — comes back out of a round
/// trip as a directory entry under that path.
pub proof fn lemma_empty_dir_preserved(es: Seq<EntrySpec>, i: int)
    requires
        wf_tree(es),
        0 <= i < es.len(),
        es[i].kind is Directory,
        normalize(es[i].path).len() > 0,
    ensures
        entries_of(plan(es)).contains(norm_entry(es[i])),
{
    lemma_round_trip(es);
    lemma_norm_tree_contains(es, i);
}

/// Every entry with a non-empty normalized path appears in the normalized
/// tree.
proof fn lemma_norm_tree_contains(es: Seq<EntrySpec>, i: int)
    requires
        0 <= i < es.len(),
        normalize(es[i].path).len() > 0,
    ensures
        norm_tree(es).contains(norm_entry(es[i])),
    decreases es.len(),
{
    if i == 0 {
        assert(norm_tree(es) == seq![norm_entry(es[0])] + norm_tree(es.skip(1)));
        assert(norm_tree(es)[0] == norm_entry(es[0]));
    } else {
        lemma_norm_tree_contains(es.skip(1), i - 1);
        assert(es.skip(1)[i - 1] == es[i]);
        let t = norm_tree(es.skip(1));
        let j = choose|j: int| 0 <= j < t.len() && t[j] == norm_entry(es[i]);
        if normalize(es[0].path).len() == 0 {
            assert(norm_tree(es) == t);
        } else {
            assert(norm_tree(es) == seq![norm_entry(es[0])] + t);
            assert(norm_tree(es)[j + 1] == t[j]);
        }
    }
}

} // verus!
