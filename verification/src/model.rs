//! The data model of the archiver.
//!
//! A source tree is a sequence of [`TreeEntry`] values, each a file (with its
//! bytes) or a directory, under a relative path.  An archive is modelled as a
//! sequence of records, each a stored name and a payload; a trailing slash on
//! the name marks a directory record.  [`plan`] says which records an archive
//! built from a tree holds, and [`entries_of`] says which tree entries an
//! extractor reads back out of a record sequence.

use vstd::prelude::*;
use vstd::assert_seqs_equal;
use crate::paths::{normalize, with_dir_slash};

verus! {

/// What a tree entry is: a regular file or a directory.
#[derive(Clone, Copy, PartialEq, Eq, Structural, Debug)]
pub enum EntryKind {
    File,
    Directory,
}

/// One node of a source or destination tree: a path relative to the tree's
/// root (possibly still in platform form, with backslash separators), its
/// kind, and, for a file, its content bytes.
#[derive(Clone, PartialEq, Eq, Debug)]
pub struct TreeEntry {
    pub path: String,
    pub kind: EntryKind,
    pub data: Vec<u8>,
}

/// The specification-level form of a tree entry.
pub struct EntrySpec {
    pub path: Seq<char>,
    pub kind: EntryKind,
    pub data: Seq<u8>,
}

impl View for TreeEntry {
    type V = EntrySpec;

    open spec fn view(&self) -> EntrySpec {
        EntrySpec { path: self.path@, kind: self.kind, data: self.data@ }
    }
}

/// The views of a sequence of tree entries.
pub open spec fn views(s: Seq<TreeEntry>) -> Seq<EntrySpec> {
    s.map_values(|e: TreeEntry| e@)
}

/// One archive record: the stored name and the payload bytes.  A name ending
/// in `/` is a directory marker and carries no payload.
pub type Record = (Seq<char>, Seq<u8>);

/// The records that one tree entry contributes to an archive: a file becomes
/// one record under its normalized path; a directory with a non-empty
/// normalized path becomes one slash-terminated marker record; the tree root
/// (empty path) contributes nothing.
pub open spec fn record_of(e: EntrySpec) -> Seq<Record> {
    match e.kind {
        EntryKind::File => seq![(normalize(e.path), e.data)],
        EntryKind::Directory => if normalize(e.path).len() > 0 {
            seq![(with_dir_slash(normalize(e.path)), Seq::<u8>::empty())]
        } else {
            Seq::<Record>::empty()
        },
    }
}

/// The records of an archive built from a source tree, in traversal order.
pub open spec fn plan(es: Seq<EntrySpec>) -> Seq<Record>
    decreases es.len(),
{
    if es.len() == 0 {
        Seq::<Record>::empty()
    } else {
        record_of(es[0]) + plan(es.skip(1))
    }
}

/// The tree entry an extractor materializes from one record: a name ending in
/// the directory marker becomes a directory (marker stripped, payload
/// dropped); any other name becomes a file with the record's payload.
pub open spec fn entry_of_record(r: Record) -> EntrySpec {
    if r.0.len() > 0 && r.0.last() == '/' {
        EntrySpec { path: r.0.take(r.0.len() - 1), kind: EntryKind::Directory, data: Seq::empty() }
    } else {
        EntrySpec { path: r.0, kind: EntryKind::File, data: r.1 }
    }
}

/// The tree entries an extractor reads out of a record sequence, in order.
pub open spec fn entries_of(rs: Seq<Record>) -> Seq<EntrySpec> {
    rs.map_values(|r: Record| entry_of_record(r))
}

/// Every record name may be joined onto a destination root.
pub open spec fn all_safe(rs: Seq<Record>) -> bool {
    forall|i: int| 0 <= i < rs.len() ==> crate::paths::safe_name(#[trigger] rs[i].0)
}

/// No record of `rs` is named `n`: a record under `n` can still be added.
pub open spec fn fresh_name(rs: Seq<Record>, n: Seq<char>) -> bool {
    forall|j: int| 0 <= j < rs.len() ==> (#[trigger] rs[j].0) != n
}

/// The records' stored names are pairwise distinct, as the container
/// format's index requires.
pub open spec fn distinct_names(rs: Seq<Record>) -> bool {
    forall|i: int, j: int|
        0 <= i < j < rs.len() ==> (#[trigger] rs[i].0) != (#[trigger] rs[j].0)
}

/// The name fits the container format: a stored name occupies at most four
/// bytes per character, so fewer than 16384 characters keeps it under the
/// format's 65535-byte name field.
pub open spec fn fits_name(s: Seq<char>) -> bool {
    s.len() < 16384
}

/// The payload fits the container format: staying this far under the
/// format's 32-bit size fields leaves room for worst-case compression
/// overhead on the stored compressed size.
pub open spec fn fits_payload(d: Seq<u8>) -> bool {
    d.len() <= 0xfff0_0000
}

/// The records can all be written into one archive: names pairwise
/// distinct, every name and every payload within the format's bounds.
pub open spec fn buildable(rs: Seq<Record>) -> bool {
    &&& distinct_names(rs)
    &&& forall|i: int| 0 <= i < rs.len() ==> fits_name((#[trigger] rs[i]).0)
    &&& forall|i: int| 0 <= i < rs.len() ==> fits_payload((#[trigger] rs[i]).1)
}

/// The stored name this tree entry answers to — its path, with the
/// directory marker restored on a directory — is safe to join onto a
/// destination root.
pub open spec fn safe_entry(e: EntrySpec) -> bool {
    match e.kind {
        EntryKind::File => crate::paths::safe_name(e.path),
        EntryKind::Directory => crate::paths::safe_name(e.path.push('/')),
    }
}

/// A well-formed filesystem node, as a directory walk discovers it: its
/// normalized path does not end in a separator (filesystem names contain no
/// slash, and the walk reports paths without trailing separators), only the
/// tree root has an empty path, and a directory carries no bytes.
pub open spec fn wf_entry(e: EntrySpec) -> bool {
    match e.kind {
        EntryKind::File => normalize(e.path).len() > 0 && normalize(e.path).last() != '/',
        EntryKind::Directory => e.data.len() == 0 && (normalize(e.path).len() == 0 || normalize(
            e.path,
        ).last() != '/'),
    }
}

/// A well-formed source tree: every entry is well-formed.
pub open spec fn wf_tree(es: Seq<EntrySpec>) -> bool {
    forall|i: int| 0 <= i < es.len() ==> wf_entry(#[trigger] es[i])
}

/// A source entry as the archiver records it and the extractor reads it
/// back: the path normalized, a directory's bytes dropped.
pub open spec fn norm_entry(e: EntrySpec) -> EntrySpec {
    EntrySpec {
        path: normalize(e.path),
        kind: e.kind,
        data: if e.kind is File {
            e.data
        } else {
            Seq::empty()
        },
    }
}

/// A source tree as it comes back out of a round trip: every entry with its
/// path normalized, root entries (empty normalized path) dropped.
pub open spec fn norm_tree(es: Seq<EntrySpec>) -> Seq<EntrySpec>
    decreases es.len(),
{
    if es.len() == 0 {
        Seq::<EntrySpec>::empty()
    } else if normalize(es[0].path).len() == 0 {
        norm_tree(es.skip(1))
    } else {
        seq![norm_entry(es[0])] + norm_tree(es.skip(1))
    }
}

/// Appending an entry to a tree appends its records to the plan.
pub proof fn lemma_plan_push(s: Seq<EntrySpec>, e: EntrySpec)
    ensures
        plan(s.push(e)) == plan(s) + record_of(e),
    decreases s.len(),
{
    if s.len() == 0 {
        assert(s.push(e)[0] == e);
        assert(s.push(e).skip(1) =~= Seq::<EntrySpec>::empty());
        assert(plan(s.push(e)) == record_of(e) + plan(Seq::<EntrySpec>::empty()));
        assert(record_of(e) + Seq::<Record>::empty() =~= record_of(e));
        assert(plan(s) + record_of(e) =~= record_of(e));
    } else {
        assert(s.push(e)[0] == s[0]);
        assert(s.push(e).skip(1) =~= s.skip(1).push(e));
        lemma_plan_push(s.skip(1), e);
        assert(plan(s.push(e)) == record_of(s[0]) + (plan(s.skip(1)) + record_of(e)));
        assert(record_of(s[0]) + (plan(s.skip(1)) + record_of(e)) =~= (record_of(s[0]) + plan(
            s.skip(1),
        )) + record_of(e));
        assert(plan(s.push(e)) =~= plan(s) + record_of(e));
    }
}

/// The plan of a concatenation is the concatenation of the plans.
pub proof fn lemma_plan_concat(a: Seq<EntrySpec>, b: Seq<EntrySpec>)
    ensures
        plan(a + b) == plan(a) + plan(b),
    decreases a.len(),
{
    if a.len() == 0 {
        assert(a + b =~= b);
        assert(plan(a) + plan(b) =~= plan(b));
    } else {
        assert((a + b)[0] == a[0]);
        assert((a + b).skip(1) =~= a.skip(1) + b);
        lemma_plan_concat(a.skip(1), b);
        assert(record_of(a[0]) + (plan(a.skip(1)) + plan(b)) =~= (record_of(a[0]) + plan(
            a.skip(1),
        )) + plan(b));
        assert(plan(a + b) =~= plan(a) + plan(b));
    }
}

/// Appending a record under a fresh name keeps the names distinct.
pub proof fn lemma_distinct_push(rs: Seq<Record>, r: Record)
    requires
        distinct_names(rs),
        fresh_name(rs, r.0),
    ensures
        distinct_names(rs.push(r)),
{
    assert forall|i: int, j: int| 0 <= i < j < rs.push(r).len() implies (#[trigger] rs.push(
        r,
    )[i].0) != (#[trigger] rs.push(r)[j].0) by {
        if j < rs.len() {
            assert(rs.push(r)[i] == rs[i]);
            assert(rs.push(r)[j] == rs[j]);
        } else {
            assert(rs.push(r)[j] == r);
            assert(rs.push(r)[i] == rs[i]);
        }
    }
}

/// Replacing the last record's payload, name kept, keeps the names
/// distinct.
pub proof fn lemma_distinct_update_last(rs: Seq<Record>, r: Record)
    requires
        distinct_names(rs),
        rs.len() > 0,
        r.0 == rs.last().0,
    ensures
        distinct_names(rs.update(rs.len() - 1, r)),
{
    let t = rs.update(rs.len() - 1, r);
    assert forall|i: int, j: int| 0 <= i < j < t.len() implies (#[trigger] t[i].0) != (
    #[trigger] t[j].0) by {
        assert(t[i].0 == rs[i].0);
        assert(t[j].0 == rs[j].0);
    }
}

/// Appending a record appends the entry it materializes.
pub proof fn lemma_entries_of_push(rs: Seq<Record>, r: Record)
    ensures
        entries_of(rs.push(r)) == entries_of(rs).push(entry_of_record(r)),
{
    assert_seqs_equal!(entries_of(rs.push(r)) == entries_of(rs).push(entry_of_record(r)));
}

/// Appending a tree entry appends its view.
pub proof fn lemma_views_push(s: Seq<TreeEntry>, e: TreeEntry)
    ensures
        views(s.push(e)) == views(s).push(e@),
{
    assert_seqs_equal!(views(s.push(e)) == views(s).push(e@));
}

} // verus!
