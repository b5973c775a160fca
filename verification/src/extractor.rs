//! Reading an archive back into tree entries.
//!
//! [`extract_archive`] opens an in-memory archive container and reads every
//! record in container order into a [`TreeEntry`]: a slash-terminated name
//! becomes a directory entry (marker stripped), any other name a file entry
//! with the record's decompressed payload.  Before a record is accepted its
//! stored name is held to [`crate::paths::safe_name`]; a name that could
//! escape the destination root rejects the whole extraction.

use vstd::prelude::*;
use crate::errors::ArchiveError;
use crate::model::{
    all_safe, entries_of, entry_of_record, safe_entry, views, EntryKind, EntrySpec, TreeEntry,
    lemma_entries_of_push, lemma_views_push,
};
use crate::paths::{is_safe_name, safe_name};
use crate::zipio::{
    archive_len, archive_readable, archive_records, entry_readable, open_archive, parsed_records,
    read_entry, well_formed_archive,
};

verus! {

/// Unpacks an in-memory archive into the tree entries it holds.
///
/// Extraction succeeds exactly on a well-formed archive all of whose record
/// names are safe, and then returns exactly the entries of the archive's
/// records, in container order.  On a well-formed archive holding any
/// unsafe record name — one that is absolute, has a backslash, an empty
/// segment or a parent-directory segment — extraction is rejected as path
/// traversal; a malformed or unreadable container reports the underlying
/// format or read error.  Whatever the container was, every entry ever
/// returned carries a safety-checked path: joining it onto the destination
/// root stays inside the root.
pub fn extract_archive(bytes: &Vec<u8>) -> (r: Result<Vec<TreeEntry>, ArchiveError>)
    ensures
        r is Ok <==> well_formed_archive(bytes@) && all_safe(parsed_records(bytes@)),
        r is Ok ==> views(r.unwrap()@) == entries_of(parsed_records(bytes@)),
        well_formed_archive(bytes@) && !all_safe(parsed_records(bytes@)) ==> (r matches Err(e)
            && e is PathTraversalRejected),
        r is Ok ==> forall|j: int|
            0 <= j < r.unwrap()@.len() ==> safe_entry(#[trigger] r.unwrap()@[j]@),
{
    let mut a = match open_archive(bytes) {
        Ok(a) => a,
        Err(e) => {
            return Err(e);
        },
    };
    let n = archive_len(&a);
    let mut out: Vec<TreeEntry> = Vec::new();
    let mut i: usize = 0;
    proof {
        assert(entries_of(archive_records(a).take(0)) =~= Seq::<EntrySpec>::empty());
        assert(views(out@) =~= Seq::<EntrySpec>::empty());
    }
    while i < n
        invariant
            i <= n,
            n as nat == archive_records(a).len(),
            well_formed_archive(bytes@) ==> archive_readable(a) && archive_records(a)
                == parsed_records(bytes@),
            archive_readable(a) ==> well_formed_archive(bytes@) && archive_records(a)
                == parsed_records(bytes@),
            forall|j: int| 0 <= j < i ==> entry_readable(a, j),
            forall|j: int| 0 <= j < i ==> safe_name(#[trigger] archive_records(a)[j].0),
            views(out@) == entries_of(archive_records(a).take(i as int)),
            forall|j: int| 0 <= j < out@.len() ==> safe_entry(#[trigger] out@[j]@),
        decreases n - i,
    {
        let ghost a_pre = a;
        let (name, data) = match read_entry(&mut a, i) {
            Ok(p) => p,
            Err(e) => {
                proof {
                    if well_formed_archive(bytes@) {
                        assert(entry_readable(a_pre, i as int));
                        assert(false);
                    }
                }
                return Err(e);
            },
        };
        let ghost rec = archive_records(a)[i as int];
        proof {
            assert(archive_records(a) == archive_records(a_pre));
            if archive_readable(a) {
                assert forall|j: int|
                    0 <= j < archive_records(a_pre).len() implies entry_readable(a_pre, j) by {
                    assert(entry_readable(a, j));
                }
                assert(archive_readable(a_pre));
            }
            if archive_readable(a_pre) {
                assert forall|j: int|
                    0 <= j < archive_records(a).len() implies entry_readable(a, j) by {
                    assert(entry_readable(a_pre, j));
                }
                assert(archive_readable(a));
            }
            assert(name@ == rec.0 && data@ == rec.1);
            assert(entry_readable(a, i as int));
            lemma_entries_of_push(archive_records(a).take(i as int), rec);
            assert(archive_records(a).take(i as int).push(rec) =~= archive_records(a).take(
                i as int + 1,
            ));
        }
        if !is_safe_name(name.as_str()) {
            proof {
                assert(!safe_name(archive_records(a)[i as int].0));
                if well_formed_archive(bytes@) {
                    assert(!all_safe(parsed_records(bytes@)));
                }
            }
            return Err(ArchiveError::PathTraversalRejected(name));
        }
        let nlen = name.as_str().unicode_len();
        if name.as_str().get_char(nlen - 1) == '/' {
            let stripped = String::from_str(name.as_str().substring_char(0, nlen - 1));
            let entry = TreeEntry { path: stripped, kind: EntryKind::Directory, data: Vec::new() };
            proof {
                assert(entry.path@.push('/') =~= name@);
                assert(safe_entry(entry@));
                assert(entry@ == entry_of_record(rec));
                lemma_views_push(out@, entry);
            }
            out.push(entry);
        } else {
            let entry = TreeEntry { path: name, kind: EntryKind::File, data };
            proof {
                assert(entry@ == entry_of_record(rec));
                lemma_views_push(out@, entry);
            }
            out.push(entry);
        }
        i = i + 1;
    }
    proof {
        assert(archive_readable(a));
        assert(well_formed_archive(bytes@));
        assert(archive_records(a) == parsed_records(bytes@));
        assert(all_safe(parsed_records(bytes@)));
        assert(archive_records(a).take(n as int) =~= archive_records(a));
    }
    Ok(out)
}

} // verus!
