//! Building an archive from a source tree.
//!
//! [`build_archive`] turns a sequence of discovered tree entries into the
//! bytes of a finalized archive container.  Its contract pins the archive
//! down completely: the records a reader finds in the result are exactly
//! [`plan`] of the entries — every file under its normalized path with its
//! bytes, every directory with a non-empty path as a slash-terminated marker
//! record, the tree root skipped — and success is owed whenever the planned
//! records fit the container format at all.

use vstd::prelude::*;
use crate::errors::ArchiveError;
use crate::model::{
    buildable, distinct_names, fits_name, fits_payload, fresh_name, plan, record_of, views,
    EntryKind, EntrySpec, Record, TreeEntry, lemma_distinct_push, lemma_distinct_update_last,
    lemma_plan_concat, lemma_plan_push,
};
use crate::paths::{normalize, normalize_path, with_dir_slash};
use crate::zipio::{
    parsed_records, well_formed_archive, writer_add_directory, writer_finish, writer_new,
    writer_records, writer_start_file, writer_write_data,
};

verus! {

/// The record one entry contributes, where it contributes one, is fresh
/// against the records planned before it and within the format's bounds —
/// provided the whole plan is buildable.
proof fn lemma_step_buildable(es: Seq<EntrySpec>, i: int)
    requires
        0 <= i < es.len(),
        buildable(plan(es)),
        record_of(es[i]).len() > 0,
    ensures
        fresh_name(plan(es.take(i)), record_of(es[i])[0].0),
        fits_name(record_of(es[i])[0].0),
        fits_payload(record_of(es[i])[0].1),
{
    let prev = plan(es.take(i));
    let r0 = record_of(es[i])[0];
    assert(es.take(i) + es.skip(i) =~= es);
    lemma_plan_concat(es.take(i), es.skip(i));
    assert(plan(es) == prev + plan(es.skip(i)));
    assert(es.skip(i)[0] == es[i]);
    assert(plan(es.skip(i)) == record_of(es[i]) + plan(es.skip(i).skip(1)));
    assert(plan(es.skip(i))[0] == r0);
    let k = prev.len() as int;
    assert(plan(es)[k] == r0);
    assert(fits_name((plan(es)[k]).0));
    assert(fits_payload((plan(es)[k]).1));
    assert forall|j: int| 0 <= j < prev.len() implies (#[trigger] prev[j].0) != r0.0 by {
        assert(plan(es)[j] == prev[j]);
        assert((plan(es)[j]).0 != (plan(es)[k]).0);
    }
}

/// Packs the entries of a source tree into an in-memory archive.
///
/// On success the returned bytes are a well-formed archive whose records are
/// exactly `plan(views(entries@))`, in entry order, with pairwise distinct
/// stored names.  Success is owed whenever that plan is buildable at all —
/// names pairwise distinct and names and payloads within the container
/// format's bounds; the first failing write aborts the whole build, and no
/// finalized archive is produced.
pub fn build_archive(entries: &Vec<TreeEntry>) -> (r: Result<Vec<u8>, ArchiveError>)
    ensures
        r is Ok ==> well_formed_archive(r.unwrap()@) && parsed_records(r.unwrap()@) == plan(
            views(entries@),
        ) && distinct_names(parsed_records(r.unwrap()@)),
        buildable(plan(views(entries@))) ==> r is Ok,
{
    let ghost es = views(entries@);
    let mut w = writer_new();
    let n = entries.len();
    let mut idx: usize = 0;
    proof {
        assert(es.take(0) =~= Seq::<EntrySpec>::empty());
    }
    while idx < n
        invariant
            idx <= n,
            n == entries@.len(),
            es == views(entries@),
            writer_records(w) == plan(es.take(idx as int)),
            distinct_names(writer_records(w)),
        decreases n - idx,
    {
        let e = &entries[idx];
        let name = normalize_path(e.path.as_str());
        proof {
            assert(es[idx as int] == entries@[idx as int]@);
            assert(es.take(idx as int).push(es[idx as int]) =~= es.take(idx as int + 1));
            lemma_plan_push(es.take(idx as int), es[idx as int]);
        }
        match e.kind {
            EntryKind::File => {
                proof {
                    if buildable(plan(es)) {
                        lemma_step_buildable(es, idx as int);
                    }
                }
                match writer_start_file(&mut w, name.as_str()) {
                    Ok(()) => (),
                    Err(err) => {
                        proof {
                            if buildable(plan(es)) {
                                assert(false);
                            }
                        }
                        return Err(err);
                    },
                }
                proof {
                    lemma_distinct_push(
                        plan(es.take(idx as int)),
                        (name@, Seq::<u8>::empty()),
                    );
                }
                match writer_write_data(&mut w, &e.data) {
                    Ok(()) => (),
                    Err(err) => {
                        proof {
                            if buildable(plan(es)) {
                                assert(false);
                            }
                        }
                        return Err(err);
                    },
                }
                proof {
                    lemma_distinct_update_last(
                        plan(es.take(idx as int)).push((name@, Seq::<u8>::empty())),
                        (name@, Seq::<u8>::empty() + e.data@),
                    );
                    assert(Seq::<u8>::empty() + e.data@ =~= e.data@);
                    assert(writer_records(w) =~= plan(es.take(idx as int)).push(
                        (normalize(es[idx as int].path), es[idx as int].data),
                    ));
                    assert(record_of(es[idx as int]) =~= seq![
                        (normalize(es[idx as int].path), es[idx as int].data),
                    ]);
                    assert(writer_records(w) =~= plan(es.take(idx as int + 1)));
                }
            },
            EntryKind::Directory => {
                if !name.as_str().is_empty() {
                    proof {
                        if buildable(plan(es)) {
                            lemma_step_buildable(es, idx as int);
                        }
                    }
                    match writer_add_directory(&mut w, name.as_str()) {
                        Ok(()) => (),
                        Err(err) => {
                            proof {
                                if buildable(plan(es)) {
                                    assert(false);
                                }
                            }
                            return Err(err);
                        },
                    }
                    proof {
                        lemma_distinct_push(
                            plan(es.take(idx as int)),
                            (with_dir_slash(name@), Seq::<u8>::empty()),
                        );
                        assert(record_of(es[idx as int]) =~= seq![
                            (with_dir_slash(normalize(es[idx as int].path)), Seq::<u8>::empty()),
                        ]);
                        assert(writer_records(w) =~= plan(es.take(idx as int + 1)));
                    }
                } else {
                    proof {
                        assert(record_of(es[idx as int]) =~= Seq::<Record>::empty());
                        assert(writer_records(w) =~= plan(es.take(idx as int + 1)));
                    }
                }
            },
        }
        idx = idx + 1;
    }
    proof {
        assert(es.take(n as int) =~= es);
    }
    writer_finish(w)
}

} // verus!
