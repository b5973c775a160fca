//! Trusted boundary to the `zip` crate.
//!
//! The library builds and reads archives entirely in memory: a
//! [`ArchiveWriter`] wraps a `zip::ZipWriter` over an in-memory buffer, an
//! [`OpenArchive`] wraps a `zip::ZipArchive` over one.  What either holds is
//! named by uninterpreted spec functions over the record model of
//! [`crate::model`]; each wrapper below states, over those names, what the
//! one `zip` call it makes does, as that crate's source shows it.  Nothing in
//! this module is proved: its contracts are the library's trust in `zip`.

use vstd::prelude::*;
use std::io::Read;
use std::io::Write;
use crate::errors::ArchiveError;
use crate::model::{fits_name, fits_payload, fresh_name, Record};
use crate::paths::with_dir_slash;

verus! {

/// An archive under construction, held in memory.
#[verifier::external_body]
pub struct ArchiveWriter {
    inner: zip::ZipWriter<std::io::Cursor<Vec<u8>>>,
}

/// An archive opened for reading, held in memory.
#[verifier::external_body]
pub struct OpenArchive {
    inner: zip::ZipArchive<std::io::Cursor<Vec<u8>>>,
}

/// The records written into `w` so far, in order.
pub uninterp spec fn writer_records(w: ArchiveWriter) -> Seq<Record>;

/// A file record of `w` stands open for payload writing: one was started
/// and no directory record was added since.
pub uninterp spec fn writer_file_open(w: ArchiveWriter) -> bool;

/// The records of the opened archive `a`, in container order: each entry's
/// stored name, with the payload it decompresses to where it is readable.
pub uninterp spec fn archive_records(a: OpenArchive) -> Seq<Record>;

/// Entry `i` of the opened archive `a` is readable: locating it and
/// decompressing its payload succeeds.
pub uninterp spec fn entry_readable(a: OpenArchive, i: int) -> bool;

/// The archive `a` is fully readable: every one of its entries is.
pub open spec fn archive_readable(a: OpenArchive) -> bool {
    forall|i: int| 0 <= i < archive_records(a).len() ==> entry_readable(a, i)
}

/// The records a conforming reader of the container format finds in `bytes`,
/// where `bytes` is a well-formed archive.
pub uninterp spec fn parsed_records(bytes: Seq<u8>) -> Seq<Record>;

/// `bytes` is a well-formed archive container, every record of which can be
/// listed and decompressed.
pub uninterp spec fn well_formed_archive(bytes: Seq<u8>) -> bool;

/// Relies on `zip::ZipWriter::new`: a writer over a fresh in-memory buffer
/// holds no records yet and no file stands open.
#[verifier::external_body]
pub(crate) fn writer_new() -> (w: ArchiveWriter)
    ensures
        writer_records(w) == Seq::<Record>::empty(),
        !writer_file_open(w),
{
    ArchiveWriter { inner: zip::ZipWriter::new(std::io::Cursor::new(Vec::new())) }
}

/// Relies on `zip::ZipWriter::start_file`: on success a new file record is
/// appended under exactly the given name, its payload still empty, and the
/// file stands open for writing.  The entry is compressed with deflate, as
/// the archive format asks.  The call succeeds only under a name no earlier
/// record bears, and is owed success whenever the name is also within the
/// format's bound: over an in-memory buffer, a duplicate or oversize stored
/// name is the only failure.
#[verifier::external_body]
pub(crate) fn writer_start_file(w: &mut ArchiveWriter, name: &str) -> (r: Result<
    (),
    ArchiveError,
>)
    ensures
        r is Ok ==> writer_records(*final(w)) == writer_records(*old(w)).push(
            (name@, Seq::<u8>::empty()),
        ) && writer_file_open(*final(w)) && fresh_name(writer_records(*old(w)), name@),
        fresh_name(writer_records(*old(w)), name@) && fits_name(name@) ==> r is Ok,
{
    let options = zip::write::SimpleFileOptions::default().compression_method(
        zip::CompressionMethod::Deflated,
    );
    match w.inner.start_file(name, options) {
        Ok(()) => Ok(()),
        Err(e) => Err(ArchiveError::Io(e.to_string())),
    }
}

/// Relies on `std::io::Write::write_all` on `zip::ZipWriter`: on success the
/// bytes are appended to the payload of the record started last, which
/// stays open.  Over an in-memory buffer a write with a file open is owed
/// success as long as the file's total payload stays within the format's
/// 32-bit size field.
#[verifier::external_body]
pub(crate) fn writer_write_data(w: &mut ArchiveWriter, data: &Vec<u8>) -> (r: Result<
    (),
    ArchiveError,
>)
    requires
        writer_records(*old(w)).len() > 0,
    ensures
        r is Ok ==> writer_records(*final(w)) == writer_records(*old(w)).update(
            writer_records(*old(w)).len() - 1,
            (writer_records(*old(w)).last().0, writer_records(*old(w)).last().1 + data@),
        ) && writer_file_open(*final(w)) == writer_file_open(*old(w)),
        writer_file_open(*old(w)) && writer_records(*old(w)).last().1.len() + data@.len()
            <= 0xffff_ffff ==> r is Ok,
{
    match w.inner.write_all(data.as_slice()) {
        Ok(()) => Ok(()),
        Err(e) => Err(ArchiveError::Io(e.to_string())),
    }
}

/// Relies on `zip::ZipWriter::add_directory`: on success a directory record
/// is appended, its stored name the given one with a trailing slash added
/// unless the name already ends in a separator, its payload empty, and no
/// file stands open.  As for a file record, a duplicate or oversize stored
/// name is the only failure over an in-memory buffer.
#[verifier::external_body]
pub(crate) fn writer_add_directory(w: &mut ArchiveWriter, name: &str) -> (r: Result<
    (),
    ArchiveError,
>)
    ensures
        r is Ok ==> writer_records(*final(w)) == writer_records(*old(w)).push(
            (with_dir_slash(name@), Seq::<u8>::empty()),
        ) && !writer_file_open(*final(w)) && fresh_name(
            writer_records(*old(w)),
            with_dir_slash(name@),
        ),
        fresh_name(writer_records(*old(w)), with_dir_slash(name@)) && fits_name(
            with_dir_slash(name@),
        ) ==> r is Ok,
{
    let options = zip::write::SimpleFileOptions::default().compression_method(
        zip::CompressionMethod::Deflated,
    );
    match w.inner.add_directory(name, options) {
        Ok(()) => Ok(()),
        Err(e) => Err(ArchiveError::Io(e.to_string())),
    }
}

/// Relies on `zip::ZipWriter::finish`: on success the returned buffer is a
/// finalized, well-formed archive (central index written) whose records are
/// exactly the ones written, and a conforming reader reads them back.  Over
/// an in-memory buffer finalization is owed success when every payload is
/// within the format's size bound: nothing else about the index can fail.
#[verifier::external_body]
pub(crate) fn writer_finish(w: ArchiveWriter) -> (r: Result<Vec<u8>, ArchiveError>)
    ensures
        r is Ok ==> well_formed_archive(r.unwrap()@) && parsed_records(r.unwrap()@)
            == writer_records(w),
        (forall|j: int|
            0 <= j < writer_records(w).len() ==> fits_payload(
                (#[trigger] writer_records(w)[j]).1,
            )) ==> r is Ok,
{
    match w.inner.finish() {
        Ok(cursor) => Ok(cursor.into_inner()),
        Err(e) => Err(ArchiveError::Io(e.to_string())),
    }
}

/// Relies on `zip::ZipArchive::new`: opening a well-formed archive succeeds
/// and presents exactly its records; opening fails only on a malformed
/// container.  Parsing is a function of the bytes alone, so conversely an
/// opened archive that proves fully readable came from a well-formed
/// container and lists exactly its records.
#[verifier::external_body]
pub(crate) fn open_archive(bytes: &Vec<u8>) -> (r: Result<OpenArchive, ArchiveError>)
    ensures
        r is Ok && well_formed_archive(bytes@) ==> archive_readable(r.unwrap())
            && archive_records(r.unwrap()) == parsed_records(bytes@),
        r is Ok && archive_readable(r.unwrap()) ==> well_formed_archive(bytes@)
            && archive_records(r.unwrap()) == parsed_records(bytes@),
        r is Err ==> !well_formed_archive(bytes@),
{
    match zip::ZipArchive::new(std::io::Cursor::new(bytes.clone())) {
        Ok(a) => Ok(OpenArchive { inner: a }),
        Err(e) => Err(ArchiveError::ArchiveFormat(e.to_string())),
    }
}

/// Relies on `zip::ZipArchive::len`: the number of records the archive
/// lists.
#[verifier::external_body]
pub(crate) fn archive_len(a: &OpenArchive) -> (r: usize)
    ensures
        r as nat == archive_records(*a).len(),
{
    a.inner.len()
}

/// Relies on `zip::ZipArchive::by_index`, `ZipFile::name` and
/// `std::io::Read::read_to_end`: a readable entry in range yields its
/// stored name and its decompressed payload, and only such an entry yields
/// anything; reading moves no record and changes none — the archive's
/// metadata is immutable once opened.
#[verifier::external_body]
pub(crate) fn read_entry(a: &mut OpenArchive, i: usize) -> (r: Result<
    (String, Vec<u8>),
    ArchiveError,
>)
    ensures
        archive_records(*final(a)) == archive_records(*old(a)),
        forall|j: int| (#[trigger] entry_readable(*final(a), j)) == entry_readable(*old(a), j),
        (i as nat) < archive_records(*old(a)).len() && entry_readable(*old(a), i as int)
            ==> r is Ok,
        r is Ok ==> (i as nat) < archive_records(*old(a)).len() && entry_readable(
            *old(a),
            i as int,
        ) && r.unwrap().0@ == archive_records(*old(a))[i as int].0 && r.unwrap().1@
            == archive_records(*old(a))[i as int].1,
{
    match a.inner.by_index(i) {
        Ok(mut f) => {
            let name = f.name().to_string();
            let mut data = Vec::new();
            match f.read_to_end(&mut data) {
                Ok(_) => Ok((name, data)),
                Err(e) => Err(ArchiveError::Io(e.to_string())),
            }
        },
        Err(e) => Err(ArchiveError::ArchiveFormat(e.to_string())),
    }
}

} // verus!
