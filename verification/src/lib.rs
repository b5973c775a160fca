//! Verified core of a directory archiver: a source tree is packed into a
//! deflate-compressed, ZIP-compatible container held in memory, and such a
//! container is unpacked back into a list of tree entries.  All filesystem
//! traffic (walking a source directory, reading and writing files) belongs to
//! the surrounding application; this crate owns the archive logic itself:
//! which records an archive holds, how entry paths are normalized, and which
//! record paths are rejected as escaping the destination root.

pub mod errors;
pub mod paths;
pub mod model;
pub mod zipio;
pub mod archiver;
pub mod extractor;
pub mod laws;
pub mod fsmodel;
