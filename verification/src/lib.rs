//! A verified reader and auditor for HFS+ / HFSX volumes (Apple TN1150).
//!
//! Apple optical discs are frequently hybrids: an ISO 9660 file system and an
//! HFS+ volume share the disc, so that a Mac and a PC each see their own. The
//! volume header sits 1024 bytes from the start of the volume, with a big-endian
//! `H+` (HFS+) or `HX` (HFSX) signature.
//!
//! The volume is a byte slice, and every operation is a total function of it:
//!
//! - [`parse`] reads the volume header;
//! - [`list_root`], [`list_dir`] and the recursive [`walk`] list the catalog;
//! - [`stat`] and [`read_file`] look up the metadata and the contents of a node,
//!   transparently compressed files included ([`decmpfs`]);
//! - [`attributes`] lists extended attributes;
//! - [`findings::audit`] reports what is inconsistent;
//! - [`vfs::HfsFs`] offers a mounted volume to a virtual file system.
//!
//! Each contract states the result exactly, over a mathematical model of the
//! on-disk structures: a record is a sequence of bytes, a B-tree the sequence of
//! its leaf records ([`btree`]), a listing the sequence of the entries that those
//! records describe. What holds across functions is stated and proved in
//! [`laws`]. Journal replay is out of scope, and each B-tree is taken to lie in
//! the first extent of its file.

pub mod attributes;
pub mod audit;
pub mod btree;
pub mod bytes;
pub mod catalog;
pub mod codecs;
pub mod compression;
pub mod decmpfs;
pub mod files;
pub mod findings;
pub mod forks;
pub mod laws;
pub mod numbers;
pub mod text;
pub mod vfs;
pub mod volume;
pub mod walk;

pub use catalog::{list_dir, list_root, stat, HfsEntry, HfsStat};
pub use files::read_file;
pub use volume::{parse, HfsKind, HfsVolume};
pub use walk::{walk, HfsPathEntry};
