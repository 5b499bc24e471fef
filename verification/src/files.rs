//! The contents of a file.

use crate::attributes::decmpfs_xattr;
use crate::btree::{locate_catalog, CatalogLoc, RecordWalk};
use crate::compression::decompress;
use crate::forks::{file_forks, fork_bytes, Fork, ForkModel};
use vstd::prelude::*;

verus! {

/// The forks that the first file record for `cnid` among `records` gives.
pub open spec fn first_forks(records: Seq<Seq<u8>>, cnid: u32) -> Option<(ForkModel, ForkModel)>
    decreases records.len(),
{
    if records.len() == 0 {
        None
    } else {
        match crate::forks::file_forks_model(records[0], cnid) {
            Some(forks) => Some(forks),
            None => first_forks(records.drop_first(), cnid),
        }
    }
}

/// The bytes of a resource fork, if it holds any.
pub open spec fn resource_content(volume: Seq<u8>, block_size: usize, fork: ForkModel) -> Option<
    Seq<u8>,
> {
    if fork.logical > 0 {
        crate::forks::fork_content(volume, block_size, fork)
    } else {
        None
    }
}

/// The contents of a file with the forks `data` and `resource`, which carries
/// the `com.apple.decmpfs` attribute `xattr` if it is compressed.
///
/// A file that is not compressed is its data fork. A compressed one is what its
/// attribute and its resource fork decode to, and has no contents when they do
/// not decode.
pub open spec fn content_of(
    volume: Seq<u8>,
    block_size: usize,
    data: ForkModel,
    resource: ForkModel,
    xattr: Option<Seq<u8>>,
) -> Option<Seq<u8>> {
    match xattr {
        None => crate::forks::fork_content(volume, block_size, data),
        Some(xattr) => match crate::compression::file_result(
            xattr,
            resource_content(volume, block_size, resource),
        ) {
            Ok(bytes) => Some(bytes),
            Err(_) => None,
        },
    }
}

/// The contents of the file `cnid`, or `None` when it is not a file of the
/// volume or cannot be read.
pub open spec fn file_content(volume: Seq<u8>, cnid: u32) -> Option<Seq<u8>> {
    match crate::btree::catalog_loc(volume) {
        None => None,
        Some(loc) => match first_forks(crate::btree::leaf_records(volume, loc), cnid) {
            None => None,
            Some((data, resource)) => content_of(
                volume,
                loc.block_size,
                data,
                resource,
                crate::attributes::decmpfs_attribute(volume, cnid),
            ),
        },
    }
}

/// Finds the forks of the file `cnid`.
pub fn find_forks(volume: &[u8], loc: &CatalogLoc, cnid: u32) -> (forks: Option<(Fork, Fork)>)
    requires
        loc.well_formed(),
    ensures
        match forks {
            Some((data, resource)) => first_forks(crate::btree::leaf_records(volume@, *loc), cnid)
                == Some((data@, resource@)),
            None => first_forks(crate::btree::leaf_records(volume@, *loc), cnid) is None,
        },
{
    let mut records = RecordWalk::new(volume, loc);
    let ghost all = records.remaining();
    loop
        invariant
            records.well_formed(),
            all == crate::btree::leaf_records(volume@, *loc),
            first_forks(records.remaining(), cnid) == first_forks(all, cnid),
        decreases records.remaining().len(),
    {
        match records.next_record() {
            None => return None,
            Some(rec) => {
                let forks = file_forks(rec, cnid);
                if forks.is_some() {
                    return forks;
                }
            },
        }
    }
}

/// Reads a file's contents by catalog node ID.
///
/// For a normal file this returns the data fork, cut to its logical size. For a
/// transparently compressed file, one that carries a `com.apple.decmpfs`
/// attribute, the data fork is empty and the real bytes are decoded from the
/// attribute or the resource fork. Returns `None` if `cnid` is not a file, or if
/// a compressed file cannot be decoded: never a misleading data fork.
#[must_use]
pub fn read_file(volume: &[u8], cnid: u32) -> (content: Option<Vec<u8>>)
    ensures
        match content {
            Some(bytes) => file_content(volume@, cnid) == Some(bytes@),
            None => file_content(volume@, cnid) is None,
        },
{
    let loc = match locate_catalog(volume) {
        Some(loc) => loc,
        None => return None,
    };
    let (data_fork, resource_fork) = match find_forks(volume, &loc, cnid) {
        Some(forks) => forks,
        None => return None,
    };
    match decmpfs_xattr(volume, cnid) {
        None => fork_bytes(volume, loc.block_size, &data_fork),
        Some(xattr) => {
            let resource: Option<Vec<u8>> = if resource_fork.logical > 0 {
                fork_bytes(volume, loc.block_size, &resource_fork)
            } else {
                None
            };
            let resource_slice: Option<&[u8]> = match &resource {
                Some(bytes) => Some(bytes.as_slice()),
                None => None,
            };
            match decompress(xattr.as_slice(), resource_slice) {
                Ok(bytes) => Some(bytes),
                Err(_) => None,
            }
        },
    }
}

} // verus!
