//! The catalog: directory entries and per-node metadata.

use crate::btree::{locate_catalog, RecordWalk};
use crate::bytes::{be16, be32, be64};
use crate::text::decode_utf16;
use vstd::prelude::*;

verus! {

broadcast use vstd::slice::axiom_spec_len;

/// Catalog node ID of the root folder (TN1150).
pub const ROOT_FOLDER_CNID: u32 = 2;

/// Catalog record type of a folder.
pub const RECORD_FOLDER: u16 = 1;

/// Catalog record type of a file.
pub const RECORD_FILE: u16 = 2;

/// An entry in a directory.
#[derive(Debug, Clone, PartialEq, Eq)]
pub struct HfsEntry {
    /// File or folder name (decoded from UTF-16).
    pub name: String,
    /// True for a folder, false for a file.
    pub is_dir: bool,
    /// Catalog node ID (CNID) of this entry.
    pub cnid: u32,
}

/// What an [`HfsEntry`] says.
#[verifier::ext_equal]
pub struct EntryModel {
    /// The name, as characters.
    pub name: Seq<char>,
    /// True for a folder, false for a file.
    pub is_dir: bool,
    /// Catalog node ID.
    pub cnid: u32,
}

impl View for HfsEntry {
    type V = EntryModel;

    open spec fn view(&self) -> EntryModel {
        EntryModel { name: self.name@, is_dir: self.is_dir, cnid: self.cnid }
    }
}

/// What a directory listing says.
pub open spec fn entry_models(entries: Seq<HfsEntry>) -> Seq<EntryModel> {
    entries.map_values(|entry: HfsEntry| entry@)
}

/// Metadata of one catalog node.
#[derive(Debug, Clone, Copy, PartialEq, Eq, Structural)]
pub struct HfsStat {
    /// Catalog node ID of the node.
    pub cnid: u32,
    /// True for a folder, false for a file.
    pub is_dir: bool,
    /// Logical size of the data fork in bytes; 0 for a folder.
    pub size: u64,
    /// Creation time, in seconds since 1904-01-01.
    pub created: u32,
    /// Content-modification time, in seconds since 1904-01-01.
    pub modified: u32,
    /// Access time, in seconds since 1904-01-01.
    pub accessed: u32,
}

/// Where the body of a keyed record begins: behind its key, whose length the
/// first two bytes give.
pub open spec fn record_body(rec: Seq<u8>) -> int {
    2 + crate::bytes::be16_at(rec, 0)
}

/// The record type that stands at the beginning of the body.
pub open spec fn record_type(rec: Seq<u8>) -> u16 {
    crate::bytes::be16_at(rec, record_body(rec))
}

/// The parent CNID in a catalog key.
pub open spec fn key_parent(rec: Seq<u8>) -> u32 {
    crate::bytes::be32_at(rec, 2)
}

/// Where the name in a catalog key ends.
pub open spec fn key_name_end(rec: Seq<u8>) -> int {
    8 + 2 * crate::bytes::be16_at(rec, 6)
}

/// The name in a catalog key.
pub open spec fn key_name(rec: Seq<u8>) -> Seq<char> {
    crate::text::name_text(rec.subrange(8, key_name_end(rec)))
}

/// The CNID that the body of a file or folder record gives.
pub open spec fn body_cnid(rec: Seq<u8>) -> u32 {
    crate::bytes::be32_at(rec, record_body(rec) + 8)
}

/// The parent CNID and the entry that a catalog record describes: nothing for a
/// record of another type than file or folder, or for one that is cut short.
pub open spec fn record_entry_model(rec: Seq<u8>) -> Option<(u32, EntryModel)> {
    if {
        &&& rec.len() >= 8
        &&& key_name_end(rec) <= rec.len()
        &&& record_body(rec) + 12 <= rec.len()
        &&& record_type(rec) == RECORD_FOLDER || record_type(rec) == RECORD_FILE
    } {
        Some(
            (
                key_parent(rec),
                EntryModel {
                    name: key_name(rec),
                    is_dir: record_type(rec) == RECORD_FOLDER,
                    cnid: body_cnid(rec),
                },
            ),
        )
    } else {
        None
    }
}

/// The entries among `records` whose parent is `parent`, in record order.
pub open spec fn children(records: Seq<Seq<u8>>, parent: u32) -> Seq<EntryModel>
    decreases records.len(),
{
    if records.len() == 0 {
        Seq::empty()
    } else {
        let rest = children(records.drop_first(), parent);
        match record_entry_model(records[0]) {
            Some((of, entry)) => if of == parent {
                seq![entry] + rest
            } else {
                rest
            },
            None => rest,
        }
    }
}

/// The records of the catalog, in leaf-chain order, or `None` when the volume
/// has no catalog.
pub open spec fn catalog_records(volume: Seq<u8>) -> Option<Seq<Seq<u8>>> {
    match crate::btree::catalog_loc(volume) {
        Some(loc) => Some(crate::btree::leaf_records(volume, loc)),
        None => None,
    }
}

/// The listing of the folder `parent`, or `None` when the volume has no catalog.
pub open spec fn directory(volume: Seq<u8>, parent: u32) -> Option<Seq<EntryModel>> {
    match catalog_records(volume) {
        Some(records) => Some(children(records, parent)),
        None => None,
    }
}

/// The metadata that a catalog record gives for `cnid`: a folder record of at
/// least 28 bytes, or a file record that holds a whole data fork.
pub open spec fn record_stat_model(rec: Seq<u8>, cnid: u32) -> Option<HfsStat> {
    let body = record_body(rec);
    let is_dir = record_type(rec) == RECORD_FOLDER;
    if {
        &&& rec.len() >= 8
        &&& body + 28 <= rec.len()
        &&& is_dir || record_type(rec) == RECORD_FILE && body + 168 <= rec.len()
        &&& body_cnid(rec) == cnid
    } {
        Some(
            HfsStat {
                cnid,
                is_dir,
                size: if is_dir {
                    0
                } else {
                    crate::bytes::be64_at(rec, body + 88)
                },
                created: crate::bytes::be32_at(rec, body + 12),
                modified: crate::bytes::be32_at(rec, body + 16),
                accessed: crate::bytes::be32_at(rec, body + 24),
            },
        )
    } else {
        None
    }
}

/// The metadata that the first record for `cnid` among `records` gives.
pub open spec fn first_stat(records: Seq<Seq<u8>>, cnid: u32) -> Option<HfsStat>
    decreases records.len(),
{
    if records.len() == 0 {
        None
    } else {
        match record_stat_model(records[0], cnid) {
            Some(found) => Some(found),
            None => first_stat(records.drop_first(), cnid),
        }
    }
}

/// The metadata of node `cnid`: `None` when the volume has no catalog, or the
/// catalog no record for it.
pub open spec fn node_stat(volume: Seq<u8>, cnid: u32) -> Option<HfsStat> {
    match catalog_records(volume) {
        Some(records) => first_stat(records, cnid),
        None => None,
    }
}

/// Parses a catalog record into its parent CNID and its entry, for file and
/// folder records.
pub fn record_entry(rec: &[u8]) -> (found: Option<(u32, HfsEntry)>)
    ensures
        match found {
            Some((parent, entry)) => record_entry_model(rec@) == Some((parent, entry@)),
            None => record_entry_model(rec@) is None,
        },
{
    let len: usize = rec.len();
    if len < 8 {
        return None;
    }
    let key_len: usize = be16(rec, 0) as usize;
    let parent_id: u32 = be32(rec, 2);
    let name_len: usize = be16(rec, 6) as usize;
    let name_end: usize = 8 + name_len * 2;
    if name_end > len {
        return None;
    }
    let data: usize = 2 + key_len;
    if data + 12 > len {
        return None;
    }
    let kind: u16 = be16(rec, data);
    if kind != RECORD_FOLDER && kind != RECORD_FILE {
        return None;  // thread records and anything else
    }
    let name: String = decode_utf16(&rec[8..name_end]);
    let cnid: u32 = be32(rec, data + 8);
    Some((parent_id, HfsEntry { name, is_dir: kind == RECORD_FOLDER, cnid }))
}

/// Lists the immediate children of the folder `parent_cnid`.
///
/// `volume` must contain the whole volume from its first byte. Entries include
/// the private metadata directories; thread records are skipped. Returns `None`
/// if this is not an HFS+ volume or its catalog cannot be located. Assumes that
/// the catalog fits in its first extent.
#[must_use]
pub fn list_dir(volume: &[u8], parent_cnid: u32) -> (listing: Option<Vec<HfsEntry>>)
    ensures
        match listing {
            Some(entries) => directory(volume@, parent_cnid) == Some(entry_models(entries@)),
            None => directory(volume@, parent_cnid) is None,
        },
{
    let loc = match locate_catalog(volume) {
        Some(loc) => loc,
        None => return None,
    };
    let mut entries: Vec<HfsEntry> = Vec::new();
    let mut records = RecordWalk::new(volume, &loc);
    let ghost all = records.remaining();
    assert(entry_models(entries@) =~= Seq::<EntryModel>::empty());
    loop
        invariant
            records.well_formed(),
            entry_models(entries@) + children(records.remaining(), parent_cnid) =~= children(
                all,
                parent_cnid,
            ),
        ensures
            entry_models(entries@) =~= children(all, parent_cnid),
        decreases records.remaining().len(),
    {
        match records.next_record() {
            None => break ,
            Some(rec) => {
                if let Some((parent, entry)) = record_entry(rec) {
                    if parent == parent_cnid {
                        let ghost before = entries@;
                        entries.push(entry);
                        assert(entry_models(entries@) =~= entry_models(before).push(entry@));
                    }
                }
            },
        }
    }
    Some(entries)
}

/// Lists the root directory. See [`list_dir`].
#[must_use]
pub fn list_root(volume: &[u8]) -> (listing: Option<Vec<HfsEntry>>)
    ensures
        match listing {
            Some(entries) => directory(volume@, ROOT_FOLDER_CNID) == Some(entry_models(entries@)),
            None => directory(volume@, ROOT_FOLDER_CNID) is None,
        },
{
    list_dir(volume, ROOT_FOLDER_CNID)
}

/// Parses the metadata for `cnid` out of a catalog record.
pub fn record_stat(rec: &[u8], cnid: u32) -> (found: Option<HfsStat>)
    ensures
        found == record_stat_model(rec@, cnid),
{
    let len: usize = rec.len();
    if len < 8 {
        return None;
    }
    let data: usize = 2 + be16(rec, 0) as usize;
    if data + 28 > len {
        return None;
    }
    let kind: u16 = be16(rec, data);
    let is_dir: bool = kind == RECORD_FOLDER;
    if !is_dir && (kind != RECORD_FILE || data + 168 > len) {
        return None;
    }
    if be32(rec, data + 8) != cnid {
        return None;
    }
    Some(
        HfsStat {
            cnid,
            is_dir,
            size: if is_dir {
                0
            } else {
                be64(rec, data + 88)
            },
            created: be32(rec, data + 12),
            modified: be32(rec, data + 16),
            accessed: be32(rec, data + 24),
        },
    )
}

/// Looks up the metadata of node `cnid`: its kind, the logical size of its data
/// fork and its times. Returns `None` when the catalog has no record for it.
#[must_use]
pub fn stat(volume: &[u8], cnid: u32) -> (found: Option<HfsStat>)
    ensures
        found == node_stat(volume@, cnid),
{
    let loc = match locate_catalog(volume) {
        Some(loc) => loc,
        None => return None,
    };
    let mut records = RecordWalk::new(volume, &loc);
    let ghost all = records.remaining();
    loop
        invariant
            records.well_formed(),
            node_stat(volume@, cnid) == first_stat(all, cnid),
            first_stat(records.remaining(), cnid) == first_stat(all, cnid),
        decreases records.remaining().len(),
    {
        match records.next_record() {
            None => return None,
            Some(rec) => {
                let found = record_stat(rec, cnid);
                if found.is_some() {
                    return found;
                }
            },
        }
    }
}

} // verus!
