//! Catalog records, sorted by what they stand for.

use crate::btree::{CatalogLoc, RecordWalk};
use crate::bytes::{be16, be32, be64};
use crate::catalog::{RECORD_FILE, RECORD_FOLDER};
use crate::forks::{
    DATA_FORK_FIELD, EXTENT_SLOTS, FILE_BODY_LEN, FORK_DATA_LEN, RESOURCE_FORK_FIELD,
};
use crate::numbers::cap;
use crate::text::decode_utf16;
use std::collections::HashSet;
use vstd::prelude::*;

verus! {

broadcast use {vstd::slice::axiom_spec_len, vstd::std_specs::hash::group_hash_axioms};

/// Catalog record type of a folder thread.
pub const RECORD_FOLDER_THREAD: u16 = 3;

/// Catalog record type of a file thread.
pub const RECORD_FILE_THREAD: u16 = 4;

/// A file as its catalog record describes it.
#[derive(Debug, Clone, PartialEq, Eq)]
pub struct CatalogFile {
    /// Catalog node ID.
    pub cnid: u32,
    /// Name from the catalog key.
    pub name: String,
    /// Logical size of the data fork in bytes.
    pub logical: u64,
    /// Allocation blocks that the inline extents of the data fork cover.
    pub inline_blocks: u32,
    /// True when every inline extent is in use, so that the fork may continue in
    /// the extents-overflow B-tree.
    pub extents_full: bool,
    /// Creation time.
    pub create: u32,
    /// Content-modification time.
    pub content_mod: u32,
    /// True when the resource fork holds bytes.
    pub has_resource_fork: bool,
    /// Logical size of the resource fork in bytes.
    pub resource_logical: u64,
    /// Allocation blocks that the inline extents of the resource fork cover.
    pub resource_blocks: u32,
}

/// What a [`CatalogFile`] says.
#[verifier::ext_equal]
pub struct FileModel {
    pub cnid: u32,
    pub name: Seq<char>,
    pub logical: u64,
    pub inline_blocks: u32,
    pub extents_full: bool,
    pub create: u32,
    pub content_mod: u32,
    pub has_resource_fork: bool,
    pub resource_logical: u64,
    pub resource_blocks: u32,
}

impl View for CatalogFile {
    type V = FileModel;

    open spec fn view(&self) -> FileModel {
        FileModel {
            cnid: self.cnid,
            name: self.name@,
            logical: self.logical,
            inline_blocks: self.inline_blocks,
            extents_full: self.extents_full,
            create: self.create,
            content_mod: self.content_mod,
            has_resource_fork: self.has_resource_fork,
            resource_logical: self.resource_logical,
            resource_blocks: self.resource_blocks,
        }
    }
}

/// A folder as its catalog record describes it.
#[derive(Debug, Clone, PartialEq, Eq)]
pub struct CatalogFolder {
    /// Catalog node ID.
    pub cnid: u32,
    /// Name from the catalog key.
    pub name: String,
    /// Creation time.
    pub create: u32,
    /// Content-modification time.
    pub content_mod: u32,
}

/// What a [`CatalogFolder`] says.
#[verifier::ext_equal]
pub struct FolderModel {
    pub cnid: u32,
    pub name: Seq<char>,
    pub create: u32,
    pub content_mod: u32,
}

impl View for CatalogFolder {
    type V = FolderModel;

    open spec fn view(&self) -> FolderModel {
        FolderModel {
            cnid: self.cnid,
            name: self.name@,
            create: self.create,
            content_mod: self.content_mod,
        }
    }
}

/// A classified catalog record.
#[derive(Debug, Clone, PartialEq, Eq)]
pub enum CatalogRecord {
    /// A file or folder.
    Entry {
        /// Its catalog node ID.
        cnid: u32,
        /// The file, when the record is a whole file record.
        file: Option<CatalogFile>,
    },
    /// A thread, which leads from a CNID back to its parent and name.
    Thread {
        /// The catalog node ID that it stands for.
        cnid: u32,
        /// The parent of that node.
        parent: u32,
        /// The name of that node.
        name: String,
    },
}

/// What a [`CatalogRecord`] says.
#[verifier::ext_equal]
pub enum RecordModel {
    /// A file or folder.
    Entry { cnid: u32, file: Option<FileModel> },
    /// A thread.
    Thread { cnid: u32, parent: u32, name: Seq<char> },
}

impl View for CatalogRecord {
    type V = RecordModel;

    open spec fn view(&self) -> RecordModel {
        match *self {
            CatalogRecord::Entry { cnid, file } => RecordModel::Entry {
                cnid,
                file: match file {
                    Some(file) => Some(file@),
                    None => None,
                },
            },
            CatalogRecord::Thread { cnid, parent, name } => RecordModel::Thread {
                cnid,
                parent,
                name: name@,
            },
        }
    }
}

/// The blocks of the extent slots from `i` on, added up.
pub open spec fn slot_blocks(fork: Seq<u8>, i: int) -> int
    decreases EXTENT_SLOTS - i,
{
    if i >= EXTENT_SLOTS {
        0
    } else {
        crate::forks::slot_count(fork, i) + slot_blocks(fork, i + 1)
    }
}

/// The blocks of the inline extents of a fork, up to the 32-bit limit; 0 when
/// the fork data are cut short.
pub open spec fn inline_blocks_of(fork: Seq<u8>) -> u32 {
    if fork.len() < FORK_DATA_LEN {
        0
    } else {
        crate::numbers::capped(slot_blocks(fork, 0))
    }
}

/// Whether every inline extent of a fork holds blocks.
pub open spec fn all_slots_used(fork: Seq<u8>) -> bool {
    &&& fork.len() >= FORK_DATA_LEN
    &&& forall|i: int| 0 <= i < EXTENT_SLOTS ==> #[trigger] crate::forks::slot_count(fork, i) != 0
}

/// The file that a whole file record describes.
pub open spec fn file_model(rec: Seq<u8>) -> FileModel {
    let body = crate::catalog::record_body(rec);
    let data = rec.skip(body + DATA_FORK_FIELD);
    let resource = rec.skip(body + RESOURCE_FORK_FIELD);
    FileModel {
        cnid: crate::catalog::body_cnid(rec),
        name: crate::catalog::key_name(rec),
        logical: crate::bytes::be64_at(data, 0),
        inline_blocks: inline_blocks_of(data),
        extents_full: all_slots_used(data),
        create: crate::bytes::be32_at(rec, body + 16),
        content_mod: crate::bytes::be32_at(rec, body + 20),
        has_resource_fork: crate::bytes::be64_at(resource, 0) > 0,
        resource_logical: crate::bytes::be64_at(resource, 0),
        resource_blocks: inline_blocks_of(resource),
    }
}

/// The folder that a record describes: none when the record is of another type,
/// or ends before the timestamps, which stand where those of a file do.
pub open spec fn folder_model(rec: Seq<u8>) -> Option<FolderModel> {
    let body = crate::catalog::record_body(rec);
    if {
        &&& rec.len() >= 8
        &&& crate::catalog::key_name_end(rec) <= rec.len()
        &&& body + 24 <= rec.len()
        &&& crate::catalog::record_type(rec) == RECORD_FOLDER
    } {
        Some(
            FolderModel {
                cnid: crate::catalog::body_cnid(rec),
                name: crate::catalog::key_name(rec),
                create: crate::bytes::be32_at(rec, body + 16),
                content_mod: crate::bytes::be32_at(rec, body + 20),
            },
        )
    } else {
        None
    }
}

/// The name in a thread record; empty when it runs off the end of the record.
pub open spec fn thread_name(rec: Seq<u8>) -> Seq<char> {
    let begin = crate::catalog::record_body(rec) + 10;
    let end = begin + 2 * crate::bytes::be16_at(rec, begin - 2);
    if end <= rec.len() {
        crate::text::name_text(rec.subrange(begin, end))
    } else {
        Seq::empty()
    }
}

/// What a catalog record stands for: nothing when its type is unknown, or when
/// it ends before the fields that its type calls for. A file record that is cut
/// short still gives its CNID.
pub open spec fn record_model(rec: Seq<u8>) -> Option<RecordModel> {
    let body = crate::catalog::record_body(rec);
    let kind = crate::catalog::record_type(rec);
    if rec.len() < 8 || crate::catalog::key_name_end(rec) > rec.len() || body + 2 > rec.len() {
        None
    } else if kind == RECORD_FOLDER || kind == RECORD_FILE {
        if body + 12 > rec.len() {
            None
        } else {
            Some(
                RecordModel::Entry {
                    cnid: crate::catalog::body_cnid(rec),
                    file: if kind == RECORD_FILE && body + FILE_BODY_LEN <= rec.len() {
                        Some(file_model(rec))
                    } else {
                        None
                    },
                },
            )
        }
    } else if kind == RECORD_FOLDER_THREAD || kind == RECORD_FILE_THREAD {
        if body + 10 > rec.len() {
            None
        } else {
            Some(
                RecordModel::Thread {
                    cnid: crate::catalog::key_parent(rec),
                    parent: crate::bytes::be32_at(rec, body + 4),
                    name: thread_name(rec),
                },
            )
        }
    } else {
        None
    }
}

/// Adds up the blocks of the inline extents of a fork.
pub fn fork_inline_blocks(fork: &[u8]) -> (blocks: u32)
    ensures
        blocks == inline_blocks_of(fork@),
{
    if fork.len() < FORK_DATA_LEN {
        return 0;
    }
    let mut total: u64 = 0;
    let mut i: usize = 0;
    while i < EXTENT_SLOTS
        invariant
            fork@.len() >= FORK_DATA_LEN,
            i <= EXTENT_SLOTS,
            total <= i * u32::MAX,
            total + slot_blocks(fork@, i as int) == slot_blocks(fork@, 0),
        decreases EXTENT_SLOTS - i,
    {
        total = total + be32(fork, 20 + 8 * i) as u64;
        i = i + 1;
    }
    cap(total)
}

/// Whether every inline extent of a fork holds blocks.
pub fn fork_all_slots_used(fork: &[u8]) -> (used: bool)
    ensures
        used == all_slots_used(fork@),
{
    if fork.len() < FORK_DATA_LEN {
        return false;
    }
    let mut i: usize = 0;
    while i < EXTENT_SLOTS
        invariant
            fork@.len() >= FORK_DATA_LEN,
            i <= EXTENT_SLOTS,
            forall|j: int| 0 <= j < i ==> #[trigger] crate::forks::slot_count(fork@, j) != 0,
        decreases EXTENT_SLOTS - i,
    {
        if be32(fork, 20 + 8 * i) == 0 {
            assert(crate::forks::slot_count(fork@, i as int) == 0);
            return false;
        }
        i = i + 1;
    }
    true
}

/// Parses a whole file record whose body begins at `data`.
fn parse_catalog_file(rec: &[u8], data: usize, name: String) -> (file: CatalogFile)
    requires
        rec@.len() >= 8,
        data == crate::catalog::record_body(rec@),
        data + FILE_BODY_LEN <= rec@.len(),
        name@ == crate::catalog::key_name(rec@),
    ensures
        file@ == file_model(rec@),
{
    let len: usize = rec.len();
    assert(rec@.skip(data + DATA_FORK_FIELD) =~= rec@.subrange(data + DATA_FORK_FIELD, len as int));
    assert(rec@.skip(data + RESOURCE_FORK_FIELD) =~= rec@.subrange(
        data + RESOURCE_FORK_FIELD,
        len as int,
    ));
    let data_fork: &[u8] = &rec[data + DATA_FORK_FIELD..len];
    let resource_fork: &[u8] = &rec[data + RESOURCE_FORK_FIELD..len];
    let resource_logical: u64 = be64(resource_fork, 0);
    CatalogFile {
        cnid: be32(rec, data + 8),
        name,
        logical: be64(data_fork, 0),
        inline_blocks: fork_inline_blocks(data_fork),
        extents_full: fork_all_slots_used(data_fork),
        create: be32(rec, data + 16),
        content_mod: be32(rec, data + 20),
        has_resource_fork: resource_logical > 0,
        resource_logical,
        resource_blocks: fork_inline_blocks(resource_fork),
    }
}

/// Parses a catalog record into a classified form.
pub fn classify_record(rec: &[u8]) -> (found: Option<CatalogRecord>)
    ensures
        match found {
            Some(record) => record_model(rec@) == Some(record@),
            None => record_model(rec@) is None,
        },
{
    let len: usize = rec.len();
    if len < 8 {
        return None;
    }
    let key_len: usize = be16(rec, 0) as usize;
    let name_end: usize = 8 + be16(rec, 6) as usize * 2;
    if name_end > len {
        return None;
    }
    let data: usize = 2 + key_len;
    if data + 2 > len {
        return None;
    }
    let kind: u16 = be16(rec, data);
    if kind == RECORD_FOLDER || kind == RECORD_FILE {
        if data + 12 > len {
            return None;
        }
        let cnid: u32 = be32(rec, data + 8);
        if kind == RECORD_FOLDER || data + FILE_BODY_LEN > len {
            return Some(CatalogRecord::Entry { cnid, file: None });
        }
        let name: String = decode_utf16(&rec[8..name_end]);
        let file = parse_catalog_file(rec, data, name);
        return Some(CatalogRecord::Entry { cnid, file: Some(file) });
    }
    if kind == RECORD_FOLDER_THREAD || kind == RECORD_FILE_THREAD {
        // recordType(2) reserved(2) parentID(4) nameLength(2) name.
        if data + 10 > len {
            return None;
        }
        let tn_end: usize = data + 10 + be16(rec, data + 8) as usize * 2;
        let name: String = if tn_end <= len {
            decode_utf16(&rec[data + 10..tn_end])
        } else {
            String::new()
        };
        // The key's parent is the CNID that the thread stands for.
        return Some(
            CatalogRecord::Thread { cnid: be32(rec, 2), parent: be32(rec, data + 4), name },
        );
    }
    None
}

/// Parses a folder record with its timestamps.
pub fn parse_catalog_folder(rec: &[u8]) -> (found: Option<CatalogFolder>)
    ensures
        match found {
            Some(folder) => folder_model(rec@) == Some(folder@),
            None => folder_model(rec@) is None,
        },
{
    let len: usize = rec.len();
    if len < 8 {
        return None;
    }
    let name_end: usize = 8 + be16(rec, 6) as usize * 2;
    let data: usize = 2 + be16(rec, 0) as usize;
    if name_end > len || data + 24 > len || be16(rec, data) != RECORD_FOLDER {
        return None;
    }
    Some(
        CatalogFolder {
            cnid: be32(rec, data + 8),
            name: decode_utf16(&rec[8..name_end]),
            create: be32(rec, data + 16),
            content_mod: be32(rec, data + 20),
        },
    )
}

/// The CNIDs of the file and folder records among `records`.
pub open spec fn recorded_cnids(records: Seq<Seq<u8>>) -> Set<u32>
    decreases records.len(),
{
    if records.len() == 0 {
        Set::empty()
    } else {
        let rest = recorded_cnids(records.drop_first());
        match record_model(records[0]) {
            Some(RecordModel::Entry { cnid, .. }) => rest.insert(cnid),
            _ => rest,
        }
    }
}

/// The whole file records among `records`, in order.
pub open spec fn recorded_files(records: Seq<Seq<u8>>) -> Seq<FileModel>
    decreases records.len(),
{
    if records.len() == 0 {
        Seq::empty()
    } else {
        let rest = recorded_files(records.drop_first());
        match record_model(records[0]) {
            Some(RecordModel::Entry { file: Some(file), .. }) => seq![file] + rest,
            _ => rest,
        }
    }
}

/// The folder records with timestamps among `records`, in order.
pub open spec fn recorded_folders(records: Seq<Seq<u8>>) -> Seq<FolderModel>
    decreases records.len(),
{
    if records.len() == 0 {
        Seq::empty()
    } else {
        let rest = recorded_folders(records.drop_first());
        match folder_model(records[0]) {
            Some(folder) => seq![folder] + rest,
            None => rest,
        }
    }
}

/// The thread records among `records`, in order: the CNID that each stands for,
/// and its parent and name.
pub open spec fn recorded_threads(records: Seq<Seq<u8>>) -> Seq<(u32, u32, Seq<char>)>
    decreases records.len(),
{
    if records.len() == 0 {
        Seq::empty()
    } else {
        let rest = recorded_threads(records.drop_first());
        match record_model(records[0]) {
            Some(RecordModel::Thread { cnid, parent, name }) => seq![(cnid, parent, name)] + rest,
            _ => rest,
        }
    }
}

/// What a list of threads says.
pub open spec fn thread_models(threads: Seq<(u32, u32, String)>) -> Seq<(u32, u32, Seq<char>)> {
    threads.map_values(|thread: (u32, u32, String)| (thread.0, thread.1, thread.2@))
}

/// What a list of files says.
pub open spec fn file_models(files: Seq<CatalogFile>) -> Seq<FileModel> {
    files.map_values(|file: CatalogFile| file@)
}

/// What a list of folders says.
pub open spec fn folder_models(folders: Seq<CatalogFolder>) -> Seq<FolderModel> {
    folders.map_values(|folder: CatalogFolder| folder@)
}

/// The catalog records of a volume, sorted by what they stand for.
pub struct CatalogSurvey {
    /// The CNIDs of the file and folder records.
    pub cnids: HashSet<u32>,
    /// The whole file records.
    pub files: Vec<CatalogFile>,
    /// The folder records with timestamps.
    pub folders: Vec<CatalogFolder>,
    /// The thread records: CNID, parent and name.
    pub threads: Vec<(u32, u32, String)>,
}

/// Reads and sorts all catalog records.
pub fn survey(volume: &[u8], loc: &CatalogLoc) -> (survey: CatalogSurvey)
    requires
        loc.well_formed(),
    ensures
        survey.cnids@ == recorded_cnids(crate::btree::leaf_records(volume@, *loc)),
        file_models(survey.files@) == recorded_files(crate::btree::leaf_records(volume@, *loc)),
        folder_models(survey.folders@) == recorded_folders(
            crate::btree::leaf_records(volume@, *loc),
        ),
        thread_models(survey.threads@) == recorded_threads(
            crate::btree::leaf_records(volume@, *loc),
        ),
{
    let mut cnids: HashSet<u32> = HashSet::new();
    let mut files: Vec<CatalogFile> = Vec::new();
    let mut folders: Vec<CatalogFolder> = Vec::new();
    let mut threads: Vec<(u32, u32, String)> = Vec::new();
    let mut records = RecordWalk::new(volume, loc);
    let ghost all = records.remaining();
    assert(file_models(files@) =~= Seq::<FileModel>::empty());
    assert(folder_models(folders@) =~= Seq::<FolderModel>::empty());
    assert(thread_models(threads@) =~= Seq::<(u32, u32, Seq<char>)>::empty());
    loop
        invariant
            records.well_formed(),
            cnids@.union(recorded_cnids(records.remaining())) =~= recorded_cnids(all),
            file_models(files@) + recorded_files(records.remaining()) =~= recorded_files(all),
            folder_models(folders@) + recorded_folders(records.remaining()) =~= recorded_folders(
                all,
            ),
            thread_models(threads@) + recorded_threads(records.remaining()) =~= recorded_threads(
                all,
            ),
        ensures
            cnids@ =~= recorded_cnids(all),
            file_models(files@) =~= recorded_files(all),
            folder_models(folders@) =~= recorded_folders(all),
            thread_models(threads@) =~= recorded_threads(all),
        decreases records.remaining().len(),
    {
        let ghost files_before = files@;
        let ghost folders_before = folders@;
        let ghost threads_before = threads@;
        let rec: &[u8] = match records.next_record() {
            None => break ,
            Some(rec) => rec,
        };
        if let Some(folder) = parse_catalog_folder(rec) {
            folders.push(folder);
            assert(folder_models(folders@) =~= folder_models(folders_before).push(folder@));
        }
        match classify_record(rec) {
            Some(CatalogRecord::Entry { cnid, file }) => {
                cnids.insert(cnid);
                if let Some(file) = file {
                    files.push(file);
                    assert(file_models(files@) =~= file_models(files_before).push(file@));
                }
            },
            Some(CatalogRecord::Thread { cnid, parent, name }) => {
                threads.push((cnid, parent, name));
                assert(thread_models(threads@) =~= thread_models(threads_before).push(
                    (cnid, parent, name@),
                ));
            },
            None => {},
        }
    }
    CatalogSurvey { cnids, files, folders, threads }
}

} // verus!
