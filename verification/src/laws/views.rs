//! Laws of the views: a model says what the value says, field by field, and the
//! model of a list has the models of its elements, in order.

use crate::attributes::{AttrStorage, AttrStorageModel, Attribute};
use crate::audit::records::{CatalogFile, CatalogFolder, CatalogRecord, RecordModel};
use crate::catalog::HfsEntry;
use crate::compression::DecodeError;
use crate::findings::{Anomaly, AnomalyKind, KindModel};
use crate::forks::Fork;
use crate::vfs::{DirEntry, StreamInfo};
use crate::walk::HfsPathEntry;
use vstd::prelude::*;

verus! {

/// Directory entries, with and without paths, say what their fields say.
pub proof fn law_entry_views(entry: HfsEntry, item: HfsPathEntry, listed: DirEntry)
    ensures
        entry@.name == entry.name@,
        entry@.is_dir == entry.is_dir,
        entry@.cnid == entry.cnid,
        item@.path == item.path@,
        item@.is_dir == item.is_dir,
        item@.cnid == item.cnid,
        listed@.name == listed.name@,
        listed@.id == listed.id,
        listed@.is_dir == listed.is_dir,
{
}

/// Forks, attributes and streams say what their fields say.
pub proof fn law_stream_views(fork: Fork, attribute: Attribute, stream: StreamInfo)
    ensures
        fork@.logical == fork.logical,
        fork@.extents == fork.extents@,
        attribute@.cnid == attribute.cnid,
        attribute@.name == attribute.name@,
        match attribute.storage {
            AttrStorage::Inline(value) => attribute@.storage == AttrStorageModel::Inline(value@),
            AttrStorage::Fork(fork) => attribute@.storage == AttrStorageModel::Fork(fork@),
        },
        stream@.id == stream.id,
        stream@.size == stream.size,
        stream@.residency == stream.residency,
        match stream.name {
            Some(name) => stream@.name == Some(name@),
            None => stream@.name is None,
        },
{
}

/// Classified records say what their fields say.
pub proof fn law_record_views(file: CatalogFile, folder: CatalogFolder, record: CatalogRecord)
    ensures
        file@.cnid == file.cnid,
        file@.name == file.name@,
        file@.logical == file.logical,
        file@.inline_blocks == file.inline_blocks,
        file@.extents_full == file.extents_full,
        file@.create == file.create,
        file@.content_mod == file.content_mod,
        file@.has_resource_fork == file.has_resource_fork,
        file@.resource_logical == file.resource_logical,
        file@.resource_blocks == file.resource_blocks,
        folder@.cnid == folder.cnid,
        folder@.name == folder.name@,
        folder@.create == folder.create,
        folder@.content_mod == folder.content_mod,
        match record {
            CatalogRecord::Entry { cnid, file } => record@ matches RecordModel::Entry {
                cnid: of,
                file: model,
            } && of == cnid && match file {
                Some(file) => model == Some(file@),
                None => model is None,
            },
            CatalogRecord::Thread { cnid, parent, name } => record@ == (RecordModel::Thread {
                cnid,
                parent,
                name: name@,
            }),
        },
{
}

/// Findings say what their fields say.
pub proof fn law_kind_views(kind: AnomalyKind)
    ensures
        match kind {
            AnomalyKind::BtreeNodeInvalid { tree, node, detail } => kind@
                == (KindModel::BtreeNodeInvalid { tree: tree@, node, detail: detail@ }),
            AnomalyKind::CatalogExtentsMismatch {
                cnid,
                name,
                logical,
                allocated_blocks,
                needed_blocks,
            } => kind@ == (KindModel::CatalogExtentsMismatch {
                cnid,
                name: name@,
                logical,
                allocated_blocks,
                needed_blocks,
            }),
            AnomalyKind::DeletedButReferenced { cnid, parent, name } => kind@
                == (KindModel::DeletedButReferenced { cnid, parent, name: name@ }),
            AnomalyKind::TimeAnomaly { cnid, name, detail } => kind@ == (KindModel::TimeAnomaly {
                cnid,
                name: name@,
                detail: detail@,
            }),
            AnomalyKind::DecmpfsMissingResource { cnid, name, compression_type, detail } => kind@
                == (KindModel::DecmpfsMissingResource {
                cnid,
                name: name@,
                compression_type,
                detail: detail@,
            }),
        },
{
}

/// A well-formed finding has the severity, the code and the note of its kind.
pub proof fn law_findings_well_formed(anomaly: Anomaly)
    ensures
        anomaly.well_formed() <==> {
            &&& anomaly.severity == crate::findings::severity_of(anomaly.kind@)
            &&& anomaly.code@ == crate::findings::code_of(anomaly.kind@)
            &&& anomaly.note@ == crate::findings::note_of(anomaly.kind@)
        },
{
}

/// The findings behind those that were there are well formed, and those that were
/// there stay.
pub proof fn law_findings_appended(before: Seq<Anomaly>, after: Seq<Anomaly>)
    requires
        crate::findings::appended(before, after),
    ensures
        before.len() <= after.len(),
        after.take(before.len() as int) == before,
        crate::findings::all_well_formed(after.skip(before.len() as int)),
{
    let kept = after.take(before.len() as int);
    let new = after.skip(before.len() as int);
    assert forall|i: int| 0 <= i < before.len() implies kept[i] == before[i] by {
        assert(after[i] == before[i]);
    }
    assert(kept =~= before);
    assert forall|i: int| 0 <= i < new.len() implies (#[trigger] new[i]).well_formed() by {
        assert(after[before.len() + i] == new[i]);
    }
}

/// Every finding of a well-formed list is well formed.
pub proof fn law_all_well_formed(anomalies: Seq<Anomaly>, i: int)
    requires
        crate::findings::all_well_formed(anomalies),
        0 <= i < anomalies.len(),
    ensures
        anomalies[i].well_formed(),
{
}

/// The model of a listing has the models of its entries.
pub proof fn law_listing_models(
    entries: Seq<HfsEntry>,
    items: Seq<HfsPathEntry>,
    listed: Seq<DirEntry>,
    i: int,
)
    ensures
        crate::catalog::entry_models(entries).len() == entries.len(),
        0 <= i < entries.len() ==> crate::catalog::entry_models(entries)[i] == entries[i]@,
        crate::walk::path_models(items).len() == items.len(),
        0 <= i < items.len() ==> crate::walk::path_models(items)[i] == items[i]@,
        crate::vfs::dir_entry_models(listed).len() == listed.len(),
        0 <= i < listed.len() ==> crate::vfs::dir_entry_models(listed)[i] == listed[i]@,
{
}

/// The model of a list of attributes, streams or findings has the models of its
/// elements.
pub proof fn law_list_models(
    attributes: Seq<Attribute>,
    streams: Seq<StreamInfo>,
    anomalies: Seq<Anomaly>,
    i: int,
)
    ensures
        crate::attributes::attribute_models(attributes).len() == attributes.len(),
        0 <= i < attributes.len() ==> crate::attributes::attribute_models(attributes)[i]
            == attributes[i]@,
        crate::vfs::stream_models(streams).len() == streams.len(),
        0 <= i < streams.len() ==> crate::vfs::stream_models(streams)[i] == streams[i]@,
        crate::findings::kind_models(anomalies).len() == anomalies.len(),
        0 <= i < anomalies.len() ==> crate::findings::kind_models(anomalies)[i]
            == anomalies[i].kind@,
{
}

/// The model of a list of files, folders or threads has the models of its
/// elements.
pub proof fn law_survey_models(
    files: Seq<CatalogFile>,
    folders: Seq<CatalogFolder>,
    threads: Seq<(u32, u32, String)>,
    i: int,
)
    ensures
        crate::audit::records::file_models(files).len() == files.len(),
        0 <= i < files.len() ==> crate::audit::records::file_models(files)[i] == files[i]@,
        crate::audit::records::folder_models(folders).len() == folders.len(),
        0 <= i < folders.len() ==> crate::audit::records::folder_models(folders)[i] == folders[i]@,
        crate::audit::records::thread_models(threads).len() == threads.len(),
        0 <= i < threads.len() ==> crate::audit::records::thread_models(threads)[i] == (
            threads[i].0,
            threads[i].1,
            threads[i].2@,
        ),
{
}

/// A decode result is taken with its bytes or its error as they are, and a
/// resource fork with its bytes.
pub proof fn law_result_models(bytes: Vec<u8>, error: DecodeError, fork: &[u8])
    ensures
        crate::compression::result_model(Ok(bytes)) == Ok::<Seq<u8>, DecodeError>(bytes@),
        crate::compression::result_model(Err(error)) == Err::<Seq<u8>, DecodeError>(error),
        crate::compression::fork_view(Some(fork)) == Some(fork@),
        crate::compression::fork_view(None) is None,
{
}

} // verus!
