//! The audit of a volume: which findings its structures give rise to.
//!
//! The audit reads the B-tree node descriptors, the catalog records and the
//! `com.apple.decmpfs` attributes, and reports, in this order: inconsistent
//! nodes of the catalog and of the extents-overflow B-tree, dangling thread
//! records, for each file its timestamps, its extents and its compressed payload,
//! and for each folder its timestamps.

pub mod extents;
pub mod nodes;
pub mod payloads;
pub mod records;
pub mod threads;
pub mod times;

use crate::audit::extents::audit_extents;
use crate::audit::nodes::audit_btree_nodes;
use crate::audit::payloads::audit_decmpfs;
use crate::audit::records::{survey, CatalogFile, CatalogFolder, FileModel, FolderModel};
use crate::audit::threads::audit_threads;
use crate::audit::times::{audit_folder_time, audit_time};
use crate::btree::{locate_catalog, locate_extents, CatalogLoc};
use crate::bytes::be32;
use crate::findings::{Anomaly, KindModel};
use crate::volume::VOLUME_HEADER_OFFSET;
use vstd::prelude::*;

verus! {

broadcast use vstd::slice::axiom_spec_len;

/// The findings on one file.
pub open spec fn file_findings(
    volume: Seq<u8>,
    file: FileModel,
    block_size: u64,
    extents: Option<CatalogLoc>,
) -> Seq<KindModel> {
    times::time_findings(file, crate::volume::header32(volume, 20)) + extents::extents_findings(
        volume,
        file,
        block_size,
        extents,
    ) + payloads::payload_findings(file, crate::attributes::decmpfs_attribute(volume, file.cnid))
}

/// The findings on `files`, one file after the other.
pub open spec fn files_findings(
    volume: Seq<u8>,
    files: Seq<FileModel>,
    block_size: u64,
    extents: Option<CatalogLoc>,
) -> Seq<KindModel>
    decreases files.len(),
{
    if files.len() == 0 {
        Seq::empty()
    } else {
        file_findings(volume, files[0], block_size, extents) + files_findings(
            volume,
            files.drop_first(),
            block_size,
            extents,
        )
    }
}

/// The findings on `folders`, one folder after the other.
pub open spec fn folders_findings(volume: Seq<u8>, folders: Seq<FolderModel>) -> Seq<KindModel>
    decreases folders.len(),
{
    if folders.len() == 0 {
        Seq::empty()
    } else {
        times::folder_time_findings(folders[0], crate::volume::header32(volume, 20))
            + folders_findings(volume, folders.drop_first())
    }
}

/// The findings on the records of a catalog.
pub open spec fn record_findings(
    volume: Seq<u8>,
    records: Seq<Seq<u8>>,
    block_size: u64,
    extents: Option<CatalogLoc>,
) -> Seq<KindModel> {
    threads::thread_findings(
        records::recorded_threads(records),
        records::recorded_cnids(records),
    ) + files_findings(volume, records::recorded_files(records), block_size, extents)
        + folders_findings(volume, records::recorded_folders(records))
}

/// The findings on the nodes of the extents-overflow B-tree, if there is one.
pub open spec fn extents_tree_findings(volume: Seq<u8>) -> Seq<KindModel> {
    match crate::btree::extents_loc(volume) {
        Some(loc) => nodes::btree_findings(volume, loc, "extents"@),
        None => Seq::empty(),
    }
}

/// All findings on a volume; none when it has no catalog.
pub open spec fn audit_findings(volume: Seq<u8>) -> Seq<KindModel> {
    match crate::btree::catalog_loc(volume) {
        None => Seq::empty(),
        Some(loc) => nodes::btree_findings(volume, loc, "catalog"@) + extents_tree_findings(volume)
            + record_findings(
            volume,
            crate::btree::leaf_records(volume, loc),
            loc.block_size as u64,
            crate::btree::extents_loc(volume),
        ),
    }
}

/// Audits one file of a volume that was last written at `volume_modify`.
fn audit_file(
    volume: &[u8],
    file: &CatalogFile,
    volume_modify: u32,
    block_size: u64,
    ext_loc: Option<&CatalogLoc>,
    out: &mut Vec<Anomaly>,
)
    requires
        block_size > 0,
        volume_modify == crate::volume::header32(volume@, 20),
        ext_loc matches Some(loc) ==> loc.well_formed(),
    ensures
        crate::findings::appended(old(out)@, final(out)@),
        crate::findings::kind_models(final(out)@) == crate::findings::kind_models(old(out)@)
            + file_findings(
            volume@,
            file@,
            block_size,
            match ext_loc {
                Some(loc) => Some(*loc),
                None => None,
            },
        ),
{
    audit_time(file, volume_modify, out);
    audit_extents(volume, file, block_size, ext_loc, out);
    audit_decmpfs(volume, file, out);
    assert(crate::findings::kind_models(out@) =~= crate::findings::kind_models(old(out)@)
        + file_findings(
        volume@,
        file@,
        block_size,
        match ext_loc {
            Some(loc) => Some(*loc),
            None => None,
        },
    ));
}

/// Audits the files of a volume.
fn audit_files(
    volume: &[u8],
    files: &Vec<CatalogFile>,
    block_size: u64,
    ext_loc: &Option<CatalogLoc>,
    out: &mut Vec<Anomaly>,
)
    requires
        volume@.len() >= VOLUME_HEADER_OFFSET + 24,
        block_size > 0,
        ext_loc matches Some(loc) ==> loc.well_formed(),
    ensures
        crate::findings::appended(old(out)@, final(out)@),
        crate::findings::kind_models(final(out)@) == crate::findings::kind_models(old(out)@)
            + files_findings(volume@, records::file_models(files@), block_size, *ext_loc),
{
    let volume_modify: u32 = be32(volume, VOLUME_HEADER_OFFSET + 20);
    let ghost models = records::file_models(files@);
    let mut i: usize = 0;
    assert(models.skip(0) =~= models);
    while i < files.len()
        invariant
            block_size > 0,
            ext_loc matches Some(loc) ==> loc.well_formed(),
            volume_modify == crate::volume::header32(volume@, 20),
            i <= files@.len(),
            models == records::file_models(files@),
            crate::findings::appended(old(out)@, out@),
            crate::findings::kind_models(out@) + files_findings(
                volume@,
                models.skip(i as int),
                block_size,
                *ext_loc,
            ) =~= crate::findings::kind_models(old(out)@) + files_findings(
                volume@,
                models,
                block_size,
                *ext_loc,
            ),
        decreases files@.len() - i,
    {
        let file = &files[i];
        proof {
            assert(models.skip(i as int)[0] == file@);
            assert(models.skip(i as int).drop_first() =~= models.skip(i + 1));
        }
        audit_file(volume, file, volume_modify, block_size, ext_loc.as_ref(), out);
        i = i + 1;
    }
}

/// Audits the folders of a volume.
fn audit_folders(volume: &[u8], folders: &Vec<CatalogFolder>, out: &mut Vec<Anomaly>)
    requires
        volume@.len() >= VOLUME_HEADER_OFFSET + 24,
    ensures
        crate::findings::appended(old(out)@, final(out)@),
        crate::findings::kind_models(final(out)@) == crate::findings::kind_models(old(out)@)
            + folders_findings(volume@, records::folder_models(folders@)),
{
    let volume_modify: u32 = be32(volume, VOLUME_HEADER_OFFSET + 20);
    let ghost models = records::folder_models(folders@);
    let mut i: usize = 0;
    assert(models.skip(0) =~= models);
    while i < folders.len()
        invariant
            volume_modify == crate::volume::header32(volume@, 20),
            i <= folders@.len(),
            models == records::folder_models(folders@),
            crate::findings::appended(old(out)@, out@),
            crate::findings::kind_models(out@) + folders_findings(volume@, models.skip(i as int))
                =~= crate::findings::kind_models(old(out)@) + folders_findings(volume@, models),
        decreases folders@.len() - i,
    {
        let folder = &folders[i];
        proof {
            assert(models.skip(i as int)[0] == folder@);
            assert(models.skip(i as int).drop_first() =~= models.skip(i + 1));
        }
        audit_folder_time(folder, volume_modify, out);
        i = i + 1;
    }
}

/// Audits a volume and returns every anomaly observed.
///
/// `volume` must contain the whole volume from its first byte. A buffer that is
/// not an HFS+ volume, or whose catalog cannot be located, yields no anomalies.
#[must_use]
pub fn audit(volume: &[u8]) -> (anomalies: Vec<Anomaly>)
    ensures
        crate::findings::kind_models(anomalies@) == audit_findings(volume@),
        crate::findings::all_well_formed(anomalies@),
{
    let mut out: Vec<Anomaly> = Vec::new();
    assert(crate::findings::kind_models(out@) =~= Seq::<KindModel>::empty());
    let cat = match locate_catalog(volume) {
        Some(cat) => cat,
        None => return out,
    };
    audit_btree_nodes(volume, &cat, "catalog", &mut out);
    let ext_loc = locate_extents(volume);
    if let Some(ext) = &ext_loc {
        audit_btree_nodes(volume, ext, "extents", &mut out);
    }
    let found = survey(volume, &cat);
    audit_threads(&found.threads, &found.cnids, &mut out);
    audit_files(volume, &found.files, cat.block_size as u64, &ext_loc, &mut out);
    audit_folders(volume, &found.folders, &mut out);
    assert(crate::findings::kind_models(out@) =~= audit_findings(volume@));
    out
}

} // verus!
