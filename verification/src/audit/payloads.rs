//! Compressed payloads that are missing.

use crate::attributes::decmpfs_xattr;
use crate::audit::records::{CatalogFile, FileModel};
use crate::bytes::{le32, le64};
use crate::codecs::{classify, Algorithm, Storage};
use crate::compression::{COMPRESSION_TYPE_OFFSET, HEADER_LEN, UNCOMPRESSED_SIZE_OFFSET};
use crate::findings::{report, Anomaly, AnomalyKind, KindModel};
use crate::text::push_decimal;
use vstd::prelude::*;

verus! {

broadcast use vstd::slice::axiom_spec_len;

/// What is said of an attribute that is shorter than its header.
pub open spec fn short_detail(len: int) -> Seq<char> {
    "its com.apple.decmpfs xattr is "@ + crate::text::decimal(len)
        + " bytes, shorter than the 16-byte decmpfs header"@
}

/// What is said of a resource fork that has a size but no blocks.
pub open spec fn unallocated_detail(logical: u64) -> Seq<char> {
    "it declares a "@ + crate::text::decimal(logical as int)
        + "-byte resource fork but the fork allocates zero blocks (the payload is unrecoverable)"@
}

/// What is wrong with the compressed payload that the attribute `xattr` of a
/// file refers to, if anything is: the compression type and the reason. A header
/// alone is in order where it declares a stored file of no bytes.
pub open spec fn payload_detail(file: FileModel, xattr: Seq<u8>) -> Option<(u32, Seq<char>)> {
    let kind = crate::bytes::le32_at(xattr, COMPRESSION_TYPE_OFFSET as int);
    if xattr.len() < HEADER_LEN {
        Some((0, short_detail(xattr.len() as int)))
    } else {
        match crate::codecs::compression_of(kind) {
            None => Some(
                (
                    kind,
                    "its compression_type is not a documented decmpfs type (read_file refuses it)"@,
                ),
            ),
            Some(compression) => match compression.storage {
                Storage::ResourceFork => if !file.has_resource_fork || file.resource_logical == 0 {
                    Some(
                        (
                            kind,
                            "it declares resource-fork storage but its resource fork is empty"@,
                        ),
                    )
                } else if file.resource_blocks == 0 {
                    Some((kind, unallocated_detail(file.resource_logical)))
                } else {
                    None
                },
                Storage::Inline => if xattr.len() == HEADER_LEN && !(compression.algorithm
                    == Algorithm::Uncompressed && crate::compression::declared_size(xattr) == 0) {
                    Some(
                        (
                            kind,
                            "it declares inline storage but the xattr holds only the header, with no payload following it"@,
                        ),
                    )
                } else {
                    None
                },
            },
        }
    }
}

/// The finding on the compressed payload of a file that carries the attribute
/// `xattr`.
pub open spec fn payload_findings(file: FileModel, xattr: Option<Seq<u8>>) -> Seq<KindModel> {
    match xattr {
        None => Seq::empty(),
        Some(xattr) => match payload_detail(file, xattr) {
            Some((compression_type, detail)) => seq![
                KindModel::DecmpfsMissingResource {
                    cnid: file.cnid,
                    name: file.name,
                    compression_type,
                    detail,
                },
            ],
            None => Seq::empty(),
        },
    }
}

fn describe_short(len: usize) -> (detail: String)
    ensures
        detail@ == short_detail(len as int),
{
    let mut detail: String = "its com.apple.decmpfs xattr is ".to_owned();
    push_decimal(&mut detail, len as u64);
    detail.append(" bytes, shorter than the 16-byte decmpfs header");
    detail
}

fn describe_unallocated(logical: u64) -> (detail: String)
    ensures
        detail@ == unallocated_detail(logical),
{
    let mut detail: String = "it declares a ".to_owned();
    push_decimal(&mut detail, logical);
    detail.append(
        "-byte resource fork but the fork allocates zero blocks (the payload is unrecoverable)",
    );
    detail
}

/// What is wrong with the compressed payload that an attribute of `file` refers
/// to, if anything is.
pub fn check_payload(file: &CatalogFile, xattr: &[u8]) -> (detail: Option<(u32, String)>)
    ensures
        match detail {
            Some((kind, detail)) => payload_detail(file@, xattr@) == Some((kind, detail@)),
            None => payload_detail(file@, xattr@) is None,
        },
{
    let len: usize = xattr.len();
    if len < HEADER_LEN {
        return Some((0, describe_short(len)));
    }
    let kind: u32 = le32(xattr, COMPRESSION_TYPE_OFFSET);
    match classify(kind) {
        None => Some(
            (
                kind,
                "its compression_type is not a documented decmpfs type (read_file refuses it)".to_owned(),
            ),
        ),
        Some(compression) => match compression.storage {
            Storage::ResourceFork => {
                if !file.has_resource_fork || file.resource_logical == 0 {
                    Some(
                        (
                            kind,
                            "it declares resource-fork storage but its resource fork is empty".to_owned(),
                        ),
                    )
                } else if file.resource_blocks == 0 {
                    Some((kind, describe_unallocated(file.resource_logical)))
                } else {
                    None
                }
            },
            Storage::Inline => {
                // A stored file of no bytes has no payload to lose.
                let empty: bool = compression.algorithm == Algorithm::Uncompressed && le64(
                    xattr,
                    UNCOMPRESSED_SIZE_OFFSET,
                ) == 0;
                if len == HEADER_LEN && !empty {
                    Some(
                        (
                            kind,
                            "it declares inline storage but the xattr holds only the header, with no payload following it".to_owned(),
                        ),
                    )
                } else {
                    None
                }
            },
        },
    }
}

/// Reports a compressed file whose payload is absent or cut short.
pub fn audit_decmpfs(volume: &[u8], file: &CatalogFile, out: &mut Vec<Anomaly>)
    ensures
        crate::findings::appended(old(out)@, final(out)@),
        crate::findings::kind_models(final(out)@) == crate::findings::kind_models(old(out)@)
            + payload_findings(
            file@,
            crate::attributes::decmpfs_attribute(volume@, file.cnid),
        ),
{
    if let Some(xattr) = decmpfs_xattr(volume, file.cnid) {
        if let Some((compression_type, detail)) = check_payload(file, xattr.as_slice()) {
            report(
                out,
                AnomalyKind::DecmpfsMissingResource {
                    cnid: file.cnid,
                    name: file.name.clone(),
                    compression_type,
                    detail,
                },
            );
        }
    }
    assert(crate::findings::kind_models(out@) =~= crate::findings::kind_models(old(out)@)
        + payload_findings(file@, crate::attributes::decmpfs_attribute(volume@, file.cnid)));
}

} // verus!
