//! Impossible timestamps.

use crate::audit::records::{CatalogFile, CatalogFolder, FileModel, FolderModel};
use crate::findings::{report, Anomaly, AnomalyKind, KindModel};
use crate::text::push_decimal;
use vstd::prelude::*;

verus! {

broadcast use vstd::slice::axiom_spec_len;

/// Seconds between the HFS+ epoch (1904-01-01) and the Unix epoch (1970-01-01).
pub const HFS_EPOCH_TO_UNIX: u32 = 2_082_844_800;

/// What is said of an entry, a file or a folder as `what` says, that was modified
/// before it was created.
pub open spec fn order_detail(what: Seq<char>, create: u32, content_mod: u32) -> Seq<char> {
    "creation time "@ + crate::text::decimal(create as int)
        + " is later than content-modification time "@ + crate::text::decimal(content_mod as int)
        + " (a "@ + what + " cannot be modified before it is created)"@
}

/// What is said of a timestamp before the epoch boundary.
pub open spec fn early_detail(label: Seq<char>, time: u32) -> Seq<char> {
    label + " time "@ + crate::text::decimal(time as int)
        + " predates the HFS+ epoch boundary (before 1904 — impossible)"@
}

/// What is said of a timestamp after the volume was last written.
pub open spec fn late_detail(label: Seq<char>, time: u32, volume_modify: u32) -> Seq<char> {
    label + " time "@ + crate::text::decimal(time as int)
        + " is after the volume's last-written date "@ + crate::text::decimal(volume_modify as int)
        + " (nothing inside a volume can postdate the volume header)"@
}

/// Whether a timestamp lies before the epoch boundary; 0 stands for none.
pub open spec fn too_early(time: u32) -> bool {
    time != 0 && time < HFS_EPOCH_TO_UNIX
}

/// Whether a timestamp lies after the volume was last written; a last-written
/// date of 0 is unknown.
pub open spec fn too_late(time: u32, volume_modify: u32) -> bool {
    volume_modify != 0 && time > volume_modify
}

/// What is wrong with the timestamps of an entry, a file or a folder as `what`
/// says, if anything is: the first of these that applies.
pub open spec fn time_detail(
    what: Seq<char>,
    create: u32,
    content_mod: u32,
    volume_modify: u32,
) -> Option<Seq<char>> {
    if create > content_mod && content_mod != 0 {
        Some(order_detail(what, create, content_mod))
    } else if too_early(create) {
        Some(early_detail("creation"@, create))
    } else if too_early(content_mod) {
        Some(early_detail("content-modification"@, content_mod))
    } else if too_late(create, volume_modify) {
        Some(late_detail("creation"@, create, volume_modify))
    } else if too_late(content_mod, volume_modify) {
        Some(late_detail("content-modification"@, content_mod, volume_modify))
    } else {
        None
    }
}

/// The finding on the timestamps of a file.
pub open spec fn time_findings(file: FileModel, volume_modify: u32) -> Seq<KindModel> {
    match time_detail("file"@, file.create, file.content_mod, volume_modify) {
        Some(detail) => seq![
            KindModel::TimeAnomaly { cnid: file.cnid, name: file.name, detail },
        ],
        None => Seq::empty(),
    }
}

/// The finding on the timestamps of a folder.
pub open spec fn folder_time_findings(folder: FolderModel, volume_modify: u32) -> Seq<KindModel> {
    match time_detail("folder"@, folder.create, folder.content_mod, volume_modify) {
        Some(detail) => seq![
            KindModel::TimeAnomaly { cnid: folder.cnid, name: folder.name, detail },
        ],
        None => Seq::empty(),
    }
}

fn describe_order(what: &str, create: u32, content_mod: u32) -> (detail: String)
    ensures
        detail@ == order_detail(what@, create, content_mod),
{
    let mut detail: String = "creation time ".to_owned();
    push_decimal(&mut detail, create as u64);
    detail.append(" is later than content-modification time ");
    push_decimal(&mut detail, content_mod as u64);
    detail.append(" (a ");
    detail.append(what);
    detail.append(" cannot be modified before it is created)");
    detail
}

fn describe_early(label: &str, time: u32) -> (detail: String)
    ensures
        detail@ == early_detail(label@, time),
{
    let mut detail: String = label.to_owned();
    detail.append(" time ");
    push_decimal(&mut detail, time as u64);
    detail.append(" predates the HFS+ epoch boundary (before 1904 — impossible)");
    detail
}

fn describe_late(label: &str, time: u32, volume_modify: u32) -> (detail: String)
    ensures
        detail@ == late_detail(label@, time, volume_modify),
{
    let mut detail: String = label.to_owned();
    detail.append(" time ");
    push_decimal(&mut detail, time as u64);
    detail.append(" is after the volume's last-written date ");
    push_decimal(&mut detail, volume_modify as u64);
    detail.append(" (nothing inside a volume can postdate the volume header)");
    detail
}

/// What is wrong with the timestamps of an entry, a file or a folder as `what`
/// says, if anything is.
pub fn check_time(what: &str, create: u32, content_mod: u32, volume_modify: u32) -> (detail: Option<
    String,
>)
    ensures
        match detail {
            Some(detail) => time_detail(what@, create, content_mod, volume_modify) == Some(detail@),
            None => time_detail(what@, create, content_mod, volume_modify) is None,
        },
{
    if create > content_mod && content_mod != 0 {
        return Some(describe_order(what, create, content_mod));
    }
    if create != 0 && create < HFS_EPOCH_TO_UNIX {
        return Some(describe_early("creation", create));
    }
    if content_mod != 0 && content_mod < HFS_EPOCH_TO_UNIX {
        return Some(describe_early("content-modification", content_mod));
    }
    if volume_modify != 0 && create > volume_modify {
        return Some(describe_late("creation", create, volume_modify));
    }
    if volume_modify != 0 && content_mod > volume_modify {
        return Some(describe_late("content-modification", content_mod, volume_modify));
    }
    None
}

/// Reports an impossible timestamp of a file.
pub fn audit_time(file: &CatalogFile, volume_modify: u32, out: &mut Vec<Anomaly>)
    ensures
        crate::findings::appended(old(out)@, final(out)@),
        crate::findings::kind_models(final(out)@) == crate::findings::kind_models(old(out)@)
            + time_findings(file@, volume_modify),
{
    match check_time("file", file.create, file.content_mod, volume_modify) {
        Some(detail) => report(
            out,
            AnomalyKind::TimeAnomaly { cnid: file.cnid, name: file.name.clone(), detail },
        ),
        None => {},
    }
    assert(crate::findings::kind_models(out@) =~= crate::findings::kind_models(old(out)@)
        + time_findings(file@, volume_modify));
}

/// Reports an impossible timestamp of a folder.
pub fn audit_folder_time(folder: &CatalogFolder, volume_modify: u32, out: &mut Vec<Anomaly>)
    ensures
        crate::findings::appended(old(out)@, final(out)@),
        crate::findings::kind_models(final(out)@) == crate::findings::kind_models(old(out)@)
            + folder_time_findings(folder@, volume_modify),
{
    match check_time("folder", folder.create, folder.content_mod, volume_modify) {
        Some(detail) => report(
            out,
            AnomalyKind::TimeAnomaly { cnid: folder.cnid, name: folder.name.clone(), detail },
        ),
        None => {},
    }
    assert(crate::findings::kind_models(out@) =~= crate::findings::kind_models(old(out)@)
        + folder_time_findings(folder@, volume_modify));
}

} // verus!
