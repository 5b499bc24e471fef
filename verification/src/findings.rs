//! Forensic findings: what an audit can observe, how grave it is, and how it is
//! worded.
//!
//! Severity, code and note of a finding are functions of its [`AnomalyKind`], so
//! they cannot drift apart. Each note is an observation ("consistent with ..."),
//! never a verdict.

use crate::text::push_decimal;
use vstd::prelude::*;

pub use crate::audit::audit;

verus! {

/// How grave a finding is.
#[derive(Debug, Clone, Copy, PartialEq, Eq, PartialOrd, Ord, Hash, Structural)]
pub enum Severity {
    /// Worth knowing.
    Info,
    /// Hardly suspicious.
    Low,
    /// Suspicious.
    Medium,
    /// Gravely suspicious.
    High,
    /// Most grave.
    Critical,
}

/// What an audit observed, with the evidence needed to reproduce it.
#[derive(Debug, Clone, PartialEq, Eq)]
pub enum AnomalyKind {
    /// A catalog or extents-overflow B-tree node's descriptor is internally
    /// inconsistent: an undocumented kind, a leaf node claiming a non-leaf height
    /// (or vice versa), a header kind elsewhere than on node 0, or a forward or
    /// back link pointing at the node itself or outside the tree. Or the forward
    /// links loop. The reader walks the leaf chain by these links, so a bad
    /// descriptor is consistent with structural corruption or with an edit that
    /// rewired the tree to hide or strand records.
    BtreeNodeInvalid {
        /// Which B-tree: `catalog` or `extents`.
        tree: String,
        /// Number of the node in the B-tree.
        node: u32,
        /// What is inconsistent.
        detail: String,
    },
    /// A file's data fork is larger than the blocks that its extents allocate, and
    /// no extents-overflow record makes up the difference.
    CatalogExtentsMismatch {
        /// Catalog node ID of the file.
        cnid: u32,
        /// File name from the catalog key.
        name: String,
        /// Logical size of the data fork in bytes.
        logical: u64,
        /// Allocation blocks that the extents cover.
        allocated_blocks: u32,
        /// Allocation blocks that the logical size requires.
        needed_blocks: u32,
    },
    /// A thread record refers to a CNID that no file or folder record has.
    DeletedButReferenced {
        /// The dangling CNID.
        cnid: u32,
        /// Parent CNID that the thread points to.
        parent: u32,
        /// Name that the thread records for the missing entry.
        name: String,
    },
    /// A file or folder timestamp is impossible: its creation time is later than
    /// its content-modification time, or a non-zero timestamp falls before the
    /// epoch boundary or after the volume's own last-written date.
    TimeAnomaly {
        /// Catalog node ID of the entry.
        cnid: u32,
        /// Entry name from the catalog key.
        name: String,
        /// Which relation failed.
        detail: String,
    },
    /// A file carries a `com.apple.decmpfs` attribute, but the payload that it
    /// refers to is absent or cut short, so that the file cannot be read.
    DecmpfsMissingResource {
        /// Catalog node ID of the compressed file.
        cnid: u32,
        /// File name from the catalog key.
        name: String,
        /// The compression type in the attribute's header.
        compression_type: u32,
        /// Why the payload is unusable.
        detail: String,
    },
}

/// What an [`AnomalyKind`] says.
#[verifier::ext_equal]
pub enum KindModel {
    /// A B-tree node descriptor contradicts itself.
    BtreeNodeInvalid { tree: Seq<char>, node: u32, detail: Seq<char> },
    /// A data fork is larger than its extents.
    CatalogExtentsMismatch {
        cnid: u32,
        name: Seq<char>,
        logical: u64,
        allocated_blocks: u32,
        needed_blocks: u32,
    },
    /// A thread record dangles.
    DeletedButReferenced { cnid: u32, parent: u32, name: Seq<char> },
    /// A timestamp is impossible.
    TimeAnomaly { cnid: u32, name: Seq<char>, detail: Seq<char> },
    /// A compressed payload is missing.
    DecmpfsMissingResource {
        cnid: u32,
        name: Seq<char>,
        compression_type: u32,
        detail: Seq<char>,
    },
}

impl View for AnomalyKind {
    type V = KindModel;

    open spec fn view(&self) -> KindModel {
        match *self {
            AnomalyKind::BtreeNodeInvalid { tree, node, detail } => KindModel::BtreeNodeInvalid {
                tree: tree@,
                node,
                detail: detail@,
            },
            AnomalyKind::CatalogExtentsMismatch {
                cnid,
                name,
                logical,
                allocated_blocks,
                needed_blocks,
            } => KindModel::CatalogExtentsMismatch {
                cnid,
                name: name@,
                logical,
                allocated_blocks,
                needed_blocks,
            },
            AnomalyKind::DeletedButReferenced { cnid, parent, name } =>
                KindModel::DeletedButReferenced { cnid, parent, name: name@ },
            AnomalyKind::TimeAnomaly { cnid, name, detail } => KindModel::TimeAnomaly {
                cnid,
                name: name@,
                detail: detail@,
            },
            AnomalyKind::DecmpfsMissingResource { cnid, name, compression_type, detail } =>
                KindModel::DecmpfsMissingResource {
                cnid,
                name: name@,
                compression_type,
                detail: detail@,
            },
        }
    }
}

/// The severity of a finding.
pub open spec fn severity_of(kind: KindModel) -> Severity {
    match kind {
        KindModel::BtreeNodeInvalid { .. } => Severity::High,
        KindModel::CatalogExtentsMismatch { .. } => Severity::High,
        KindModel::DeletedButReferenced { .. } => Severity::Medium,
        KindModel::TimeAnomaly { .. } => Severity::Medium,
        KindModel::DecmpfsMissingResource { .. } => Severity::High,
    }
}

/// The machine-readable code of a finding.
pub open spec fn code_of(kind: KindModel) -> Seq<char> {
    match kind {
        KindModel::BtreeNodeInvalid { .. } => "HFS-BTREE-NODE-INVALID"@,
        KindModel::CatalogExtentsMismatch { .. } => "HFS-CATALOG-EXTENTS-MISMATCH"@,
        KindModel::DeletedButReferenced { .. } => "HFS-DELETED-BUT-REFERENCED"@,
        KindModel::TimeAnomaly { .. } => "HFS-TIME-ANOMALY"@,
        KindModel::DecmpfsMissingResource { .. } => "HFS-DECMPFS-MISSING-RESOURCE"@,
    }
}

/// The note on an inconsistent B-tree node.
pub open spec fn node_note(tree: Seq<char>, node: u32, detail: Seq<char>) -> Seq<char> {
    tree + " B-tree node "@ + crate::text::decimal(node as int) + ": "@ + detail
        + " — the reader walks the leaf chain by these node links/descriptors, so an inconsistent descriptor is consistent with structural corruption or an edit that rewired the tree to hide or strand records"@
}

/// The note on a data fork that is larger than its extents.
pub open spec fn extents_note(
    cnid: u32,
    name: Seq<char>,
    logical: u64,
    allocated_blocks: u32,
    needed_blocks: u32,
) -> Seq<char> {
    "file `"@ + name + "` (CNID "@ + crate::text::decimal(cnid as int) + ") declares a "@
        + crate::text::decimal(logical as int) + "-byte data fork needing "@ + crate::text::decimal(
        needed_blocks as int,
    ) + " allocation block(s) but its catalog + extents-overflow extents cover only "@
        + crate::text::decimal(allocated_blocks as int)
        + " — the catalog and extents B-tree are HFS+'s two records of a file's allocation and must agree; a divergence is consistent with a truncated/edited extent list or a forged size"@
}

/// The note on a dangling thread record.
pub open spec fn thread_note(cnid: u32, parent: u32, name: Seq<char>) -> Seq<char> {
    "CNID "@ + crate::text::decimal(cnid as int) + " (`"@ + name + "`, parent "@
        + crate::text::decimal(parent as int)
        + ") has a thread record but no file/folder catalog record — the thread is a dangling reference, consistent with the record having been deleted while its thread leaked, leaving a recoverable name/parent for vanished content"@
}

/// The note on an impossible timestamp.
pub open spec fn time_note(cnid: u32, name: Seq<char>, detail: Seq<char>) -> Seq<char> {
    "entry `"@ + name + "` (CNID "@ + crate::text::decimal(cnid as int) + "): "@ + detail
        + " — consistent with a backdated/forged timestamp or with timestamp corruption"@
}

/// The note on a missing compressed payload.
pub open spec fn payload_note(
    cnid: u32,
    name: Seq<char>,
    compression_type: u32,
    detail: Seq<char>,
) -> Seq<char> {
    "file `"@ + name + "` (CNID "@ + crate::text::decimal(cnid as int)
        + ") carries a com.apple.decmpfs attribute (compression_type "@ + crate::text::decimal(
        compression_type as int,
    ) + ") but "@ + detail
        + " — `read_file` cannot materialize it; consistent with the compressed payload having been removed (data destruction) or partial corruption"@
}

/// The human-readable note of a finding.
pub open spec fn note_of(kind: KindModel) -> Seq<char> {
    match kind {
        KindModel::BtreeNodeInvalid { tree, node, detail } => node_note(tree, node, detail),
        KindModel::CatalogExtentsMismatch { cnid, name, logical, allocated_blocks, needed_blocks } =>
            extents_note(cnid, name, logical, allocated_blocks, needed_blocks),
        KindModel::DeletedButReferenced { cnid, parent, name } => thread_note(cnid, parent, name),
        KindModel::TimeAnomaly { cnid, name, detail } => time_note(cnid, name, detail),
        KindModel::DecmpfsMissingResource { cnid, name, compression_type, detail } => payload_note(
            cnid,
            name,
            compression_type,
            detail,
        ),
    }
}

fn write_node_note(tree: &String, node: u32, detail: &String) -> (note: String)
    ensures
        note@ == node_note(tree@, node, detail@),
{
    let mut note: String = tree.clone();
    note.append(" B-tree node ");
    push_decimal(&mut note, node as u64);
    note.append(": ");
    note.append(detail.as_str());
    note.append(" — the reader walks the leaf chain by these node links/descriptors, so an inconsistent descriptor is consistent with structural corruption or an edit that rewired the tree to hide or strand records");
    note
}

fn write_extents_note(
    cnid: u32,
    name: &String,
    logical: u64,
    allocated_blocks: u32,
    needed_blocks: u32,
) -> (note: String)
    ensures
        note@ == extents_note(cnid, name@, logical, allocated_blocks, needed_blocks),
{
    let mut note: String = "file `".to_owned();
    note.append(name.as_str());
    note.append("` (CNID ");
    push_decimal(&mut note, cnid as u64);
    note.append(") declares a ");
    push_decimal(&mut note, logical);
    note.append("-byte data fork needing ");
    push_decimal(&mut note, needed_blocks as u64);
    note.append(" allocation block(s) but its catalog + extents-overflow extents cover only ");
    push_decimal(&mut note, allocated_blocks as u64);
    note.append(" — the catalog and extents B-tree are HFS+'s two records of a file's allocation and must agree; a divergence is consistent with a truncated/edited extent list or a forged size");
    note
}

fn write_thread_note(cnid: u32, parent: u32, name: &String) -> (note: String)
    ensures
        note@ == thread_note(cnid, parent, name@),
{
    let mut note: String = "CNID ".to_owned();
    push_decimal(&mut note, cnid as u64);
    note.append(" (`");
    note.append(name.as_str());
    note.append("`, parent ");
    push_decimal(&mut note, parent as u64);
    note.append(") has a thread record but no file/folder catalog record — the thread is a dangling reference, consistent with the record having been deleted while its thread leaked, leaving a recoverable name/parent for vanished content");
    note
}

fn write_time_note(cnid: u32, name: &String, detail: &String) -> (note: String)
    ensures
        note@ == time_note(cnid, name@, detail@),
{
    let mut note: String = "entry `".to_owned();
    note.append(name.as_str());
    note.append("` (CNID ");
    push_decimal(&mut note, cnid as u64);
    note.append("): ");
    note.append(detail.as_str());
    note.append(" — consistent with a backdated/forged timestamp or with timestamp corruption");
    note
}

fn write_payload_note(cnid: u32, name: &String, compression_type: u32, detail: &String) -> (note:
    String)
    ensures
        note@ == payload_note(cnid, name@, compression_type, detail@),
{
    let mut note: String = "file `".to_owned();
    note.append(name.as_str());
    note.append("` (CNID ");
    push_decimal(&mut note, cnid as u64);
    note.append(") carries a com.apple.decmpfs attribute (compression_type ");
    push_decimal(&mut note, compression_type as u64);
    note.append(") but ");
    note.append(detail.as_str());
    note.append(" — `read_file` cannot materialize it; consistent with the compressed payload having been removed (data destruction) or partial corruption");
    note
}

impl AnomalyKind {
    /// The severity of this kind.
    #[must_use]
    pub fn severity(&self) -> (severity: Severity)
        ensures
            severity == severity_of(self@),
    {
        match self {
            // A rewired B-tree node can strand or hide whole subtrees.
            AnomalyKind::BtreeNodeInvalid { .. } => Severity::High,
            // The two allocation records disagree.
            AnomalyKind::CatalogExtentsMismatch { .. } => Severity::High,
            // A leaked thread is evidence of a recoverable deletion.
            AnomalyKind::DeletedButReferenced { .. } => Severity::Medium,
            AnomalyKind::TimeAnomaly { .. } => Severity::Medium,
            // The compressed payload is gone, so the file cannot be read back.
            AnomalyKind::DecmpfsMissingResource { .. } => Severity::High,
        }
    }

    /// The stable machine-readable code of this kind.
    #[must_use]
    pub fn code(&self) -> (code: &'static str)
        ensures
            code@ == code_of(self@),
    {
        match self {
            AnomalyKind::BtreeNodeInvalid { .. } => "HFS-BTREE-NODE-INVALID",
            AnomalyKind::CatalogExtentsMismatch { .. } => "HFS-CATALOG-EXTENTS-MISMATCH",
            AnomalyKind::DeletedButReferenced { .. } => "HFS-DELETED-BUT-REFERENCED",
            AnomalyKind::TimeAnomaly { .. } => "HFS-TIME-ANOMALY",
            AnomalyKind::DecmpfsMissingResource { .. } => "HFS-DECMPFS-MISSING-RESOURCE",
        }
    }

    /// A human-readable description: an observation, not a conclusion.
    #[must_use]
    pub fn note(&self) -> (note: String)
        ensures
            note@ == note_of(self@),
    {
        match self {
            AnomalyKind::BtreeNodeInvalid { tree, node, detail } => write_node_note(
                tree,
                *node,
                detail,
            ),
            AnomalyKind::CatalogExtentsMismatch {
                cnid,
                name,
                logical,
                allocated_blocks,
                needed_blocks,
            } => write_extents_note(*cnid, name, *logical, *allocated_blocks, *needed_blocks),
            AnomalyKind::DeletedButReferenced { cnid, parent, name } => write_thread_note(
                *cnid,
                *parent,
                name,
            ),
            AnomalyKind::TimeAnomaly { cnid, name, detail } => write_time_note(
                *cnid,
                name,
                detail,
            ),
            AnomalyKind::DecmpfsMissingResource { cnid, name, compression_type, detail } =>
                write_payload_note(*cnid, name, *compression_type, detail),
        }
    }
}

/// The name of a severity.
pub open spec fn severity_name(severity: Severity) -> Seq<char> {
    match severity {
        Severity::Info => "INFO"@,
        Severity::Low => "LOW"@,
        Severity::Medium => "MEDIUM"@,
        Severity::High => "HIGH"@,
        Severity::Critical => "CRITICAL"@,
    }
}

impl Severity {
    /// The name of this severity.
    #[must_use]
    pub fn name(&self) -> (name: &'static str)
        ensures
            name@ == severity_name(*self),
    {
        match self {
            Severity::Info => "INFO",
            Severity::Low => "LOW",
            Severity::Medium => "MEDIUM",
            Severity::High => "HIGH",
            Severity::Critical => "CRITICAL",
        }
    }
}

/// A finding: its kind, with the severity, the code and the note that follow
/// from it.
#[derive(Debug, Clone)]
pub struct Anomaly {
    /// Severity, derived from `kind`.
    pub severity: Severity,
    /// Machine-readable code, derived from `kind`.
    pub code: &'static str,
    /// What was observed, with its evidence.
    pub kind: AnomalyKind,
    /// Human-readable note, derived from `kind`.
    pub note: String,
}

impl Anomaly {
    /// Severity, code and note are those of the kind.
    pub open spec fn well_formed(self) -> bool {
        &&& self.severity == severity_of(self.kind@)
        &&& self.code@ == code_of(self.kind@)
        &&& self.note@ == note_of(self.kind@)
    }

    /// Builds a finding, deriving severity, code and note from `kind`.
    #[must_use]
    pub fn new(kind: AnomalyKind) -> (anomaly: Self)
        ensures
            anomaly.kind == kind,
            anomaly.well_formed(),
    {
        let severity: Severity = kind.severity();
        let code: &'static str = kind.code();
        let note: String = kind.note();
        Anomaly { severity, code, kind, note }
    }

    /// The finding in one line: `[SEVERITY] CODE: note`.
    #[must_use]
    pub fn to_string(&self) -> (text: String)
        ensures
            text@ == "["@ + severity_name(self.severity) + "] "@ + self.code@ + ": "@ + self.note@,
    {
        let mut text: String = "[".to_owned();
        text.append(self.severity.name());
        text.append("] ");
        text.append(self.code);
        text.append(": ");
        text.append(self.note.as_str());
        text
    }
}

/// The kinds of a list of findings.
pub open spec fn kind_models(anomalies: Seq<Anomaly>) -> Seq<KindModel> {
    anomalies.map_values(|anomaly: Anomaly| anomaly.kind@)
}

/// The one finding `kind` if `holds`, otherwise none.
pub open spec fn finding_if(holds: bool, kind: KindModel) -> Seq<KindModel> {
    if holds {
        seq![kind]
    } else {
        Seq::empty()
    }
}

/// Whether severity, code and note of every finding are those of its kind.
pub open spec fn all_well_formed(anomalies: Seq<Anomaly>) -> bool {
    forall|i: int| 0 <= i < anomalies.len() ==> (#[trigger] anomalies[i]).well_formed()
}

/// Whether `after` is `before`, with only well-formed findings behind it.
pub open spec fn appended(before: Seq<Anomaly>, after: Seq<Anomaly>) -> bool {
    &&& before.len() <= after.len()
    &&& forall|i: int|
        0 <= i < after.len() ==> if i < before.len() {
            #[trigger] after[i] == before[i]
        } else {
            after[i].well_formed()
        }
}

/// Adds a finding of the kind `kind`.
pub fn report(out: &mut Vec<Anomaly>, kind: AnomalyKind)
    ensures
        appended(old(out)@, final(out)@),
        kind_models(final(out)@) == kind_models(old(out)@).push(kind@),
{
    out.push(Anomaly::new(kind));
    assert(kind_models(out@) =~= kind_models(old(out)@).push(kind@));
}

} // verus!
