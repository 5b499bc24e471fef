//! Laws of the audit and of its findings.

use crate::audit::nodes::{NODE_HEADER, NODE_INDEX, NODE_LEAF, NODE_MAP};
use crate::audit::records::{FileModel, FolderModel, RecordModel};
use crate::catalog::EntryModel;
use crate::findings::KindModel;
use crate::forks::{EXTENT_SLOTS, FILE_BODY_LEN};
use vstd::prelude::*;

verus! {

// ---- Codes and notes ----

/// Whether two findings are of the same kind.
pub open spec fn same_kind(a: KindModel, b: KindModel) -> bool {
    match (a, b) {
        (KindModel::BtreeNodeInvalid { .. }, KindModel::BtreeNodeInvalid { .. }) => true,
        (
            KindModel::CatalogExtentsMismatch { .. },
            KindModel::CatalogExtentsMismatch { .. },
        ) => true,
        (KindModel::DeletedButReferenced { .. }, KindModel::DeletedButReferenced { .. }) => true,
        (KindModel::TimeAnomaly { .. }, KindModel::TimeAnomaly { .. }) => true,
        (
            KindModel::DecmpfsMissingResource { .. },
            KindModel::DecmpfsMissingResource { .. },
        ) => true,
        _ => false,
    }
}

proof fn lemma_codes(kind: KindModel)
    ensures
        crate::findings::code_of(kind).len() > 6,
        crate::findings::code_of(kind).take(4) == "HFS-"@,
        (crate::findings::code_of(kind)[4], crate::findings::code_of(kind)[6]) == match kind {
            KindModel::BtreeNodeInvalid { .. } => ('B', 'R'),
            KindModel::CatalogExtentsMismatch { .. } => ('C', 'T'),
            KindModel::DeletedButReferenced { .. } => ('D', 'L'),
            KindModel::TimeAnomaly { .. } => ('T', 'M'),
            KindModel::DecmpfsMissingResource { .. } => ('D', 'C'),
        },
{
    reveal_strlit("HFS-");
    reveal_strlit("HFS-BTREE-NODE-INVALID");
    reveal_strlit("HFS-CATALOG-EXTENTS-MISMATCH");
    reveal_strlit("HFS-DELETED-BUT-REFERENCED");
    reveal_strlit("HFS-TIME-ANOMALY");
    reveal_strlit("HFS-DECMPFS-MISSING-RESOURCE");
    assert(crate::findings::code_of(kind).take(4) =~= "HFS-"@);
}

/// Every code begins with `HFS-`.
pub proof fn law_codes_prefixed(kind: KindModel)
    ensures
        crate::findings::code_of(kind).len() > 4,
        crate::findings::code_of(kind).take(4) == "HFS-"@,
{
    lemma_codes(kind);
}

/// Findings have the same code if and only if they are of the same kind, and
/// then they have the same severity.
pub proof fn law_codes_tell_kinds_apart(a: KindModel, b: KindModel)
    ensures
        crate::findings::code_of(a) == crate::findings::code_of(b) <==> same_kind(a, b),
        same_kind(a, b) ==> crate::findings::severity_of(a) == crate::findings::severity_of(b),
{
    lemma_codes(a);
    lemma_codes(b);
}

/// Whether `part` occurs in `text`.
pub open spec fn occurs(part: Seq<char>, text: Seq<char>) -> bool {
    exists|i: int|
        0 <= i <= text.len() - part.len() && #[trigger] text.subrange(i, i + part.len()) == part
}

proof fn lemma_occurs_at_end(part: Seq<char>, front: Seq<char>, tail: Seq<char>, i: int)
    requires
        0 <= i <= tail.len() - part.len(),
        tail.subrange(i, i + part.len()) == part,
    ensures
        occurs(part, front + tail),
{
    let text = front + tail;
    let at = front.len() + i;
    assert(text.subrange(at, at + part.len()) =~= part);
}

proof fn lemma_note_tail(note: Seq<char>, tail: Seq<char>, i: int)
    requires
        tail.len() <= note.len(),
        note.skip(note.len() - tail.len()) == tail,
        0 <= i <= tail.len() - "consistent with"@.len(),
        tail.subrange(i, i + "consistent with"@.len()) == "consistent with"@,
    ensures
        occurs("consistent with"@, note),
{
    let front = note.take(note.len() - tail.len());
    assert(note =~= front + tail);
    lemma_occurs_at_end("consistent with"@, front, tail, i);
}

/// Every note words its finding as an observation: it says what the evidence is
/// consistent with.
pub proof fn law_notes_observe(kind: KindModel)
    ensures
        occurs("consistent with"@, crate::findings::note_of(kind)),
{
    let note = crate::findings::note_of(kind);
    reveal_strlit("consistent with");
    match kind {
        KindModel::BtreeNodeInvalid { .. } => {
            reveal_strlit(" — the reader walks the leaf chain by these node links/descriptors, so an inconsistent descriptor is consistent with structural corruption or an edit that rewired the tree to hide or strand records");
            let tail = " — the reader walks the leaf chain by these node links/descriptors, so an inconsistent descriptor is consistent with structural corruption or an edit that rewired the tree to hide or strand records"@;
            assert(note.skip(note.len() - tail.len()) =~= tail);
            assert(tail.subrange(101, 116) =~= "consistent with"@);
            lemma_note_tail(note, tail, 101);
        },
        KindModel::CatalogExtentsMismatch { .. } => {
            reveal_strlit(" — the catalog and extents B-tree are HFS+'s two records of a file's allocation and must agree; a divergence is consistent with a truncated/edited extent list or a forged size");
            let tail = " — the catalog and extents B-tree are HFS+'s two records of a file's allocation and must agree; a divergence is consistent with a truncated/edited extent list or a forged size"@;
            assert(note.skip(note.len() - tail.len()) =~= tail);
            assert(tail.subrange(112, 127) =~= "consistent with"@);
            lemma_note_tail(note, tail, 112);
        },
        KindModel::DeletedButReferenced { .. } => {
            reveal_strlit(") has a thread record but no file/folder catalog record — the thread is a dangling reference, consistent with the record having been deleted while its thread leaked, leaving a recoverable name/parent for vanished content");
            let tail = ") has a thread record but no file/folder catalog record — the thread is a dangling reference, consistent with the record having been deleted while its thread leaked, leaving a recoverable name/parent for vanished content"@;
            assert(note.skip(note.len() - tail.len()) =~= tail);
            assert(tail.subrange(94, 109) =~= "consistent with"@);
            lemma_note_tail(note, tail, 94);
        },
        KindModel::TimeAnomaly { .. } => {
            reveal_strlit(" — consistent with a backdated/forged timestamp or with timestamp corruption");
            let tail = " — consistent with a backdated/forged timestamp or with timestamp corruption"@;
            assert(note.skip(note.len() - tail.len()) =~= tail);
            assert(tail.subrange(3, 18) =~= "consistent with"@);
            lemma_note_tail(note, tail, 3);
        },
        KindModel::DecmpfsMissingResource { .. } => {
            reveal_strlit(" — `read_file` cannot materialize it; consistent with the compressed payload having been removed (data destruction) or partial corruption");
            let tail = " — `read_file` cannot materialize it; consistent with the compressed payload having been removed (data destruction) or partial corruption"@;
            assert(note.skip(note.len() - tail.len()) =~= tail);
            assert(tail.subrange(38, 53) =~= "consistent with"@);
            lemma_note_tail(note, tail, 38);
        },
    }
}

// ---- What is reported ----

proof fn lemma_contains_sum(a: Seq<KindModel>, b: Seq<KindModel>, kind: KindModel)
    ensures
        (a + b).contains(kind) <==> a.contains(kind) || b.contains(kind),
{
    if a.contains(kind) {
        let i = choose|i: int| 0 <= i < a.len() && a[i] == kind;
        assert((a + b)[i] == kind);
    }
    if b.contains(kind) {
        let i = choose|i: int| 0 <= i < b.len() && b[i] == kind;
        assert((a + b)[a.len() + i] == kind);
    }
    if (a + b).contains(kind) {
        let i = choose|i: int| 0 <= i < (a + b).len() && (a + b)[i] == kind;
        if i < a.len() {
            assert(a[i] == kind);
        } else {
            assert(b[i - a.len()] == kind);
        }
    }
}

/// Whether file `j` of `files` gives rise to the finding.
pub open spec fn found_on_file(
    volume: Seq<u8>,
    files: Seq<FileModel>,
    block_size: u64,
    kind: KindModel,
    j: int,
) -> bool {
    &&& 0 <= j < files.len()
    &&& crate::audit::file_findings(
        volume,
        files[j],
        block_size,
        crate::btree::extents_loc(volume),
    ).contains(kind)
}

/// Files give rise to a finding if and only if one of them does.
pub proof fn lemma_files_findings(
    volume: Seq<u8>,
    files: Seq<FileModel>,
    block_size: u64,
    kind: KindModel,
)
    ensures
        crate::audit::files_findings(
            volume,
            files,
            block_size,
            crate::btree::extents_loc(volume),
        ).contains(kind) <==> exists|j: int| #[trigger]
            found_on_file(volume, files, block_size, kind, j),
    decreases files.len(),
{
    let extents = crate::btree::extents_loc(volume);
    if files.len() > 0 {
        let rest = files.drop_first();
        let head = crate::audit::file_findings(volume, files[0], block_size, extents);
        let tail = crate::audit::files_findings(volume, rest, block_size, extents);
        lemma_contains_sum(head, tail, kind);
        lemma_files_findings(volume, rest, block_size, kind);
        if head.contains(kind) {
            assert(found_on_file(volume, files, block_size, kind, 0));
        }
        if tail.contains(kind) {
            let j = choose|j: int| #[trigger] found_on_file(volume, rest, block_size, kind, j);
            assert(files[j + 1] == rest[j]);
            assert(found_on_file(volume, files, block_size, kind, j + 1));
        }
        if exists|j: int| #[trigger] found_on_file(volume, files, block_size, kind, j) {
            let j = choose|j: int| #[trigger] found_on_file(volume, files, block_size, kind, j);
            if j > 0 {
                assert(files[j] == rest[j - 1]);
                assert(found_on_file(volume, rest, block_size, kind, j - 1));
            }
        }
    }
}

/// Whether folder `j` of `folders` gives rise to the finding.
pub open spec fn found_on_folder(
    volume: Seq<u8>,
    folders: Seq<FolderModel>,
    kind: KindModel,
    j: int,
) -> bool {
    &&& 0 <= j < folders.len()
    &&& crate::audit::times::folder_time_findings(
        folders[j],
        crate::volume::header32(volume, 20),
    ).contains(kind)
}

/// Folders give rise to a finding if and only if one of them does.
pub proof fn lemma_folders_findings(volume: Seq<u8>, folders: Seq<FolderModel>, kind: KindModel)
    ensures
        crate::audit::folders_findings(volume, folders).contains(kind) <==> exists|j: int|
            #[trigger] found_on_folder(volume, folders, kind, j),
    decreases folders.len(),
{
    if folders.len() > 0 {
        let rest = folders.drop_first();
        let head = crate::audit::times::folder_time_findings(
            folders[0],
            crate::volume::header32(volume, 20),
        );
        let tail = crate::audit::folders_findings(volume, rest);
        lemma_contains_sum(head, tail, kind);
        lemma_folders_findings(volume, rest, kind);
        if head.contains(kind) {
            assert(found_on_folder(volume, folders, kind, 0));
        }
        if tail.contains(kind) {
            let j = choose|j: int| #[trigger] found_on_folder(volume, rest, kind, j);
            assert(folders[j + 1] == rest[j]);
            assert(found_on_folder(volume, folders, kind, j + 1));
        }
        if exists|j: int| #[trigger] found_on_folder(volume, folders, kind, j) {
            let j = choose|j: int| #[trigger] found_on_folder(volume, folders, kind, j);
            if j > 0 {
                assert(folders[j] == rest[j - 1]);
                assert(found_on_folder(volume, rest, kind, j - 1));
            }
        }
    }
}

/// A finding is reported if and only if a node of the catalog B-tree, a node of
/// the extents-overflow B-tree, a thread record, a file or a folder gives rise to
/// it.
pub proof fn law_findings_exact(
    volume: Seq<u8>,
    loc: crate::btree::CatalogLoc,
    records: Seq<Seq<u8>>,
    kind: KindModel,
)
    requires
        crate::btree::catalog_loc(volume) == Some(loc),
        records == crate::btree::leaf_records(volume, loc),
    ensures
        crate::audit::audit_findings(volume).contains(kind) <==> {
            ||| crate::audit::nodes::btree_findings(volume, loc, "catalog"@).contains(kind)
            ||| crate::audit::extents_tree_findings(volume).contains(kind)
            ||| crate::audit::threads::thread_findings(
                crate::audit::records::recorded_threads(records),
                crate::audit::records::recorded_cnids(records),
            ).contains(kind)
            ||| exists|j: int| #[trigger]
                found_on_file(
                    volume,
                    crate::audit::records::recorded_files(records),
                    loc.block_size as u64,
                    kind,
                    j,
                )
            ||| exists|j: int| #[trigger]
                found_on_folder(
                    volume,
                    crate::audit::records::recorded_folders(records),
                    kind,
                    j,
                )
        },
{
    let nodes = crate::audit::nodes::btree_findings(volume, loc, "catalog"@);
    let extents = crate::audit::extents_tree_findings(volume);
    let threads = crate::audit::threads::thread_findings(
        crate::audit::records::recorded_threads(records),
        crate::audit::records::recorded_cnids(records),
    );
    let files = crate::audit::files_findings(
        volume,
        crate::audit::records::recorded_files(records),
        loc.block_size as u64,
        crate::btree::extents_loc(volume),
    );
    let folders = crate::audit::folders_findings(
        volume,
        crate::audit::records::recorded_folders(records),
    );
    lemma_contains_sum(nodes, extents, kind);
    lemma_contains_sum(nodes + extents, threads + files + folders, kind);
    lemma_contains_sum(threads + files, folders, kind);
    lemma_contains_sum(threads, files, kind);
    lemma_folders_findings(volume, crate::audit::records::recorded_folders(records), kind);
    lemma_files_findings(
        volume,
        crate::audit::records::recorded_files(records),
        loc.block_size as u64,
        kind,
    );
}

/// A thread gives rise to a finding if and only if its CNID is not recorded.
pub proof fn lemma_thread_findings(
    threads: Seq<(u32, u32, Seq<char>)>,
    recorded: Set<u32>,
    kind: KindModel,
)
    ensures
        crate::audit::threads::thread_findings(threads, recorded).contains(kind) <==> {
            &&& kind matches KindModel::DeletedButReferenced { cnid, parent, name }
            &&& threads.contains((cnid, parent, name))
            &&& !recorded.contains(cnid)
        },
    decreases threads.len(),
{
    if threads.len() > 0 {
        let rest = threads.drop_first();
        let (cnid, parent, name) = threads[0];
        let head = crate::findings::finding_if(
            !recorded.contains(cnid),
            KindModel::DeletedButReferenced { cnid, parent, name },
        );
        lemma_contains_sum(head, crate::audit::threads::thread_findings(rest, recorded), kind);
        lemma_thread_findings(rest, recorded, kind);
        if let KindModel::DeletedButReferenced { cnid: c, parent: p, name: n } = kind {
            if !recorded.contains(cnid) && (c, p, n) == (cnid, parent, name) {
                assert(head[0] == kind);
            }
            if threads.contains((c, p, n)) {
                let i = choose|i: int| 0 <= i < threads.len() && threads[i] == (c, p, n);
                if i > 0 {
                    assert(rest[i - 1] == (c, p, n));
                }
            }
            if rest.contains((c, p, n)) {
                let i = choose|i: int| 0 <= i < rest.len() && rest[i] == (c, p, n);
                assert(threads[i + 1] == (c, p, n));
            }
            assert(threads[0] == (cnid, parent, name));
        }
    }
}

proof fn lemma_node_kinds(
    volume: Seq<u8>,
    loc: crate::btree::CatalogLoc,
    tree: Seq<char>,
    n: u32,
    kind: KindModel,
)
    requires
        crate::audit::nodes::node_findings(volume, loc, tree, n).contains(kind),
    ensures
        kind is BtreeNodeInvalid,
{
}

proof fn lemma_chain_kinds(
    volume: Seq<u8>,
    loc: crate::btree::CatalogLoc,
    tree: Seq<char>,
    n: u32,
    budget: nat,
    seen: Set<u32>,
    kind: KindModel,
)
    requires
        crate::audit::nodes::chain_findings(volume, loc, tree, n, budget, seen).contains(kind),
    ensures
        kind is BtreeNodeInvalid,
    decreases budget,
{
    if n != 0 && budget != 0 && !seen.contains(n) {
        if let Some(node) = crate::btree::node_bytes(volume, loc, n) {
            let next = crate::btree::forward_link(node);
            let head = crate::audit::nodes::node_findings(volume, loc, tree, n);
            let tail = crate::audit::nodes::chain_findings(
                volume,
                loc,
                tree,
                next,
                (budget - 1) as nat,
                seen.insert(n),
            );
            lemma_contains_sum(head, tail, kind);
            if head.contains(kind) {
                lemma_node_kinds(volume, loc, tree, n, kind);
            }
            if tail.contains(kind) {
                lemma_chain_kinds(
                    volume,
                    loc,
                    tree,
                    next,
                    (budget - 1) as nat,
                    seen.insert(n),
                    kind,
                );
            }
        }
    }
}

proof fn lemma_btree_kinds(
    volume: Seq<u8>,
    loc: crate::btree::CatalogLoc,
    tree: Seq<char>,
    kind: KindModel,
)
    requires
        crate::audit::nodes::btree_findings(volume, loc, tree).contains(kind),
    ensures
        kind is BtreeNodeInvalid,
{
    let head = crate::audit::nodes::node_findings(volume, loc, tree, 0);
    let budget = crate::btree::MAX_LEAF_NODES as nat;
    let tail = crate::audit::nodes::chain_findings(
        volume,
        loc,
        tree,
        loc.first_leaf,
        budget,
        Set::empty(),
    );
    lemma_contains_sum(head, tail, kind);
    if head.contains(kind) {
        lemma_node_kinds(volume, loc, tree, 0, kind);
    }
    if tail.contains(kind) {
        lemma_chain_kinds(volume, loc, tree, loc.first_leaf, budget, Set::empty(), kind);
    }
}

/// A thread is reported as dangling if and only if the catalog holds that thread
/// and no file or folder record with its CNID.
pub proof fn law_dangling_threads_exact(
    volume: Seq<u8>,
    loc: crate::btree::CatalogLoc,
    records: Seq<Seq<u8>>,
    cnid: u32,
    parent: u32,
    name: Seq<char>,
)
    requires
        crate::btree::catalog_loc(volume) == Some(loc),
        records == crate::btree::leaf_records(volume, loc),
    ensures
        crate::audit::audit_findings(volume).contains(
            KindModel::DeletedButReferenced { cnid, parent, name },
        ) <==> crate::audit::records::recorded_threads(records).contains((cnid, parent, name))
            && !crate::audit::records::recorded_cnids(records).contains(cnid),
{
    let kind = KindModel::DeletedButReferenced { cnid, parent, name };
    law_findings_exact(volume, loc, records, kind);
    lemma_thread_findings(
        crate::audit::records::recorded_threads(records),
        crate::audit::records::recorded_cnids(records),
        kind,
    );
    if crate::audit::nodes::btree_findings(volume, loc, "catalog"@).contains(kind) {
        lemma_btree_kinds(volume, loc, "catalog"@, kind);
    }
    if crate::audit::extents_tree_findings(volume).contains(kind) {
        lemma_btree_kinds(volume, crate::btree::extents_loc(volume)->0, "extents"@, kind);
    }
}

/// Whether a record is a file or folder record for `cnid`.
pub open spec fn records_entry(rec: Seq<u8>, cnid: u32) -> bool {
    crate::audit::records::record_model(rec) matches Some(RecordModel::Entry { cnid: c, .. }) && c
        == cnid
}

/// A CNID counts as recorded if and only if some file or folder record has it.
pub proof fn law_recorded_exact(records: Seq<Seq<u8>>, cnid: u32)
    ensures
        crate::audit::records::recorded_cnids(records).contains(cnid) <==> exists|i: int|
            0 <= i < records.len() && #[trigger] records_entry(records[i], cnid),
    decreases records.len(),
{
    if records.len() > 0 {
        let rest = records.drop_first();
        law_recorded_exact(rest, cnid);
        if exists|i: int| 0 <= i < rest.len() && #[trigger] records_entry(rest[i], cnid) {
            let i = choose|i: int| 0 <= i < rest.len() && #[trigger] records_entry(rest[i], cnid);
            assert(records[i + 1] == rest[i]);
            assert(records_entry(records[i + 1], cnid));
        }
        if exists|i: int| 0 <= i < records.len() && #[trigger] records_entry(records[i], cnid) {
            let i = choose|i: int|
                0 <= i < records.len() && #[trigger] records_entry(records[i], cnid);
            if i > 0 {
                assert(rest[i - 1] == records[i]);
                assert(records_entry(rest[i - 1], cnid));
            }
        }
        let here = records_entry(records[0], cnid);
        assert(crate::audit::records::recorded_cnids(records).contains(cnid) <==> here
            || crate::audit::records::recorded_cnids(rest).contains(cnid));
        assert(here ==> exists|i: int|
            0 <= i < records.len() && #[trigger] records_entry(records[i], cnid));
    }
}

/// An entry that a directory lists is recorded, so its thread is never reported
/// as dangling.
pub proof fn law_listed_entries_recorded(
    records: Seq<Seq<u8>>,
    folder: u32,
    entry: EntryModel,
)
    requires
        crate::catalog::children(records, folder).contains(entry),
    ensures
        crate::audit::records::recorded_cnids(records).contains(entry.cnid),
{
    crate::laws::listing::law_listing_exact(records, folder, entry);
    let i = choose|i: int|
        0 <= i < records.len() && #[trigger] crate::catalog::record_entry_model(records[i]) == Some(
            (folder, entry),
        );
    law_recorded_exact(records, entry.cnid);
    assert(records_entry(records[i], entry.cnid));
}

// ---- Nodes and times ----

/// Whether a link of node `n` is in order: none, or to another node that the
/// volume holds.
pub open spec fn sound_link(
    volume: Seq<u8>,
    loc: crate::btree::CatalogLoc,
    n: u32,
    link: u32,
) -> bool {
    link == 0 || link != n && crate::btree::node_bytes(volume, loc, link) is Some
}

/// Whether the descriptor of node `n` is in order: a documented kind, a leaf at
/// height 1 and no other node there, a header kind on node 0 only, and sound
/// links.
pub open spec fn sound_descriptor(
    volume: Seq<u8>,
    loc: crate::btree::CatalogLoc,
    n: u32,
    node: Seq<u8>,
) -> bool {
    let kind = crate::audit::nodes::node_kind(node);
    &&& kind == NODE_LEAF || kind == NODE_INDEX || kind == NODE_HEADER || kind == NODE_MAP
    &&& kind == NODE_LEAF <==> crate::audit::nodes::node_height(node) == 1
    &&& kind == NODE_HEADER ==> n == 0
    &&& sound_link(volume, loc, n, crate::btree::forward_link(node))
    &&& sound_link(volume, loc, n, crate::audit::nodes::backward_link(node))
}

/// A node of the volume gives rise to no finding if and only if its descriptor
/// is sound.
pub proof fn law_sound_nodes_unreported(
    volume: Seq<u8>,
    loc: crate::btree::CatalogLoc,
    tree: Seq<char>,
    n: u32,
    node: Seq<u8>,
)
    requires
        crate::btree::node_bytes(volume, loc, n) == Some(node),
    ensures
        crate::audit::nodes::node_findings(volume, loc, tree, n).len() == 0 <==> sound_descriptor(
            volume,
            loc,
            n,
            node,
        ),
{
}

/// Whether file `j` of `files` has the impossible timestamp that `detail` tells.
pub open spec fn file_time_impossible(
    volume: Seq<u8>,
    files: Seq<FileModel>,
    cnid: u32,
    name: Seq<char>,
    detail: Seq<char>,
    j: int,
) -> bool {
    &&& 0 <= j < files.len()
    &&& files[j].cnid == cnid
    &&& files[j].name == name
    &&& crate::audit::times::time_detail(
        "file"@,
        files[j].create,
        files[j].content_mod,
        crate::volume::header32(volume, 20),
    ) == Some(detail)
}

/// Whether folder `j` of `folders` has the impossible timestamp that `detail`
/// tells.
pub open spec fn folder_time_impossible(
    volume: Seq<u8>,
    folders: Seq<FolderModel>,
    cnid: u32,
    name: Seq<char>,
    detail: Seq<char>,
    j: int,
) -> bool {
    &&& 0 <= j < folders.len()
    &&& folders[j].cnid == cnid
    &&& folders[j].name == name
    &&& crate::audit::times::time_detail(
        "folder"@,
        folders[j].create,
        folders[j].content_mod,
        crate::volume::header32(volume, 20),
    ) == Some(detail)
}

/// A file gives rise to a finding by its timestamps, its extents or its payload.
pub proof fn lemma_file_finding(
    volume: Seq<u8>,
    files: Seq<FileModel>,
    block_size: u64,
    kind: KindModel,
    j: int,
)
    requires
        0 <= j < files.len(),
    ensures
        found_on_file(volume, files, block_size, kind, j) <==> {
            ||| crate::audit::times::time_findings(
                files[j],
                crate::volume::header32(volume, 20),
            ).contains(kind)
            ||| crate::audit::extents::extents_findings(
                volume,
                files[j],
                block_size,
                crate::btree::extents_loc(volume),
            ).contains(kind)
            ||| crate::audit::payloads::payload_findings(
                files[j],
                crate::attributes::decmpfs_attribute(volume, files[j].cnid),
            ).contains(kind)
        },
{
    let times = crate::audit::times::time_findings(files[j], crate::volume::header32(volume, 20));
    let extents = crate::audit::extents::extents_findings(
        volume,
        files[j],
        block_size,
        crate::btree::extents_loc(volume),
    );
    let payloads = crate::audit::payloads::payload_findings(
        files[j],
        crate::attributes::decmpfs_attribute(volume, files[j].cnid),
    );
    lemma_contains_sum(times, extents, kind);
    lemma_contains_sum(times + extents, payloads, kind);
}

/// The block size that goes with a catalog.
pub open spec fn block_bytes(loc: crate::btree::CatalogLoc) -> u64 {
    loc.block_size as u64
}

/// A finding of another kind than those on nodes and threads is reported if and
/// only if a file or a folder gives rise to it.
pub proof fn lemma_entry_finding(
    volume: Seq<u8>,
    loc: crate::btree::CatalogLoc,
    records: Seq<Seq<u8>>,
    kind: KindModel,
)
    requires
        crate::btree::catalog_loc(volume) == Some(loc),
        records == crate::btree::leaf_records(volume, loc),
        kind !is BtreeNodeInvalid,
        kind !is DeletedButReferenced,
    ensures
        crate::audit::audit_findings(volume).contains(kind) <==> {
            ||| exists|j: int| #[trigger]
                found_on_file(
                    volume,
                    crate::audit::records::recorded_files(records),
                    loc.block_size as u64,
                    kind,
                    j,
                )
            ||| exists|j: int| #[trigger]
                found_on_folder(
                    volume,
                    crate::audit::records::recorded_folders(records),
                    kind,
                    j,
                )
        },
{
    law_findings_exact(volume, loc, records, kind);
    lemma_thread_findings(
        crate::audit::records::recorded_threads(records),
        crate::audit::records::recorded_cnids(records),
        kind,
    );
    if crate::audit::nodes::btree_findings(volume, loc, "catalog"@).contains(kind) {
        lemma_btree_kinds(volume, loc, "catalog"@, kind);
    }
    if crate::audit::extents_tree_findings(volume).contains(kind) {
        lemma_btree_kinds(volume, crate::btree::extents_loc(volume)->0, "extents"@, kind);
    }
}

/// An impossible timestamp is reported if and only if some file or folder has it.
pub proof fn law_impossible_times_exact(
    volume: Seq<u8>,
    loc: crate::btree::CatalogLoc,
    records: Seq<Seq<u8>>,
    cnid: u32,
    name: Seq<char>,
    detail: Seq<char>,
)
    requires
        crate::btree::catalog_loc(volume) == Some(loc),
        records == crate::btree::leaf_records(volume, loc),
    ensures
        crate::audit::audit_findings(volume).contains(
            KindModel::TimeAnomaly { cnid, name, detail },
        ) <==> {
            ||| exists|j: int| #[trigger]
                file_time_impossible(
                    volume,
                    crate::audit::records::recorded_files(records),
                    cnid,
                    name,
                    detail,
                    j,
                )
            ||| exists|j: int| #[trigger]
                folder_time_impossible(
                    volume,
                    crate::audit::records::recorded_folders(records),
                    cnid,
                    name,
                    detail,
                    j,
                )
        },
{
    let kind = KindModel::TimeAnomaly { cnid, name, detail };
    let files = crate::audit::records::recorded_files(records);
    let folders = crate::audit::records::recorded_folders(records);
    let block_size = loc.block_size as u64;
    let written = crate::volume::header32(volume, 20);
    lemma_entry_finding(volume, loc, records, kind);
    assert forall|j: int|
        #![trigger found_on_file(volume, files, block_size, kind, j)]
        #![trigger file_time_impossible(volume, files, cnid, name, detail, j)]
        found_on_file(volume, files, block_size, kind, j) <==> file_time_impossible(
            volume,
            files,
            cnid,
            name,
            detail,
            j,
        ) by {
        if 0 <= j < files.len() {
            lemma_file_finding(volume, files, block_size, kind, j);
            let found = crate::audit::times::time_findings(files[j], written);
            if file_time_impossible(volume, files, cnid, name, detail, j) {
                assert(found[0] == kind);
            }
        }
    }
    assert forall|j: int|
        #![trigger found_on_folder(volume, folders, kind, j)]
        #![trigger folder_time_impossible(volume, folders, cnid, name, detail, j)]
        found_on_folder(volume, folders, kind, j) <==> folder_time_impossible(
            volume,
            folders,
            cnid,
            name,
            detail,
            j,
        ) by {
        if folder_time_impossible(volume, folders, cnid, name, detail, j) {
            let found = crate::audit::times::folder_time_findings(folders[j], written);
            assert(found[0] == kind);
        }
    }
}

// ---- Blocks and payloads ----

/// The blocks needed are the least number that hold the bytes.
pub proof fn law_blocks_needed_least(logical: int, block_size: int)
    requires
        logical >= 0,
        block_size > 0,
    ensures
        crate::numbers::rounded_up(logical, block_size) * block_size >= logical,
        forall|n: int|
            0 <= n < crate::numbers::rounded_up(logical, block_size) ==> #[trigger] (n * block_size)
                < logical,
{
    let whole = logical / block_size;
    let blocks = crate::numbers::rounded_up(logical, block_size);
    vstd::arithmetic::div_mod::lemma_fundamental_div_mod(logical, block_size);
    assert(logical == block_size * whole + logical % block_size);
    assert(0 <= logical % block_size < block_size) by (nonlinear_arith)
        requires
            block_size > 0,
    ;
    assert(whole * block_size == block_size * whole) by (nonlinear_arith);
    assert((whole + 1) * block_size == whole * block_size + block_size) by (nonlinear_arith);
    assert forall|n: int| 0 <= n < blocks implies #[trigger] (n * block_size) < logical by {
        assert(n * block_size <= (blocks - 1) * block_size) by (nonlinear_arith)
            requires
                n <= blocks - 1,
                block_size > 0,
        ;
        if logical % block_size == 0 {
            assert((whole - 1) * block_size == whole * block_size - block_size)
                by (nonlinear_arith);
        }
    }
}

proof fn lemma_no_slots(fork: Seq<u8>, i: int)
    requires
        0 <= i <= EXTENT_SLOTS,
        crate::audit::records::slot_blocks(fork, i) == 0,
    ensures
        crate::forks::used_extents(fork, i) == Seq::<(u32, u32)>::empty(),
    decreases EXTENT_SLOTS - i,
{
    if i < EXTENT_SLOTS {
        lemma_slot_blocks_nonnegative(fork, i + 1);
        lemma_no_slots(fork, i + 1);
    }
}

proof fn lemma_slot_blocks_nonnegative(fork: Seq<u8>, i: int)
    ensures
        crate::audit::records::slot_blocks(fork, i) >= 0,
    decreases EXTENT_SLOTS - i,
{
    if i < EXTENT_SLOTS {
        lemma_slot_blocks_nonnegative(fork, i + 1);
    }
}

/// A file whose compressed payload is found wanting cannot be read. `rec` is the
/// record that the file is read by.
pub proof fn law_wanting_payload_unreadable(
    volume: Seq<u8>,
    loc: crate::btree::CatalogLoc,
    rec: Seq<u8>,
    cnid: u32,
    xattr: Seq<u8>,
)
    requires
        crate::btree::catalog_loc(volume) == Some(loc),
        rec.len() >= 8,
        crate::catalog::record_body(rec) + FILE_BODY_LEN <= rec.len(),
        crate::forks::file_forks_model(rec, cnid) is Some,
        crate::files::first_forks(crate::btree::leaf_records(volume, loc), cnid)
            == crate::forks::file_forks_model(rec, cnid),
        crate::attributes::decmpfs_attribute(volume, cnid) == Some(xattr),
        crate::audit::payloads::payload_detail(crate::audit::records::file_model(rec), xattr) is Some,
    ensures
        crate::files::file_content(volume, cnid) is None,
{
    let file = crate::audit::records::file_model(rec);
    let body = crate::catalog::record_body(rec);
    let forks = crate::forks::file_forks_model(rec, cnid)->0;
    let resource = rec.skip(body + crate::forks::RESOURCE_FORK_FIELD);
    assert(forks.1.logical == file.resource_logical);
    if file.resource_logical > 0 && file.resource_blocks == 0 {
        lemma_slot_blocks_nonnegative(resource, 0);
        lemma_no_slots(resource, 0);
        assert(forks.1.extents =~= Seq::<(u32, u32)>::empty());
        assert(crate::files::resource_content(volume, loc.block_size, forks.1) == Some(
            Seq::<u8>::empty(),
        ));
    }
}

/// Whether at most one of `records` is a file record for `cnid`.
pub open spec fn one_file_record(records: Seq<Seq<u8>>, cnid: u32) -> bool {
    forall|i: int, j: int|
        0 <= i < records.len() && 0 <= j < records.len() && #[trigger]
        crate::forks::file_forks_model(records[i], cnid) is Some && #[trigger]
        crate::forks::file_forks_model(records[j], cnid) is Some ==> i == j
}

proof fn lemma_first_forks(records: Seq<Seq<u8>>, cnid: u32, i: int)
    requires
        one_file_record(records, cnid),
        0 <= i < records.len(),
        crate::forks::file_forks_model(records[i], cnid) is Some,
    ensures
        crate::files::first_forks(records, cnid) == crate::forks::file_forks_model(
            records[i],
            cnid,
        ),
    decreases records.len(),
{
    if i > 0 {
        let rest = records.drop_first();
        assert(rest[i - 1] == records[i]);
        assert(crate::forks::file_forks_model(records[0], cnid) is None);
        assert forall|a: int, b: int|
            0 <= a < rest.len() && 0 <= b < rest.len() && #[trigger] crate::forks::file_forks_model(
                rest[a],
                cnid,
            ) is Some && #[trigger] crate::forks::file_forks_model(rest[b], cnid)
                is Some implies a == b by {
            assert(rest[a] == records[a + 1]);
            assert(rest[b] == records[b + 1]);
        }
        lemma_first_forks(rest, cnid, i - 1);
    }
}

/// Whether `file` is what record `i` of `records`, a whole file record, describes.
spec fn describes_file(records: Seq<Seq<u8>>, file: FileModel, i: int) -> bool {
    &&& 0 <= i < records.len()
    &&& crate::audit::records::record_model(records[i]) matches Some(
        RecordModel::Entry { file: Some(found), .. },
    ) && found == file
}

proof fn lemma_recorded_file(records: Seq<Seq<u8>>, j: int) -> (i: int)
    requires
        0 <= j < crate::audit::records::recorded_files(records).len(),
    ensures
        describes_file(records, crate::audit::records::recorded_files(records)[j], i),
    decreases records.len(),
{
    let rest = records.drop_first();
    let files = crate::audit::records::recorded_files(records);
    let tail = crate::audit::records::recorded_files(rest);
    if describes_file(records, files[0], 0) && files.len() == tail.len() + 1 {
        if j == 0 {
            0
        } else {
            assert(files[j] == tail[j - 1]);
            let k = lemma_recorded_file(rest, j - 1);
            assert(rest[k] == records[k + 1]);
            k + 1
        }
    } else {
        assert(files =~= tail);
        let k = lemma_recorded_file(rest, j);
        assert(rest[k] == records[k + 1]);
        k + 1
    }
}

/// A file that the audit reports as missing its payload cannot be read, and so a
/// file that can be read is never reported. The catalog is to hold one file
/// record for it: of several, only the first is read by.
pub proof fn law_reported_payload_unreadable(
    volume: Seq<u8>,
    loc: crate::btree::CatalogLoc,
    records: Seq<Seq<u8>>,
    cnid: u32,
    name: Seq<char>,
    compression_type: u32,
    detail: Seq<char>,
)
    requires
        crate::btree::catalog_loc(volume) == Some(loc),
        records == crate::btree::leaf_records(volume, loc),
        one_file_record(records, cnid),
        crate::audit::audit_findings(volume).contains(
            KindModel::DecmpfsMissingResource { cnid, name, compression_type, detail },
        ),
    ensures
        crate::files::file_content(volume, cnid) is None,
{
    let kind = KindModel::DecmpfsMissingResource { cnid, name, compression_type, detail };
    let files = crate::audit::records::recorded_files(records);
    let block_size = block_bytes(loc);
    lemma_entry_finding(volume, loc, records, kind);
    let j = choose|j: int| #[trigger] found_on_file(volume, files, block_size, kind, j);
    lemma_file_finding(volume, files, block_size, kind, j);
    let i = lemma_recorded_file(records, j);
    let rec = records[i];
    assert(files[j].cnid == cnid);
    lemma_first_forks(records, cnid, i);
    let xattr = crate::attributes::decmpfs_attribute(volume, cnid)->0;
    law_wanting_payload_unreadable(volume, loc, rec, cnid, xattr);
}

} // verus!
