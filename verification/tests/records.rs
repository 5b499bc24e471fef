//! Catalog records, extents and findings, one at a time.

use hfsplus_forensic::audit::extents::{audit_extents, needed_blocks, overflow_blocks};
use hfsplus_forensic::audit::nodes::check_node;
use hfsplus_forensic::audit::records::{
    classify_record, fork_all_slots_used, fork_inline_blocks, parse_catalog_folder, CatalogFile,
    CatalogFolder, CatalogRecord,
};
use hfsplus_forensic::audit::times::{check_time, HFS_EPOCH_TO_UNIX};
use hfsplus_forensic::btree::{locate_btree, CatalogLoc, RecordWalk};
use hfsplus_forensic::findings::{audit, Anomaly, AnomalyKind, Severity};
use hfsplus_forensic::forks::{fork_bytes, parse_fork, Fork};
use hfsplus_forensic::numbers::cap;
use hfsplus_forensic::text::decode_utf16;

fn all_kinds() -> Vec<AnomalyKind> {
    vec![
        AnomalyKind::BtreeNodeInvalid {
            tree: "catalog".into(),
            node: 7,
            detail: "undocumented node kind 66".into(),
        },
        AnomalyKind::CatalogExtentsMismatch {
            cnid: 18,
            name: "A.TXT".into(),
            logical: 9000,
            allocated_blocks: 1,
            needed_blocks: 3,
        },
        AnomalyKind::DeletedButReferenced {
            cnid: 42,
            parent: 2,
            name: "GONE".into(),
        },
        AnomalyKind::TimeAnomaly {
            cnid: 18,
            name: "A.TXT".into(),
            detail: "creation later than modification".into(),
        },
        AnomalyKind::DecmpfsMissingResource {
            cnid: 20,
            name: "comp.bin".into(),
            compression_type: 8,
            detail: "resource fork is empty".into(),
        },
    ]
}

// ---- Findings ----

#[test]
fn every_kind_has_a_stable_code_and_grade() {
    let mut codes = std::collections::HashSet::new();
    for kind in all_kinds() {
        let a = Anomaly::new(kind.clone());
        assert_eq!(a.code, kind.code());
        assert_eq!(a.severity, kind.severity());
        assert_eq!(a.note, kind.note());
        assert!(a.code.starts_with("HFS-"), "code not HFS-prefixed: {}", a.code);
        assert!(codes.insert(a.code), "duplicate code {}", a.code);
    }
}

#[test]
fn notes_are_observations_not_verdicts() {
    for kind in all_kinds() {
        let note = kind.note().to_lowercase();
        assert!(note.contains("consistent with"), "note lacks hedge: {note}");
        for verdict in ["proves", "confirms", "guilty", "malicious actor"] {
            assert!(!note.contains(verdict), "verdict word `{verdict}` in: {note}");
        }
    }
}

#[test]
fn notes_give_the_evidence() {
    let notes: Vec<String> = all_kinds().iter().map(AnomalyKind::note).collect();
    assert_eq!(
        notes[0],
        "catalog B-tree node 7: undocumented node kind 66 — the reader walks the leaf chain by \
         these node links/descriptors, so an inconsistent descriptor is consistent with \
         structural corruption or an edit that rewired the tree to hide or strand records"
    );
    assert_eq!(
        notes[1],
        "file `A.TXT` (CNID 18) declares a 9000-byte data fork needing 3 allocation block(s) but \
         its catalog + extents-overflow extents cover only 1 — the catalog and extents B-tree \
         are HFS+'s two records of a file's allocation and must agree; a divergence is \
         consistent with a truncated/edited extent list or a forged size"
    );
    assert_eq!(
        notes[2],
        "CNID 42 (`GONE`, parent 2) has a thread record but no file/folder catalog record — the \
         thread is a dangling reference, consistent with the record having been deleted while \
         its thread leaked, leaving a recoverable name/parent for vanished content"
    );
    assert_eq!(
        notes[3],
        "entry `A.TXT` (CNID 18): creation later than modification — consistent with a \
         backdated/forged timestamp or with timestamp corruption"
    );
    assert_eq!(
        notes[4],
        "file `comp.bin` (CNID 20) carries a com.apple.decmpfs attribute (compression_type 8) but \
         resource fork is empty — `read_file` cannot materialize it; consistent with the \
         compressed payload having been removed (data destruction) or partial corruption"
    );
}

#[test]
fn display_renders_severity_code_note() {
    let a = Anomaly::new(AnomalyKind::DeletedButReferenced {
        cnid: 42,
        parent: 2,
        name: "GONE".into(),
    });
    let s = a.to_string();
    assert!(
        s.contains("HFS-DELETED-BUT-REFERENCED:") && s.starts_with('['),
        "{s}"
    );
    assert!(s.starts_with("[MEDIUM] HFS-DELETED-BUT-REFERENCED: CNID 42 "), "{s}");
}

#[test]
fn observation_to_finding_carries_code_and_grade() {
    let a = Anomaly::new(AnomalyKind::BtreeNodeInvalid {
        tree: "extents".into(),
        node: 3,
        detail: "bad".into(),
    });
    assert_eq!(a.severity, Severity::High);
    assert_eq!(a.code, "HFS-BTREE-NODE-INVALID");
    assert_eq!(a.note, a.kind.note());
}

#[test]
fn severities_have_names() {
    let names: Vec<&str> = [
        Severity::Info,
        Severity::Low,
        Severity::Medium,
        Severity::High,
        Severity::Critical,
    ]
    .iter()
    .map(Severity::name)
    .collect();
    assert_eq!(names, ["INFO", "LOW", "MEDIUM", "HIGH", "CRITICAL"]);
}

#[test]
fn audit_of_non_hfs_buffer_is_empty() {
    assert!(audit(&[0u8; 64]).is_empty());
    assert!(audit(&[]).is_empty());
}

// ---- Records ----

#[test]
fn classify_rejects_malformed_records() {
    assert!(classify_record(&[0u8; 4]).is_none());
    let mut rec = vec![0u8; 8];
    rec[6] = 0xFF;
    rec[7] = 0xFF;
    assert!(classify_record(&rec).is_none());
}

#[test]
fn fork_helpers_reject_short_forks() {
    assert_eq!(fork_inline_blocks(&[0u8; 10]), 0);
    assert!(!fork_all_slots_used(&[0u8; 10]));
}

#[test]
fn fork_helpers_add_up_and_saturate() {
    let mut fork = vec![0u8; 80];
    for i in 0..8usize {
        fork[20 + 8 * i + 3] = 1;
    }
    assert_eq!(fork_inline_blocks(&fork), 8);
    assert!(fork_all_slots_used(&fork));
    fork[20..24].copy_from_slice(&u32::MAX.to_be_bytes());
    assert_eq!(fork_inline_blocks(&fork), u32::MAX);
    fork[20 + 8 * 5 + 3] = 0;
    assert!(!fork_all_slots_used(&fork));
}

#[test]
fn needed_blocks_rounds_up() {
    assert_eq!(needed_blocks(0, 4096), 0);
    assert_eq!(needed_blocks(1, 4096), 1);
    assert_eq!(needed_blocks(4096, 4096), 1);
    assert_eq!(needed_blocks(4097, 4096), 2);
}

#[test]
fn needed_blocks_saturates() {
    assert_eq!(needed_blocks(u64::MAX, 1), u32::MAX);
    assert_eq!(needed_blocks(u64::from(u32::MAX), 1), u32::MAX);
    assert_eq!(needed_blocks(u64::from(u32::MAX) - 1, 1), u32::MAX - 1);
    assert_eq!(needed_blocks(u64::from(u32::MAX) * 2 - 1, 2), u32::MAX);
    assert_eq!(cap(u64::from(u32::MAX) + 1), u32::MAX);
    assert_eq!(cap(5), 5);
}

#[test]
fn classify_folder_and_thread_records() {
    let mut rec = vec![0u8; 32];
    rec[0..2].copy_from_slice(&6u16.to_be_bytes());
    rec[6..8].copy_from_slice(&0u16.to_be_bytes());
    let data = 2 + 6;
    rec[data..data + 2].copy_from_slice(&1i16.to_be_bytes());
    rec[data + 8..data + 12].copy_from_slice(&17u32.to_be_bytes());
    match classify_record(&rec) {
        Some(CatalogRecord::Entry { cnid, file }) => {
            assert_eq!(cnid, 17);
            assert!(file.is_none());
        }
        other => panic!("expected folder Entry, got {other:?}"),
    }

    let mut t = vec![0u8; 40];
    t[0..2].copy_from_slice(&6u16.to_be_bytes());
    t[2..6].copy_from_slice(&99u32.to_be_bytes());
    t[6..8].copy_from_slice(&0u16.to_be_bytes());
    let d = 2 + 6;
    t[d..d + 2].copy_from_slice(&3i16.to_be_bytes());
    t[d + 4..d + 8].copy_from_slice(&2u32.to_be_bytes());
    t[d + 8..d + 10].copy_from_slice(&1u16.to_be_bytes());
    t[d + 10..d + 12].copy_from_slice(&u16::from(b'A').to_be_bytes());
    match classify_record(&t) {
        Some(CatalogRecord::Thread { cnid, parent, name }) => {
            assert_eq!(cnid, 99);
            assert_eq!(parent, 2);
            assert_eq!(name, "A");
        }
        other => panic!("expected Thread, got {other:?}"),
    }
}

#[test]
fn classify_unknown_record_type_is_none() {
    let mut rec = vec![0u8; 16];
    rec[0..2].copy_from_slice(&6u16.to_be_bytes());
    let data = 2 + 6;
    rec[data..data + 2].copy_from_slice(&99i16.to_be_bytes());
    assert!(classify_record(&rec).is_none());
}

#[test]
fn classify_truncated_folder_yields_none() {
    let mut rec = vec![0u8; 10];
    rec[0..2].copy_from_slice(&6u16.to_be_bytes());
    let data = 2 + 6;
    rec[data..data + 2].copy_from_slice(&1i16.to_be_bytes());
    assert!(classify_record(&rec).is_none());
}

#[test]
fn classify_short_file_record_still_yields_cnid() {
    let mut rec = vec![0u8; 24];
    rec[0..2].copy_from_slice(&6u16.to_be_bytes());
    let data = 2 + 6;
    rec[data..data + 2].copy_from_slice(&2i16.to_be_bytes());
    rec[data + 8..data + 12].copy_from_slice(&18u32.to_be_bytes());
    match classify_record(&rec) {
        Some(CatalogRecord::Entry { cnid, file }) => {
            assert_eq!(cnid, 18);
            assert!(file.is_none());
        }
        other => panic!("expected short-file Entry, got {other:?}"),
    }
}

#[test]
fn classify_record_with_bad_key_len_is_none() {
    let mut rec = vec![0u8; 9];
    rec[0..2].copy_from_slice(&100u16.to_be_bytes());
    assert!(classify_record(&rec).is_none());
}

#[test]
fn classify_record_name_runs_off_end_is_none() {
    let mut rec = vec![0u8; 12];
    rec[0..2].copy_from_slice(&4u16.to_be_bytes());
    rec[6..8].copy_from_slice(&50u16.to_be_bytes());
    assert!(classify_record(&rec).is_none());
}

#[test]
fn classify_file_record_too_short_for_cnid_is_none() {
    let mut rec = vec![0u8; 12];
    rec[0..2].copy_from_slice(&2u16.to_be_bytes());
    let data = 2 + 2;
    rec[data..data + 2].copy_from_slice(&2i16.to_be_bytes());
    assert!(classify_record(&rec).is_none());
}

#[test]
fn classify_truncated_thread_is_none() {
    let mut rec = vec![0u8; 11];
    rec[0..2].copy_from_slice(&2u16.to_be_bytes());
    let data = 2 + 2;
    rec[data..data + 2].copy_from_slice(&3i16.to_be_bytes());
    assert!(classify_record(&rec).is_none());
}

#[test]
fn classify_thread_with_name_overrun_uses_empty_name() {
    let mut rec = vec![0u8; 20];
    rec[0..2].copy_from_slice(&6u16.to_be_bytes());
    rec[2..6].copy_from_slice(&77u32.to_be_bytes());
    let d = 2 + 6;
    rec[d..d + 2].copy_from_slice(&4i16.to_be_bytes());
    rec[d + 4..d + 8].copy_from_slice(&2u32.to_be_bytes());
    rec[d + 8..d + 10].copy_from_slice(&100u16.to_be_bytes());
    match classify_record(&rec) {
        Some(CatalogRecord::Thread { cnid, parent, name }) => {
            assert_eq!(cnid, 77);
            assert_eq!(parent, 2);
            assert!(name.is_empty());
        }
        other => panic!("expected Thread, got {other:?}"),
    }
}

#[test]
fn folder_records_give_their_times() {
    // A key without a name, then a body that ends with the two timestamps.
    let mut rec = vec![0u8; 8 + 24];
    rec[1] = 6;
    rec[9] = 1;
    rec[16..20].copy_from_slice(&17u32.to_be_bytes());
    rec[24..28].copy_from_slice(&300u32.to_be_bytes());
    rec[28..32].copy_from_slice(&400u32.to_be_bytes());
    assert_eq!(
        parse_catalog_folder(&rec),
        Some(CatalogFolder {
            cnid: 17,
            name: String::new(),
            create: 300,
            content_mod: 400,
        })
    );
    assert_eq!(parse_catalog_folder(&rec[..31]), None);
    assert_eq!(parse_catalog_folder(&rec[..7]), None);
    rec[9] = 2;
    assert_eq!(parse_catalog_folder(&rec), None);
    rec[9] = 1;
    rec[7] = 100;
    assert_eq!(parse_catalog_folder(&rec), None);
}

// ---- Nodes ----

/// Node 1 of two nodes of 16 bytes, with the given links, kind and height.
fn node_findings(f_link: u8, b_link: u8, kind: u8, height: u8) -> Vec<String> {
    let loc = CatalogLoc {
        cat_base: 0,
        node_size: 16,
        first_leaf: 1,
        block_size: 512,
    };
    let mut volume = [0u8; 32];
    volume[19] = f_link;
    volume[23] = b_link;
    volume[24] = kind;
    volume[25] = height;
    let mut out = Vec::new();
    check_node(&volume, &loc, 1, "catalog", &mut out);
    out.into_iter()
        .map(|a| {
            assert_eq!(a.code, "HFS-BTREE-NODE-INVALID");
            match a.kind {
                AnomalyKind::BtreeNodeInvalid { tree, node, detail } => {
                    assert_eq!((tree.as_str(), node), ("catalog", 1));
                    detail
                }
                other => panic!("unexpected {other:?}"),
            }
        })
        .collect()
}

#[test]
fn leaves_sit_at_height_one_and_no_other_node_does() {
    assert!(node_findings(0, 0, 0xFF, 1).is_empty());
    assert_eq!(
        node_findings(0, 0, 0xFF, 2),
        ["leaf node at height 2 (a leaf must sit at height 1)"]
    );
    assert_eq!(
        node_findings(0, 0, 0xFF, 0),
        ["leaf node at height 0 (a leaf must sit at height >= 1)"]
    );
    assert!(node_findings(0, 0, 0, 2).is_empty());
    assert!(node_findings(0, 0, 2, 0).is_empty());
    assert_eq!(
        node_findings(0, 0, 0, 1),
        ["node of kind 0 at height 1 (only a leaf sits at height 1)"]
    );
    assert_eq!(
        node_findings(0, 0, 2, 1),
        ["node of kind 2 at height 1 (only a leaf sits at height 1)"]
    );
}

#[test]
fn links_outside_the_tree_are_flagged() {
    assert_eq!(
        node_findings(7, 0, 0xFF, 1),
        ["node links point outside the tree (fLink 7, bLink 0) — a neighbour must be a node of \
          the tree"]
    );
    assert_eq!(
        node_findings(0, 2, 0xFF, 1),
        ["node links point outside the tree (fLink 0, bLink 2) — a neighbour must be a node of \
          the tree"]
    );
    assert_eq!(
        node_findings(1, 9, 0xFF, 1),
        [
            "node links point at itself (fLink 1, bLink 9) — a node cannot be its own neighbour",
            "node links point outside the tree (fLink 1, bLink 9) — a neighbour must be a node \
             of the tree",
        ]
    );
}

#[test]
fn trees_are_located_wherever_the_fork_stands() {
    // The fork data may stand before the block size, if both are there.
    let mut volume = vec![0u8; 1068];
    assert_eq!(locate_btree(&volume[..1043], 0), None);
    assert_eq!(locate_btree(&volume[..1044], 0), None);
    volume[1024..1026].copy_from_slice(b"H+");
    volume[1024 + 12 + 3] = 1;
    volume[1024 + 43] = 1;
    assert_eq!(locate_btree(&volume[..1043], 0), None);
    volume[32..34].copy_from_slice(&512u16.to_be_bytes());
    volume[27] = 3;
    assert_eq!(
        locate_btree(&volume, 0),
        Some(CatalogLoc {
            cat_base: 0,
            node_size: 512,
            first_leaf: 3,
            block_size: 1,
        })
    );
}

#[test]
fn records_are_the_ends_of_nodes() {
    let (vol, loc) = overflow_tree(5);
    let mut records = RecordWalk::new(&vol, &loc);
    assert_eq!(records.next_record(), Some(&vol[512 + 14..1024]));
    assert_eq!(records.next_record(), None);
    // As many offsets as there is room for, all of them 0 but the first.
    let mut vol = vol;
    vol[522..524].copy_from_slice(&[0xFF, 0xFF]);
    let mut records = RecordWalk::new(&vol, &loc);
    let mut count = 0;
    while let Some(record) = records.next_record() {
        assert!(vol[512..1024].ends_with(record));
        assert!(record.len() >= 8);
        count += 1;
    }
    assert!(count <= 256, "{count}");
    assert!(count > 200, "{count}");
}

// ---- Extents ----

fn big_file() -> CatalogFile {
    CatalogFile {
        cnid: 18,
        name: "BIG.BIN".into(),
        logical: 10 * 4096,
        inline_blocks: 8,
        extents_full: true,
        create: HFS_EPOCH_TO_UNIX,
        content_mod: HFS_EPOCH_TO_UNIX,
        has_resource_fork: false,
        resource_logical: 0,
        resource_blocks: 0,
    }
}

/// One extents-overflow leaf (node 1) with a record for CNID 18, whose first
/// extent holds `blocks` blocks.
fn overflow_tree(blocks: u32) -> (Vec<u8>, CatalogLoc) {
    let node_size = 512usize;
    let mut vol = vec![0u8; node_size * 2];
    let no = node_size;
    vol[no + 8] = 0xFF;
    vol[no + 9] = 1;
    vol[no + 10..no + 12].copy_from_slice(&1u16.to_be_bytes());
    let rec = 14usize;
    let r = no + rec;
    vol[r..r + 2].copy_from_slice(&10u16.to_be_bytes());
    vol[r + 2] = 0;
    vol[r + 4..r + 8].copy_from_slice(&18u32.to_be_bytes());
    let data = rec + 2 + 10;
    vol[no + data + 4..no + data + 8].copy_from_slice(&blocks.to_be_bytes());
    let slot = node_size - 2;
    vol[no + slot..no + slot + 2].copy_from_slice(&(rec as u16).to_be_bytes());
    let loc = CatalogLoc {
        cat_base: 0,
        node_size,
        first_leaf: 1,
        block_size: 4096,
    };
    (vol, loc)
}

#[test]
fn audit_extents_consults_overflow_when_slots_full() {
    let f = big_file();
    let (vol, loc) = overflow_tree(2);

    let mut out = Vec::new();
    audit_extents(&vol, &f, 4096, Some(&loc), &mut out);
    assert!(out.is_empty(), "overflow should satisfy the size, got {out:?}");

    let mut out2 = Vec::new();
    audit_extents(&vol, &f, 4096, None, &mut out2);
    assert_eq!(out2.len(), 1);
    assert_eq!(out2[0].code, "HFS-CATALOG-EXTENTS-MISMATCH");
}

#[test]
fn audit_extents_ignores_overflow_when_a_slot_is_free() {
    let mut f = big_file();
    f.extents_full = false;
    let (vol, loc) = overflow_tree(2);
    let mut out = Vec::new();
    audit_extents(&vol, &f, 4096, Some(&loc), &mut out);
    assert_eq!(out.len(), 1);
    assert_eq!(
        out[0].kind,
        AnomalyKind::CatalogExtentsMismatch {
            cnid: 18,
            name: "BIG.BIN".into(),
            logical: 40960,
            allocated_blocks: 8,
            needed_blocks: 10,
        }
    );
}

#[test]
fn overflow_blocks_sums_extent_record() {
    let (vol, loc) = overflow_tree(5);
    assert_eq!(overflow_blocks(&vol, &loc, 18, 0), 5);
    assert_eq!(overflow_blocks(&vol, &loc, 18, 0xFF), 0);
    assert_eq!(overflow_blocks(&vol, &loc, 999, 0), 0);
}

#[test]
fn overflow_blocks_of_a_looping_chain_end() {
    // The leaf links to itself: the chain is walked over 65536 nodes, no more.
    let (mut vol, loc) = overflow_tree(1);
    vol[512..516].copy_from_slice(&1u32.to_be_bytes());
    assert_eq!(overflow_blocks(&vol, &loc, 18, 0), 65536);
}

#[test]
fn fork_bytes_joins_cuts_and_refuses() {
    let volume: Vec<u8> = (0..64u8).collect();
    let fork = Fork {
        logical: 10,
        extents: vec![(4, 1), (1, 2)],
    };
    assert_eq!(
        fork_bytes(&volume, 8, &fork),
        Some(vec![32, 33, 34, 35, 36, 37, 38, 39, 8, 9])
    );
    // An extent that begins behind the volume ends the fork, one that ends
    // behind it is cut off.
    let fork = Fork {
        logical: 100,
        extents: vec![(7, 5), (8, 1), (0, 1)],
    };
    assert_eq!(
        fork_bytes(&volume, 8, &fork),
        Some((56..64u8).collect::<Vec<u8>>())
    );
    // No address for the end of the extent.
    let fork = Fork {
        logical: 100,
        extents: vec![(u32::MAX, u32::MAX)],
    };
    assert_eq!(fork_bytes(&volume, usize::MAX / 4, &fork), None);
    // Nothing is read behind the logical size.
    let fork = Fork {
        logical: 3,
        extents: vec![(0, 1), (u32::MAX, u32::MAX)],
    };
    assert_eq!(fork_bytes(&volume, 8, &fork), Some(vec![0, 1, 2]));
}

#[test]
fn parse_fork_keeps_used_extents() {
    let mut fork = vec![0u8; 80];
    fork[0..8].copy_from_slice(&0x0102_0304_0506_0708u64.to_be_bytes());
    fork[16..20].copy_from_slice(&9u32.to_be_bytes());
    fork[20..24].copy_from_slice(&2u32.to_be_bytes());
    fork[24..28].copy_from_slice(&11u32.to_be_bytes());
    fork[72..76].copy_from_slice(&13u32.to_be_bytes());
    fork[76..80].copy_from_slice(&1u32.to_be_bytes());
    let parsed = parse_fork(&fork).unwrap();
    assert_eq!(parsed.logical, 0x0102_0304_0506_0708);
    assert_eq!(parsed.extents, vec![(9, 2), (13, 1)]);
    assert_eq!(parse_fork(&fork[..79]), None);
}

// ---- Times and names ----

#[test]
fn times_are_checked_in_order() {
    let epoch = HFS_EPOCH_TO_UNIX;
    assert_eq!(check_time("file", epoch, epoch, 0), None);
    assert_eq!(check_time("file", 0, 0, 0), None);
    assert_eq!(
        check_time("file", epoch + 2, epoch + 1, 0),
        Some(format!(
            "creation time {} is later than content-modification time {} (a file cannot be \
             modified before it is created)",
            epoch + 2,
            epoch + 1
        ))
    );
    assert_eq!(
        check_time("file", 5, epoch, 0),
        Some(
            "creation time 5 predates the HFS+ epoch boundary (before 1904 — impossible)"
                .to_string()
        )
    );
    assert_eq!(
        check_time("file", 0, 7, 0),
        Some(
            "content-modification time 7 predates the HFS+ epoch boundary (before 1904 — \
             impossible)"
                .to_string()
        )
    );
    assert_eq!(
        check_time("file", epoch + 9, 0, epoch + 8),
        Some(format!(
            "creation time {} is after the volume's last-written date {} (nothing inside a \
             volume can postdate the volume header)",
            epoch + 9,
            epoch + 8
        ))
    );
    assert_eq!(
        check_time("file", epoch, epoch + 9, epoch + 8),
        Some(format!(
            "content-modification time {} is after the volume's last-written date {} (nothing \
             inside a volume can postdate the volume header)",
            epoch + 9,
            epoch + 8
        ))
    );
}

#[test]
fn folder_times_are_worded_for_folders() {
    let epoch = HFS_EPOCH_TO_UNIX;
    assert_eq!(
        check_time("folder", epoch + 2, epoch + 1, 0),
        Some(format!(
            "creation time {} is later than content-modification time {} (a folder cannot be \
             modified before it is created)",
            epoch + 2,
            epoch + 1
        ))
    );
}

#[test]
fn names_decode_from_utf16() {
    assert_eq!(decode_utf16(&[0, b'A', 0x00, 0xE9]), "A\u{e9}");
    // A surrogate pair, then a lone surrogate of either sort.
    assert_eq!(
        decode_utf16(&[0xD8, 0x3D, 0xDE, 0x00, 0xDC, 0x00, 0xD8, 0x00]),
        "\u{1F600}\u{FFFD}\u{FFFD}"
    );
    // A high surrogate before a plain character, and a trailing odd byte.
    assert_eq!(decode_utf16(&[0xD8, 0x00, 0x00, b'B', 0x41]), "\u{FFFD}B");
    assert_eq!(decode_utf16(&[]), "");
}
