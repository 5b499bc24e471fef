//! Whole volumes: listing, reading, metadata, streams and the audit.
//!
//! Each volume is laid out here, block by block: the volume header, the catalog,
//! the extents-overflow and the attributes B-tree, then the bytes of the forks. No
//! disk image is read: where a test has `real` in its name, its volume has the
//! layout and the contents that a formatted disk would have.

use hfsplus_forensic::attributes::list_attributes;
use hfsplus_forensic::findings::{audit, AnomalyKind, Severity};
use hfsplus_forensic::forks::file_forks;
use hfsplus_forensic::vfs::{
    hfs_time, FsError, HfsFs, NodeId, NodeMeta, Residency, SectorSizes, StreamRef,
};
use hfsplus_forensic::{list_dir, list_root, parse, read_file, stat, walk, HfsKind, HfsStat};

const BLOCK: usize = 4096;
const HEADER: usize = 1024;
const CATALOG_FORK: usize = 272;
const EXTENTS_FORK: usize = 192;
const ATTRIBUTES_FORK: usize = 352;
const WRITTEN: u32 = 3_800_000_000;

// ---- Building volumes ----

fn utf16(name: &str) -> Vec<u8> {
    name.encode_utf16().flat_map(u16::to_be_bytes).collect()
}

fn catalog_key(parent: u32, name: &str) -> Vec<u8> {
    let units = utf16(name);
    let mut key = Vec::new();
    key.extend_from_slice(&((6 + units.len()) as u16).to_be_bytes());
    key.extend_from_slice(&parent.to_be_bytes());
    key.extend_from_slice(&((units.len() / 2) as u16).to_be_bytes());
    key.extend_from_slice(&units);
    key
}

fn set32(bytes: &mut [u8], at: usize, value: u32) {
    bytes[at..at + 4].copy_from_slice(&value.to_be_bytes());
}

fn set_times(body: &mut [u8]) {
    for (field, time) in [(12, 0), (16, 10), (20, 20), (24, 30)] {
        set32(body, field, WRITTEN - 1000 + time);
    }
}

fn folder(parent: u32, name: &str, cnid: u32) -> Vec<u8> {
    let mut body = vec![0u8; 88];
    body[1] = 1;
    set32(&mut body, 8, cnid);
    set_times(&mut body);
    let mut rec = catalog_key(parent, name);
    rec.extend_from_slice(&body);
    rec
}

fn thread(cnid: u32, parent: u32, name: &str, kind: u8) -> Vec<u8> {
    let units = utf16(name);
    let mut rec = catalog_key(cnid, "");
    rec.extend_from_slice(&[0, kind, 0, 0]);
    rec.extend_from_slice(&parent.to_be_bytes());
    rec.extend_from_slice(&((units.len() / 2) as u16).to_be_bytes());
    rec.extend_from_slice(&units);
    rec
}

/// An `HFSPlusForkData` with the given extents.
fn fork_data(logical: u64, extents: &[(u32, u32)]) -> Vec<u8> {
    let mut fork = vec![0u8; 80];
    fork[0..8].copy_from_slice(&logical.to_be_bytes());
    let total: u32 = extents.iter().map(|e| e.1).sum();
    set32(&mut fork, 12, total);
    for (i, (start, count)) in extents.iter().enumerate() {
        set32(&mut fork, 16 + 8 * i, *start);
        set32(&mut fork, 20 + 8 * i, *count);
    }
    fork
}

fn file(parent: u32, name: &str, cnid: u32, data: &[u8], resource: &[u8]) -> Vec<u8> {
    let mut body = vec![0u8; 88];
    body[1] = 2;
    set32(&mut body, 8, cnid);
    set_times(&mut body);
    body.extend_from_slice(data);
    body.extend_from_slice(resource);
    let mut rec = catalog_key(parent, name);
    rec.extend_from_slice(&body);
    rec
}

fn attribute_key(cnid: u32, name: &str) -> Vec<u8> {
    let units = utf16(name);
    let mut key = Vec::new();
    key.extend_from_slice(&((12 + units.len()) as u16).to_be_bytes());
    key.extend_from_slice(&[0, 0]);
    key.extend_from_slice(&cnid.to_be_bytes());
    key.extend_from_slice(&[0; 4]);
    key.extend_from_slice(&((units.len() / 2) as u16).to_be_bytes());
    key.extend_from_slice(&units);
    key
}

fn inline_attribute(cnid: u32, name: &str, value: &[u8]) -> Vec<u8> {
    let mut rec = attribute_key(cnid, name);
    rec.extend_from_slice(&0x10u32.to_be_bytes());
    rec.extend_from_slice(&[0; 8]);
    rec.extend_from_slice(&(value.len() as u32).to_be_bytes());
    rec.extend_from_slice(value);
    rec
}

fn fork_attribute(cnid: u32, name: &str, fork: &[u8]) -> Vec<u8> {
    let mut rec = attribute_key(cnid, name);
    rec.extend_from_slice(&0x20u32.to_be_bytes());
    rec.extend_from_slice(&[0; 4]);
    rec.extend_from_slice(fork);
    rec
}

/// A B-tree of a header node and one leaf node for each list of records.
fn btree(leaves: &[Vec<Vec<u8>>]) -> Vec<u8> {
    let mut out = vec![0u8; BLOCK * (leaves.len() + 1)];
    out[8] = 1;
    out[11] = 3;
    set32(&mut out, 14 + 10, u32::from(!leaves.is_empty()));
    out[14 + 18..14 + 20].copy_from_slice(&(BLOCK as u16).to_be_bytes());
    for (i, records) in leaves.iter().enumerate() {
        let node = BLOCK * (i + 1);
        if i + 1 < leaves.len() {
            set32(&mut out, node, i as u32 + 2);
        }
        set32(&mut out, node + 4, i as u32);
        out[node + 8] = 0xFF;
        out[node + 9] = 1;
        out[node + 10..node + 12].copy_from_slice(&(records.len() as u16).to_be_bytes());
        let mut at = 14;
        for (j, record) in records.iter().enumerate() {
            out[node + at..node + at + record.len()].copy_from_slice(record);
            let slot = node + BLOCK - 2 * (j + 1);
            out[slot..slot + 2].copy_from_slice(&(at as u16).to_be_bytes());
            at += record.len();
        }
        assert!(at <= BLOCK - 2 * (records.len() + 1));
    }
    out
}

/// A volume of `blocks` blocks: the catalog begins at block 1, the attributes at
/// block 20, the extents overflow at block 30.
fn volume_of(
    blocks: usize,
    catalog: &[Vec<Vec<u8>>],
    attributes: &[Vec<Vec<u8>>],
    extents: &[Vec<Vec<u8>>],
) -> Vec<u8> {
    let mut vol = vec![0u8; BLOCK * blocks];
    vol[HEADER..HEADER + 4].copy_from_slice(b"H+\x00\x04");
    set32(&mut vol, HEADER + 20, WRITTEN);
    set32(&mut vol, HEADER + 32, 2);
    set32(&mut vol, HEADER + 36, 1);
    set32(&mut vol, HEADER + 40, BLOCK as u32);
    set32(&mut vol, HEADER + 44, blocks as u32);
    set32(&mut vol, HEADER + 48, 100);
    for (field, block, leaves) in [
        (CATALOG_FORK, 1usize, catalog),
        (ATTRIBUTES_FORK, 20, attributes),
        (EXTENTS_FORK, 30, extents),
    ] {
        if field != CATALOG_FORK && leaves.is_empty() {
            continue;
        }
        let tree = btree(leaves);
        let count = (tree.len() / BLOCK) as u32;
        let fork = fork_data(tree.len() as u64, &[(block as u32, count)]);
        vol[HEADER + field..HEADER + field + 80].copy_from_slice(&fork);
        vol[block * BLOCK..block * BLOCK + tree.len()].copy_from_slice(&tree);
    }
    vol
}

fn put(vol: &mut [u8], block: usize, bytes: &[u8]) {
    vol[block * BLOCK..block * BLOCK + bytes.len()].copy_from_slice(bytes);
}

fn no_fork() -> Vec<u8> {
    fork_data(0, &[])
}

fn root_records() -> Vec<Vec<u8>> {
    vec![folder(1, "TEST", 2), thread(2, 1, "TEST", 3)]
}

/// HELLO.TXT, READ.ME and the empty folder SUBDIR.
fn volume() -> Vec<u8> {
    let mut records = root_records();
    records.push(file(2, "HELLO.TXT", 18, &fork_data(9, &[(40, 1)]), &no_fork()));
    records.push(file(2, "READ.ME", 20, &fork_data(4, &[(41, 1)]), &no_fork()));
    records.push(folder(2, "SUBDIR", 19));
    records.push(thread(18, 2, "HELLO.TXT", 4));
    records.push(thread(19, 2, "SUBDIR", 3));
    records.push(thread(20, 2, "READ.ME", 4));
    let extents = [vec![]];
    let mut vol = volume_of(512, &[records], &[], &extents);
    put(&mut vol, 40, b"hello hfs");
    put(&mut vol, 41, b"read");
    vol
}

/// TOP.TXT and SUB/NESTED.TXT, the catalog spread over two leaves.
fn nested() -> Vec<u8> {
    let mut first = root_records();
    first.push(folder(2, "SUB", 17));
    first.push(file(2, "TOP.TXT", 18, &fork_data(3, &[(40, 1)]), &no_fork()));
    first.push(thread(17, 2, "SUB", 3));
    let second = vec![
        file(17, "NESTED.TXT", 19, &fork_data(11, &[(41, 1)]), &no_fork()),
        thread(18, 2, "TOP.TXT", 4),
        thread(19, 17, "NESTED.TXT", 4),
    ];
    let mut vol = volume_of(512, &[first, second], &[], &[]);
    put(&mut vol, 40, b"top");
    put(&mut vol, 41, b"nested data");
    vol
}

/// An 8192-byte pseudo-random block, 32 times over.
fn expected_payload() -> Vec<u8> {
    let mut state: u32 = 2_654_435_761;
    let mut block = Vec::with_capacity(8192);
    for _ in 0..8192 {
        state = state.wrapping_mul(1_103_515_245).wrapping_add(12345);
        block.push((state >> 16) as u8);
    }
    block.iter().cycle().take(8192 * 32).copied().collect()
}

/// An LZVN stream of literals, with bytes behind its end.
fn encode_lzvn(data: &[u8]) -> Vec<u8> {
    let mut out = Vec::new();
    for run in data.chunks(256) {
        out.push(0xe0);
        out.push((run.len() - 16) as u8);
        out.extend_from_slice(run);
    }
    out.extend_from_slice(&[0x06, 0, 0, 0, 0, 0, 0, 0]);
    out.extend_from_slice(&[0x5A; 100]);
    out
}

fn compression_header(kind: u32, size: u64) -> Vec<u8> {
    let mut x = b"fpmc".to_vec();
    x.extend_from_slice(&kind.to_le_bytes());
    x.extend_from_slice(&size.to_le_bytes());
    x
}

/// `comp.bin`, compressed in its resource fork, and `plain.bin`, the same bytes
/// as they are.
fn decmpfs_volume() -> Vec<u8> {
    let payload = expected_payload();
    let chunks: Vec<Vec<u8>> = payload.chunks(65536).map(encode_lzvn).collect();
    let header_size = 4 * (chunks.len() + 1);
    let mut resource = (header_size as u32).to_le_bytes().to_vec();
    let mut end = header_size;
    for chunk in &chunks {
        end += chunk.len();
        resource.extend_from_slice(&(end as u32).to_le_bytes());
    }
    for chunk in &chunks {
        resource.extend_from_slice(chunk);
    }
    // The resource fork lies in two extents, out of order.
    let resource_blocks = resource.len().div_ceil(BLOCK);
    let front = 10;
    let resource_fork = fork_data(
        resource.len() as u64,
        &[(300, front), (200, resource_blocks as u32 - front)],
    );
    let mut records = root_records();
    records.push(file(2, "comp.bin", 18, &no_fork(), &resource_fork));
    records.push(file(
        2,
        "plain.bin",
        20,
        &fork_data(payload.len() as u64, &[(100, 64)]),
        &no_fork(),
    ));
    records.push(thread(18, 2, "comp.bin", 4));
    records.push(thread(20, 2, "plain.bin", 4));
    let attributes = vec![vec![inline_attribute(
        18,
        "com.apple.decmpfs",
        &compression_header(8, payload.len() as u64),
    )]];
    let mut vol = volume_of(1024, &[records], &attributes, &[]);
    put(&mut vol, 100, &payload);
    let cut = front as usize * BLOCK;
    put(&mut vol, 300, &resource[..cut]);
    put(&mut vol, 200, &resource[cut..]);
    vol
}

/// file.txt with three attributes, one of them in a fork, and adir with one.
fn xattr_volume() -> Vec<u8> {
    let mut records = root_records();
    records.push(folder(2, "adir", 17));
    records.push(file(2, "file.txt", 18, &fork_data(4, &[(40, 1)]), &no_fork()));
    records.push(thread(17, 2, "adir", 3));
    records.push(thread(18, 2, "file.txt", 4));
    let attributes = vec![
        vec![inline_attribute(17, "com.example.dir", b"on-a-directory")],
        vec![
            fork_attribute(18, "com.example.big", &fork_data(6000, &[(60, 1), (50, 1)])),
            inline_attribute(18, "com.example.small", b"tiny-value"),
            inline_attribute(18, "user.comment", b"a second attribute"),
        ],
    ];
    let mut vol = volume_of(512, &[records], &attributes, &[]);
    put(&mut vol, 40, b"body");
    put(&mut vol, 60, &[b'B'; 4096]);
    put(&mut vol, 50, &[b'B'; 1904]);
    vol
}

fn be16(b: &[u8], off: usize) -> u16 {
    u16::from_be_bytes([b[off], b[off + 1]])
}

fn be32(b: &[u8], off: usize) -> u32 {
    u32::from_be_bytes([b[off], b[off + 1], b[off + 2], b[off + 3]])
}

/// Base, node size and first leaf of the B-tree whose fork sits at `fork_off`.
fn locate(vol: &[u8], fork_off: usize) -> (usize, usize, u32) {
    let bs = be32(vol, HEADER + 40) as usize;
    let cat_base = be32(vol, HEADER + fork_off + 16) as usize * bs;
    let hdr = cat_base + 14;
    (cat_base, be16(vol, hdr + 18) as usize, be32(vol, hdr + 10))
}

fn leaf_offset(vol: &[u8]) -> usize {
    let (cat_base, node_size, first_leaf) = locate(vol, CATALOG_FORK);
    first_leaf as usize * node_size + cat_base
}

/// The offset of the body of the first file record of the first leaf.
fn first_file_body(vol: &[u8]) -> usize {
    let leaf_off = leaf_offset(vol);
    let (_, node_size, _) = locate(vol, CATALOG_FORK);
    let num = be16(vol, leaf_off + 10) as usize;
    for i in 0..num {
        let rec = leaf_off + be16(vol, leaf_off + node_size - 2 * (i + 1)) as usize;
        let body = rec + 2 + be16(vol, rec) as usize;
        if be16(vol, body) == 2 {
            return body;
        }
    }
    panic!("no file record");
}

fn cnid_of(vol: &[u8], name: &str) -> u32 {
    list_root(vol)
        .expect("list root")
        .into_iter()
        .find(|e| e.name == name)
        .unwrap_or_else(|| panic!("{name} not found on volume"))
        .cnid
}

// ---- The volume header ----

#[test]
fn parses_real_volume_header() {
    let vol = parse(&volume()[..2048]).expect("parse HFS+ header");
    assert_eq!(vol.kind, HfsKind::HfsPlus);
    assert_eq!(vol.version, 4);
    assert_eq!(vol.block_size, 4096);
    assert_eq!(vol.total_blocks, 512);
    assert_eq!(vol.volume_size(), 2 * 1024 * 1024);
    assert_eq!(vol.file_count, 2);
    assert_eq!(vol.folder_count, 1);
    assert_eq!(vol.free_blocks, 100);
}

#[test]
fn parses_case_sensitive_variant() {
    let mut vol = volume();
    vol[HEADER..HEADER + 4].copy_from_slice(b"HX\x00\x05");
    let header = parse(&vol).unwrap();
    assert_eq!(header.kind, HfsKind::Hfsx);
    assert_eq!(header.version, 5);
    assert_eq!(list_root(&vol).unwrap().len(), 3);
    vol[HEADER] = b'B';
    assert_eq!(parse(&vol), None);
}

#[test]
fn volume_size_does_not_overflow() {
    let mut vol = volume();
    set32(&mut vol, HEADER + 40, u32::MAX);
    set32(&mut vol, HEADER + 44, u32::MAX);
    assert_eq!(parse(&vol).unwrap().volume_size(), 18_446_744_065_119_617_025);
}

#[test]
fn non_hfs_buffer_is_none() {
    assert!(parse(&[0u8; 2048]).is_none());
    assert!(parse(&[0u8; 100]).is_none());
    assert!(parse(&volume()[..1075]).is_none());
    assert!(parse(&volume()[..1076]).is_some());
}

// ---- Listing and reading ----

#[test]
fn lists_real_root_directory() {
    let entries = list_root(&volume()).expect("list HFS+ root");
    let names: Vec<&str> = entries.iter().map(|e| e.name.as_str()).collect();
    assert!(names.contains(&"HELLO.TXT"), "entries: {names:?}");
    assert!(names.contains(&"READ.ME"), "entries: {names:?}");
    assert!(names.contains(&"SUBDIR"), "entries: {names:?}");
    assert!(!entries.iter().find(|e| e.name == "HELLO.TXT").unwrap().is_dir);
    assert!(entries.iter().find(|e| e.name == "SUBDIR").unwrap().is_dir);
    assert_eq!(names, ["HELLO.TXT", "READ.ME", "SUBDIR"]);
}

#[test]
fn list_root_none_for_non_hfs() {
    assert!(list_root(&[0u8; 4096]).is_none());
}

#[test]
fn nothing_is_read_without_a_catalog() {
    let bad_block_size = {
        let mut vol = volume();
        set32(&mut vol, HEADER + 40, 0);
        vol
    };
    let no_blocks = {
        let mut vol = volume();
        set32(&mut vol, HEADER + CATALOG_FORK + 12, 0);
        vol
    };
    let beyond = {
        let mut vol = volume();
        set32(&mut vol, HEADER + CATALOG_FORK + 16, 600);
        vol
    };
    let tiny_nodes = {
        let mut vol = volume();
        vol[BLOCK + 32..BLOCK + 34].copy_from_slice(&13u16.to_be_bytes());
        vol
    };
    for vol in [bad_block_size, no_blocks, beyond, tiny_nodes] {
        assert!(parse(&vol).is_some());
        assert!(list_root(&vol).is_none());
        assert!(walk(&vol).is_none());
        assert!(stat(&vol, 18).is_none());
        assert!(read_file(&vol, 18).is_none());
        assert!(audit(&vol).is_empty());
    }
}

#[test]
fn reads_real_file_contents() {
    let vol = volume();
    let hello = list_root(&vol)
        .unwrap()
        .into_iter()
        .find(|e| e.name == "HELLO.TXT")
        .unwrap();
    assert_eq!(read_file(&vol, hello.cnid).unwrap(), b"hello hfs");
}

#[test]
fn list_dir_of_empty_subdir_is_empty() {
    let vol = volume();
    let sub = list_root(&vol)
        .unwrap()
        .into_iter()
        .find(|e| e.name == "SUBDIR")
        .unwrap();
    assert!(list_dir(&vol, sub.cnid).unwrap().is_empty());
}

#[test]
fn read_file_unknown_cnid_is_none() {
    assert!(read_file(&volume(), 999_999).is_none());
}

#[test]
fn stat_returns_size_kind_and_times() {
    let vol = volume();
    let s = stat(&vol, 18).expect("stat HELLO.TXT");
    assert_eq!(s.cnid, 18);
    assert!(!s.is_dir);
    assert_eq!(s.size, 9);
    assert!(s.created != 0 && s.modified != 0);
    assert_eq!(
        s,
        HfsStat {
            cnid: 18,
            is_dir: false,
            size: 9,
            created: WRITTEN - 1000,
            modified: WRITTEN - 990,
            accessed: WRITTEN - 970,
        }
    );
    let d = stat(&vol, 19).expect("stat SUBDIR");
    assert!(d.is_dir);
    assert_eq!(d.size, 0);
    assert!(stat(&vol, 999_999).is_none());
}

#[test]
fn walk_lists_nested_paths() {
    let vol = nested();
    let entries = walk(&vol).expect("walk HFS+ volume");
    let paths: Vec<&str> = entries.iter().map(|e| e.path.as_str()).collect();
    assert!(paths.contains(&"TOP.TXT"), "paths: {paths:?}");
    assert!(paths.contains(&"SUB"), "paths: {paths:?}");
    assert!(paths.contains(&"SUB/NESTED.TXT"), "paths: {paths:?}");
    let nested_file = entries.iter().find(|e| e.path == "SUB/NESTED.TXT").unwrap();
    assert!(!nested_file.is_dir);
    assert_eq!(read_file(&vol, nested_file.cnid).unwrap(), b"nested data");
    assert_eq!(paths, ["SUB", "TOP.TXT", "SUB/NESTED.TXT"]);
}

#[test]
fn walk_lists_each_folder_once() {
    // A holds B, B holds A again, and the root itself.
    let mut records = root_records();
    records.push(folder(2, "A", 17));
    records.push(folder(17, "B", 18));
    records.push(folder(18, "A", 17));
    records.push(folder(18, "ROOT", 2));
    records.push(folder(2, "C", 19));
    let vol = volume_of(64, &[records], &[], &[]);
    let paths: Vec<String> = walk(&vol).unwrap().into_iter().map(|e| e.path).collect();
    assert_eq!(paths, ["A", "C", "A/B", "A/B/A", "A/B/ROOT"]);
}

#[test]
fn looping_leaf_chain_ends() {
    let mut vol = volume();
    let leaf = leaf_offset(&vol);
    set32(&mut vol, leaf, 1);
    assert_eq!(list_root(&vol).unwrap().len(), 3 * 65536);
}

#[test]
fn odd_record_offsets_are_skipped() {
    // More records are declared than the node has room for, and one offset lies
    // too near to the end of the node.
    let mut vol = volume();
    let leaf = leaf_offset(&vol);
    vol[leaf + BLOCK - 6..leaf + BLOCK - 4].copy_from_slice(&4089u16.to_be_bytes());
    vol[leaf + 10..leaf + 12].copy_from_slice(&0xFFFFu16.to_be_bytes());
    let names: Vec<String> = list_root(&vol).unwrap().into_iter().map(|e| e.name).collect();
    assert!(names.contains(&"READ.ME".to_string()));
    assert!(!names.contains(&"HELLO.TXT".to_string()));
}

#[test]
fn truncated_file_record_has_no_resource_fork() {
    let resource = fork_data(7, &[(50, 1)]);
    let record = file(2, "SHORT", 18, &fork_data(3, &[(40, 1)]), &resource);
    let (data, whole) = file_forks(&record, 18).unwrap();
    assert_eq!(data.extents, vec![(40, 1)]);
    assert_eq!((whole.logical, whole.extents), (7, vec![(50, 1)]));
    let (data, cut) = file_forks(&record[..record.len() - 1], 18).unwrap();
    assert_eq!(data.logical, 3);
    assert_eq!((cut.logical, cut.extents), (0, Vec::new()));
    assert!(file_forks(&record[..record.len() - 81], 18).is_none());
    assert!(file_forks(&record, 19).is_none());
    assert!(file_forks(&folder(2, "SHORT", 18), 18).is_none());
}

#[test]
fn fragmented_file_is_joined_and_cut() {
    let mut records = root_records();
    let fork = fork_data(5000, &[(41, 1), (40, 1)]);
    records.push(file(2, "FRAG", 18, &fork, &no_fork()));
    let mut vol = volume_of(64, &[records], &[], &[]);
    put(&mut vol, 41, &[1; 4096]);
    put(&mut vol, 40, &[2; 4096]);
    let mut expected = vec![1u8; 4096];
    expected.extend_from_slice(&[2; 904]);
    assert_eq!(read_file(&vol, 18).unwrap(), expected);
}

// ---- Compressed files ----

#[test]
fn read_file_transparently_decompresses_decmpfs_lzvn() {
    let vol = decmpfs_volume();
    let cnid = cnid_of(&vol, "comp.bin");
    let got = read_file(&vol, cnid).expect("read comp.bin");
    assert_eq!(got, expected_payload());
}

#[test]
fn uncompressed_control_file_reads_unchanged() {
    let vol = decmpfs_volume();
    let cnid = cnid_of(&vol, "plain.bin");
    assert_eq!(read_file(&vol, cnid).expect("read plain.bin"), expected_payload());
}

/// A file with the data fork "raw" and the given attribute and resource fork.
fn compressed_file(xattr: &[u8], resource: &[u8]) -> Vec<u8> {
    let mut records = root_records();
    let data = fork_data(3, &[(40, 1)]);
    records.push(file(2, "COMP", 18, &data, resource));
    let attributes = vec![vec![inline_attribute(18, "com.apple.decmpfs", xattr)]];
    let mut vol = volume_of(64, &[records], &attributes, &[]);
    put(&mut vol, 40, b"raw");
    vol
}

#[test]
fn undecodable_file_never_reads_as_its_data_fork() {
    let mut stored = compression_header(1, 4);
    stored.extend_from_slice(b"data");
    assert_eq!(read_file(&compressed_file(&stored, &no_fork()), 18).unwrap(), b"data");
    // A wrong size, a cut header, an unknown type, a missing fork, no payload.
    let mut wrong = compression_header(1, 5);
    wrong.extend_from_slice(b"data");
    for xattr in [
        wrong,
        b"fpmc".to_vec(),
        compression_header(99, 0),
        compression_header(8, 3),
        compression_header(3, 3),
        compression_header(3, 0),
    ] {
        assert_eq!(read_file(&compressed_file(&xattr, &no_fork()), 18), None);
    }
}

#[test]
fn reported_payloads_cannot_be_read() {
    let empty_blocks = {
        let mut fork = fork_data(100, &[]);
        fork[0..8].copy_from_slice(&100u64.to_be_bytes());
        fork
    };
    for (xattr, resource, detail) in [
        (
            b"fpmc".to_vec(),
            no_fork(),
            "its com.apple.decmpfs xattr is 4 bytes, shorter than the 16-byte decmpfs header",
        ),
        (
            compression_header(99, 1),
            no_fork(),
            "its compression_type is not a documented decmpfs type (read_file refuses it)",
        ),
        (
            compression_header(8, 1),
            no_fork(),
            "it declares resource-fork storage but its resource fork is empty",
        ),
        (
            compression_header(4, 1),
            empty_blocks,
            "it declares a 100-byte resource fork but the fork allocates zero blocks (the \
             payload is unrecoverable)",
        ),
        (
            compression_header(3, 1),
            no_fork(),
            "it declares inline storage but the xattr holds only the header, with no payload \
             following it",
        ),
    ] {
        let vol = compressed_file(&xattr, &resource);
        let found = audit(&vol);
        assert_eq!(found.len(), 1, "{found:?}");
        match &found[0].kind {
            AnomalyKind::DecmpfsMissingResource { cnid, name, detail: text, .. } => {
                assert_eq!(*cnid, 18);
                assert_eq!(name, "COMP");
                assert_eq!(text, detail);
            }
            other => panic!("expected a missing payload, got {other:?}"),
        }
        assert_eq!(read_file(&vol, 18), None);
    }
}

#[test]
fn readable_files_are_not_reported() {
    // A stored file that declares no bytes needs no payload.
    for kind in [1, 9] {
        let vol = compressed_file(&compression_header(kind, 0), &no_fork());
        assert!(audit(&vol).is_empty());
        assert_eq!(read_file(&vol, 18), Some(Vec::new()));
        // One that declares some does, and so does one that a codec decodes.
        for (kind, size) in [(kind, 1), (3, 0), (7, 0), (11, 0), (13, 0)] {
            let vol = compressed_file(&compression_header(kind, size), &no_fork());
            assert_eq!(audit(&vol).len(), 1);
            assert_eq!(read_file(&vol, 18), None);
        }
    }
}

// ---- The audit ----

#[test]
fn clean_real_volume_has_no_anomalies() {
    let anomalies = audit(&volume());
    assert!(anomalies.is_empty(), "got: {anomalies:?}");
}

#[test]
fn clean_real_nested_volume_has_no_anomalies() {
    let anomalies = audit(&nested());
    assert!(anomalies.is_empty(), "got: {anomalies:?}");
}

#[test]
fn clean_real_decmpfs_volume_has_no_anomalies() {
    let anomalies = audit(&decmpfs_volume());
    assert!(anomalies.is_empty(), "got: {anomalies:?}");
}

#[test]
fn non_hfs_buffer_has_no_anomalies() {
    assert!(audit(&[0u8; 4096]).is_empty());
    assert!(audit(&[0u8; 10]).is_empty());
}

#[test]
fn corrupt_btree_node_link_is_flagged() {
    let mut vol = volume();
    let (_, _, first_leaf) = locate(&vol, CATALOG_FORK);
    let leaf_off = leaf_offset(&vol);
    vol[leaf_off..leaf_off + 4].copy_from_slice(&first_leaf.to_be_bytes());

    let anomalies = audit(&vol);
    assert!(
        anomalies.iter().any(|a| a.code == "HFS-BTREE-NODE-INVALID"),
        "got: {anomalies:?}"
    );
    let details: Vec<&AnomalyKind> = anomalies
        .iter()
        .filter(|a| a.code == "HFS-BTREE-NODE-INVALID")
        .map(|a| &a.kind)
        .collect();
    assert_eq!(
        details[0],
        &AnomalyKind::BtreeNodeInvalid {
            tree: "catalog".into(),
            node: 1,
            detail: "node links point at itself (fLink 1, bLink 0) — a node cannot be its own \
                     neighbour"
                .into(),
        }
    );
    assert_eq!(
        details[1],
        &AnomalyKind::BtreeNodeInvalid {
            tree: "catalog".into(),
            node: 1,
            detail: "forward-link chain loops back to already-visited node 1".into(),
        }
    );
}

#[test]
fn corrupt_btree_node_kind_is_flagged() {
    let mut vol = volume();
    let leaf_off = leaf_offset(&vol);
    vol[leaf_off + 8] = 0x42;

    let anomalies = audit(&vol);
    assert!(
        anomalies.iter().any(|a| a.code == "HFS-BTREE-NODE-INVALID"),
        "got: {anomalies:?}"
    );
}

#[test]
fn node_descriptors_are_flagged_in_both_trees() {
    let mut vol = volume();
    let leaf_off = leaf_offset(&vol);
    // A leaf at height 0 in the catalog.
    vol[leaf_off + 9] = 0;
    // An undocumented negative kind on the header node of the extents B-tree,
    // and a header kind on its leaf.
    vol[30 * BLOCK + 8] = 0xFE;
    vol[31 * BLOCK + 8] = 1;
    let details: Vec<(String, u32, String)> = audit(&vol)
        .into_iter()
        .map(|a| match a.kind {
            AnomalyKind::BtreeNodeInvalid { tree, node, detail } => (tree, node, detail),
            other => panic!("unexpected {other:?}"),
        })
        .collect();
    assert_eq!(
        details,
        [
            (
                "catalog".to_string(),
                1,
                "leaf node at height 0 (a leaf must sit at height >= 1)".to_string()
            ),
            (
                "extents".to_string(),
                0,
                "undocumented node kind -2 (expected leaf -1, index 0, header 1, or map 2)"
                    .to_string()
            ),
            (
                "extents".to_string(),
                1,
                "node of kind 1 at height 1 (only a leaf sits at height 1)".to_string()
            ),
            (
                "extents".to_string(),
                1,
                "header-kind descriptor on node 1 (the header node must be node 0)".to_string()
            ),
        ]
    );
}

#[test]
fn chain_that_leaves_the_volume_is_flagged() {
    let mut vol = nested();
    let leaf_off = leaf_offset(&vol);
    set32(&mut vol, leaf_off + BLOCK, 600_000);
    let anomalies = audit(&vol);
    assert_eq!(anomalies.len(), 1);
    assert_eq!(
        anomalies[0].kind,
        AnomalyKind::BtreeNodeInvalid {
            tree: "catalog".into(),
            node: 2,
            detail: "node links point outside the tree (fLink 600000, bLink 1) — a neighbour \
                     must be a node of the tree"
                .into(),
        }
    );
    // The header node is checked as well.
    let mut vol = nested();
    set32(&mut vol, BLOCK, 600_000);
    vol[BLOCK + 9] = 1;
    let details: Vec<String> = audit(&vol)
        .into_iter()
        .map(|a| match a.kind {
            AnomalyKind::BtreeNodeInvalid { node: 0, detail, .. } => detail,
            other => panic!("unexpected {other:?}"),
        })
        .collect();
    assert_eq!(
        details,
        [
            "node of kind 1 at height 1 (only a leaf sits at height 1)",
            "node links point outside the tree (fLink 600000, bLink 0) — a neighbour must be a \
             node of the tree",
        ]
    );
}

#[test]
fn create_after_modify_is_flagged() {
    let mut vol = volume();
    let body = first_file_body(&vol);
    let modt = be32(&vol, body + 20);
    set32(&mut vol, body + 16, modt + 1_000_000);

    let anomalies = audit(&vol);
    assert!(
        anomalies.iter().any(|a| a.code == "HFS-TIME-ANOMALY"),
        "got: {anomalies:?}"
    );
}

#[test]
fn impossible_folder_times_are_flagged() {
    let detail_of = |create: u32, content_mod: u32| -> Vec<(u32, String, String)> {
        let mut record = folder(2, "DIR", 17);
        let body = record.len() - 88;
        set32(&mut record, body + 16, create);
        set32(&mut record, body + 20, content_mod);
        let mut records = root_records();
        records.push(record);
        audit(&volume_of(64, &[records], &[], &[]))
            .into_iter()
            .map(|a| match a.kind {
                AnomalyKind::TimeAnomaly { cnid, name, detail } => (cnid, name, detail),
                other => panic!("unexpected {other:?}"),
            })
            .collect()
    };
    assert!(detail_of(WRITTEN - 2, WRITTEN - 1).is_empty());
    for (create, content_mod, detail) in [
        (
            WRITTEN - 1,
            WRITTEN - 2,
            "creation time 3799999999 is later than content-modification time 3799999998 (a \
             folder cannot be modified before it is created)",
        ),
        (
            5,
            WRITTEN,
            "creation time 5 predates the HFS+ epoch boundary (before 1904 — impossible)",
        ),
        (
            WRITTEN,
            WRITTEN + 1,
            "content-modification time 3800000001 is after the volume's last-written date \
             3800000000 (nothing inside a volume can postdate the volume header)",
        ),
    ] {
        assert_eq!(
            detail_of(create, content_mod),
            [(17, "DIR".to_string(), detail.to_string())]
        );
    }
}

#[test]
fn decmpfs_missing_resource_is_flagged() {
    let mut vol = decmpfs_volume();
    let body = first_file_body(&vol);
    let base = body + 168;
    assert!(be32(&vol, base + 4) > 0);
    for b in vol[base + 12..base + 16 + 64].iter_mut() {
        *b = 0;
    }

    let anomalies = audit(&vol);
    assert!(
        anomalies.iter().any(|a| a.code == "HFS-DECMPFS-MISSING-RESOURCE"),
        "got: {anomalies:?}"
    );
}

#[test]
fn anomalies_are_graded_and_consistent_with() {
    let mut vol = volume();
    let leaf_off = leaf_offset(&vol);
    vol[leaf_off + 8] = 0x42;
    let anomalies = audit(&vol);
    let a = anomalies
        .iter()
        .find(|a| a.code == "HFS-BTREE-NODE-INVALID")
        .unwrap();
    assert!(matches!(a.severity, Severity::High | Severity::Critical));
    assert!(!a.note.to_lowercase().contains("proves"));
    assert!(!a.note.to_lowercase().contains("confirms"));
    assert_eq!(
        a.kind,
        AnomalyKind::BtreeNodeInvalid {
            tree: "catalog".into(),
            node: 1,
            detail: "undocumented node kind 66 (expected leaf -1, index 0, header 1, or map 2)"
                .into(),
        }
    );
}

#[test]
fn dangling_thread_is_flagged() {
    let mut records = root_records();
    records.push(thread(42, 2, "GONE", 4));
    let vol = volume_of(64, &[records], &[], &[]);
    let anomalies = audit(&vol);
    assert_eq!(anomalies.len(), 1);
    assert_eq!(
        anomalies[0].kind,
        AnomalyKind::DeletedButReferenced {
            cnid: 42,
            parent: 2,
            name: "GONE".into(),
        }
    );
    assert_eq!(anomalies[0].severity, Severity::Medium);
    // A file record for the CNID settles it, wherever it stands.
    let mut records = root_records();
    records.push(thread(42, 2, "GONE", 4));
    records.push(file(2, "GONE", 42, &no_fork(), &no_fork()));
    assert!(audit(&volume_of(64, &[records], &[], &[])).is_empty());
}

#[test]
fn missing_extents_are_flagged() {
    // Nine blocks are declared, eight one-block extents are there.
    let extents: Vec<(u32, u32)> = (0..8).map(|i| (40 + i, 1)).collect();
    let fork = fork_data(9 * BLOCK as u64, &extents);
    let mut records = root_records();
    records.push(file(2, "BIG", 18, &fork, &no_fork()));
    let vol = volume_of(64, &[records.clone()], &[], &[]);
    let anomalies = audit(&vol);
    assert_eq!(anomalies.len(), 1);
    assert_eq!(
        anomalies[0].kind,
        AnomalyKind::CatalogExtentsMismatch {
            cnid: 18,
            name: "BIG".into(),
            logical: 36864,
            allocated_blocks: 8,
            needed_blocks: 9,
        }
    );
    // The overflow B-tree makes up for the ninth.
    let mut overflow = vec![0, 10, 0, 0];
    overflow.extend_from_slice(&18u32.to_be_bytes());
    overflow.extend_from_slice(&8u32.to_be_bytes());
    overflow.extend_from_slice(&48u32.to_be_bytes());
    overflow.extend_from_slice(&1u32.to_be_bytes());
    overflow.extend_from_slice(&[0; 56]);
    let vol = volume_of(64, &[records], &[], &[vec![overflow]]);
    assert!(audit(&vol).is_empty());
}

// ---- The mounted volume ----

fn open_volume() -> HfsFs {
    HfsFs::new(volume()).expect("open HFS+ volume")
}

#[test]
fn identity_and_root() {
    let fs = open_volume();
    assert_eq!(fs.root(), NodeId::Opaque(2));
    assert_eq!(fs.sector_sizes().cluster_or_block, 4096);
    assert_eq!(
        fs.sector_sizes(),
        SectorSizes {
            logical: 512,
            physical: 512,
            cluster_or_block: 4096,
        }
    );
}

#[test]
fn new_rejects_non_hfs_buffer() {
    assert!(HfsFs::new(vec![0u8; 4096]).is_err());
    assert!(matches!(
        HfsFs::new(vec![0u8; 4096]),
        Err(FsError::NoSignature)
    ));
}

#[test]
fn read_dir_lists_real_root_entries() {
    let fs = open_volume();
    let entries = fs.read_dir(fs.root()).unwrap();
    let hello = entries
        .iter()
        .find(|e| e.name == b"HELLO.TXT")
        .expect("HELLO.TXT in root");
    assert_eq!(hello.id, NodeId::Opaque(18));
    assert!(!hello.is_dir);
    let subdir = entries
        .iter()
        .find(|e| e.name == b"SUBDIR")
        .expect("SUBDIR in root");
    assert_eq!(subdir.id, NodeId::Opaque(19));
    assert!(subdir.is_dir);
}

#[test]
fn names_are_given_in_utf8() {
    let mut records = root_records();
    records.push(folder(2, "caf\u{e9} \u{1F600}", 17));
    let fs = HfsFs::new(volume_of(64, &[records], &[], &[])).unwrap();
    let name = "caf\u{e9} \u{1F600}".as_bytes();
    assert_eq!(fs.read_dir(fs.root()).unwrap()[0].name, name);
    assert_eq!(fs.lookup(fs.root(), name).unwrap(), Some(NodeId::Opaque(17)));
}

#[test]
fn lookup_finds_a_known_file() {
    let fs = open_volume();
    assert_eq!(
        fs.lookup(fs.root(), b"HELLO.TXT").unwrap(),
        Some(NodeId::Opaque(18))
    );
    assert_eq!(fs.lookup(fs.root(), b"no-such-file").unwrap(), None);
}

#[test]
fn meta_matches_istat() {
    let fs = open_volume();
    let m = fs.meta(NodeId::Opaque(18)).unwrap();
    assert_eq!(m.ino, 18);
    assert!(!m.is_dir);
    assert_eq!(m.size, 9);
    assert_eq!(
        m,
        NodeMeta {
            ino: 18,
            is_dir: false,
            size: 9,
            born: 1_717_154_200_000_000_000,
            modified: 1_717_154_210_000_000_000,
            accessed: 1_717_154_230_000_000_000,
        }
    );
    let d = fs.meta(NodeId::Opaque(19)).unwrap();
    assert!(d.is_dir);
    assert_eq!(d.size, 0);
}

#[test]
fn times_are_rebased_to_unix() {
    assert_eq!(hfs_time(2_082_844_800), 0);
    assert_eq!(hfs_time(2_082_844_801), 1_000_000_000);
    assert_eq!(hfs_time(0), -2_082_844_800_000_000_000);
}

#[test]
fn read_at_returns_file_bytes() {
    let fs = open_volume();
    let id = NodeId::Opaque(18);

    let mut buf = [0u8; 64];
    let n = fs.read_at(id, StreamRef::Default, 0, &mut buf).unwrap();
    assert_eq!(n, 9);
    assert_eq!(&buf[..9], b"hello hfs");

    let mut win = [0u8; 4];
    let n = fs.read_at(id, StreamRef::Default, 6, &mut win).unwrap();
    assert_eq!(&win[..n], b"hfs");

    assert_eq!(
        fs.read_at(id, StreamRef::Default, 10_000, &mut buf).unwrap(),
        0
    );
    assert_eq!(
        fs.read_at(id, StreamRef::Default, u64::MAX, &mut buf).unwrap(),
        0
    );
}

#[test]
fn reads_in_windows_join() {
    let fs = open_volume();
    let id = NodeId::Opaque(18);
    let mut joined = Vec::new();
    loop {
        let mut win = [0u8; 4];
        let n = fs
            .read_at(id, StreamRef::Default, joined.len() as u64, &mut win)
            .unwrap();
        if n == 0 {
            break;
        }
        joined.extend_from_slice(&win[..n]);
    }
    assert_eq!(joined, b"hello hfs");
}

#[test]
fn read_dir_of_empty_subdir_is_empty() {
    let fs = open_volume();
    let children = fs.read_dir(NodeId::Opaque(19)).unwrap();
    assert!(children.is_empty(), "SUBDIR is empty, got {children:?}");
}

#[test]
fn unsupported_file_id_variant_is_loud() {
    let fs = open_volume();
    assert!(fs.meta(NodeId::Foreign).is_err());
    assert_eq!(fs.meta(NodeId::Foreign), Err(FsError::ForeignId));
    assert_eq!(fs.lookup(NodeId::Foreign, b"x"), Err(FsError::ForeignId));
    assert_eq!(fs.read_dir(NodeId::Foreign), Err(FsError::ForeignId));
    assert_eq!(fs.data_streams(NodeId::Foreign), Err(FsError::ForeignId));
}

#[test]
fn cnid_beyond_u32_is_out_of_range() {
    let fs = open_volume();
    let large = u64::from(u32::MAX) + 1;
    assert!(fs.meta(NodeId::Opaque(large)).is_err());
    assert_eq!(
        fs.meta(NodeId::Opaque(large)),
        Err(FsError::CnidOutOfRange(large))
    );
}

#[test]
fn read_at_named_stream_is_unsupported() {
    let fs = open_volume();
    let mut buf = [7u8; 8];
    assert!(fs
        .read_at(NodeId::Opaque(18), StreamRef::Other, 0, &mut buf)
        .is_err());
    assert_eq!(buf, [7u8; 8]);
}

#[test]
fn meta_of_unknown_cnid_is_loud() {
    let fs = open_volume();
    assert!(fs.meta(NodeId::Opaque(999_999)).is_err());
    assert_eq!(
        fs.meta(NodeId::Opaque(999_999)),
        Err(FsError::NoRecord(999_999))
    );
}

#[test]
fn read_at_of_a_directory_is_loud() {
    let fs = open_volume();
    let mut buf = [0u8; 8];
    assert_eq!(
        fs.read_at(NodeId::Opaque(19), StreamRef::Default, 0, &mut buf),
        Err(FsError::UnreadableFile(19))
    );
}

#[test]
fn directories_of_a_volume_without_catalog_cannot_be_listed() {
    let mut vol = volume();
    set32(&mut vol, HEADER + CATALOG_FORK + 12, 0);
    let fs = HfsFs::new(vol).unwrap();
    assert_eq!(fs.read_dir(fs.root()), Err(FsError::UnlistableDirectory(2)));
    assert_eq!(
        fs.lookup(fs.root(), b"x"),
        Err(FsError::UnlistableDirectory(2))
    );
}

// ---- Extended attributes ----

fn find(fs: &HfsFs, name: &str) -> NodeId {
    fs.lookup(fs.root(), name.as_bytes())
        .expect("lookup must not error")
        .unwrap_or_else(|| panic!("{name} must exist"))
}

fn open_xattr_volume() -> HfsFs {
    HfsFs::new(xattr_volume()).expect("must open as HFS+")
}

#[test]
fn data_streams_lists_every_extended_attribute() {
    let fs = open_xattr_volume();
    let file = find(&fs, "file.txt");
    let streams = fs.data_streams(file).expect("data_streams must not error");
    let xattrs: Vec<(String, u64, Residency)> = streams
        .iter()
        .filter(|s| matches!(s.id, StreamRef::Xattr(_)))
        .map(|s| {
            (
                String::from_utf8_lossy(s.name.as_deref().unwrap_or(b"")).into_owned(),
                s.size,
                s.residency,
            )
        })
        .collect();
    assert_eq!(xattrs.len(), 3, "got {xattrs:?}");

    let by_name = |n: &str| -> (u64, Residency) {
        xattrs.iter().find(|(name, _, _)| name == n).map_or_else(
            || panic!("attribute {n} missing; got {xattrs:?}"),
            |(_, sz, r)| (*sz, *r),
        )
    };
    assert_eq!(
        by_name("com.example.small"),
        (10, Residency::Resident { inline_len: 10 })
    );
    assert_eq!(
        by_name("user.comment"),
        (18, Residency::Resident { inline_len: 18 })
    );
    assert_eq!(by_name("com.example.big").0, 6000);
    assert_eq!(by_name("com.example.big").1, Residency::NonResident);

    assert!(
        streams.iter().any(|s| s.id == StreamRef::Default),
        "the file's own contents must remain listed: {streams:?}"
    );
    assert_eq!(streams[0].id, StreamRef::Default);
    assert_eq!(streams[0].size, 4);
    assert_eq!(streams[3].id, StreamRef::Xattr(2));
}

#[test]
fn read_at_returns_attribute_values_byte_exact() {
    let fs = open_xattr_volume();
    let file = find(&fs, "file.txt");
    let streams = fs.data_streams(file).unwrap();

    let read = |name: &str| -> Vec<u8> {
        let s = streams
            .iter()
            .find(|s| s.name.as_deref() == Some(name.as_bytes()))
            .unwrap_or_else(|| panic!("no attribute {name}"));
        let mut buf = vec![0u8; usize::try_from(s.size).unwrap()];
        let n = fs
            .read_at(file, s.id, 0, &mut buf)
            .unwrap_or_else(|e| panic!("read_at({name}) failed: {e:?}"));
        buf.truncate(n);
        buf
    };

    assert_eq!(read("com.example.small"), b"tiny-value");
    assert_eq!(read("user.comment"), b"a second attribute");
    assert_eq!(read("com.example.big"), vec![b'B'; 6000]);
}

#[test]
fn directories_carry_attributes_as_well() {
    let fs = open_xattr_volume();
    let dir = find(&fs, "adir");
    let streams = fs.data_streams(dir).expect("data_streams on a dir");
    let x: Vec<_> = streams
        .iter()
        .filter(|s| matches!(s.id, StreamRef::Xattr(_)))
        .collect();
    assert_eq!(x.len(), 1, "adir carries exactly one attribute: {x:?}");
    assert_eq!(x[0].name.as_deref(), Some(&b"com.example.dir"[..]));

    let mut buf = vec![0u8; 64];
    let n = fs
        .read_at(dir, x[0].id, 0, &mut buf)
        .expect("read dir xattr");
    assert_eq!(&buf[..n], b"on-a-directory");
    assert_eq!(streams.len(), 1, "a folder has no contents of its own");
}

#[test]
fn absent_and_unreadable_attributes_are_loud() {
    let fs = open_xattr_volume();
    let file = find(&fs, "file.txt");
    let mut buf = [0u8; 4];
    assert_eq!(
        fs.read_at(file, StreamRef::Xattr(3), 0, &mut buf),
        Err(FsError::NoAttribute(3))
    );
    let plain = open_volume();
    assert_eq!(
        plain.read_at(NodeId::Opaque(18), StreamRef::Xattr(0), 0, &mut buf),
        Err(FsError::NoAttribute(0))
    );
    assert_eq!(
        plain.data_streams(NodeId::Opaque(999)),
        Err(FsError::NoRecord(999))
    );
}

#[test]
fn attribute_without_addressable_blocks_is_unreadable() {
    // Blocks are so large that an extent may end behind every machine address.
    // Node 0 of the attributes B-tree begins at block 0.
    let far = fork_attribute(17, "far", &fork_data(9, &[(u32::MAX, u32::MAX)]));
    let mut vol = btree(&[vec![far]]);
    vol[HEADER..HEADER + 4].copy_from_slice(b"H+\x00\x04");
    set32(&mut vol, HEADER + 40, u32::MAX);
    let fork = fork_data(9, &[(0, 1)]);
    vol[HEADER + ATTRIBUTES_FORK..HEADER + ATTRIBUTES_FORK + 80].copy_from_slice(&fork);
    assert_eq!(list_attributes(&vol, 17).len(), 1);
    let fs = HfsFs::new(vol).unwrap();
    let mut buf = [0u8; 4];
    assert_eq!(
        fs.read_at(NodeId::Opaque(17), StreamRef::Xattr(0), 0, &mut buf),
        Err(FsError::UnreadableAttribute(0))
    );
}

#[test]
fn malformed_attribute_records_are_passed_over() {
    let mut records = root_records();
    records.push(folder(2, "adir", 17));
    let mut overlong = inline_attribute(17, "overlong", b"v");
    let at = overlong.len() - 5;
    set32(&mut overlong, at, 100_000);
    let mut unknown = inline_attribute(17, "unknown", b"v");
    let at = unknown.len() - 17;
    set32(&mut unknown, at, 0x30);
    let good = inline_attribute(17, "good", b"v");
    let vol = volume_of(64, &[records], &[vec![overlong, unknown, good]], &[]);
    let names: Vec<String> = list_attributes(&vol, 17).into_iter().map(|a| a.name).collect();
    assert_eq!(names, ["good"]);
}

#[test]
fn the_mark_of_a_compressed_file_is_listed() {
    let fs = HfsFs::new(decmpfs_volume()).unwrap();
    let file = find(&fs, "comp.bin");
    let streams = fs.data_streams(file).unwrap();
    assert_eq!(streams.len(), 2);
    assert_eq!(streams[1].name.as_deref(), Some(&b"com.apple.decmpfs"[..]));
    assert_eq!(streams[1].size, 16);
}
