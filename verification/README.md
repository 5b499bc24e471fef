# hfsplus-forensic

A verified reader and auditor for Apple HFS+ / HFSX volumes, written in Verus.

The volume is a byte buffer. From it the library reads the volume header, lists
and walks the catalog, looks up metadata, extracts file contents (transparently
compressed files included), lists extended attributes, and reports structural
anomalies as graded `HFS-*` findings. What takes a volume as a whole (parsing,
listing, walking, metadata, reading, the audit, a mounted volume) and the decoder of
compressed files are total: they take any bytes, and their contracts state the
result exactly. Helpers on parts of a volume may ask for something in `requires`,
such as that the bytes they read are there.

```rust
if let Some(header) = hfsplus_forensic::parse(&volume) {
    println!("{:?}: {} blocks x {} bytes", header.kind, header.total_blocks, header.block_size);
    for entry in hfsplus_forensic::list_root(&volume).unwrap_or_default() {
        println!("{}", entry.name);
    }
}
```

## Layout

| Where | What |
|---|---|
| `src/volume.rs`, `src/btree.rs` | volume header; B-trees, their nodes and leaf records |
| `src/catalog.rs`, `src/walk.rs` | directory entries, metadata, the whole tree |
| `src/forks.rs`, `src/files.rs` | forks and their extents; file contents |
| `src/attributes.rs` | extended attributes |
| `src/compression.rs`, `src/codecs.rs` | transparent compression; the codecs behind it |
| `src/findings.rs`, `src/audit.rs` | findings and their wording; the audit |
| `src/vfs.rs` | a mounted volume for a virtual file system |
| `src/laws.rs` | what holds across functions, with proofs |
| `app/` | the library behind the `forensic-vfs` and `forensicnomicon` traits |

## What is trusted

Verus proves everything but the contracts of what lies outside: UTF-16 decoding
(`src/text.rs`), and the codecs of `flate2`, `lzvn` and `lzfse_rust` and the type
table of `forensicnomicon` (`src/codecs.rs`). Each is described where it is
declared.

## Scope

Journal replay is not done. A B-tree is taken to lie in the first extent of its
file, and a file's contents in the extents of its catalog record; the
extents-overflow B-tree is consulted by the audit only.
