//! Transparent compression: every storage form decodes to the original bytes,
//! and everything malformed is refused by name.
//!
//! Attributes and forks are made here. Where a test has `real` in its name, they
//! have the form in which macOS writes them.

use flate2::write::ZlibEncoder;
use flate2::Compression as Level;
use hfsplus_forensic::codecs::{Algorithm, CHUNK_SIZE};
use hfsplus_forensic::compression::{
    check_length, chunk_at, decode_chunk, decode_chunked_resource_fork, decode_inline,
    decode_resource_fork, extend_decoded, inflate, lzfse_decode, lzvn_decode, zlib_block,
    COMPRESSION_TYPE_OFFSET, HEADER_LEN, MAGIC, UNCOMPRESSED_SIZE_OFFSET,
};
use hfsplus_forensic::decmpfs::{decompress, DecmpfsError};
use std::io::Write;

fn header(compression_type: u32, uncompressed_size: u64) -> Vec<u8> {
    let mut h = Vec::with_capacity(16);
    h.extend_from_slice(&MAGIC.to_le_bytes());
    h.extend_from_slice(&compression_type.to_le_bytes());
    h.extend_from_slice(&uncompressed_size.to_le_bytes());
    h
}

fn xattr(compression_type: u32, uncompressed_size: u64, payload: &[u8]) -> Vec<u8> {
    let mut x = header(compression_type, uncompressed_size);
    x.extend_from_slice(payload);
    x
}

/// A resource fork of LZVN, LZFSE or stored chunks: header size, end offsets,
/// chunks.
fn chunked_fork(chunks: &[Vec<u8>]) -> Vec<u8> {
    let header_size = 4 * (chunks.len() + 1);
    let mut fork = Vec::new();
    fork.extend_from_slice(&(header_size as u32).to_le_bytes());
    let mut end = header_size;
    for c in chunks {
        end += c.len();
        fork.extend_from_slice(&(end as u32).to_le_bytes());
    }
    for c in chunks {
        fork.extend_from_slice(c);
    }
    fork
}

fn encode_zlib(data: &[u8]) -> Vec<u8> {
    let mut encoder = ZlibEncoder::new(Vec::new(), Level::new(6));
    encoder.write_all(data).unwrap();
    encoder.finish().unwrap()
}

/// A zlib resource fork: a 0x100-byte header, a size prefix, the block table,
/// the blocks.
fn zlib_fork(data: &[u8]) -> Vec<u8> {
    let blocks: Vec<Vec<u8>> = data.chunks(CHUNK_SIZE).map(encode_zlib).collect();
    let mut fork = vec![0u8; 0x100];
    fork[0..4].copy_from_slice(&0x100u32.to_be_bytes());
    let size: usize = blocks.iter().map(Vec::len).sum();
    fork.extend_from_slice(&((4 + 8 * blocks.len() + size) as u32).to_be_bytes());
    fork.extend_from_slice(&(blocks.len() as u32).to_le_bytes());
    let mut offset = 4 + 8 * blocks.len();
    for block in &blocks {
        fork.extend_from_slice(&(offset as u32).to_le_bytes());
        fork.extend_from_slice(&(block.len() as u32).to_le_bytes());
        offset += block.len();
    }
    for block in &blocks {
        fork.extend_from_slice(block);
    }
    fork
}

/// An LZVN stream of literals, ended by the end-of-stream opcode.
fn encode_lzvn(data: &[u8]) -> Vec<u8> {
    let mut out = Vec::new();
    for run in data.chunks(271) {
        if run.len() >= 16 {
            out.push(0xe0);
            out.push((run.len() - 16) as u8);
        } else {
            out.push(0xe0 + run.len() as u8);
        }
        out.extend_from_slice(run);
    }
    out.extend_from_slice(&[0x06, 0, 0, 0, 0, 0, 0, 0]);
    out
}

fn encode_lzfse(data: &[u8]) -> Vec<u8> {
    let mut out = Vec::new();
    lzfse_rust::encode_bytes(data, &mut out).unwrap();
    out
}

/// Text with repetitions and variation, in the manner of a word list.
fn words(len: usize) -> Vec<u8> {
    let stems = ["abal", "tion", "er\n", "ing", "arch", "o\n", "lit", "mica"];
    let mut out = Vec::new();
    let mut state: u32 = 7;
    while out.len() < len {
        state = state.wrapping_mul(1_103_515_245).wrapping_add(12345);
        out.extend_from_slice(stems[(state >> 16) as usize % stems.len()].as_bytes());
    }
    out.truncate(len);
    out
}

// ---- Every storage form ----

#[test]
fn decodes_real_macos_lzvn_resource_fork() {
    // Type 8: two chunks, the second one shorter.
    let expected = words(80_000);
    let chunks: Vec<Vec<u8>> = expected.chunks(CHUNK_SIZE).map(encode_lzvn).collect();
    assert_eq!(chunks.len(), 2);
    let fork = chunked_fork(&chunks);
    let out = decompress(&header(8, 80_000), Some(&fork)).expect("type-8 LZVN must decode");
    assert_eq!(out, expected);
}

#[test]
fn decodes_real_macos_zlib_resource_fork() {
    let expected = words(150_000);
    let fork = zlib_fork(&expected);
    let out = decompress(&header(4, 150_000), Some(&fork)).expect("type-4 zlib must decode");
    assert_eq!(out, expected);
}

#[test]
fn decodes_real_macos_inline_zlib() {
    let expected = words(3000);
    let x = xattr(3, 3000, &encode_zlib(&expected));
    assert_eq!(decompress(&x, None).expect("type-3 zlib must decode"), expected);
}

#[test]
fn decodes_inline_zlib_stored_marker() {
    let expected = words(3000);
    let mut payload = vec![0xFF];
    payload.extend_from_slice(&expected);
    let x = xattr(3, 3000, &payload);
    assert_eq!(decompress(&x, None).expect("stored type-3 must decode"), expected);
}

#[test]
fn decodes_inline_uncompressed() {
    let data = b"the quick brown fox jumps over the lazy dog";
    let x = xattr(1, data.len() as u64, data);
    let out = decompress(&x, None).expect("type-1 uncompressed must decode");
    assert_eq!(out, data);
}

#[test]
fn decodes_real_macos_lzfse_resource_fork() {
    // The table is larger than needed, its unused slots zero.
    let expected = words(150_000);
    let chunks: Vec<Vec<u8>> = expected.chunks(CHUNK_SIZE).map(encode_lzfse).collect();
    let slots = chunks.len() + 5;
    let header_size = 4 * (slots + 1);
    let mut fork = vec![0u8; header_size];
    fork[0..4].copy_from_slice(&(header_size as u32).to_le_bytes());
    let mut end = header_size;
    for (i, chunk) in chunks.iter().enumerate() {
        end += chunk.len();
        fork[4 + 4 * i..8 + 4 * i].copy_from_slice(&(end as u32).to_le_bytes());
    }
    for chunk in &chunks {
        fork.extend_from_slice(chunk);
    }
    let out = decompress(&header(12, 150_000), Some(&fork)).expect("type-12 LZFSE must decode");
    assert_eq!(out, expected);
}

#[test]
fn decodes_real_macos_inline_lzfse() {
    let expected = words(3000);
    let x = xattr(11, 3000, &encode_lzfse(&expected));
    assert_eq!(decompress(&x, None).expect("type-11 LZFSE must decode"), expected);
}

#[test]
fn decodes_inline_lzvn() {
    let expected = words(3000);
    let x = xattr(7, 3000, &encode_lzvn(&expected));
    assert_eq!(decompress(&x, None).expect("type-7 LZVN must decode"), expected);
    let mut stored = vec![0x06];
    stored.extend_from_slice(&expected);
    let x = xattr(7, 3000, &stored);
    assert_eq!(decompress(&x, None).expect("stored type-7 must decode"), expected);
}

#[test]
fn decodes_uncompressed_resource_fork() {
    let mut data = Vec::new();
    for i in 0..(CHUNK_SIZE + 5000) {
        data.push((i % 251) as u8);
    }
    let c0 = data[..CHUNK_SIZE].to_vec();
    let c1 = data[CHUNK_SIZE..].to_vec();
    let fork = chunked_fork(&[c0, c1]);
    let hdr = header(10, data.len() as u64);
    let out = decompress(&hdr, Some(&fork)).expect("type-10 uncompressed fork must decode");
    assert_eq!(out, data);
}

#[test]
fn decodes_inline_uncompressed_type9() {
    let content = b"type 9 is uncompressed-inline, a variant of type 1";
    let mut payload = vec![0xCC];
    payload.extend_from_slice(content);
    let x = xattr(9, content.len() as u64, &payload);
    assert_eq!(decompress(&x, None).expect("type-9 must decode"), content);
}

#[test]
fn decodes_real_tahoe_type8_lzvn_with_trailing_bytes() {
    // Each chunk goes on behind its end-of-stream opcode.
    let expected = words(70_000);
    let chunks: Vec<Vec<u8>> = expected
        .chunks(CHUNK_SIZE)
        .map(|c| {
            let mut chunk = encode_lzvn(c);
            chunk.extend_from_slice(&[0xA5; 300]);
            chunk
        })
        .collect();
    let fork = chunked_fork(&chunks);
    let out = decompress(&header(8, 70_000), Some(&fork)).expect("trailing bytes are ignored");
    assert_eq!(out, expected);
}

#[test]
fn decodes_real_tahoe_type9_inline_marker() {
    let expected = words(120);
    let mut payload = vec![0xCC];
    payload.extend_from_slice(&expected);
    let out = decompress(&xattr(9, 120, &payload), None).expect("type-9 must decode");
    assert_eq!(out, expected);
}

// ---- What is refused ----

#[test]
fn length_mismatch_is_loud() {
    let data = b"the quick brown fox";
    let x = xattr(1, 999, data);
    assert!(matches!(
        decompress(&x, None),
        Err(DecmpfsError::LengthMismatch { expected: 999, .. })
    ));
    assert_eq!(
        decompress(&x, None),
        Err(DecmpfsError::LengthMismatch { expected: 999, got: 19 })
    );
}

#[test]
fn rejects_bad_magic() {
    let mut x = xattr(1, 0, &[]);
    x[0] ^= 0xFF;
    assert!(matches!(decompress(&x, None), Err(DecmpfsError::BadMagic(_))));
    assert_eq!(decompress(&x, None), Err(DecmpfsError::BadMagic(MAGIC ^ 0xFF)));
}

#[test]
fn rejects_truncated_header() {
    assert_eq!(decompress(&[0u8; 8], None), Err(DecmpfsError::Truncated));
}

#[test]
fn rejects_unknown_type() {
    let x = xattr(99, 0, &[]);
    assert_eq!(decompress(&x, None), Err(DecmpfsError::UnknownType(99)));
}

#[test]
fn rejects_lzbitmap_unsupported() {
    let x = xattr(14, 0, &[]);
    assert!(matches!(decompress(&x, None), Err(DecmpfsError::Unsupported(_))));
    assert_eq!(
        decompress(&xattr(13, 0, &[1]), None),
        Err(DecmpfsError::Unsupported("decmpfs LZBitmap (no public spec)"))
    );
}

#[test]
fn rejects_dedup_type5_unsupported() {
    let x = xattr(5, 0, &[]);
    assert!(matches!(decompress(&x, None), Err(DecmpfsError::Unsupported(_))));
}

#[test]
fn resource_fork_type_without_fork_errors() {
    let hdr = header(8, 100);
    assert_eq!(decompress(&hdr, None), Err(DecmpfsError::MissingResourceFork));
}

#[test]
fn error_display_is_self_describing_per_variant() {
    assert_eq!(
        DecmpfsError::Truncated.to_string(),
        "decmpfs xattr shorter than 16-byte header"
    );
    assert_eq!(
        DecmpfsError::BadMagic(0xdead_beef).to_string(),
        "decmpfs bad magic 0xdeadbeef (expected 'cmpf')"
    );
    assert_eq!(
        DecmpfsError::UnknownType(99).to_string(),
        "decmpfs unknown compression_type 99"
    );
    assert_eq!(
        DecmpfsError::Unsupported("LZBitmap (no public spec)").to_string(),
        "decmpfs unsupported: LZBitmap (no public spec)"
    );
    assert_eq!(
        DecmpfsError::MissingResourceFork.to_string(),
        "decmpfs resource-fork type but no resource fork supplied"
    );
    assert_eq!(
        DecmpfsError::OutOfBounds.to_string(),
        "decmpfs length/offset field out of bounds"
    );
    assert_eq!(
        DecmpfsError::Codec("zlib").to_string(),
        "decmpfs codec error: zlib"
    );
    assert_eq!(
        DecmpfsError::LengthMismatch { expected: 999, got: 19 }.to_string(),
        "decmpfs length mismatch: expected 999, got 19"
    );
}

#[test]
fn message_pads_the_magic_to_eight_digits() {
    assert_eq!(
        DecmpfsError::BadMagic(0x1f).to_string(),
        "decmpfs bad magic 0x0000001f (expected 'cmpf')"
    );
    assert_eq!(
        DecmpfsError::UnknownType(0).to_string(),
        "decmpfs unknown compression_type 0"
    );
    assert_eq!(
        DecmpfsError::UnknownType(u32::MAX).to_string(),
        "decmpfs unknown compression_type 4294967295"
    );
}

#[test]
fn codecs_refuse_malformed_streams() {
    assert_eq!(inflate(&[]), Err(DecmpfsError::Codec("zlib")));
    assert_eq!(inflate(b"not a zlib stream"), Err(DecmpfsError::Codec("zlib")));
    let whole = encode_zlib(&words(500));
    assert_eq!(inflate(&whole[..whole.len() / 2]), Err(DecmpfsError::Codec("zlib")));
    assert_eq!(inflate(&whole), Ok(words(500)));
    assert_eq!(lzvn_decode(&[], 10), Err(DecmpfsError::Codec("lzvn")));
    assert_eq!(lzvn_decode(&[0x70], 10), Err(DecmpfsError::Codec("lzvn")));
    assert_eq!(lzvn_decode(&encode_lzvn(b"hello"), 4), Err(DecmpfsError::Codec("lzvn")));
    assert_eq!(lzvn_decode(&encode_lzvn(b"hello"), 9), Ok(b"hello".to_vec()));
    assert_eq!(lzfse_decode(&[]), Err(DecmpfsError::Codec("lzfse/lzvn")));
    assert_eq!(lzfse_decode(b"bvx?"), Err(DecmpfsError::Codec("lzfse/lzvn")));
    assert_eq!(lzfse_decode(&encode_lzfse(b"hello")), Ok(b"hello".to_vec()));
}

#[test]
fn header_alone_of_a_coded_payload_is_refused() {
    for kind in [3u32, 7, 11] {
        for size in [0u64, 5] {
            assert!(matches!(
                decompress(&header(kind, size), None),
                Err(DecmpfsError::Codec(_))
            ));
        }
    }
    assert_eq!(decompress(&header(1, 0), None), Ok(Vec::new()));
    assert_eq!(decompress(&header(9, 0), None), Ok(Vec::new()));
}

#[test]
fn oversized_lzvn_claim_fails_the_length_check() {
    let x = xattr(7, u64::MAX, &encode_lzvn(b"hello"));
    assert!(matches!(
        decompress(&x, None),
        Err(DecmpfsError::LengthMismatch { got: 5, .. })
    ));
}

#[test]
fn fork_offsets_out_of_bounds_are_refused() {
    let short = [0u8; 3];
    assert_eq!(
        decompress(&header(4, 1), Some(&short)),
        Err(DecmpfsError::OutOfBounds)
    );
    assert_eq!(
        decompress(&header(8, 1), Some(&short)),
        Err(DecmpfsError::OutOfBounds)
    );
    // A header size below four leaves no room for the size itself.
    assert_eq!(
        decompress(&header(10, 1), Some(&[3, 0, 0, 0])),
        Err(DecmpfsError::OutOfBounds)
    );
    // The only chunk ends before it begins.
    let mut fork = chunked_fork(&[vec![1, 2, 3]]);
    fork[4] = 7;
    assert_eq!(
        decompress(&header(10, 3), Some(&fork)),
        Err(DecmpfsError::OutOfBounds)
    );
    // The only chunk ends behind the fork.
    fork[4] = 12;
    assert_eq!(
        decompress(&header(10, 3), Some(&fork)),
        Err(DecmpfsError::OutOfBounds)
    );
    // A zlib header size behind the fork.
    assert_eq!(
        decompress(&header(4, 3), Some(&[0xFF; 16])),
        Err(DecmpfsError::OutOfBounds)
    );
    // A block table that is cut short.
    let mut table = zlib_fork(b"data");
    table.truncate(0x100 + 4 + 4 + 3);
    assert_eq!(
        decompress(&header(4, 4), Some(&table)),
        Err(DecmpfsError::OutOfBounds)
    );
}

#[test]
fn no_bytes_are_read_behind_a_complete_file() {
    // The second slot is nonsense, but the first chunk completes the file.
    let mut fork = chunked_fork(&[b"abc".to_vec(), b"xyz".to_vec()]);
    fork[8..12].copy_from_slice(&u32::MAX.to_le_bytes());
    assert_eq!(decompress(&header(10, 3), Some(&fork)), Ok(b"abc".to_vec()));
    assert_eq!(
        decompress(&header(10, 6), Some(&fork)),
        Err(DecmpfsError::OutOfBounds)
    );
    // Without chunks, only an empty file is complete.
    let none = chunked_fork(&[]);
    assert_eq!(decompress(&header(10, 0), Some(&none)), Ok(Vec::new()));
    assert_eq!(
        decompress(&header(10, 1), Some(&none)),
        Err(DecmpfsError::LengthMismatch { expected: 1, got: 0 })
    );
}

#[test]
fn codec_error_comes_before_a_later_bounds_error() {
    let mut fork = zlib_fork(&words(CHUNK_SIZE + 10));
    let table = 0x104;
    let first = table
        + u32::from_le_bytes([
            fork[table + 4],
            fork[table + 5],
            fork[table + 6],
            fork[table + 7],
        ]) as usize;
    fork[first] = 0;
    fork[table + 12..table + 16].copy_from_slice(&u32::MAX.to_le_bytes());
    assert_eq!(
        decompress(&header(4, (CHUNK_SIZE + 10) as u64), Some(&fork)),
        Err(DecmpfsError::Codec("zlib"))
    );
}

// ---- The steps ----

#[test]
fn steps_around_the_codecs() {
    let fork = zlib_fork(b"payload");
    let block = zlib_block(&fork, 0x104, 0).unwrap();
    assert_eq!(inflate(block), Ok(b"payload".to_vec()));
    assert_eq!(zlib_block(&fork, 0x104, 1), Err(DecmpfsError::OutOfBounds));
    assert_eq!(zlib_block(&fork, usize::MAX, 0), Err(DecmpfsError::OutOfBounds));

    let fork = chunked_fork(&[b"ab".to_vec(), b"cde".to_vec()]);
    assert_eq!(chunk_at(&fork, 0, 12), Ok(&b"ab"[..]));
    assert_eq!(chunk_at(&fork, 1, 14), Ok(&b"cde"[..]));
    assert_eq!(chunk_at(&fork, usize::MAX, 14), Err(DecmpfsError::OutOfBounds));
    assert_eq!(
        decode_chunk(Algorithm::Zlib, b"ab", 2),
        Err(DecmpfsError::Codec("unexpected algorithm for chunked fork"))
    );
    assert_eq!(
        decode_chunked_resource_fork(Algorithm::Uncompressed, &fork, 5),
        Ok(b"abcde".to_vec())
    );
    assert_eq!(
        decode_resource_fork(Algorithm::Other, &fork, 5),
        Err(DecmpfsError::Unsupported("decmpfs unsupported algorithm"))
    );
    assert_eq!(
        decode_inline(Algorithm::Other, b"x", 1, 1),
        Err(DecmpfsError::Unsupported("decmpfs unsupported algorithm"))
    );

    let mut out = b"ab".to_vec();
    assert_eq!(extend_decoded(&mut out, Ok(b"cd".to_vec())), Ok(()));
    assert_eq!(
        extend_decoded(&mut out, Err(DecmpfsError::Codec("zlib"))),
        Err(DecmpfsError::Codec("zlib"))
    );
    assert_eq!(out, b"abcd");

    assert_eq!(check_length(Ok(vec![1, 2]), 2), Ok(vec![1, 2]));
    assert_eq!(
        check_length(Ok(vec![1, 2]), 3),
        Err(DecmpfsError::LengthMismatch { expected: 3, got: 2 })
    );
    assert_eq!(
        check_length(Err(DecmpfsError::Truncated), 3),
        Err(DecmpfsError::Truncated)
    );
}

#[test]
fn header_layout_agrees_with_the_format_tables() {
    assert_eq!(MAGIC, forensicnomicon::decmpfs::MAGIC);
    assert_eq!(HEADER_LEN, forensicnomicon::decmpfs::HEADER_LEN);
    assert_eq!(
        COMPRESSION_TYPE_OFFSET,
        forensicnomicon::decmpfs::COMPRESSION_TYPE_OFFSET
    );
    assert_eq!(
        UNCOMPRESSED_SIZE_OFFSET,
        forensicnomicon::decmpfs::UNCOMPRESSED_SIZE_OFFSET
    );
    assert_eq!(CHUNK_SIZE, forensicnomicon::decmpfs::CHUNK_SIZE);
}
