//! Transparent compression (`decmpfs`): from the attribute and the resource fork
//! back to the bytes of the file.
//!
//! A compressed file carries a `com.apple.decmpfs` attribute whose 16-byte
//! header gives a compression type and the size of the file.
//!
//! - Inline types keep the payload behind the header. A zlib payload that begins
//!   with `0xFF`, an LZVN payload that begins with `0x06` and every type-9
//!   payload are stored as they are, behind that one byte.
//! - The zlib resource fork (type 4) begins with a big-endian header size. Four
//!   bytes behind the header stands the block table: a little-endian count, then
//!   as many little-endian `(offset, size)` pairs, the offsets counted from the
//!   table. Each block is a zlib stream of its own.
//! - The other resource forks (types 8, 10 and 12) begin with a little-endian
//!   header size, then the end offset of each chunk. The first chunk begins
//!   behind the header, each further one where the last has ended. The table may
//!   be padded: chunks are read only until the file is complete.

use crate::bytes::{be32, le32, le64};
use crate::codecs::{classify, zlib_read_to_end, Algorithm, Compression, Storage, CHUNK_SIZE};
use crate::text::{push_decimal, push_hex};
use vstd::prelude::*;

verus! {

broadcast use vstd::slice::axiom_spec_len;

/// The magic number `cmpf`.
pub const MAGIC: u32 = 0x636d_7066;

/// Length of the header.
pub const HEADER_LEN: usize = 16;

/// Offset of the compression type in the header.
pub const COMPRESSION_TYPE_OFFSET: usize = 4;

/// Offset of the uncompressed size in the header.
pub const UNCOMPRESSED_SIZE_OFFSET: usize = 8;

/// Compression type whose inline payload stands behind one marker byte.
pub const MARKED_TYPE: u32 = 9;

/// Compression type of the de-dup generation store, which has no payload here.
pub const DEDUP_TYPE: u32 = 5;

/// First byte of an inline zlib payload that is stored as it is.
pub const ZLIB_STORED: u8 = 0xFF;

/// First byte of an inline LZVN payload that is stored as it is.
pub const LZVN_STORED: u8 = 0x06;

/// A decode failure. A file that cannot be decoded whole is never returned in
/// part.
#[derive(Debug, Clone, PartialEq, Eq)]
pub enum DecmpfsError {
    /// The attribute is shorter than the 16-byte header.
    Truncated,
    /// The header magic was not `cmpf`.
    BadMagic(u32),
    /// The compression type is not a documented value.
    UnknownType(u32),
    /// A documented but unsupported type.
    Unsupported(&'static str),
    /// A resource-fork type was seen but no resource fork was supplied.
    MissingResourceFork,
    /// A length or offset field pointed outside the available bytes.
    OutOfBounds,
    /// The underlying codec rejected the stream.
    Codec(&'static str),
    /// The decoded length did not match the header's uncompressed size.
    LengthMismatch {
        /// The uncompressed size from the header, as a machine size.
        expected: usize,
        /// Bytes actually produced.
        got: usize,
    },
}

/// The error of every decoder in this module.
pub type DecodeError = DecmpfsError;

/// The message that describes an error.
pub open spec fn error_text(error: DecodeError) -> Seq<char> {
    match error {
        DecodeError::Truncated => "decmpfs xattr shorter than 16-byte header"@,
        DecodeError::BadMagic(magic) => "decmpfs bad magic 0x"@ + crate::text::hex(magic as int, 8)
            + " (expected 'cmpf')"@,
        DecodeError::UnknownType(kind) => "decmpfs unknown compression_type "@
            + crate::text::decimal(kind as int),
        DecodeError::Unsupported(what) => "decmpfs unsupported: "@ + what@,
        DecodeError::MissingResourceFork =>
            "decmpfs resource-fork type but no resource fork supplied"@,
        DecodeError::OutOfBounds => "decmpfs length/offset field out of bounds"@,
        DecodeError::Codec(codec) => "decmpfs codec error: "@ + codec@,
        DecodeError::LengthMismatch { expected, got } => "decmpfs length mismatch: expected "@
            + crate::text::decimal(expected as int) + ", got "@ + crate::text::decimal(got as int),
    }
}

impl DecmpfsError {
    /// The message that describes this error.
    #[must_use]
    pub fn to_string(&self) -> (text: String)
        ensures
            text@ == error_text(*self),
    {
        match self {
            DecodeError::Truncated => "decmpfs xattr shorter than 16-byte header".to_owned(),
            DecodeError::BadMagic(magic) => {
                let mut text: String = "decmpfs bad magic 0x".to_owned();
                push_hex(&mut text, *magic, 8);
                text.append(" (expected 'cmpf')");
                text
            },
            DecodeError::UnknownType(kind) => {
                let mut text: String = "decmpfs unknown compression_type ".to_owned();
                push_decimal(&mut text, *kind as u64);
                text
            },
            DecodeError::Unsupported(what) => {
                let mut text: String = "decmpfs unsupported: ".to_owned();
                text.append(what);
                text
            },
            DecodeError::MissingResourceFork =>
                "decmpfs resource-fork type but no resource fork supplied".to_owned(),
            DecodeError::OutOfBounds => "decmpfs length/offset field out of bounds".to_owned(),
            DecodeError::Codec(codec) => {
                let mut text: String = "decmpfs codec error: ".to_owned();
                text.append(codec);
                text
            },
            DecodeError::LengthMismatch { expected, got } => {
                let mut text: String = "decmpfs length mismatch: expected ".to_owned();
                push_decimal(&mut text, *expected as u64);
                text.append(", got ");
                push_decimal(&mut text, *got as u64);
                text
            },
        }
    }
}

/// A decode result, its bytes taken by their view.
pub open spec fn result_model(result: Result<Vec<u8>, DecodeError>) -> Result<
    Seq<u8>,
    DecodeError,
> {
    match result {
        Ok(bytes) => Ok(bytes@),
        Err(error) => Err(error),
    }
}

/// The result of a codec: what it decoded, or the error that names it.
pub open spec fn codec_result(decoded: Option<Seq<u8>>, codec: &'static str) -> Result<
    Seq<u8>,
    DecodeError,
> {
    match decoded {
        Some(bytes) => Ok(bytes),
        None => Err(DecodeError::Codec(codec)),
    }
}

/// `payload` without its first byte; an empty payload stays empty.
pub open spec fn behind_marker(payload: Seq<u8>) -> Seq<u8> {
    if payload.len() == 0 {
        payload
    } else {
        payload.skip(1)
    }
}

/// What an inline payload decodes to.
pub open spec fn inline_result(
    algorithm: Algorithm,
    payload: Seq<u8>,
    size: int,
    compression_type: u32,
) -> Result<Seq<u8>, DecodeError> {
    match algorithm {
        Algorithm::Uncompressed => if compression_type == MARKED_TYPE {
            Ok(behind_marker(payload))
        } else {
            Ok(payload)
        },
        Algorithm::Zlib => if payload.len() > 0 && payload[0] == ZLIB_STORED {
            Ok(behind_marker(payload))
        } else {
            codec_result(crate::codecs::zlib_content(payload), "zlib")
        },
        Algorithm::Lzvn => if payload.len() > 0 && payload[0] == LZVN_STORED {
            Ok(behind_marker(payload))
        } else {
            codec_result(
                crate::codecs::lzvn_content(
                    payload,
                    crate::numbers::lesser(size, CHUNK_SIZE as int) as usize,
                ),
                "lzvn",
            )
        },
        Algorithm::Lzfse => codec_result(crate::codecs::lzfse_content(payload), "lzfse/lzvn"),
        Algorithm::LzBitmap | Algorithm::Other => Err(
            DecodeError::Unsupported("decmpfs unsupported algorithm"),
        ),
    }
}

/// The compressed bytes of block `i` of the block table at `table`, or `None`
/// when the table entry or the block runs off the end of the fork.
pub open spec fn zlib_block_bytes(fork: Seq<u8>, table: int, i: int) -> Option<Seq<u8>> {
    let entry = table + 4 + 8 * i;
    let start = table + crate::bytes::le32_at(fork, entry);
    let end = start + crate::bytes::le32_at(fork, entry + 4);
    if entry + 8 > fork.len() || end > fork.len() {
        None
    } else {
        Some(fork.subrange(start, end))
    }
}

/// What the blocks from `i` on add to the bytes `got` so far.
pub open spec fn zlib_blocks_result(
    fork: Seq<u8>,
    table: int,
    count: int,
    i: int,
    got: Seq<u8>,
) -> Result<Seq<u8>, DecodeError>
    decreases count - i,
{
    if i >= count {
        Ok(got)
    } else {
        match zlib_block_bytes(fork, table, i) {
            None => Err(DecodeError::OutOfBounds),
            Some(block) => match codec_result(crate::codecs::zlib_content(block), "zlib") {
                Err(error) => Err(error),
                Ok(bytes) => zlib_blocks_result(fork, table, count, i + 1, got + bytes),
            },
        }
    }
}

/// What a zlib resource fork decodes to.
pub open spec fn zlib_fork_result(fork: Seq<u8>) -> Result<Seq<u8>, DecodeError> {
    let table = crate::bytes::be32_at(fork, 0) + 4;
    if fork.len() < 4 || table + 4 > fork.len() {
        Err(DecodeError::OutOfBounds)
    } else {
        zlib_blocks_result(
            fork,
            table,
            crate::bytes::le32_at(fork, table) as int,
            0,
            Seq::empty(),
        )
    }
}

/// What a chunk of a resource fork decodes to, where `size` bytes are due.
pub open spec fn chunk_result(algorithm: Algorithm, chunk: Seq<u8>, size: usize) -> Result<
    Seq<u8>,
    DecodeError,
> {
    match algorithm {
        Algorithm::Lzvn => codec_result(crate::codecs::lzvn_content(chunk, size), "lzvn"),
        Algorithm::Lzfse => codec_result(crate::codecs::lzfse_content(chunk), "lzfse/lzvn"),
        Algorithm::Uncompressed => Ok(chunk),
        Algorithm::Zlib | Algorithm::LzBitmap | Algorithm::Other => Err(
            DecodeError::Codec("unexpected algorithm for chunked fork"),
        ),
    }
}

/// The bytes of the chunk in table slot `i` that begins at `start`, or `None`
/// when the slot or the chunk runs off the end of the fork, or the chunk would
/// end before it begins.
pub open spec fn chunk_bytes(fork: Seq<u8>, i: int, start: int) -> Option<Seq<u8>> {
    let slot = 4 + 4 * i;
    let end = crate::bytes::le32_at(fork, slot);
    if slot + 4 > fork.len() || end < start || end > fork.len() {
        None
    } else {
        Some(fork.subrange(start, end as int))
    }
}

/// What the chunks from table slot `i` on, the first of which begins at `start`,
/// add to the bytes `got` so far. The chunks end with the table, or as soon as
/// `size` bytes are there.
pub open spec fn chunks_result(
    algorithm: Algorithm,
    fork: Seq<u8>,
    slots: int,
    size: int,
    i: int,
    start: int,
    got: Seq<u8>,
) -> Result<Seq<u8>, DecodeError>
    decreases slots - i,
{
    if i >= slots || got.len() >= size {
        Ok(got)
    } else {
        match chunk_bytes(fork, i, start) {
            None => Err(DecodeError::OutOfBounds),
            Some(chunk) => match chunk_result(
                algorithm,
                chunk,
                crate::numbers::lesser(size - got.len(), CHUNK_SIZE as int) as usize,
            ) {
                Err(error) => Err(error),
                Ok(bytes) => chunks_result(
                    algorithm,
                    fork,
                    slots,
                    size,
                    i + 1,
                    start + chunk.len(),
                    got + bytes,
                ),
            },
        }
    }
}

/// What a chunked resource fork decodes to.
pub open spec fn chunked_fork_result(algorithm: Algorithm, fork: Seq<u8>, size: int) -> Result<
    Seq<u8>,
    DecodeError,
> {
    let header_size = crate::bytes::le32_at(fork, 0);
    if fork.len() < 4 || header_size < 4 {
        Err(DecodeError::OutOfBounds)
    } else {
        chunks_result(
            algorithm,
            fork,
            header_size as int / 4 - 1,
            size,
            0,
            header_size as int,
            Seq::empty(),
        )
    }
}

/// What a resource fork decodes to.
pub open spec fn fork_result(algorithm: Algorithm, fork: Seq<u8>, size: int) -> Result<
    Seq<u8>,
    DecodeError,
> {
    match algorithm {
        Algorithm::Zlib => zlib_fork_result(fork),
        Algorithm::Lzvn | Algorithm::Lzfse | Algorithm::Uncompressed => chunked_fork_result(
            algorithm,
            fork,
            size,
        ),
        Algorithm::LzBitmap | Algorithm::Other => Err(
            DecodeError::Unsupported("decmpfs unsupported algorithm"),
        ),
    }
}

/// A file size as a machine size: the largest one when it is larger still.
pub open spec fn machine_size(size: u64) -> usize {
    if size <= usize::MAX {
        size as usize
    } else {
        usize::MAX
    }
}

/// The decoded bytes, if there are `expected` of them.
pub open spec fn whole_result(decoded: Result<Seq<u8>, DecodeError>, expected: u64) -> Result<
    Seq<u8>,
    DecodeError,
> {
    match decoded {
        Err(error) => Err(error),
        Ok(bytes) => if bytes.len() == expected {
            Ok(bytes)
        } else {
            Err(
                DecodeError::LengthMismatch {
                    expected: machine_size(expected),
                    got: bytes.len() as usize,
                },
            )
        },
    }
}

/// The compression type that a header declares.
pub open spec fn declared_type(xattr: Seq<u8>) -> u32 {
    crate::bytes::le32_at(xattr, COMPRESSION_TYPE_OFFSET as int)
}

/// The file size that a header declares.
pub open spec fn declared_size(xattr: Seq<u8>) -> u64 {
    crate::bytes::le64_at(xattr, UNCOMPRESSED_SIZE_OFFSET as int)
}

/// What a compressed file decodes to, given its attribute and its resource fork.
pub open spec fn file_result(xattr: Seq<u8>, resource_fork: Option<Seq<u8>>) -> Result<
    Seq<u8>,
    DecodeError,
> {
    if xattr.len() < HEADER_LEN {
        Err(DecodeError::Truncated)
    } else if crate::bytes::le32_at(xattr, 0) != MAGIC {
        Err(DecodeError::BadMagic(crate::bytes::le32_at(xattr, 0)))
    } else {
        let kind = declared_type(xattr);
        let size = declared_size(xattr);
        match crate::codecs::compression_of(kind) {
            None => if kind == DEDUP_TYPE {
                Err(DecodeError::Unsupported("decmpfs type 5 (de-dup generation store)"))
            } else {
                Err(DecodeError::UnknownType(kind))
            },
            Some(compression) => if compression.algorithm == Algorithm::LzBitmap {
                Err(DecodeError::Unsupported("decmpfs LZBitmap (no public spec)"))
            } else {
                match compression.storage {
                    Storage::Inline => whole_result(
                        inline_result(
                            compression.algorithm,
                            xattr.skip(HEADER_LEN as int),
                            machine_size(size) as int,
                            kind,
                        ),
                        size,
                    ),
                    Storage::ResourceFork => match resource_fork {
                        None => Err(DecodeError::MissingResourceFork),
                        Some(fork) => whole_result(
                            fork_result(compression.algorithm, fork, machine_size(size) as int),
                            size,
                        ),
                    },
                }
            },
        }
    }
}

/// A resource fork that may be absent, taken by its view.
pub open spec fn fork_view(resource_fork: Option<&[u8]>) -> Option<Seq<u8>> {
    match resource_fork {
        Some(fork) => Some(fork@),
        None => None,
    }
}

/// Decodes a compressed file to its original bytes.
///
/// `xattr` is the raw `com.apple.decmpfs` attribute. `resource_fork` is needed
/// only for the resource-fork types; pass `None` when the file has none.
///
/// # Errors
///
/// Returns a [`DecodeError`] on a malformed header, an unsupported algorithm, a
/// missing resource fork, a codec failure or a length mismatch. It never returns
/// a partially decoded buffer as success.
pub fn decompress(xattr: &[u8], resource_fork: Option<&[u8]>) -> (decoded: Result<
    Vec<u8>,
    DecodeError,
>)
    ensures
        result_model(decoded) == file_result(xattr@, fork_view(resource_fork)),
        decoded matches Ok(bytes) ==> xattr@.len() >= HEADER_LEN && bytes@.len() == declared_size(
            xattr@,
        ),
{
    let len: usize = xattr.len();
    if len < HEADER_LEN {
        return Err(DecodeError::Truncated);
    }
    let magic: u32 = le32(xattr, 0);
    if magic != MAGIC {
        return Err(DecodeError::BadMagic(magic));
    }
    let compression_type: u32 = le32(xattr, COMPRESSION_TYPE_OFFSET);
    let declared: u64 = le64(xattr, UNCOMPRESSED_SIZE_OFFSET);
    let uncompressed_size: usize = to_machine_size(declared);
    let kind: Compression = match classify(compression_type) {
        Some(kind) => kind,
        None => {
            return if compression_type == DEDUP_TYPE {
                Err(DecodeError::Unsupported("decmpfs type 5 (de-dup generation store)"))
            } else {
                Err(DecodeError::UnknownType(compression_type))
            };
        },
    };
    if kind.algorithm == Algorithm::LzBitmap {
        return Err(DecodeError::Unsupported("decmpfs LZBitmap (no public spec)"));
    }
    let decoded = match kind.storage {
        Storage::Inline => {
            assert(xattr@.skip(HEADER_LEN as int) =~= xattr@.subrange(
                HEADER_LEN as int,
                len as int,
            ));
            decode_inline(
                kind.algorithm,
                &xattr[HEADER_LEN..len],
                uncompressed_size,
                compression_type,
            )
        },
        Storage::ResourceFork => match resource_fork {
            Some(fork) => decode_resource_fork(kind.algorithm, fork, uncompressed_size),
            None => return Err(DecodeError::MissingResourceFork),
        },
    };
    check_length(decoded, declared)
}

/// Converts a file size to a machine size.
fn to_machine_size(size: u64) -> (converted: usize)
    ensures
        converted == machine_size(size),
{
    if size <= usize::MAX as u64 {
        size as usize
    } else {
        usize::MAX
    }
}

/// Passes decoded bytes on if there are `expected` of them.
pub fn check_length(decoded: Result<Vec<u8>, DecodeError>, expected: u64) -> (checked: Result<
    Vec<u8>,
    DecodeError,
>)
    ensures
        result_model(checked) == whole_result(result_model(decoded), expected),
{
    match decoded {
        Err(error) => Err(error),
        Ok(bytes) => {
            if bytes.len() as u64 != expected {
                return Err(
                    DecodeError::LengthMismatch {
                        expected: to_machine_size(expected),
                        got: bytes.len(),
                    },
                );
            }
            Ok(bytes)
        },
    }
}

/// Copies a payload without its first byte.
fn strip_marker(payload: &[u8]) -> (bytes: Vec<u8>)
    ensures
        bytes@ == behind_marker(payload@),
{
    let len: usize = payload.len();
    if len == 0 {
        return Vec::new();
    }
    assert(payload@.skip(1) =~= payload@.subrange(1, len as int));
    vstd::slice::slice_to_vec(&payload[1..len])
}

/// Decodes an inline payload that follows the header.
pub fn decode_inline(
    algorithm: Algorithm,
    payload: &[u8],
    uncompressed_size: usize,
    compression_type: u32,
) -> (decoded: Result<Vec<u8>, DecodeError>)
    ensures
        result_model(decoded) == inline_result(
            algorithm,
            payload@,
            uncompressed_size as int,
            compression_type,
        ),
{
    match algorithm {
        Algorithm::Uncompressed => {
            if compression_type == MARKED_TYPE {
                Ok(strip_marker(payload))
            } else {
                Ok(vstd::slice::slice_to_vec(payload))
            }
        },
        Algorithm::Zlib => {
            if payload.len() > 0 && payload[0] == ZLIB_STORED {
                Ok(strip_marker(payload))
            } else {
                inflate(payload)
            }
        },
        Algorithm::Lzvn => {
            if payload.len() > 0 && payload[0] == LZVN_STORED {
                Ok(strip_marker(payload))
            } else {
                // An inline payload decodes to at most one chunk. A larger claim
                // fails the length check, and never sizes a buffer.
                let capacity: usize = if uncompressed_size <= CHUNK_SIZE {
                    uncompressed_size
                } else {
                    CHUNK_SIZE
                };
                lzvn_decode(payload, capacity)
            }
        },
        Algorithm::Lzfse => lzfse_decode(payload),
        Algorithm::LzBitmap | Algorithm::Other => Err(
            DecodeError::Unsupported("decmpfs unsupported algorithm"),
        ),
    }
}

/// Decodes a payload that stands in the resource fork.
pub fn decode_resource_fork(algorithm: Algorithm, fork: &[u8], uncompressed_size: usize) -> (decoded:
    Result<Vec<u8>, DecodeError>)
    ensures
        result_model(decoded) == fork_result(algorithm, fork@, uncompressed_size as int),
{
    match algorithm {
        Algorithm::Zlib => decode_zlib_resource_fork(fork),
        Algorithm::Lzvn | Algorithm::Lzfse | Algorithm::Uncompressed => {
            decode_chunked_resource_fork(algorithm, fork, uncompressed_size)
        },
        Algorithm::LzBitmap | Algorithm::Other => Err(
            DecodeError::Unsupported("decmpfs unsupported algorithm"),
        ),
    }
}

/// Appends decoded bytes to `out`, or passes the error on and leaves `out` as it
/// is.
pub fn extend_decoded(out: &mut Vec<u8>, decoded: Result<Vec<u8>, DecodeError>) -> (extended:
    Result<(), DecodeError>)
    ensures
        match result_model(decoded) {
            Ok(bytes) => extended is Ok && final(out)@ == old(out)@ + bytes,
            Err(error) => extended == Err::<(), DecodeError>(error) && final(out)@ == old(out)@,
        },
{
    match decoded {
        Ok(bytes) => {
            out.extend_from_slice(bytes.as_slice());
            assert(out@ =~= old(out)@ + bytes@);
            Ok(())
        },
        Err(error) => Err(error),
    }
}

/// The compressed bytes of block `i` of the block table at `table`.
pub fn zlib_block(fork: &[u8], table: usize, i: usize) -> (block: Result<&[u8], DecodeError>)
    ensures
        match block {
            Ok(block) => zlib_block_bytes(fork@, table as int, i as int) == Some(block@),
            Err(error) => {
                &&& zlib_block_bytes(fork@, table as int, i as int) is None
                &&& error == DecodeError::OutOfBounds
            },
        },
{
    let len: usize = fork.len();
    // 8 * i + 12 bytes from the table to the end of its entry.
    if table > len || len - table < 12 || i > (len - table - 12) / 8 {
        return Err(DecodeError::OutOfBounds);
    }
    let entry: usize = table + 4 + 8 * i;
    let offset: usize = le32(fork, entry) as usize;
    let size: usize = le32(fork, entry + 4) as usize;
    if offset > len - table || size > len - table - offset {
        return Err(DecodeError::OutOfBounds);
    }
    Ok(&fork[table + offset..table + offset + size])
}

/// Decodes a zlib resource fork (type 4).
pub fn decode_zlib_resource_fork(fork: &[u8]) -> (decoded: Result<Vec<u8>, DecodeError>)
    ensures
        result_model(decoded) == zlib_fork_result(fork@),
{
    let len: usize = fork.len();
    if len < 8 {
        return Err(DecodeError::OutOfBounds);
    }
    let header_size: usize = be32(fork, 0) as usize;
    if header_size > len - 8 {
        return Err(DecodeError::OutOfBounds);
    }
    let table: usize = header_size + 4;
    let num_blocks: usize = le32(fork, table) as usize;
    let mut out: Vec<u8> = Vec::new();
    let mut i: usize = 0;
    while i < num_blocks
        invariant
            i <= num_blocks,
            zlib_blocks_result(fork@, table as int, num_blocks as int, i as int, out@)
                == zlib_fork_result(fork@),
        decreases num_blocks - i,
    {
        let block = match zlib_block(fork, table, i) {
            Ok(block) => block,
            Err(error) => return Err(error),
        };
        if let Err(error) = extend_decoded(&mut out, inflate(block)) {
            return Err(error);
        }
        i = i + 1;
    }
    Ok(out)
}

/// The bytes of the chunk in table slot `i` that begins at `start`.
pub fn chunk_at(fork: &[u8], i: usize, start: usize) -> (chunk: Result<&[u8], DecodeError>)
    ensures
        match chunk {
            Ok(chunk) => chunk_bytes(fork@, i as int, start as int) == Some(chunk@),
            Err(error) => {
                &&& chunk_bytes(fork@, i as int, start as int) is None
                &&& error == DecodeError::OutOfBounds
            },
        },
{
    let len: usize = fork.len();
    if len < 8 || i > (len - 8) / 4 {
        return Err(DecodeError::OutOfBounds);
    }
    let end: usize = le32(fork, 4 + 4 * i) as usize;
    if end < start || end > len {
        return Err(DecodeError::OutOfBounds);
    }
    Ok(&fork[start..end])
}

/// Decodes one chunk of a resource fork, where `size` bytes are due.
pub fn decode_chunk(algorithm: Algorithm, chunk: &[u8], size: usize) -> (decoded: Result<
    Vec<u8>,
    DecodeError,
>)
    requires
        size <= CHUNK_SIZE,
    ensures
        result_model(decoded) == chunk_result(algorithm, chunk@, size),
{
    match algorithm {
        Algorithm::Lzvn => lzvn_decode(chunk, size),
        Algorithm::Lzfse => lzfse_decode(chunk),
        Algorithm::Uncompressed => Ok(vstd::slice::slice_to_vec(chunk)),
        Algorithm::Zlib | Algorithm::LzBitmap | Algorithm::Other => Err(
            DecodeError::Codec("unexpected algorithm for chunked fork"),
        ),
    }
}

/// Decodes an LZVN, LZFSE or uncompressed resource fork (types 8, 12 and 10).
pub fn decode_chunked_resource_fork(
    algorithm: Algorithm,
    fork: &[u8],
    uncompressed_size: usize,
) -> (decoded: Result<Vec<u8>, DecodeError>)
    ensures
        result_model(decoded) == chunked_fork_result(algorithm, fork@, uncompressed_size as int),
{
    if fork.len() < 4 {
        return Err(DecodeError::OutOfBounds);
    }
    let header_size: usize = le32(fork, 0) as usize;
    if header_size < 4 {
        return Err(DecodeError::OutOfBounds);
    }
    let n_slots: usize = header_size / 4 - 1;
    let mut out: Vec<u8> = Vec::new();
    let mut src: usize = header_size;
    let mut i: usize = 0;
    while i < n_slots && out.len() < uncompressed_size
        invariant
            i <= n_slots,
            chunks_result(
                algorithm,
                fork@,
                n_slots as int,
                uncompressed_size as int,
                i as int,
                src as int,
                out@,
            ) == chunked_fork_result(algorithm, fork@, uncompressed_size as int),
        decreases n_slots - i,
    {
        let chunk = match chunk_at(fork, i, src) {
            Ok(chunk) => chunk,
            Err(error) => return Err(error),
        };
        let due: usize = uncompressed_size - out.len();
        let size: usize = if due <= CHUNK_SIZE {
            due
        } else {
            CHUNK_SIZE
        };
        if let Err(error) = extend_decoded(&mut out, decode_chunk(algorithm, chunk, size)) {
            return Err(error);
        }
        src = src + chunk.len();
        i = i + 1;
    }
    Ok(out)
}

/// Inflates a zlib stream.
pub fn inflate(data: &[u8]) -> (decoded: Result<Vec<u8>, DecodeError>)
    ensures
        result_model(decoded) == codec_result(crate::codecs::zlib_content(data@), "zlib"),
{
    match zlib_read_to_end(data) {
        Ok(bytes) => Ok(bytes),
        Err(_) => Err(DecodeError::Codec("zlib")),
    }
}

/// Decodes a raw LZVN chunk. Bytes behind the end-of-stream opcode are ignored.
pub fn lzvn_decode(chunk: &[u8], uncompressed_len: usize) -> (decoded: Result<
    Vec<u8>,
    DecodeError,
>)
    requires
        uncompressed_len <= CHUNK_SIZE,
    ensures
        result_model(decoded) == codec_result(
            crate::codecs::lzvn_content(chunk@, uncompressed_len),
            "lzvn",
        ),
        decoded matches Ok(bytes) ==> bytes@.len() <= uncompressed_len,
{
    match lzvn::decode(chunk, uncompressed_len) {
        Ok(bytes) => Ok(bytes),
        Err(_) => Err(DecodeError::Codec("lzvn")),
    }
}

/// Decodes a complete LZFSE stream.
pub fn lzfse_decode(stream: &[u8]) -> (decoded: Result<Vec<u8>, DecodeError>)
    ensures
        result_model(decoded) == codec_result(
            crate::codecs::lzfse_content(stream@),
            "lzfse/lzvn",
        ),
{
    let mut out: Vec<u8> = Vec::new();
    match lzfse_rust::decode_bytes(stream, &mut out) {
        Ok(_) => Ok(out),
        Err(_) => Err(DecodeError::Codec("lzfse/lzvn")),
    }
}

} // verus!
