//! The codecs behind transparent compression, and the table of its types.
//!
//! Inflating, LZVN and LZFSE decoding are done by other crates. Each result is
//! a function of the input alone, and has a name here that the contracts of the
//! decoder speak of.

use std::io::Read;
use vstd::prelude::*;

verus! {

/// Most bytes that one chunk of a compressed file decodes to.
pub const CHUNK_SIZE: usize = 65536;

/// The error type of `std::io`.
#[verifier::external_type_specification]
#[verifier::external_body]
pub struct ExIoError(std::io::Error);

/// The error type of `lzvn`.
#[verifier::external_type_specification]
#[verifier::external_body]
pub struct ExLzvnError(lzvn::Error);

/// The error type of `lzfse_rust`.
#[verifier::external_type_specification]
#[verifier::external_body]
pub struct ExLzfseError(lzfse_rust::Error);

/// What a zlib stream inflates to, or `None` when it is not a whole zlib stream.
pub uninterp spec fn zlib_inflated(data: Seq<u8>) -> Option<Seq<u8>>;

/// What a raw LZVN stream decodes to in a buffer of `capacity` bytes, or `None`
/// when it is malformed or does not fit.
pub uninterp spec fn lzvn_decoded(data: Seq<u8>, capacity: usize) -> Option<Seq<u8>>;

/// What an LZFSE stream decodes to, or `None` when it is malformed.
pub uninterp spec fn lzfse_decoded(data: Seq<u8>) -> Option<Seq<u8>>;

/// What the zlib stream `data` holds; an empty one is no stream.
pub open spec fn zlib_content(data: Seq<u8>) -> Option<Seq<u8>> {
    if data.len() == 0 {
        None
    } else {
        zlib_inflated(data)
    }
}

/// What the raw LZVN stream `data` holds, in a buffer of `capacity` bytes; an
/// empty one is no stream.
pub open spec fn lzvn_content(data: Seq<u8>, capacity: usize) -> Option<Seq<u8>> {
    if data.len() == 0 {
        None
    } else {
        lzvn_decoded(data, capacity)
    }
}

/// What the LZFSE stream `data` holds; an empty one is no stream.
pub open spec fn lzfse_content(data: Seq<u8>) -> Option<Seq<u8>> {
    if data.len() == 0 {
        None
    } else {
        lzfse_decoded(data)
    }
}

/// Reads a `flate2::read::ZlibDecoder` over `data` to its end. The outcome is
/// [`zlib_inflated`]; an empty input is not a zlib stream.
#[verifier::external_body]
pub(crate) fn zlib_read_to_end(data: &[u8]) -> (inflated: Result<Vec<u8>, std::io::Error>)
    ensures
        match inflated {
            Ok(bytes) => zlib_inflated(data@) == Some(bytes@),
            Err(_) => zlib_inflated(data@) is None,
        },
        data@.len() == 0 ==> inflated is Err,
{
    let mut bytes = Vec::new();
    match flate2::read::ZlibDecoder::new(data).read_to_end(&mut bytes) {
        Ok(_) => Ok(bytes),
        Err(error) => Err(error),
    }
}

/// `lzvn::decode`: the outcome is [`lzvn_decoded`]. It never gives more than
/// `decoded_len` bytes, and an empty input, which lacks the end-of-stream
/// opcode, is malformed. The buffer is allocated up front, so its length is
/// bounded here by the size of a chunk.
pub assume_specification[ lzvn::decode ](src: &[u8], decoded_len: usize) -> (decoded: Result<
    Vec<u8>,
    lzvn::Error,
>)
    requires
        decoded_len <= CHUNK_SIZE,
    ensures
        match decoded {
            Ok(bytes) => {
                &&& lzvn_decoded(src@, decoded_len) == Some(bytes@)
                &&& bytes@.len() <= decoded_len
            },
            Err(_) => lzvn_decoded(src@, decoded_len) is None,
        },
        src@.len() == 0 ==> decoded is Err,
;

/// `lzfse_rust::decode_bytes` into an empty vector: the vector then holds
/// [`lzfse_decoded`], or the call fails. An empty input is malformed.
pub assume_specification[ lzfse_rust::decode_bytes ](src: &[u8], dst: &mut Vec<u8>) -> (written:
    Result<u64, lzfse_rust::Error>)
    requires
        old(dst)@.len() == 0,
    ensures
        match written {
            Ok(count) => {
                &&& lzfse_decoded(src@) == Some(final(dst)@)
                &&& count == final(dst)@.len()
            },
            Err(_) => lzfse_decoded(src@) is None,
        },
        src@.len() == 0 ==> written is Err,
;

/// How a file is compressed.
#[derive(Debug, Clone, Copy, PartialEq, Eq, Structural)]
pub enum Algorithm {
    /// Stored as it is.
    Uncompressed,
    /// DEFLATE in a zlib wrapper.
    Zlib,
    /// Raw LZVN.
    Lzvn,
    /// LZFSE.
    Lzfse,
    /// LZBitmap, which has no public specification.
    LzBitmap,
    /// An algorithm that this library does not know.
    Other,
}

/// Where the payload of a compressed file stands.
#[derive(Debug, Clone, Copy, PartialEq, Eq, Structural)]
pub enum Storage {
    /// Behind the header, in the attribute.
    Inline,
    /// In the resource fork.
    ResourceFork,
}

/// What a compression type stands for.
#[derive(Debug, Clone, Copy, PartialEq, Eq, Structural)]
pub struct Compression {
    /// How the file is compressed.
    pub algorithm: Algorithm,
    /// Where its payload stands.
    pub storage: Storage,
}

/// The table of compression types.
pub open spec fn compression_of(compression_type: u32) -> Option<Compression> {
    let inline = |algorithm: Algorithm| Some(Compression { algorithm, storage: Storage::Inline });
    let forked = |algorithm: Algorithm|
        Some(Compression { algorithm, storage: Storage::ResourceFork });
    match compression_type {
        1 => inline(Algorithm::Uncompressed),
        3 => inline(Algorithm::Zlib),
        4 => forked(Algorithm::Zlib),
        7 => inline(Algorithm::Lzvn),
        8 => forked(Algorithm::Lzvn),
        9 => inline(Algorithm::Uncompressed),
        10 => forked(Algorithm::Uncompressed),
        11 => inline(Algorithm::Lzfse),
        12 => forked(Algorithm::Lzfse),
        13 => inline(Algorithm::LzBitmap),
        14 => forked(Algorithm::LzBitmap),
        _ => None,
    }
}

/// Calls `forensicnomicon::decmpfs::classify`, which looks a compression type up
/// in the table [`compression_of`].
#[verifier::external_body]
pub(crate) fn classify(compression_type: u32) -> (kind: Option<Compression>)
    ensures
        kind == compression_of(compression_type),
{
    let kind = forensicnomicon::decmpfs::classify(compression_type)?;
    let algorithm = match kind.algorithm {
        forensicnomicon::decmpfs::Algorithm::Uncompressed => Algorithm::Uncompressed,
        forensicnomicon::decmpfs::Algorithm::Zlib => Algorithm::Zlib,
        forensicnomicon::decmpfs::Algorithm::Lzvn => Algorithm::Lzvn,
        forensicnomicon::decmpfs::Algorithm::Lzfse => Algorithm::Lzfse,
        forensicnomicon::decmpfs::Algorithm::LzBitmap => Algorithm::LzBitmap,
        _ => Algorithm::Other,
    };
    let storage = match kind.storage {
        forensicnomicon::decmpfs::Storage::Inline => Storage::Inline,
        forensicnomicon::decmpfs::Storage::ResourceFork => Storage::ResourceFork,
    };
    Some(Compression { algorithm, storage })
}

} // verus!
