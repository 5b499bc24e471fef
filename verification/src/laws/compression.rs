//! Laws of transparent compression.

use crate::codecs::{Algorithm, Storage, CHUNK_SIZE};
use crate::compression::{DecodeError, HEADER_LEN, LZVN_STORED, MAGIC, MARKED_TYPE, ZLIB_STORED};
use vstd::prelude::*;

verus! {

/// `pieces`, one after the other.
pub open spec fn concatenated(pieces: Seq<Seq<u8>>) -> Seq<u8>
    decreases pieces.len(),
{
    if pieces.len() == 0 {
        Seq::empty()
    } else {
        concatenated(pieces.drop_last()) + pieces.last()
    }
}

/// A decoded file has exactly the size that its header declares: success never
/// carries a part of the file, nor more than the file.
pub proof fn law_decoded_size(xattr: Seq<u8>, fork: Option<Seq<u8>>)
    ensures
        crate::compression::file_result(xattr, fork) matches Ok(bytes) ==> xattr.len() >= HEADER_LEN
            && bytes.len() == crate::compression::declared_size(xattr),
{
}

/// Only a file with a whole header, the right magic, a supported type and, for a
/// type that calls for one, a resource fork is ever decoded.
pub proof fn law_decoded_only_if_sound(xattr: Seq<u8>, fork: Option<Seq<u8>>)
    requires
        crate::compression::file_result(xattr, fork) is Ok,
    ensures
        xattr.len() >= HEADER_LEN,
        crate::bytes::le32_at(xattr, 0) == MAGIC,
        crate::codecs::compression_of(crate::compression::declared_type(xattr)) matches Some(
            compression,
        ) && {
            &&& compression.algorithm != Algorithm::LzBitmap
            &&& compression.storage == Storage::ResourceFork ==> fork is Some
        },
{
}

/// The attribute of a file of the compression type `kind` that declares the size
/// `size` and holds `payload` behind its header.
pub open spec fn declares(xattr: Seq<u8>, kind: u32, size: nat, payload: Seq<u8>) -> bool {
    &&& xattr.len() >= HEADER_LEN
    &&& crate::bytes::le32_at(xattr, 0) == MAGIC
    &&& crate::compression::declared_type(xattr) == kind
    &&& crate::compression::declared_size(xattr) == size
    &&& xattr.skip(HEADER_LEN as int) == payload
}

/// Data that are stored inline are read back: as they are with type 1, and
/// behind one marker byte with types 9, 3 and 7.
pub proof fn law_stored_inline_reads_back(
    xattr: Seq<u8>,
    fork: Option<Seq<u8>>,
    data: Seq<u8>,
    marker: u8,
)
    ensures
        declares(xattr, 1, data.len(), data) ==> crate::compression::file_result(xattr, fork) == Ok::<
            Seq<u8>,
            DecodeError,
        >(data),
        declares(xattr, MARKED_TYPE, data.len(), seq![marker] + data)
            ==> crate::compression::file_result(xattr, fork) == Ok::<Seq<u8>, DecodeError>(data),
        declares(xattr, 3, data.len(), seq![ZLIB_STORED] + data) ==> crate::compression::file_result(
            xattr,
            fork,
        ) == Ok::<Seq<u8>, DecodeError>(data),
        declares(xattr, 7, data.len(), seq![LZVN_STORED] + data) ==> crate::compression::file_result(
            xattr,
            fork,
        ) == Ok::<Seq<u8>, DecodeError>(data),
{
    assert((seq![marker] + data).skip(1) =~= data);
    assert((seq![ZLIB_STORED] + data).skip(1) =~= data);
    assert((seq![LZVN_STORED] + data).skip(1) =~= data);
}

/// Data that a codec decodes from an inline payload are read back.
pub proof fn law_coded_inline_reads_back(
    xattr: Seq<u8>,
    fork: Option<Seq<u8>>,
    payload: Seq<u8>,
    data: Seq<u8>,
)
    requires
        payload.len() > 0,
    ensures
        declares(xattr, 3, data.len(), payload) && payload[0] != ZLIB_STORED
            && crate::codecs::zlib_content(payload) == Some(data) ==> crate::compression::file_result(
            xattr,
            fork,
        ) == Ok::<Seq<u8>, DecodeError>(data),
        declares(xattr, 7, data.len(), payload) && payload[0] != LZVN_STORED && data.len()
            <= CHUNK_SIZE && crate::codecs::lzvn_content(payload, data.len() as usize) == Some(data)
            ==> crate::compression::file_result(xattr, fork) == Ok::<Seq<u8>, DecodeError>(data),
        declares(xattr, 11, data.len(), payload) && crate::codecs::lzfse_content(payload) == Some(
            data,
        ) ==> crate::compression::file_result(xattr, fork) == Ok::<Seq<u8>, DecodeError>(data),
{
}

/// Where chunk `i` of a resource fork begins.
pub open spec fn chunk_start(header_size: int, chunks: Seq<Seq<u8>>, i: int) -> int {
    header_size + concatenated(chunks.take(i)).len()
}

/// Whether slot `i` of the table of a resource fork and the bytes of the fork
/// give chunk `i`.
pub open spec fn chunk_placed(fork: Seq<u8>, chunks: Seq<Seq<u8>>, i: int) -> bool {
    let header_size = crate::bytes::le32_at(fork, 0) as int;
    let start = chunk_start(header_size, chunks, i);
    let end = chunk_start(header_size, chunks, i + 1);
    &&& crate::bytes::le32_at(fork, 4 + 4 * i) == end
    &&& fork.subrange(start, end) == chunks[i]
}

/// Whether a resource fork holds `chunks`, one after the other behind its
/// header. The table of the header may have more slots than there are chunks.
pub open spec fn holds_chunks(fork: Seq<u8>, chunks: Seq<Seq<u8>>) -> bool {
    let header_size = crate::bytes::le32_at(fork, 0) as int;
    &&& 4 * (chunks.len() + 1) <= header_size
    &&& chunk_start(header_size, chunks, chunks.len() as int) <= fork.len()
    &&& forall|i: int| 0 <= i < chunks.len() ==> #[trigger] chunk_placed(fork, chunks, i)
}

/// Whether chunk `i` decodes to piece `i`, where the bytes up to `size` are still
/// due, a chunk's worth at most.
pub open spec fn piece_decoded(
    algorithm: Algorithm,
    chunks: Seq<Seq<u8>>,
    pieces: Seq<Seq<u8>>,
    size: int,
    i: int,
) -> bool {
    crate::compression::chunk_result(
        algorithm,
        chunks[i],
        crate::numbers::lesser(
            size - concatenated(pieces.take(i)).len(),
            CHUNK_SIZE as int,
        ) as usize,
    ) == Ok::<Seq<u8>, DecodeError>(pieces[i])
}

/// Whether `pieces` are what `chunks` decode to in a file of `size` bytes.
pub open spec fn pieces_of(
    algorithm: Algorithm,
    chunks: Seq<Seq<u8>>,
    pieces: Seq<Seq<u8>>,
    size: int,
) -> bool {
    &&& pieces.len() == chunks.len()
    &&& forall|i: int|
        0 <= i < chunks.len() ==> #[trigger] piece_decoded(algorithm, chunks, pieces, size, i)
}

proof fn lemma_take_next(pieces: Seq<Seq<u8>>, i: int)
    requires
        0 <= i < pieces.len(),
    ensures
        concatenated(pieces.take(i + 1)) == concatenated(pieces.take(i)) + pieces[i],
{
    assert(pieces.take(i + 1).drop_last() =~= pieces.take(i));
}

proof fn lemma_prefix_len(pieces: Seq<Seq<u8>>, i: int)
    requires
        0 <= i <= pieces.len(),
    ensures
        concatenated(pieces.take(i)).len() <= concatenated(pieces).len(),
        concatenated(pieces.take(i)).len() == concatenated(pieces).len() ==> concatenated(
            pieces.take(i),
        ) == concatenated(pieces),
    decreases pieces.len() - i,
{
    if i < pieces.len() {
        lemma_take_next(pieces, i);
        lemma_prefix_len(pieces, i + 1);
        if concatenated(pieces.take(i)).len() == concatenated(pieces).len() {
            assert(pieces[i].len() == 0);
            assert(concatenated(pieces.take(i)) + pieces[i] =~= concatenated(pieces.take(i)));
        }
    } else {
        assert(pieces.take(i) =~= pieces);
    }
}

proof fn lemma_chunk_found(fork: Seq<u8>, chunks: Seq<Seq<u8>>, i: int)
    requires
        holds_chunks(fork, chunks),
        0 <= i < chunks.len(),
    ensures
        crate::compression::chunk_bytes(
            fork,
            i,
            chunk_start(crate::bytes::le32_at(fork, 0) as int, chunks, i),
        ) == Some(chunks[i]),
        chunk_start(crate::bytes::le32_at(fork, 0) as int, chunks, i) + chunks[i].len()
            == chunk_start(crate::bytes::le32_at(fork, 0) as int, chunks, i + 1),
{
    lemma_take_next(chunks, i);
    lemma_prefix_len(chunks, i + 1);
    assert(chunks.take(chunks.len() as int) =~= chunks);
    assert(chunk_placed(fork, chunks, i));
}

proof fn lemma_chunks_decode(
    algorithm: Algorithm,
    fork: Seq<u8>,
    chunks: Seq<Seq<u8>>,
    pieces: Seq<Seq<u8>>,
    i: int,
)
    requires
        holds_chunks(fork, chunks),
        pieces_of(algorithm, chunks, pieces, concatenated(pieces).len() as int),
        0 <= i <= chunks.len(),
    ensures
        crate::compression::chunks_result(
            algorithm,
            fork,
            crate::bytes::le32_at(fork, 0) as int / 4 - 1,
            concatenated(pieces).len() as int,
            i,
            chunk_start(crate::bytes::le32_at(fork, 0) as int, chunks, i),
            concatenated(pieces.take(i)),
        ) == Ok::<Seq<u8>, DecodeError>(concatenated(pieces)),
    decreases chunks.len() - i,
{
    let size = concatenated(pieces).len() as int;
    let got = concatenated(pieces.take(i));
    lemma_prefix_len(pieces, i);
    if i == chunks.len() {
        assert(pieces.take(i) =~= pieces);
    } else if got.len() < size {
        lemma_take_next(pieces, i);
        lemma_chunk_found(fork, chunks, i);
        assert(piece_decoded(algorithm, chunks, pieces, size, i));
        lemma_chunks_decode(algorithm, fork, chunks, pieces, i + 1);
    }
}

/// A chunked resource fork decodes to what its chunks decode to, one after the
/// other. Slots of the table behind the last chunk are never read.
pub proof fn law_chunked_fork_reads_back(
    algorithm: Algorithm,
    fork: Seq<u8>,
    chunks: Seq<Seq<u8>>,
    pieces: Seq<Seq<u8>>,
)
    requires
        holds_chunks(fork, chunks),
        pieces_of(algorithm, chunks, pieces, concatenated(pieces).len() as int),
    ensures
        crate::compression::chunked_fork_result(algorithm, fork, concatenated(pieces).len() as int)
            == Ok::<Seq<u8>, DecodeError>(concatenated(pieces)),
{
    lemma_chunks_decode(algorithm, fork, chunks, pieces, 0);
    assert(chunks.take(0) =~= Seq::<Seq<u8>>::empty());
    assert(pieces.take(0) =~= Seq::<Seq<u8>>::empty());
}

/// Data that are stored in a resource fork of type 10, in any number of chunks,
/// are read back.
pub proof fn law_stored_fork_reads_back(
    xattr: Seq<u8>,
    payload: Seq<u8>,
    fork: Seq<u8>,
    chunks: Seq<Seq<u8>>,
)
    requires
        holds_chunks(fork, chunks),
        declares(xattr, 10, concatenated(chunks).len(), payload),
    ensures
        crate::compression::file_result(xattr, Some(fork)) == Ok::<Seq<u8>, DecodeError>(
            concatenated(chunks),
        ),
{
    let size = concatenated(chunks).len() as int;
    assert(size <= u32::MAX) by {
        if chunks.len() > 0 {
            assert(chunks.take(chunks.len() as int) =~= chunks);
            assert(chunk_placed(fork, chunks, chunks.len() - 1));
        }
    }
    assert forall|i: int| 0 <= i < chunks.len() implies #[trigger] piece_decoded(
        Algorithm::Uncompressed,
        chunks,
        chunks,
        size,
        i,
    ) by {}
    law_chunked_fork_reads_back(Algorithm::Uncompressed, fork, chunks, chunks);
}

/// Whether a zlib resource fork holds `blocks`: each stands where its entry of the
/// block table places it, by an offset from the table and a size.
pub open spec fn holds_blocks(fork: Seq<u8>, blocks: Seq<Seq<u8>>) -> bool {
    let table = crate::laws::decoding::table_at(fork);
    &&& fork.len() >= table + 4
    &&& crate::laws::layout::low32(fork, table) == blocks.len()
    &&& forall|i: int|
        0 <= i < blocks.len() ==> crate::laws::decoding::block_inside(fork, i)
            && crate::laws::decoding::block_of(fork, i) == #[trigger] blocks[i]
}

/// Whether `pieces` are what `blocks` inflate to.
pub open spec fn inflated_of(blocks: Seq<Seq<u8>>, pieces: Seq<Seq<u8>>) -> bool {
    &&& pieces.len() == blocks.len()
    &&& forall|i: int|
        0 <= i < blocks.len() ==> crate::codecs::zlib_content(#[trigger] blocks[i]) == Some(
            pieces[i],
        )
}

proof fn lemma_blocks_decode(
    fork: Seq<u8>,
    blocks: Seq<Seq<u8>>,
    pieces: Seq<Seq<u8>>,
    i: int,
)
    requires
        holds_blocks(fork, blocks),
        inflated_of(blocks, pieces),
        0 <= i <= blocks.len(),
    ensures
        crate::compression::zlib_blocks_result(
            fork,
            crate::laws::decoding::table_at(fork),
            blocks.len() as int,
            i,
            concatenated(pieces.take(i)),
        ) == Ok::<Seq<u8>, DecodeError>(concatenated(pieces)),
    decreases blocks.len() - i,
{
    if i == blocks.len() {
        assert(pieces.take(i) =~= pieces);
    } else {
        lemma_take_next(pieces, i);
        crate::laws::decoding::law_zlib_blocks_placed(fork, i);
        assert(crate::laws::decoding::block_of(fork, i) == blocks[i]);
        lemma_blocks_decode(fork, blocks, pieces, i + 1);
    }
}

/// A zlib resource fork decodes to what its blocks inflate to, one after the
/// other.
pub proof fn law_zlib_fork_reads_back(
    fork: Seq<u8>,
    blocks: Seq<Seq<u8>>,
    pieces: Seq<Seq<u8>>,
)
    requires
        holds_blocks(fork, blocks),
        inflated_of(blocks, pieces),
    ensures
        crate::compression::zlib_fork_result(fork) == Ok::<Seq<u8>, DecodeError>(
            concatenated(pieces),
        ),
{
    crate::laws::layout::law_integers(fork, 0);
    crate::laws::layout::law_integers(fork, crate::laws::decoding::table_at(fork));
    lemma_blocks_decode(fork, blocks, pieces, 0);
    assert(pieces.take(0) =~= Seq::<Seq<u8>>::empty());
}

/// Whether two errors are of the same kind.
pub open spec fn same_kind(a: DecodeError, b: DecodeError) -> bool {
    match (a, b) {
        (DecodeError::Truncated, DecodeError::Truncated) => true,
        (DecodeError::BadMagic(_), DecodeError::BadMagic(_)) => true,
        (DecodeError::UnknownType(_), DecodeError::UnknownType(_)) => true,
        (DecodeError::Unsupported(_), DecodeError::Unsupported(_)) => true,
        (DecodeError::MissingResourceFork, DecodeError::MissingResourceFork) => true,
        (DecodeError::OutOfBounds, DecodeError::OutOfBounds) => true,
        (DecodeError::Codec(_), DecodeError::Codec(_)) => true,
        (DecodeError::LengthMismatch { .. }, DecodeError::LengthMismatch { .. }) => true,
        _ => false,
    }
}

/// What tells the messages of the kinds of error apart: three of their
/// characters.
spec fn fingerprint(error: DecodeError) -> (char, char, char) {
    match error {
        DecodeError::Truncated => ('x', 't', 's'),
        DecodeError::BadMagic(_) => ('b', 'd', 'g'),
        DecodeError::UnknownType(_) => ('u', 'k', 'n'),
        DecodeError::Unsupported(_) => ('u', 's', 'o'),
        DecodeError::MissingResourceFork => ('r', 's', 'c'),
        DecodeError::OutOfBounds => ('l', 'n', '/'),
        DecodeError::Codec(_) => ('c', 'd', 'e'),
        DecodeError::LengthMismatch { .. } => ('l', 'n', ' '),
    }
}

proof fn lemma_fingerprint(error: DecodeError)
    ensures
        crate::compression::error_text(error).len() > 14,
        (
            crate::compression::error_text(error)[8],
            crate::compression::error_text(error)[10],
            crate::compression::error_text(error)[14],
        ) == fingerprint(error),
{
    reveal_strlit("decmpfs xattr shorter than 16-byte header");
    reveal_strlit("decmpfs bad magic 0x");
    reveal_strlit("decmpfs unknown compression_type ");
    reveal_strlit("decmpfs unsupported: ");
    reveal_strlit("decmpfs resource-fork type but no resource fork supplied");
    reveal_strlit("decmpfs length/offset field out of bounds");
    reveal_strlit("decmpfs codec error: ");
    reveal_strlit("decmpfs length mismatch: expected ");
}

/// Errors of different kinds have different messages.
pub proof fn law_messages_tell_kinds_apart(a: DecodeError, b: DecodeError)
    requires
        !same_kind(a, b),
    ensures
        crate::compression::error_text(a) != crate::compression::error_text(b),
{
    lemma_fingerprint(a);
    lemma_fingerprint(b);
}

} // verus!
