//! Laws of decoding, in terms of the bytes of the attribute and of the resource
//! fork.

use crate::codecs::Algorithm;
use crate::compression::DecodeError;
use crate::laws::layout::law_integers;
use vstd::prelude::*;

verus! {

// ---- Codecs ----

/// What a codec makes of `data`, with room for `room` bytes: nothing of no data.
/// Stored data are what they are.
pub open spec fn decoded(algorithm: Algorithm, data: Seq<u8>, room: int) -> Option<Seq<u8>> {
    match algorithm {
        Algorithm::Uncompressed => Some(data),
        Algorithm::Zlib => if data.len() == 0 {
            None
        } else {
            crate::codecs::zlib_inflated(data)
        },
        Algorithm::Lzvn => if data.len() == 0 {
            None
        } else {
            crate::codecs::lzvn_decoded(data, room as usize)
        },
        Algorithm::Lzfse => if data.len() == 0 {
            None
        } else {
            crate::codecs::lzfse_decoded(data)
        },
        Algorithm::LzBitmap | Algorithm::Other => None,
    }
}

/// The error of a codec that makes nothing of its data.
pub open spec fn refused(algorithm: Algorithm) -> DecodeError {
    match algorithm {
        Algorithm::Zlib => DecodeError::Codec("zlib"),
        Algorithm::Lzvn => DecodeError::Codec("lzvn"),
        _ => DecodeError::Codec("lzfse/lzvn"),
    }
}

/// The lesser of the bytes that are due and the 65536 of a chunk.
pub open spec fn room_for(due: int) -> int {
    if due <= 65536 {
        due
    } else {
        65536
    }
}

// ---- The zlib resource fork ----

/// Where the block table of a zlib resource fork stands: four bytes behind the
/// header, whose size the first four bytes give.
pub open spec fn table_at(fork: Seq<u8>) -> int {
    crate::laws::layout::num32(fork, 0) + 4
}

/// Whether entry `i` of the block table and the block that it places are in the
/// fork. An entry is an offset from the table and a size, four bytes each, the low
/// one first.
pub open spec fn block_inside(fork: Seq<u8>, i: int) -> bool {
    let entry = table_at(fork) + 4 + 8 * i;
    &&& entry + 8 <= fork.len()
    &&& table_at(fork) + crate::laws::layout::low32(fork, entry) + crate::laws::layout::low32(
        fork,
        entry + 4,
    ) <= fork.len()
}

/// The block that entry `i` places.
pub open spec fn block_of(fork: Seq<u8>, i: int) -> Seq<u8> {
    let entry = table_at(fork) + 4 + 8 * i;
    let begin = table_at(fork) + crate::laws::layout::low32(fork, entry);
    fork.subrange(begin, begin + crate::laws::layout::low32(fork, entry + 4))
}

/// Each block is read at its 32-bit offset from the table, at its 32-bit size.
pub proof fn law_zlib_blocks_placed(fork: Seq<u8>, i: int)
    requires
        i >= 0,
        fork.len() >= 4,
    ensures
        crate::compression::zlib_block_bytes(fork, table_at(fork), i) is Some <==> block_inside(
            fork,
            i,
        ),
        crate::compression::zlib_block_bytes(fork, table_at(fork), i) matches Some(block) ==> block
            == block_of(fork, i),
{
    let entry = table_at(fork) + 4 + 8 * i;
    law_integers(fork, entry);
    law_integers(fork, entry + 4);
}

/// Whether block `i` inflates to `piece`.
pub open spec fn block_inflates(fork: Seq<u8>, i: int, piece: Seq<u8>) -> bool {
    &&& block_inside(fork, i)
    &&& decoded(Algorithm::Zlib, block_of(fork, i), 0) == Some(piece)
}

/// Whether `error` is what block `i` fails with: it is not inside the fork, or
/// does not inflate.
pub open spec fn block_fails(fork: Seq<u8>, i: int, error: DecodeError) -> bool {
    if block_inside(fork, i) {
        &&& decoded(Algorithm::Zlib, block_of(fork, i), 0) is None
        &&& error == DecodeError::Codec("zlib")
    } else {
        error == DecodeError::OutOfBounds
    }
}

proof fn lemma_front(first: Seq<u8>, pieces: Seq<Seq<u8>>)
    ensures
        crate::laws::compression::concatenated(seq![first] + pieces) == first
            + crate::laws::compression::concatenated(pieces),
    decreases pieces.len(),
{
    let all = seq![first] + pieces;
    if pieces.len() == 0 {
        assert(all.drop_last() =~= Seq::<Seq<u8>>::empty());
        assert(all.last() == first);
        assert(crate::laws::compression::concatenated(all.drop_last()) =~= Seq::<u8>::empty());
        assert(crate::laws::compression::concatenated(all) =~= Seq::<u8>::empty() + first);
        assert(crate::laws::compression::concatenated(pieces) =~= Seq::<u8>::empty());
        assert(Seq::<u8>::empty() + first =~= first + Seq::<u8>::empty());
    } else {
        assert(all.drop_last() =~= seq![first] + pieces.drop_last());
        lemma_front(first, pieces.drop_last());
        assert(all.last() == pieces.last());
        assert(crate::laws::compression::concatenated(all) =~= first
            + crate::laws::compression::concatenated(pieces));
    }
}

proof fn lemma_zlib_trace(fork: Seq<u8>, count: int, i: int, got: Seq<u8>) -> (pieces: Seq<Seq<u8>>)
    requires
        fork.len() >= 4,
        0 <= i <= count,
    ensures
        pieces.len() <= count - i,
        forall|k: int|
            0 <= k < pieces.len() ==> block_inflates(fork, i + k, #[trigger] pieces[k]),
        match crate::compression::zlib_blocks_result(fork, table_at(fork), count, i, got) {
            Ok(out) => {
                &&& pieces.len() == count - i
                &&& out == got + crate::laws::compression::concatenated(pieces)
            },
            Err(error) => {
                &&& pieces.len() < count - i
                &&& block_fails(fork, i + pieces.len(), error)
            },
        },
    decreases count - i,
{
    if i >= count {
        assert(got + Seq::<u8>::empty() =~= got);
        Seq::empty()
    } else {
        law_zlib_blocks_placed(fork, i);
        match crate::compression::zlib_block_bytes(fork, table_at(fork), i) {
            None => Seq::empty(),
            Some(block) => match decoded(Algorithm::Zlib, block, 0) {
                None => Seq::empty(),
                Some(piece) => {
                    let rest = lemma_zlib_trace(fork, count, i + 1, got + piece);
                    let pieces = seq![piece] + rest;
                    lemma_front(piece, rest);
                    assert forall|k: int| 0 <= k < pieces.len() implies block_inflates(
                        fork,
                        i + k,
                        #[trigger] pieces[k],
                    ) by {
                        if k > 0 {
                            assert(pieces[k] == rest[k - 1]);
                            assert(block_inflates(fork, (i + 1) + (k - 1), rest[k - 1]));
                        }
                    }
                    assert(got + piece + crate::laws::compression::concatenated(rest) =~= got
                        + crate::laws::compression::concatenated(pieces));
                    pieces
                },
            },
        }
    }
}

/// A zlib resource fork decodes to what its blocks inflate to, one after the
/// other and each where its table entry places it; or it fails as the first block
/// does that is not inside the fork or does not inflate. Without a table it is
/// out of bounds.
pub proof fn law_zlib_fork_exact(fork: Seq<u8>) -> (pieces: Seq<Seq<u8>>)
    ensures
        if fork.len() < 4 || table_at(fork) + 4 > fork.len() {
            crate::compression::zlib_fork_result(fork) == Err::<Seq<u8>, DecodeError>(
                DecodeError::OutOfBounds,
            )
        } else {
            let count = crate::laws::layout::low32(fork, table_at(fork));
            &&& pieces.len() <= count
            &&& forall|k: int|
                0 <= k < pieces.len() ==> block_inflates(fork, k, #[trigger] pieces[k])
            &&& match crate::compression::zlib_fork_result(fork) {
                Ok(out) => {
                    &&& pieces.len() == count
                    &&& out == crate::laws::compression::concatenated(pieces)
                },
                Err(error) => {
                    &&& pieces.len() < count
                    &&& block_fails(fork, pieces.len() as int, error)
                },
            }
        },
{
    law_integers(fork, 0);
    if fork.len() < 4 || table_at(fork) + 4 > fork.len() {
        Seq::empty()
    } else {
        law_integers(fork, table_at(fork));
        let count = crate::laws::layout::low32(fork, table_at(fork));
        let pieces = lemma_zlib_trace(fork, count, 0, Seq::empty());
        assert(Seq::<u8>::empty() + crate::laws::compression::concatenated(pieces)
            =~= crate::laws::compression::concatenated(pieces));
        assert forall|k: int| 0 <= k < pieces.len() implies block_inflates(
            fork,
            k,
            #[trigger] pieces[k],
        ) by {
            assert(block_inflates(fork, 0 + k, pieces[k]));
        }
        pieces
    }
}

// ---- The chunked resource forks ----

/// Where chunk `i` begins: behind the header, whose size the first four bytes
/// give, or where the chunk before it ends.
pub open spec fn chunk_begin(fork: Seq<u8>, i: int) -> int {
    crate::laws::layout::low32(fork, 4 * i)
}

/// Where chunk `i` ends: its slot of the table, four bytes each behind the first
/// four, the low one first.
pub open spec fn chunk_end(fork: Seq<u8>, i: int) -> int {
    crate::laws::layout::low32(fork, 4 * (i + 1))
}

/// Whether slot `i` and the chunk that it ends are in the fork.
pub open spec fn chunk_inside(fork: Seq<u8>, i: int) -> bool {
    &&& 4 * (i + 2) <= fork.len()
    &&& chunk_begin(fork, i) <= chunk_end(fork, i) <= fork.len()
}

/// Whether chunk `i` decodes to `piece` where `due` bytes are due.
pub open spec fn chunk_decodes(
    algorithm: Algorithm,
    fork: Seq<u8>,
    i: int,
    due: int,
    piece: Seq<u8>,
) -> bool {
    &&& due > 0
    &&& chunk_inside(fork, i)
    &&& decoded(
        algorithm,
        fork.subrange(chunk_begin(fork, i), chunk_end(fork, i)),
        room_for(due),
    ) == Some(piece)
}

/// Whether `error` is what chunk `i` fails with: it is not inside the fork, or
/// does not decode.
pub open spec fn chunk_fails(
    algorithm: Algorithm,
    fork: Seq<u8>,
    i: int,
    due: int,
    error: DecodeError,
) -> bool {
    &&& due > 0
    &&& if chunk_inside(fork, i) {
        &&& decoded(
            algorithm,
            fork.subrange(chunk_begin(fork, i), chunk_end(fork, i)),
            room_for(due),
        ) is None
        &&& error == refused(algorithm)
    } else {
        error == DecodeError::OutOfBounds
    }
}

/// Whether an algorithm is one of those of the chunked forks.
pub open spec fn is_chunked(algorithm: Algorithm) -> bool {
    algorithm == Algorithm::Lzvn || algorithm == Algorithm::Lzfse || algorithm
        == Algorithm::Uncompressed
}

/// How many bytes the first `k` of `pieces` have.
pub open spec fn length_of(pieces: Seq<Seq<u8>>, k: int) -> int {
    crate::laws::compression::concatenated(pieces.take(k)).len() as int
}

/// A piece in front of others that chunks decode to.
proof fn lemma_chunk_step(
    algorithm: Algorithm,
    fork: Seq<u8>,
    size: int,
    i: int,
    got: Seq<u8>,
    piece: Seq<u8>,
    rest: Seq<Seq<u8>>,
)
    requires
        chunk_decodes(algorithm, fork, i, size - got.len(), piece),
        forall|k: int|
            0 <= k < rest.len() ==> chunk_decodes(
                algorithm,
                fork,
                i + 1 + k,
                size - (got + piece).len() - length_of(rest, k),
                #[trigger] rest[k],
            ),
    ensures
        forall|k: int|
            0 <= k < rest.len() + 1 ==> chunk_decodes(
                algorithm,
                fork,
                i + k,
                size - got.len() - length_of(seq![piece] + rest, k),
                #[trigger] (seq![piece] + rest)[k],
            ),
        length_of(seq![piece] + rest, (rest.len() + 1) as int) == piece.len() + length_of(
            rest,
            rest.len() as int,
        ),
        got + piece + crate::laws::compression::concatenated(rest) == got
            + crate::laws::compression::concatenated(seq![piece] + rest),
{
    let pieces = seq![piece] + rest;
    lemma_front(piece, rest);
    assert forall|k: int| 0 < k <= pieces.len() implies #[trigger] length_of(pieces, k)
        == piece.len() + length_of(rest, k - 1) by {
        assert(pieces.take(k) =~= seq![piece] + rest.take(k - 1));
        lemma_front(piece, rest.take(k - 1));
    }
    assert forall|k: int| 0 <= k < pieces.len() implies chunk_decodes(
        algorithm,
        fork,
        i + k,
        size - got.len() - length_of(pieces, k),
        #[trigger] pieces[k],
    ) by {
        if k > 0 {
            assert(pieces[k] == rest[k - 1]);
            assert(length_of(pieces, k) == piece.len() + length_of(rest, k - 1));
        } else {
            assert(pieces.take(0) =~= Seq::<Seq<u8>>::empty());
        }
    }
    assert(length_of(pieces, pieces.len() as int) == piece.len() + length_of(
        rest,
        pieces.len() - 1,
    ));
    assert(got + piece + crate::laws::compression::concatenated(rest) =~= got
        + crate::laws::compression::concatenated(pieces));
}

proof fn lemma_chunk_trace(
    algorithm: Algorithm,
    fork: Seq<u8>,
    slots: int,
    size: int,
    i: int,
    got: Seq<u8>,
) -> (pieces: Seq<Seq<u8>>)
    requires
        is_chunked(algorithm),
        fork.len() >= 4,
        i >= 0,
        size <= usize::MAX,
    ensures
        pieces.len() == 0 || pieces.len() <= slots - i,
        forall|k: int|
            0 <= k < pieces.len() ==> chunk_decodes(
                algorithm,
                fork,
                i + k,
                size - got.len() - length_of(pieces, k),
                #[trigger] pieces[k],
            ),
        match crate::compression::chunks_result(
            algorithm,
            fork,
            slots,
            size,
            i,
            chunk_begin(fork, i),
            got,
        ) {
            Ok(out) => {
                &&& out == got + crate::laws::compression::concatenated(pieces)
                &&& i + pieces.len() >= slots || out.len() >= size
            },
            Err(error) => {
                &&& i + pieces.len() < slots
                &&& chunk_fails(
                    algorithm,
                    fork,
                    i + pieces.len(),
                    size - got.len() - length_of(pieces, pieces.len() as int),
                    error,
                )
            },
        },
    decreases slots - i,
{
    let start = chunk_begin(fork, i);
    let none = Seq::<Seq<u8>>::empty();
    assert(none.take(0) =~= none);
    assert(got + Seq::<u8>::empty() =~= got);
    if i >= slots || got.len() >= size {
        none
    } else {
        law_integers(fork, 4 + 4 * i);
        let due = size - got.len();
        match crate::compression::chunk_bytes(fork, i, start) {
            None => none,
            Some(chunk) => {
                assert(chunk_inside(fork, i));
                assert(chunk == fork.subrange(start, chunk_end(fork, i)));
                match decoded(algorithm, chunk, room_for(due)) {
                    None => none,
                    Some(piece) => {
                        let rest = lemma_chunk_trace(
                            algorithm,
                            fork,
                            slots,
                            size,
                            i + 1,
                            got + piece,
                        );
                        let pieces = seq![piece] + rest;
                        assert(start + chunk.len() == chunk_begin(fork, i + 1));
                        lemma_chunk_step(algorithm, fork, size, i, got, piece, rest);
                        pieces
                    },
                }
            },
        }
    }
}

/// A chunked resource fork decodes to what its chunks decode to, one after the
/// other and each from where the one before it ends, until `size` bytes are there
/// or the table is used up; or it fails as the first chunk does that is not
/// inside the fork or does not decode. Without a table it is out of bounds.
pub proof fn law_chunked_fork_exact(algorithm: Algorithm, fork: Seq<u8>, size: int) -> (pieces: Seq<
    Seq<u8>,
>)
    requires
        is_chunked(algorithm),
        size <= usize::MAX,
    ensures
        if fork.len() < 4 || crate::laws::layout::low32(fork, 0) < 4 {
            crate::compression::chunked_fork_result(algorithm, fork, size) == Err::<
                Seq<u8>,
                DecodeError,
            >(DecodeError::OutOfBounds)
        } else {
            let slots = crate::laws::layout::low32(fork, 0) / 4 - 1;
            &&& pieces.len() <= slots
            &&& forall|k: int|
                0 <= k < pieces.len() ==> chunk_decodes(
                    algorithm,
                    fork,
                    k,
                    size - length_of(pieces, k),
                    #[trigger] pieces[k],
                )
            &&& match crate::compression::chunked_fork_result(algorithm, fork, size) {
                Ok(out) => {
                    &&& out == crate::laws::compression::concatenated(pieces)
                    &&& pieces.len() == slots || out.len() >= size
                },
                Err(error) => {
                    &&& pieces.len() < slots
                    &&& chunk_fails(
                        algorithm,
                        fork,
                        pieces.len() as int,
                        size - length_of(pieces, pieces.len() as int),
                        error,
                    )
                },
            }
        },
{
    law_integers(fork, 0);
    if fork.len() < 4 || crate::laws::layout::low32(fork, 0) < 4 {
        Seq::empty()
    } else {
        let slots = crate::laws::layout::low32(fork, 0) / 4 - 1;
        let pieces = lemma_chunk_trace(algorithm, fork, slots, size, 0, Seq::empty());
        assert(Seq::<u8>::empty() + crate::laws::compression::concatenated(pieces)
            =~= crate::laws::compression::concatenated(pieces));
        assert forall|k: int| 0 <= k < pieces.len() implies chunk_decodes(
            algorithm,
            fork,
            k,
            size - length_of(pieces, k),
            #[trigger] pieces[k],
        ) by {
            assert(chunk_decodes(
                algorithm,
                fork,
                0 + k,
                size - Seq::<u8>::empty().len() - length_of(pieces, k),
                pieces[k],
            ));
        }
        pieces
    }
}

// ---- Single pieces ----

/// An inline payload decodes by its algorithm: stored data as they are or behind a
/// marker byte, other data by the codec. The other algorithms are not supported.
pub proof fn law_inline_payloads(algorithm: Algorithm, payload: Seq<u8>, size: int, kind: u32)
    requires
        0 <= size,
    ensures
        ({
            let result = crate::compression::inline_result(algorithm, payload, size, kind);
            let marked = match algorithm {
                Algorithm::Uncompressed => kind == 9,
                Algorithm::Zlib => payload.len() > 0 && payload[0] == 0xFF,
                Algorithm::Lzvn => payload.len() > 0 && payload[0] == 0x06,
                _ => false,
            };
            if algorithm == Algorithm::LzBitmap || algorithm == Algorithm::Other {
                result == Err::<Seq<u8>, DecodeError>(
                    DecodeError::Unsupported("decmpfs unsupported algorithm"),
                )
            } else if marked {
                result == Ok::<Seq<u8>, DecodeError>(unmarked(payload))
            } else {
                result == coded(algorithm, payload, size)
            }
        }),
{
    if payload.len() > 0 {
        assert(payload.skip(1) =~= unmarked(payload));
    } else {
        assert(payload =~= unmarked(payload));
    }
}

/// A chunk decodes by the algorithm of its fork, which is not zlib.
pub proof fn law_chunks(algorithm: Algorithm, chunk: Seq<u8>, room: usize)
    ensures
        if is_chunked(algorithm) {
            crate::compression::chunk_result(algorithm, chunk, room) == match decoded(
                algorithm,
                chunk,
                room as int,
            ) {
                Some(bytes) => Ok::<Seq<u8>, DecodeError>(bytes),
                None => Err(refused(algorithm)),
            }
        } else {
            crate::compression::chunk_result(algorithm, chunk, room) == Err::<
                Seq<u8>,
                DecodeError,
            >(DecodeError::Codec("unexpected algorithm for chunked fork"))
        },
{
}

/// The chunk in a slot that begins at `start` ends where the slot says, if both
/// are in the fork and in order.
pub proof fn law_chunks_placed(fork: Seq<u8>, i: int, start: int)
    requires
        i >= 0,
    ensures
        ({
            let end = chunk_end(fork, i);
            match crate::compression::chunk_bytes(fork, i, start) {
                Some(chunk) => 4 * (i + 2) <= fork.len() && start <= end <= fork.len() && chunk
                    == fork.subrange(start, end),
                None => 4 * (i + 2) > fork.len() || end < start || end > fork.len(),
            }
        }),
{
    law_integers(fork, 4 + 4 * i);
}

/// The block that a table entry places, wherever the table stands.
pub proof fn law_blocks_placed(fork: Seq<u8>, table: int, i: int)
    ensures
        ({
            let entry = table + 4 + 8 * i;
            let begin = table + crate::laws::layout::low32(fork, entry);
            let end = begin + crate::laws::layout::low32(fork, entry + 4);
            match crate::compression::zlib_block_bytes(fork, table, i) {
                Some(block) => entry + 8 <= fork.len() && end <= fork.len() && block
                    == fork.subrange(begin, end),
                None => entry + 8 > fork.len() || end > fork.len(),
            }
        }),
{
    let entry = table + 4 + 8 * i;
    law_integers(fork, entry);
    law_integers(fork, entry + 4);
}

/// A resource fork decodes by its algorithm.
pub proof fn law_resource_forks(algorithm: Algorithm, fork: Seq<u8>, size: int)
    ensures
        crate::compression::fork_result(algorithm, fork, size) == if algorithm == Algorithm::Zlib {
            crate::compression::zlib_fork_result(fork)
        } else if is_chunked(algorithm) {
            crate::compression::chunked_fork_result(algorithm, fork, size)
        } else {
            Err(DecodeError::Unsupported("decmpfs unsupported algorithm"))
        },
{
}

/// Decoded bytes are passed on if and only if there are as many as expected.
pub proof fn law_lengths_checked(decoded: Result<Seq<u8>, DecodeError>, expected: u64)
    ensures
        checked(
            decoded,
            expected as int,
            crate::compression::whole_result(decoded, expected),
        ),
{
}

// ---- Whole files ----

/// Whether `result` is `decoded`, refused where its length is not `size`.
pub open spec fn checked(
    decoded: Result<Seq<u8>, DecodeError>,
    size: int,
    result: Result<Seq<u8>, DecodeError>,
) -> bool {
    match decoded {
        Err(error) => result == Err::<Seq<u8>, DecodeError>(error),
        Ok(bytes) => if bytes.len() == size {
            result == Ok::<Seq<u8>, DecodeError>(bytes)
        } else {
            result matches Err(DecodeError::LengthMismatch { expected, got }) && {
                &&& size <= usize::MAX ==> expected == size
                &&& bytes.len() <= usize::MAX ==> got == bytes.len()
            }
        },
    }
}

/// What a codec makes of an inline payload, or its error.
pub open spec fn coded(algorithm: Algorithm, payload: Seq<u8>, size: int) -> Result<
    Seq<u8>,
    DecodeError,
> {
    match decoded(algorithm, payload, room_for(size)) {
        Some(bytes) => Ok(bytes),
        None => Err(refused(algorithm)),
    }
}

/// The payload without its first byte, if it has one.
pub open spec fn unmarked(payload: Seq<u8>) -> Seq<u8> {
    Seq::new(
        if payload.len() == 0 {
            0
        } else {
            (payload.len() - 1) as nat
        },
        |i: int| payload[i + 1],
    )
}

/// Whether the attribute begins with the bytes of the magic number.
pub open spec fn has_magic(xattr: Seq<u8>) -> bool {
    xattr[0] == 0x66 && xattr[1] == 0x70 && xattr[2] == 0x6D && xattr[3] == 0x63
}

/// What a compressed file decodes to, type by type. The type stands four bytes
/// into the attribute, the size eight, the low byte first; an inline payload
/// follows the first 16 bytes. A stored payload is what it is (type 1), or stands
/// behind one byte (type 9, and types 3 and 7 where that byte is 0xFF or 0x06);
/// the other payloads take a codec. Types 4, 8, 10 and 12 take the resource fork.
/// Whatever is decoded is refused if it has not the declared size.
pub proof fn law_decoding_by_type(xattr: Seq<u8>, fork: Option<Seq<u8>>)
    ensures
        ({
            let result = crate::compression::file_result(xattr, fork);
            let kind = crate::laws::layout::low32(xattr, 4);
            let size = crate::laws::layout::low64(xattr, 8);
            let payload = xattr.skip(16);
            let sized: int = if size <= usize::MAX {
                size
            } else {
                usize::MAX as int
            };
            if xattr.len() < 16 {
                result == Err::<Seq<u8>, DecodeError>(DecodeError::Truncated)
            } else if !has_magic(xattr) {
                result matches Err(DecodeError::BadMagic(magic)) && magic
                    == crate::laws::layout::low32(xattr, 0)
            } else if kind == 1 {
                checked(Ok(payload), size, result)
            } else if kind == 9 || kind == 3 && payload.len() > 0 && payload[0] == 0xFF || kind == 7
                && payload.len() > 0 && payload[0] == 0x06 {
                checked(Ok(unmarked(payload)), size, result)
            } else if kind == 3 {
                checked(coded(Algorithm::Zlib, payload, size), size, result)
            } else if kind == 7 {
                checked(coded(Algorithm::Lzvn, payload, size), size, result)
            } else if kind == 11 {
                checked(coded(Algorithm::Lzfse, payload, size), size, result)
            } else if kind == 4 || kind == 8 || kind == 10 || kind == 12 {
                match fork {
                    None => result == Err::<Seq<u8>, DecodeError>(DecodeError::MissingResourceFork),
                    Some(fork) => checked(
                        if kind == 4 {
                            crate::compression::zlib_fork_result(fork)
                        } else if kind == 8 {
                            crate::compression::chunked_fork_result(Algorithm::Lzvn, fork, sized)
                        } else if kind == 10 {
                            crate::compression::chunked_fork_result(
                                Algorithm::Uncompressed,
                                fork,
                                sized,
                            )
                        } else {
                            crate::compression::chunked_fork_result(Algorithm::Lzfse, fork, sized)
                        },
                        size,
                        result,
                    ),
                }
            } else if kind == 5 {
                result == Err::<Seq<u8>, DecodeError>(
                    DecodeError::Unsupported("decmpfs type 5 (de-dup generation store)"),
                )
            } else if kind == 13 || kind == 14 {
                result == Err::<Seq<u8>, DecodeError>(
                    DecodeError::Unsupported("decmpfs LZBitmap (no public spec)"),
                )
            } else {
                result matches Err(DecodeError::UnknownType(found)) && found == kind
            }
        }),
{
    law_integers(xattr, 0);
    law_integers(xattr, 4);
    law_integers(xattr, 8);
    let payload = xattr.skip(16);
    if payload.len() > 0 {
        assert(payload.skip(1) =~= unmarked(payload));
    } else {
        assert(payload =~= unmarked(payload));
    }
}

} // verus!
