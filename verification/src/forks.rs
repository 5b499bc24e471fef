//! File forks: a logical size and the extents that hold its bytes.

use crate::bytes::{be16, be32, be64};
use crate::catalog::RECORD_FILE;
use vstd::prelude::*;

verus! {

broadcast use vstd::slice::axiom_spec_len;

/// Length of an `HFSPlusForkData`.
pub const FORK_DATA_LEN: usize = 80;

/// Offset of the data fork in the body of a file record.
pub const DATA_FORK_FIELD: usize = 88;

/// Offset of the resource fork in the body of a file record.
pub const RESOURCE_FORK_FIELD: usize = 168;

/// Length of the body of a file record.
pub const FILE_BODY_LEN: usize = 248;

/// Inline extents of a fork.
pub const EXTENT_SLOTS: usize = 8;

/// A file fork: its logical size and its `(start_block, block_count)` extents.
#[derive(Debug, Clone, PartialEq, Eq)]
pub struct Fork {
    /// Logical size in bytes.
    pub logical: u64,
    /// The extents that hold blocks, in order.
    pub extents: Vec<(u32, u32)>,
}

/// What a [`Fork`] says.
#[verifier::ext_equal]
pub struct ForkModel {
    /// Logical size in bytes.
    pub logical: u64,
    /// The extents that hold blocks, in order.
    pub extents: Seq<(u32, u32)>,
}

impl View for Fork {
    type V = ForkModel;

    open spec fn view(&self) -> ForkModel {
        ForkModel { logical: self.logical, extents: self.extents@ }
    }
}

/// The start block of extent slot `i` in a fork-data structure.
pub open spec fn slot_start(fork: Seq<u8>, i: int) -> u32 {
    crate::bytes::be32_at(fork, 16 + 8 * i)
}

/// The block count of extent slot `i` in a fork-data structure.
pub open spec fn slot_count(fork: Seq<u8>, i: int) -> u32 {
    crate::bytes::be32_at(fork, 20 + 8 * i)
}

/// The extents of the slots from `i` on, without those that hold no block.
pub open spec fn used_extents(fork: Seq<u8>, i: int) -> Seq<(u32, u32)>
    decreases EXTENT_SLOTS - i,
{
    if i >= EXTENT_SLOTS {
        Seq::empty()
    } else if slot_count(fork, i) != 0 {
        seq![(slot_start(fork, i), slot_count(fork, i))] + used_extents(fork, i + 1)
    } else {
        used_extents(fork, i + 1)
    }
}

/// The fork that a fork-data structure at the beginning of `fork` describes.
pub open spec fn fork_model(fork: Seq<u8>) -> Option<ForkModel> {
    if fork.len() < FORK_DATA_LEN {
        None
    } else {
        Some(
            ForkModel {
                logical: crate::bytes::be64_at(fork, 0),
                extents: used_extents(fork, 0),
            },
        )
    }
}

/// The empty fork.
pub open spec fn no_fork() -> ForkModel {
    ForkModel { logical: 0, extents: Seq::empty() }
}

/// The data fork and the resource fork of a file, as its catalog record gives
/// them: nothing unless `rec` is a file record for `cnid` that holds a whole
/// data fork. A record that ends before its resource fork does has an empty one.
pub open spec fn file_forks_model(rec: Seq<u8>, cnid: u32) -> Option<(ForkModel, ForkModel)> {
    let body = crate::catalog::record_body(rec);
    if {
        &&& rec.len() >= 8
        &&& body + RESOURCE_FORK_FIELD <= rec.len()
        &&& crate::catalog::record_type(rec) == RECORD_FILE
        &&& crate::catalog::body_cnid(rec) == cnid
    } {
        Some(
            (
                fork_model(rec.skip(body + DATA_FORK_FIELD))->0,
                if body + FILE_BODY_LEN <= rec.len() {
                    fork_model(rec.skip(body + RESOURCE_FORK_FIELD))->0
                } else {
                    no_fork()
                },
            ),
        )
    } else {
        None
    }
}

/// The first `n` elements of `data`, or all of it when it is shorter.
pub open spec fn truncated(data: Seq<u8>, n: int) -> Seq<u8> {
    if data.len() <= n {
        data
    } else {
        data.take(n)
    }
}

/// The bytes that the remaining `extents` add to the bytes `got` so far, until
/// there are `logical` of them; at the end, no more than `logical` are kept.
///
/// An extent that begins beyond the end of the volume ends the fork, and one
/// that ends beyond it is cut off there. `None` when the end of an extent is not
/// a machine address.
pub open spec fn extent_bytes(
    volume: Seq<u8>,
    block_size: usize,
    extents: Seq<(u32, u32)>,
    logical: int,
    got: Seq<u8>,
) -> Option<Seq<u8>>
    decreases extents.len(),
{
    if extents.len() == 0 || got.len() >= logical {
        Some(truncated(got, logical))
    } else {
        let begin = extents[0].0 * block_size;
        let end = begin + extents[0].1 * block_size;
        if end > usize::MAX {
            None
        } else if begin >= volume.len() {
            Some(truncated(got, logical))
        } else {
            let stop = if end <= volume.len() {
                end
            } else {
                volume.len() as int
            };
            extent_bytes(
                volume,
                block_size,
                extents.drop_first(),
                logical,
                got + volume.subrange(begin, stop),
            )
        }
    }
}

/// The bytes of a fork: those of its extents, cut to its logical size.
pub open spec fn fork_content(volume: Seq<u8>, block_size: usize, fork: ForkModel) -> Option<
    Seq<u8>,
> {
    extent_bytes(volume, block_size, fork.extents, (fork.logical as usize) as int, Seq::empty())
}

/// Parses an 80-byte `HFSPlusForkData`: the logical size and up to 8 extents.
pub fn parse_fork(fork: &[u8]) -> (parsed: Option<Fork>)
    ensures
        match parsed {
            Some(parsed) => fork_model(fork@) == Some(parsed@),
            None => fork_model(fork@) is None,
        },
{
    if fork.len() < FORK_DATA_LEN {
        return None;
    }
    let logical: u64 = be64(fork, 0);
    let mut extents: Vec<(u32, u32)> = Vec::new();
    let mut i: usize = 0;
    while i < EXTENT_SLOTS
        invariant
            fork@.len() >= FORK_DATA_LEN,
            i <= EXTENT_SLOTS,
            extents@ + used_extents(fork@, i as int) =~= used_extents(fork@, 0),
        decreases EXTENT_SLOTS - i,
    {
        let e: usize = 16 + i * 8;
        let start: u32 = be32(fork, e);
        let count: u32 = be32(fork, e + 4);
        if count != 0 {
            extents.push((start, count));
        }
        i = i + 1;
    }
    assert(extents@ =~= used_extents(fork@, 0));
    Some(Fork { logical, extents })
}

/// If `rec` is the file record for `cnid`, returns its data fork and its
/// resource fork.
pub fn file_forks(rec: &[u8], cnid: u32) -> (forks: Option<(Fork, Fork)>)
    ensures
        match forks {
            Some((data, resource)) => file_forks_model(rec@, cnid) == Some((data@, resource@)),
            None => file_forks_model(rec@, cnid) is None,
        },
{
    let len: usize = rec.len();
    if len < 8 {
        return None;
    }
    let data: usize = 2 + be16(rec, 0) as usize;
    if data + RESOURCE_FORK_FIELD > len {
        return None;
    }
    if be16(rec, data) != RECORD_FILE {
        return None;
    }
    if be32(rec, data + 8) != cnid {
        return None;
    }
    assert(rec@.skip(data + DATA_FORK_FIELD) =~= rec@.subrange(data + DATA_FORK_FIELD, len as int));
    let data_fork = match parse_fork(&rec[data + DATA_FORK_FIELD..len]) {
        Some(fork) => fork,
        None => return None,
    };
    let resource_fork = if data + FILE_BODY_LEN <= len {
        assert(rec@.skip(data + RESOURCE_FORK_FIELD) =~= rec@.subrange(
            data + RESOURCE_FORK_FIELD,
            len as int,
        ));
        match parse_fork(&rec[data + RESOURCE_FORK_FIELD..len]) {
            Some(fork) => fork,
            None => return None,
        }
    } else {
        Fork { logical: 0, extents: Vec::new() }
    };
    proof {
        if data + FILE_BODY_LEN > len {
            assert(resource_fork@ =~= no_fork());
        }
    }
    Some((data_fork, resource_fork))
}

/// Materializes a fork's bytes from `volume`, cut to its logical size.
pub fn fork_bytes(volume: &[u8], block_size: usize, fork: &Fork) -> (content: Option<Vec<u8>>)
    ensures
        match content {
            Some(bytes) => fork_content(volume@, block_size, fork@) == Some(bytes@),
            None => fork_content(volume@, block_size, fork@) is None,
        },
{
    let len: usize = volume.len();
    let logical: usize = #[verifier::truncate]
    (fork.logical as usize);
    let mut data: Vec<u8> = Vec::new();
    let mut i: usize = 0;
    assert(fork.extents@.skip(0) =~= fork.extents@);
    while i < fork.extents.len() && data.len() < logical
        invariant_except_break
            len == volume@.len(),
            logical == fork.logical as usize,
            i <= fork.extents@.len(),
            extent_bytes(
                volume@,
                block_size,
                fork.extents@.skip(i as int),
                logical as int,
                data@,
            ) == fork_content(volume@, block_size, fork@),
        ensures
            fork_content(volume@, block_size, fork@) == Some(
                truncated(data@, logical as int),
            ),
        decreases fork.extents@.len() - i,
    {
        let (start, count) = fork.extents[i];
        proof {
            assert(fork.extents@.skip(i as int).drop_first() =~= fork.extents@.skip(i + 1));
            assert(fork.extents@.skip(i as int)[0] == (start, count));
            assert(start * block_size >= 0) by (nonlinear_arith);
            assert(count * block_size >= 0) by (nonlinear_arith);
        }
        let begin: usize = match (start as usize).checked_mul(block_size) {
            Some(begin) => begin,
            None => return None,
        };
        let size: usize = match (count as usize).checked_mul(block_size) {
            Some(size) => size,
            None => return None,
        };
        let end: usize = match begin.checked_add(size) {
            Some(end) => end,
            None => return None,
        };
        if begin >= len {
            break ;
        }
        let stop: usize = if end <= len {
            end
        } else {
            len
        };
        let ghost before = data@;
        data.extend_from_slice(&volume[begin..stop]);
        assert(data@ =~= before + volume@.subrange(begin as int, stop as int));
        i = i + 1;
    }
    data.truncate(logical);
    Some(data)
}

} // verus!
