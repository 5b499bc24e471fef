//! Data forks that are larger than their extents.

use crate::audit::records::{CatalogFile, FileModel};
use crate::btree::{CatalogLoc, RecordWalk};
use crate::bytes::{be16, be32};
use crate::findings::{report, Anomaly, AnomalyKind, KindModel};
use crate::forks::EXTENT_SLOTS;
use crate::numbers::cap;
use vstd::prelude::*;

verus! {

broadcast use vstd::slice::axiom_spec_len;

/// The blocks of the extents from slot `i` on in an extent record at `at`, added
/// up. The slots end where the record does.
pub open spec fn extent_blocks(rec: Seq<u8>, at: int, i: int) -> int
    decreases EXTENT_SLOTS - i,
{
    if i >= EXTENT_SLOTS || at + 8 * i + 8 > rec.len() {
        0
    } else {
        crate::bytes::be32_at(rec, at + 8 * i + 4) + extent_blocks(rec, at, i + 1)
    }
}

/// The blocks that a record of the extents-overflow B-tree adds to the fork
/// `fork_type` of `cnid`.
pub open spec fn record_overflow(rec: Seq<u8>, cnid: u32, fork_type: u8) -> int {
    if rec.len() >= 12 && rec[2] == fork_type && crate::bytes::be32_at(rec, 4) == cnid {
        extent_blocks(rec, crate::catalog::record_body(rec), 0)
    } else {
        0
    }
}

/// The blocks that all `records` add to the fork `fork_type` of `cnid`.
pub open spec fn overflow_total(records: Seq<Seq<u8>>, cnid: u32, fork_type: u8) -> int
    decreases records.len(),
{
    if records.len() == 0 {
        0
    } else {
        record_overflow(records[0], cnid, fork_type) + overflow_total(
            records.drop_first(),
            cnid,
            fork_type,
        )
    }
}

/// The blocks that `logical` bytes need, up to the 32-bit limit.
pub open spec fn blocks_needed(logical: u64, block_size: u64) -> u32 {
    crate::numbers::capped(crate::numbers::rounded_up(logical as int, block_size as int))
}

/// The blocks that the extents of a file's data fork cover, up to the 32-bit
/// limit. The overflow extents count only where every inline extent is in use.
pub open spec fn blocks_allocated(
    volume: Seq<u8>,
    file: FileModel,
    extents: Option<CatalogLoc>,
) -> u32 {
    match extents {
        Some(loc) => if file.extents_full {
            crate::numbers::capped(
                file.inline_blocks + overflow_total(
                    crate::btree::leaf_records(volume, loc),
                    file.cnid,
                    0,
                ),
            )
        } else {
            file.inline_blocks
        },
        None => file.inline_blocks,
    }
}

/// The finding on the extents of a file: its data fork needs more blocks than
/// they cover.
pub open spec fn extents_findings(
    volume: Seq<u8>,
    file: FileModel,
    block_size: u64,
    extents: Option<CatalogLoc>,
) -> Seq<KindModel> {
    let allocated = blocks_allocated(volume, file, extents);
    let needed = blocks_needed(file.logical, block_size);
    crate::findings::finding_if(
        allocated < needed,
        KindModel::CatalogExtentsMismatch {
            cnid: file.cnid,
            name: file.name,
            logical: file.logical,
            allocated_blocks: allocated,
            needed_blocks: needed,
        },
    )
}

proof fn lemma_extent_blocks_nonnegative(rec: Seq<u8>, at: int, i: int)
    ensures
        extent_blocks(rec, at, i) >= 0,
    decreases EXTENT_SLOTS - i,
{
    if i < EXTENT_SLOTS && at + 8 * i + 8 <= rec.len() {
        lemma_extent_blocks_nonnegative(rec, at, i + 1);
    }
}

proof fn lemma_overflow_nonnegative(records: Seq<Seq<u8>>, cnid: u32, fork_type: u8)
    ensures
        overflow_total(records, cnid, fork_type) >= 0,
    decreases records.len(),
{
    if records.len() > 0 {
        lemma_extent_blocks_nonnegative(
            records[0],
            crate::catalog::record_body(records[0]),
            0,
        );
        lemma_overflow_nonnegative(records.drop_first(), cnid, fork_type);
    }
}

/// The blocks that one record adds to the fork `fork_type` of `cnid`.
fn record_overflow_blocks(rec: &[u8], cnid: u32, fork_type: u8) -> (blocks: u64)
    ensures
        blocks == record_overflow(rec@, cnid, fork_type),
        blocks <= 8 * u32::MAX,
{
    let len: usize = rec.len();
    if len < 12 || rec[2] != fork_type || be32(rec, 4) != cnid {
        return 0;
    }
    let data: usize = 2 + be16(rec, 0) as usize;
    let mut total: u64 = 0;
    let mut i: usize = 0;
    while i < EXTENT_SLOTS && data + 8 * i + 8 <= len
        invariant
            len == rec@.len(),
            data <= 2 + u16::MAX,
            i <= EXTENT_SLOTS,
            total <= i * u32::MAX,
            total + extent_blocks(rec@, data as int, i as int) == extent_blocks(
                rec@,
                data as int,
                0,
            ),
        decreases EXTENT_SLOTS - i,
    {
        total = total + be32(rec, data + 8 * i + 4) as u64;
        i = i + 1;
    }
    total
}

/// Adds up the extents-overflow blocks of the fork `fork_type` of `cnid`.
/// `fork_type` is 0 for the data fork and 0xFF for the resource fork (TN1150).
pub fn overflow_blocks(volume: &[u8], loc: &CatalogLoc, cnid: u32, fork_type: u8) -> (blocks: u32)
    requires
        loc.well_formed(),
    ensures
        blocks == crate::numbers::capped(
            overflow_total(crate::btree::leaf_records(volume@, *loc), cnid, fork_type),
        ),
{
    let mut total: u32 = 0;
    let mut records = RecordWalk::new(volume, loc);
    let ghost all = records.remaining();
    let ghost mut exact: int = 0;
    loop
        invariant
            records.well_formed(),
            exact >= 0,
            total == crate::numbers::capped(exact),
            exact + overflow_total(records.remaining(), cnid, fork_type) == overflow_total(
                all,
                cnid,
                fork_type,
            ),
        ensures
            total == crate::numbers::capped(overflow_total(all, cnid, fork_type)),
        decreases records.remaining().len(),
    {
        match records.next_record() {
            None => break ,
            Some(rec) => {
                let added: u64 = record_overflow_blocks(rec, cnid, fork_type);
                total = cap(total as u64 + added);
                proof {
                    exact = exact + added;
                }
            },
        }
    }
    total
}

/// The number of allocation blocks that `logical` bytes need.
pub fn needed_blocks(logical: u64, block_size: u64) -> (blocks: u32)
    requires
        block_size > 0,
    ensures
        blocks == blocks_needed(logical, block_size),
{
    let whole: u64 = logical / block_size;
    if logical % block_size == 0 {
        cap(whole)
    } else if whole >= u32::MAX as u64 {
        u32::MAX
    } else {
        cap(whole + 1)
    }
}

/// Reports a file whose data fork is larger than the blocks that its extents
/// cover.
pub fn audit_extents(
    volume: &[u8],
    file: &CatalogFile,
    block_size: u64,
    ext_loc: Option<&CatalogLoc>,
    out: &mut Vec<Anomaly>,
)
    requires
        block_size > 0,
        ext_loc matches Some(loc) ==> loc.well_formed(),
    ensures
        crate::findings::appended(old(out)@, final(out)@),
        crate::findings::kind_models(final(out)@) == crate::findings::kind_models(old(out)@)
            + extents_findings(
            volume@,
            file@,
            block_size,
            match ext_loc {
                Some(loc) => Some(*loc),
                None => None,
            },
        ),
{
    let needed: u32 = needed_blocks(file.logical, block_size);
    let mut allocated: u32 = file.inline_blocks;
    // A file with a spare inline extent never continues in the overflow B-tree.
    if file.extents_full {
        if let Some(loc) = ext_loc {
            let overflow: u32 = overflow_blocks(volume, loc, file.cnid, 0);
            proof {
                lemma_overflow_nonnegative(
                    crate::btree::leaf_records(volume@, *loc),
                    file.cnid,
                    0,
                );
            }
            allocated = cap(allocated as u64 + overflow as u64);
        }
    }
    if allocated < needed {
        report(
            out,
            AnomalyKind::CatalogExtentsMismatch {
                cnid: file.cnid,
                name: file.name.clone(),
                logical: file.logical,
                allocated_blocks: allocated,
                needed_blocks: needed,
            },
        );
    }
    assert(crate::findings::kind_models(out@) =~= crate::findings::kind_models(old(out)@)
        + extents_findings(
        volume@,
        file@,
        block_size,
        match ext_loc {
            Some(loc) => Some(*loc),
            None => None,
        },
    ));
}

} // verus!
