//! The B-trees of a volume: where each one lies, its nodes, and the records of
//! its leaf chain.
//!
//! The catalog, extents-overflow and attributes files share one layout. A
//! [`CatalogLoc`] says where such a tree lies in the volume, and a
//! [`RecordWalk`] hands out the records of its leaf nodes in chain order.

use crate::bytes::{be16, be32};
use crate::volume::{signature_kind, VOLUME_HEADER_OFFSET};
use vstd::prelude::*;

verus! {

broadcast use vstd::slice::axiom_spec_len;

/// Volume-header offset of the extents-overflow file's fork data (TN1150).
pub const EXTENTS_FORK_OFFSET: usize = 192;

/// Volume-header offset of the catalog file's fork data (TN1150).
pub const CATALOG_FORK_OFFSET: usize = 272;

/// Volume-header offset of the attributes file's fork data (TN1150).
pub const ATTRIBUTES_FORK_OFFSET: usize = 352;

/// Length of a node descriptor, with which every node begins.
pub const NODE_DESCRIPTOR_LEN: usize = 14;

/// Bound on the leaf nodes walked, which cuts a corrupt `fLink` chain short.
pub const MAX_LEAF_NODES: u32 = 65536;

/// Where a B-tree lies in its volume.
#[derive(Debug, Clone, Copy, PartialEq, Eq, Structural)]
pub struct CatalogLoc {
    /// Byte offset of node 0.
    pub cat_base: usize,
    /// Bytes per node.
    pub node_size: usize,
    /// Number of the first leaf node; 0 when the tree is empty.
    pub first_leaf: u32,
    /// The volume's allocation block size in bytes.
    pub block_size: usize,
}

impl CatalogLoc {
    /// A node holds at least its own descriptor.
    pub open spec fn well_formed(self) -> bool {
        self.node_size >= NODE_DESCRIPTOR_LEN
    }
}

/// Where the B-tree lies whose fork data stands `fork_field` bytes into the
/// volume header.
///
/// There is none when the buffer ends before the fork's first extent or before
/// the B-tree header, when the signature is not HFS+ or HFSX, when the block
/// size is zero, when the fork holds no blocks, or when a node could not hold
/// its descriptor.
pub open spec fn btree_loc(volume: Seq<u8>, fork_field: int) -> Option<CatalogLoc> {
    let fork = VOLUME_HEADER_OFFSET + fork_field;
    let block_size = crate::volume::header32(volume, 40);
    let base = crate::bytes::be32_at(volume, fork + 16) * block_size;
    let node_size = crate::bytes::be16_at(volume, base + 32);
    if {
        ||| volume.len() < fork + 20
        ||| crate::volume::kind_of_signature(crate::volume::header16(volume, 0)) is None
        ||| block_size == 0
        ||| crate::bytes::be32_at(volume, fork + 12) == 0
        ||| volume.len() < base + 34
        ||| node_size < NODE_DESCRIPTOR_LEN
    } {
        None
    } else {
        Some(
            CatalogLoc {
                cat_base: base as usize,
                node_size: node_size as usize,
                first_leaf: crate::bytes::be32_at(volume, base + 24),
                block_size: block_size as usize,
            },
        )
    }
}

/// Where the catalog B-tree lies.
pub open spec fn catalog_loc(volume: Seq<u8>) -> Option<CatalogLoc> {
    btree_loc(volume, CATALOG_FORK_OFFSET as int)
}

/// Where the extents-overflow B-tree lies.
pub open spec fn extents_loc(volume: Seq<u8>) -> Option<CatalogLoc> {
    btree_loc(volume, EXTENTS_FORK_OFFSET as int)
}

/// Where the attributes B-tree lies.
pub open spec fn attributes_loc(volume: Seq<u8>) -> Option<CatalogLoc> {
    btree_loc(volume, ATTRIBUTES_FORK_OFFSET as int)
}

/// The bytes of node `n`, or `None` when they do not lie within the volume.
pub open spec fn node_bytes(volume: Seq<u8>, loc: CatalogLoc, n: u32) -> Option<Seq<u8>> {
    let off = n * loc.node_size + loc.cat_base;
    if off + loc.node_size > volume.len() || loc.node_size < NODE_DESCRIPTOR_LEN {
        None
    } else {
        Some(volume.subrange(off, off + loc.node_size))
    }
}

/// The forward link of a node: the number of the next node in its level.
pub open spec fn forward_link(node: Seq<u8>) -> u32 {
    crate::bytes::be32_at(node, 0)
}

/// The number of records that a node declares.
pub open spec fn record_count(node: Seq<u8>) -> u16 {
    crate::bytes::be16_at(node, 10)
}

/// The byte offset at which record `i` of a node begins. The offsets are stored
/// backwards from the end of the node.
pub open spec fn record_offset(node: Seq<u8>, i: int) -> u16 {
    crate::bytes::be16_at(node, node.len() - 2 * (i + 1))
}

/// The records of a node from record `i` on: each runs from its offset to the
/// end of the node. A record that would begin within eight bytes of the end is
/// skipped, and the offsets stop where the node does.
pub open spec fn node_records(node: Seq<u8>, i: int) -> Seq<Seq<u8>>
    decreases record_count(node) - i,
{
    if i >= record_count(node) || 2 * (i + 1) > node.len() {
        Seq::empty()
    } else if record_offset(node, i) + 8 <= node.len() {
        seq![node.subrange(record_offset(node, i) as int, node.len() as int)] + node_records(
            node,
            i + 1,
        )
    } else {
        node_records(node, i + 1)
    }
}

/// The records of the leaf chain that begins at node `n`, over at most `budget`
/// nodes. The chain ends at node 0 or at a node outside the volume.
pub open spec fn chain_records(volume: Seq<u8>, loc: CatalogLoc, n: u32, budget: nat) -> Seq<
    Seq<u8>,
>
    decreases budget,
{
    if n == 0 || budget == 0 {
        Seq::empty()
    } else {
        match node_bytes(volume, loc, n) {
            None => Seq::empty(),
            Some(node) => node_records(node, 0) + chain_records(
                volume,
                loc,
                forward_link(node),
                (budget - 1) as nat,
            ),
        }
    }
}

/// The records of a B-tree, in leaf-chain order.
pub open spec fn leaf_records(volume: Seq<u8>, loc: CatalogLoc) -> Seq<Seq<u8>> {
    chain_records(volume, loc, loc.first_leaf, MAX_LEAF_NODES as nat)
}

/// Locates the B-tree whose fork data stands `fork_offset_in_header` bytes into
/// the volume header. The block size, which ends 44 bytes into the header, must
/// be there if the fork's first extent and a known signature are.
pub fn locate_btree(volume: &[u8], fork_offset_in_header: usize) -> (loc: Option<CatalogLoc>)
    requires
        ({
            ||| volume@.len() < VOLUME_HEADER_OFFSET + fork_offset_in_header + 20
            ||| crate::volume::kind_of_signature(crate::volume::header16(volume@, 0)) is None
            ||| volume@.len() >= VOLUME_HEADER_OFFSET + 44
        }),
    ensures
        loc == btree_loc(volume@, fork_offset_in_header as int),
        loc matches Some(found) ==> found.well_formed(),
{
    let h: usize = VOLUME_HEADER_OFFSET;
    let len: usize = volume.len();
    let fork: usize = match h.checked_add(fork_offset_in_header) {
        Some(fork) => fork,
        None => return None,
    };
    if len < 20 || len - 20 < fork {
        return None;
    }
    if signature_kind(be16(volume, h)).is_none() {
        return None;
    }
    let block_size: usize = be32(volume, h + 40) as usize;
    if block_size == 0 {
        return None;
    }
    // HFSPlusForkData: logicalSize(8) clumpSize(4) totalBlocks(4) extents(64).
    if be32(volume, fork + 12) == 0 {
        return None;
    }
    let start_block: usize = be32(volume, fork + 16) as usize;
    let cat_base: usize = match start_block.checked_mul(block_size) {
        Some(cat_base) => cat_base,
        None => return None,
    };
    // The B-tree header record follows the descriptor of node 0.
    if len < 34 || len - 34 < cat_base {
        return None;
    }
    let first_leaf: u32 = be32(volume, cat_base + 24);
    let node_size: usize = be16(volume, cat_base + 32) as usize;
    if node_size < NODE_DESCRIPTOR_LEN {
        return None;
    }
    Some(CatalogLoc { cat_base, node_size, first_leaf, block_size })
}

/// Locates the catalog B-tree.
pub fn locate_catalog(volume: &[u8]) -> (loc: Option<CatalogLoc>)
    ensures
        loc == catalog_loc(volume@),
        loc matches Some(found) ==> found.well_formed(),
{
    locate_btree(volume, CATALOG_FORK_OFFSET)
}

/// Locates the extents-overflow B-tree, or `None` when the volume has none.
pub fn locate_extents(volume: &[u8]) -> (loc: Option<CatalogLoc>)
    ensures
        loc == extents_loc(volume@),
        loc matches Some(found) ==> found.well_formed(),
{
    locate_btree(volume, EXTENTS_FORK_OFFSET)
}

/// Locates the attributes B-tree, or `None` when the volume has none (no file in
/// it has an extended attribute).
pub fn locate_attributes(volume: &[u8]) -> (loc: Option<CatalogLoc>)
    ensures
        loc == attributes_loc(volume@),
        loc matches Some(found) ==> found.well_formed(),
{
    locate_btree(volume, ATTRIBUTES_FORK_OFFSET)
}

/// The `node_size` bytes of node `n`, or `None` if they are out of bounds.
pub fn node_slice<'a>(volume: &'a [u8], loc: &CatalogLoc, n: u32) -> (node: Option<&'a [u8]>)
    ensures
        match node {
            Some(node) => node_bytes(volume@, *loc, n) == Some(node@),
            None => node_bytes(volume@, *loc, n) is None,
        },
{
    let len: usize = volume.len();
    let off: usize = match (n as usize).checked_mul(loc.node_size) {
        Some(off) => off,
        None => return None,
    };
    let off: usize = match off.checked_add(loc.cat_base) {
        Some(off) => off,
        None => return None,
    };
    let end: usize = match off.checked_add(loc.node_size) {
        Some(end) => end,
        None => return None,
    };
    if end > len || loc.node_size < NODE_DESCRIPTOR_LEN {
        return None;
    }
    Some(&volume[off..end])
}

/// A walk over the records of a B-tree's leaf chain.
pub struct RecordWalk<'a> {
    volume: &'a [u8],
    loc: CatalogLoc,
    /// The node whose records are being handed out.
    node: Option<&'a [u8]>,
    /// The next record of that node.
    index: usize,
    /// The node that follows it in the chain.
    next_node: u32,
    /// How many more nodes may be entered.
    budget: u32,
}

impl<'a> RecordWalk<'a> {
    /// The node that is being read holds a descriptor, and the index is within
    /// its record count.
    pub closed spec fn well_formed(self) -> bool {
        self.node matches Some(node) ==> {
            &&& node@.len() >= NODE_DESCRIPTOR_LEN
            &&& self.index <= record_count(node@)
        }
    }

    /// The records that the walk has yet to hand out.
    pub closed spec fn remaining(self) -> Seq<Seq<u8>> {
        let chain = chain_records(self.volume@, self.loc, self.next_node, self.budget as nat);
        match self.node {
            Some(node) => node_records(node@, self.index as int) + chain,
            None => chain,
        }
    }

    /// Begins a walk at the first record of the tree.
    pub fn new(volume: &'a [u8], loc: &CatalogLoc) -> (walk: Self)
        requires
            loc.well_formed(),
        ensures
            walk.well_formed(),
            walk.remaining() == leaf_records(volume@, *loc),
    {
        RecordWalk {
            volume,
            loc: *loc,
            node: None,
            index: 0,
            next_node: loc.first_leaf,
            budget: MAX_LEAF_NODES,
        }
    }

    /// Hands out the next record, or `None` when there is none left.
    pub fn next_record(&mut self) -> (record: Option<&'a [u8]>)
        requires
            old(self).well_formed(),
        ensures
            final(self).well_formed(),
            match record {
                Some(record) => {
                    &&& old(self).remaining().len() > 0
                    &&& record@ == old(self).remaining()[0]
                    &&& final(self).remaining() == old(self).remaining().drop_first()
                },
                None => {
                    &&& old(self).remaining().len() == 0
                    &&& final(self).remaining().len() == 0
                },
            },
    {
        loop
            invariant
                self.well_formed(),
                self.remaining() == old(self).remaining(),
            decreases
                    self.budget,
                    (match self.node {
                        Some(node) => record_count(node@) - self.index + 1,
                        None => 0,
                    }),
        {
            match self.node {
                Some(node) => {
                    let i: usize = self.index;
                    if i >= be16(node, 10) as usize || node.len() < 2 * (i + 1) {
                        self.node = None;
                        continue ;
                    }
                    let slot: usize = node.len() - 2 * (i + 1);
                    let rec: usize = be16(node, slot) as usize;
                    self.index = i + 1;
                    if rec + 8 <= node.len() {
                        return Some(&node[rec..node.len()]);
                    }
                },
                None => {
                    if self.next_node == 0 || self.budget == 0 {
                        return None;
                    }
                    match node_slice(self.volume, &self.loc, self.next_node) {
                        None => {
                            return None;
                        },
                        Some(node) => {
                            self.node = Some(node);
                            self.index = 0;
                            self.next_node = be32(node, 0);
                            self.budget = self.budget - 1;
                        },
                    }
                },
            }
        }
    }
}

} // verus!
