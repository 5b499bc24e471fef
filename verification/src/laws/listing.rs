//! Laws of the leaf chain and of directory listings.

use crate::btree::{CatalogLoc, MAX_LEAF_NODES};
use crate::catalog::{EntryModel, RECORD_FILE, RECORD_FOLDER};
use vstd::prelude::*;

verus! {

/// A volume whose catalog can be located has a volume header. So a buffer that
/// [`crate::volume::parse`] refuses has no listing, no tree, no metadata, no
/// file contents and no findings.
pub proof fn law_no_catalog_without_header(volume: Seq<u8>, cnid: u32)
    requires
        crate::volume::volume_header(volume) is None,
    ensures
        crate::btree::catalog_loc(volume) is None,
        crate::catalog::directory(volume, cnid) is None,
        crate::walk::tree(volume) is None,
        crate::catalog::node_stat(volume, cnid) is None,
        crate::files::file_content(volume, cnid) is None,
        crate::audit::audit_findings(volume) == Seq::<crate::findings::KindModel>::empty(),
{
}

/// Whether `rec` is the end of node `n`: its bytes from some offset on.
pub open spec fn ends_node(volume: Seq<u8>, loc: CatalogLoc, n: u32, rec: Seq<u8>) -> bool {
    crate::btree::node_bytes(volume, loc, n) matches Some(node) && rec.len() <= node.len() && rec
        == node.skip(node.len() - rec.len())
}

/// Whether `rec` is the end of some node, of at least eight bytes.
pub open spec fn is_node_end(volume: Seq<u8>, loc: CatalogLoc, rec: Seq<u8>) -> bool {
    &&& 8 <= rec.len() <= loc.node_size
    &&& exists|n: u32| #[trigger] ends_node(volume, loc, n, rec)
}

proof fn lemma_node_records_bounded(volume: Seq<u8>, loc: CatalogLoc, n: u32, node: Seq<u8>, i: int)
    requires
        crate::btree::node_bytes(volume, loc, n) == Some(node),
        0 <= i <= loc.node_size as int / 2,
    ensures
        crate::btree::node_records(node, i).len() <= loc.node_size as int / 2 - i,
        forall|k: int|
            0 <= k < crate::btree::node_records(node, i).len() ==> is_node_end(
                volume,
                loc,
                #[trigger] crate::btree::node_records(node, i)[k],
            ),
    decreases crate::btree::record_count(node) - i,
{
    if i < crate::btree::record_count(node) && 2 * (i + 1) <= node.len() {
        lemma_node_records_bounded(volume, loc, n, node, i + 1);
        let offset = crate::btree::record_offset(node, i) as int;
        if offset + 8 <= node.len() {
            let rec = node.subrange(offset, node.len() as int);
            assert(rec =~= node.skip(node.len() - rec.len()));
            assert(ends_node(volume, loc, n, rec));
            let records = crate::btree::node_records(node, i);
            let rest = crate::btree::node_records(node, i + 1);
            assert(records =~= seq![rec] + rest);
            assert forall|k: int| 0 <= k < records.len() implies is_node_end(
                volume,
                loc,
                #[trigger] records[k],
            ) by {
                if k > 0 {
                    assert(records[k] == rest[k - 1]);
                }
            }
        }
    }
}

proof fn lemma_chain_bounded(volume: Seq<u8>, loc: CatalogLoc, n: u32, budget: nat)
    ensures
        crate::btree::chain_records(volume, loc, n, budget).len() <= budget * (loc.node_size as int
            / 2),
        forall|k: int|
            0 <= k < crate::btree::chain_records(volume, loc, n, budget).len() ==> is_node_end(
                volume,
                loc,
                #[trigger] crate::btree::chain_records(volume, loc, n, budget)[k],
            ),
    decreases budget,
{
    let half = loc.node_size as int / 2;
    assert(budget * half >= 0) by (nonlinear_arith)
        requires
            half >= 0,
    ;
    if n != 0 && budget != 0 {
        if let Some(node) = crate::btree::node_bytes(volume, loc, n) {
            let next = crate::btree::forward_link(node);
            lemma_node_records_bounded(volume, loc, n, node, 0);
            lemma_chain_bounded(volume, loc, next, (budget - 1) as nat);
            assert((budget - 1) * half + half == budget * half) by (nonlinear_arith);
            let records = crate::btree::chain_records(volume, loc, n, budget);
            let head = crate::btree::node_records(node, 0);
            let tail = crate::btree::chain_records(volume, loc, next, (budget - 1) as nat);
            assert forall|k: int| 0 <= k < records.len() implies is_node_end(
                volume,
                loc,
                #[trigger] records[k],
            ) by {
                if k < head.len() {
                    assert(records[k] == head[k]);
                } else {
                    assert(records[k] == tail[k - head.len()]);
                }
            }
        }
    }
}

/// The records of a B-tree are bounded in number, whatever its links say: a leaf
/// chain that loops is cut short, and a node has room for as many offsets as it
/// has pairs of bytes. Each record is the end of a node, of at least eight bytes.
pub proof fn law_records_bounded(volume: Seq<u8>, loc: CatalogLoc)
    ensures
        crate::btree::leaf_records(volume, loc).len() <= MAX_LEAF_NODES * (loc.node_size as int
            / 2),
        forall|k: int|
            0 <= k < crate::btree::leaf_records(volume, loc).len() ==> is_node_end(
                volume,
                loc,
                #[trigger] crate::btree::leaf_records(volume, loc)[k],
            ),
{
    lemma_chain_bounded(volume, loc, loc.first_leaf, MAX_LEAF_NODES as nat);
}

/// The listing of a folder holds an entry if and only if some catalog record
/// describes that entry under that folder.
pub proof fn law_listing_exact(records: Seq<Seq<u8>>, parent: u32, entry: EntryModel)
    ensures
        crate::catalog::children(records, parent).contains(entry) <==> exists|i: int|
            0 <= i < records.len() && #[trigger] crate::catalog::record_entry_model(records[i])
                == Some((parent, entry)),
    decreases records.len(),
{
    let listing = crate::catalog::children(records, parent);
    let described = |rec: Seq<u8>|
        crate::catalog::record_entry_model(rec) == Some((parent, entry));
    if records.len() > 0 {
        let rest = records.drop_first();
        let tail = crate::catalog::children(rest, parent);
        law_listing_exact(rest, parent, entry);
        if listing.contains(entry) {
            if !described(records[0]) {
                let k = choose|k: int| 0 <= k < listing.len() && listing[k] == entry;
                if listing.len() > tail.len() {
                    assert(tail[k - 1] == entry);
                } else {
                    assert(tail[k] == entry);
                }
                let j = choose|j: int|
                    0 <= j < rest.len() && #[trigger] crate::catalog::record_entry_model(rest[j])
                        == Some((parent, entry));
                assert(records[j + 1] == rest[j]);
            }
        }
        if exists|i: int|
            0 <= i < records.len() && #[trigger] crate::catalog::record_entry_model(records[i])
                == Some((parent, entry)) {
            let i = choose|i: int|
                0 <= i < records.len() && #[trigger] crate::catalog::record_entry_model(records[i])
                    == Some((parent, entry));
            if i == 0 {
                assert(listing[0] == entry);
            } else {
                assert(rest[i - 1] == records[i]);
                let k = choose|k: int| 0 <= k < tail.len() && tail[k] == entry;
                if listing.len() > tail.len() {
                    assert(listing[k + 1] == entry);
                } else {
                    assert(listing[k] == entry);
                }
            }
        }
    }
}

/// A thread record is never listed as an entry, and neither is a record of an
/// unknown type.
pub proof fn law_only_files_and_folders_listed(rec: Seq<u8>)
    requires
        crate::catalog::record_type(rec) != RECORD_FILE,
        crate::catalog::record_type(rec) != RECORD_FOLDER,
    ensures
        crate::catalog::record_entry_model(rec) is None,
{
}

} // verus!
