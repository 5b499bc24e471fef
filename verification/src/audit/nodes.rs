//! B-tree nodes: what their descriptors and links say.

use crate::btree::{node_slice, CatalogLoc, MAX_LEAF_NODES};
use crate::bytes::be32;
use crate::findings::{report, Anomaly, AnomalyKind, KindModel};
use crate::text::{push_decimal, push_signed_decimal};
use std::collections::HashSet;
use vstd::prelude::*;

verus! {

broadcast use {vstd::slice::axiom_spec_len, vstd::std_specs::hash::group_hash_axioms};

/// Node kind of a leaf.
pub const NODE_LEAF: i16 = -1;

/// Node kind of an index node.
pub const NODE_INDEX: i16 = 0;

/// Node kind of a header node.
pub const NODE_HEADER: i16 = 1;

/// Node kind of a map node.
pub const NODE_MAP: i16 = 2;

/// The backward link of a node.
pub open spec fn backward_link(node: Seq<u8>) -> u32 {
    crate::bytes::be32_at(node, 4)
}

/// The kind in a node's descriptor, a signed byte.
pub open spec fn node_kind(node: Seq<u8>) -> int {
    if node[8] < 128 {
        node[8] as int
    } else {
        node[8] - 256
    }
}

/// The height in a node's descriptor.
pub open spec fn node_height(node: Seq<u8>) -> u8 {
    node[9]
}

/// What is said of an undocumented node kind.
pub open spec fn kind_detail(kind: int) -> Seq<char> {
    "undocumented node kind "@ + crate::text::signed_decimal(kind)
        + " (expected leaf -1, index 0, header 1, or map 2)"@
}

/// What is said of a leaf at another height than 1.
pub open spec fn height_detail(height: u8) -> Seq<char> {
    "leaf node at height "@ + crate::text::decimal(height as int) + if height == 0 {
        " (a leaf must sit at height >= 1)"@
    } else {
        " (a leaf must sit at height 1)"@
    }
}

/// What is said of a node that is no leaf, but sits at the height of one.
pub open spec fn leaf_height_detail(kind: int) -> Seq<char> {
    "node of kind "@ + crate::text::signed_decimal(kind)
        + " at height 1 (only a leaf sits at height 1)"@
}

/// What is said of a header kind elsewhere than on node 0.
pub open spec fn header_detail(n: u32) -> Seq<char> {
    "header-kind descriptor on node "@ + crate::text::decimal(n as int)
        + " (the header node must be node 0)"@
}

/// What is said of a node that links to itself.
pub open spec fn link_detail(forward: u32, backward: u32) -> Seq<char> {
    "node links point at itself (fLink "@ + crate::text::decimal(forward as int) + ", bLink "@
        + crate::text::decimal(backward as int) + ") — a node cannot be its own neighbour"@
}

/// What is said of a node that links to a node outside the tree.
pub open spec fn stray_detail(forward: u32, backward: u32) -> Seq<char> {
    "node links point outside the tree (fLink "@ + crate::text::decimal(forward as int)
        + ", bLink "@ + crate::text::decimal(backward as int)
        + ") — a neighbour must be a node of the tree"@
}

/// What is said of a chain that comes back to a node.
pub open spec fn loop_detail(n: u32) -> Seq<char> {
    "forward-link chain loops back to already-visited node "@ + crate::text::decimal(n as int)
}

/// Whether a link leads to a node that the volume does not hold. A link of 0
/// stands for no neighbour.
pub open spec fn strays(volume: Seq<u8>, loc: CatalogLoc, link: u32) -> bool {
    link != 0 && crate::btree::node_bytes(volume, loc, link) is None
}

/// The findings on the descriptor of node `n`: an undocumented kind, a leaf at
/// another height than 1, a node of another kind at the height of a leaf, a
/// header kind on another node than node 0, and a link of the node to itself. A
/// link of 0 stands for no neighbour.
pub open spec fn descriptor_findings(tree: Seq<char>, n: u32, node: Seq<u8>) -> Seq<KindModel> {
    let kind = node_kind(node);
    let height = node_height(node);
    let forward = crate::btree::forward_link(node);
    let backward = backward_link(node);
    let found = |detail: Seq<char>| KindModel::BtreeNodeInvalid { tree, node: n, detail };
    crate::findings::finding_if(
        kind != NODE_LEAF && kind != NODE_INDEX && kind != NODE_HEADER && kind != NODE_MAP,
        found(kind_detail(kind)),
    ) + crate::findings::finding_if(
        kind == NODE_LEAF && height != 1,
        found(height_detail(height)),
    ) + crate::findings::finding_if(
        (kind == NODE_INDEX || kind == NODE_HEADER || kind == NODE_MAP) && height == 1,
        found(leaf_height_detail(kind)),
    ) + crate::findings::finding_if(
        kind == NODE_HEADER && n != 0,
        found(header_detail(n)),
    ) + crate::findings::finding_if(
        n != 0 && (forward == n || backward == n),
        found(link_detail(forward, backward)),
    )
}

/// The finding on the links of node `n`, one of which leads outside the tree.
pub open spec fn stray_findings(
    volume: Seq<u8>,
    loc: CatalogLoc,
    tree: Seq<char>,
    n: u32,
    node: Seq<u8>,
) -> Seq<KindModel> {
    let forward = crate::btree::forward_link(node);
    let backward = backward_link(node);
    crate::findings::finding_if(
        strays(volume, loc, forward) || strays(volume, loc, backward),
        KindModel::BtreeNodeInvalid { tree, node: n, detail: stray_detail(forward, backward) },
    )
}

/// The findings on node `n`, which are none when it does not lie in the volume:
/// those on its descriptor, then that on where its links lead.
pub open spec fn node_findings(volume: Seq<u8>, loc: CatalogLoc, tree: Seq<char>, n: u32) -> Seq<
    KindModel,
> {
    match crate::btree::node_bytes(volume, loc, n) {
        Some(node) => descriptor_findings(tree, n, node) + stray_findings(
            volume,
            loc,
            tree,
            n,
            node,
        ),
        None => Seq::empty(),
    }
}

/// The findings on the leaf chain from node `n` on, over at most `budget` nodes,
/// where the nodes `seen` have been visited. A node that is visited again is a
/// finding, and ends the chain.
pub open spec fn chain_findings(
    volume: Seq<u8>,
    loc: CatalogLoc,
    tree: Seq<char>,
    n: u32,
    budget: nat,
    seen: Set<u32>,
) -> Seq<KindModel>
    decreases budget,
{
    if n == 0 || budget == 0 {
        Seq::empty()
    } else if seen.contains(n) {
        seq![KindModel::BtreeNodeInvalid { tree, node: n, detail: loop_detail(n) }]
    } else {
        match crate::btree::node_bytes(volume, loc, n) {
            None => Seq::empty(),
            Some(node) => node_findings(volume, loc, tree, n) + chain_findings(
                volume,
                loc,
                tree,
                crate::btree::forward_link(node),
                (budget - 1) as nat,
                seen.insert(n),
            ),
        }
    }
}

/// The findings on a B-tree: those on its header node and on its leaf chain.
pub open spec fn btree_findings(volume: Seq<u8>, loc: CatalogLoc, tree: Seq<char>) -> Seq<
    KindModel,
> {
    node_findings(volume, loc, tree, 0) + chain_findings(
        volume,
        loc,
        tree,
        loc.first_leaf,
        MAX_LEAF_NODES as nat,
        Set::empty(),
    )
}

fn describe_kind(kind: i16) -> (detail: String)
    ensures
        detail@ == kind_detail(kind as int),
{
    let mut detail: String = "undocumented node kind ".to_owned();
    push_signed_decimal(&mut detail, kind);
    detail.append(" (expected leaf -1, index 0, header 1, or map 2)");
    detail
}

fn describe_height(height: u8) -> (detail: String)
    ensures
        detail@ == height_detail(height),
{
    let mut detail: String = "leaf node at height ".to_owned();
    push_decimal(&mut detail, height as u64);
    if height == 0 {
        detail.append(" (a leaf must sit at height >= 1)");
    } else {
        detail.append(" (a leaf must sit at height 1)");
    }
    detail
}

fn describe_leaf_height(kind: i16) -> (detail: String)
    ensures
        detail@ == leaf_height_detail(kind as int),
{
    let mut detail: String = "node of kind ".to_owned();
    push_signed_decimal(&mut detail, kind);
    detail.append(" at height 1 (only a leaf sits at height 1)");
    detail
}

fn describe_header(n: u32) -> (detail: String)
    ensures
        detail@ == header_detail(n),
{
    let mut detail: String = "header-kind descriptor on node ".to_owned();
    push_decimal(&mut detail, n as u64);
    detail.append(" (the header node must be node 0)");
    detail
}

fn describe_links(forward: u32, backward: u32) -> (detail: String)
    ensures
        detail@ == link_detail(forward, backward),
{
    let mut detail: String = "node links point at itself (fLink ".to_owned();
    push_decimal(&mut detail, forward as u64);
    detail.append(", bLink ");
    push_decimal(&mut detail, backward as u64);
    detail.append(") — a node cannot be its own neighbour");
    detail
}

fn describe_stray(forward: u32, backward: u32) -> (detail: String)
    ensures
        detail@ == stray_detail(forward, backward),
{
    let mut detail: String = "node links point outside the tree (fLink ".to_owned();
    push_decimal(&mut detail, forward as u64);
    detail.append(", bLink ");
    push_decimal(&mut detail, backward as u64);
    detail.append(") — a neighbour must be a node of the tree");
    detail
}

fn describe_loop(n: u32) -> (detail: String)
    ensures
        detail@ == loop_detail(n),
{
    let mut detail: String =
        "forward-link chain loops back to already-visited node ".to_owned();
    push_decimal(&mut detail, n as u64);
    detail
}

/// Reports a finding on node `n` of `tree`.
fn report_node(out: &mut Vec<Anomaly>, tree: &str, n: u32, detail: String)
    ensures
        crate::findings::appended(old(out)@, final(out)@),
        crate::findings::kind_models(final(out)@) == crate::findings::kind_models(old(out)@).push(
            KindModel::BtreeNodeInvalid { tree: tree@, node: n, detail: detail@ },
        ),
{
    report(out, AnomalyKind::BtreeNodeInvalid { tree: tree.to_owned(), node: n, detail });
}

/// Checks the descriptor of node `n`, whose bytes are `node`.
pub fn check_descriptor(node: &[u8], n: u32, tree: &str, out: &mut Vec<Anomaly>)
    requires
        node@.len() >= 14,
    ensures
        crate::findings::appended(old(out)@, final(out)@),
        crate::findings::kind_models(final(out)@) == crate::findings::kind_models(old(out)@)
            + descriptor_findings(tree@, n, node@),
{
    let f_link: u32 = be32(node, 0);
    let b_link: u32 = be32(node, 4);
    let kind: i16 = if node[8] < 128 {
        node[8] as i16
    } else {
        node[8] as i16 - 256
    };
    let height: u8 = node[9];
    if kind != NODE_LEAF && kind != NODE_INDEX && kind != NODE_HEADER && kind != NODE_MAP {
        report_node(out, tree, n, describe_kind(kind));
    }
    if kind == NODE_LEAF && height != 1 {
        report_node(out, tree, n, describe_height(height));
    }
    if (kind == NODE_INDEX || kind == NODE_HEADER || kind == NODE_MAP) && height == 1 {
        report_node(out, tree, n, describe_leaf_height(kind));
    }
    if kind == NODE_HEADER && n != 0 {
        report_node(out, tree, n, describe_header(n));
    }
    if (f_link != 0 && f_link == n) || (b_link != 0 && b_link == n) {
        report_node(out, tree, n, describe_links(f_link, b_link));
    }
    assert(crate::findings::kind_models(out@) =~= crate::findings::kind_models(old(out)@)
        + descriptor_findings(tree@, n, node@));
}

/// Whether a link leads to a node that the volume does not hold.
pub fn link_strays(volume: &[u8], loc: &CatalogLoc, link: u32) -> (outside: bool)
    ensures
        outside == strays(volume@, *loc, link),
{
    link != 0 && node_slice(volume, loc, link).is_none()
}

/// Checks node `n` of a B-tree, and returns the node that follows it: none when
/// node `n` does not lie in the volume.
fn check_present_node(
    volume: &[u8],
    loc: &CatalogLoc,
    n: u32,
    tree: &str,
    out: &mut Vec<Anomaly>,
) -> (next: Option<u32>)
    ensures
        crate::findings::appended(old(out)@, final(out)@),
        crate::findings::kind_models(final(out)@) == crate::findings::kind_models(old(out)@)
            + node_findings(volume@, *loc, tree@, n),
        next == match crate::btree::node_bytes(volume@, *loc, n) {
            Some(node) => Some(crate::btree::forward_link(node)),
            None => None,
        },
{
    let node = match node_slice(volume, loc, n) {
        Some(node) => node,
        None => {
            assert(crate::findings::kind_models(out@) =~= crate::findings::kind_models(old(out)@)
                + Seq::<KindModel>::empty());
            return None;
        },
    };
    check_descriptor(node, n, tree, out);
    let f_link: u32 = be32(node, 0);
    let b_link: u32 = be32(node, 4);
    if link_strays(volume, loc, f_link) || link_strays(volume, loc, b_link) {
        report_node(out, tree, n, describe_stray(f_link, b_link));
    }
    assert(crate::findings::kind_models(out@) =~= crate::findings::kind_models(old(out)@)
        + node_findings(volume@, *loc, tree@, n));
    Some(f_link)
}

/// Checks node `n` of a B-tree.
pub fn check_node(volume: &[u8], loc: &CatalogLoc, n: u32, tree: &str, out: &mut Vec<Anomaly>)
    ensures
        crate::findings::appended(old(out)@, final(out)@),
        crate::findings::kind_models(final(out)@) == crate::findings::kind_models(old(out)@)
            + node_findings(volume@, *loc, tree@, n),
{
    let _ = check_present_node(volume, loc, n, tree, out);
}

/// Checks the header node and the leaf chain of a B-tree, the nodes that the
/// reader trusts.
pub fn audit_btree_nodes(volume: &[u8], loc: &CatalogLoc, tree: &str, out: &mut Vec<Anomaly>)
    ensures
        crate::findings::appended(old(out)@, final(out)@),
        crate::findings::kind_models(final(out)@) == crate::findings::kind_models(old(out)@)
            + btree_findings(volume@, *loc, tree@),
{
    check_node(volume, loc, 0, tree, out);
    let mut n: u32 = loc.first_leaf;
    let mut budget: u32 = MAX_LEAF_NODES;
    let mut seen: HashSet<u32> = HashSet::new();
    let ghost all = crate::findings::kind_models(old(out)@) + btree_findings(volume@, *loc, tree@);
    while n != 0 && budget > 0
        invariant_except_break
            crate::findings::appended(old(out)@, out@),
            crate::findings::kind_models(out@) + chain_findings(
                volume@,
                *loc,
                tree@,
                n,
                budget as nat,
                seen@,
            ) =~= all,
        ensures
            crate::findings::appended(old(out)@, out@),
            crate::findings::kind_models(out@) =~= all,
        decreases budget,
    {
        budget = budget - 1;
        let ghost before = seen@;
        if !seen.insert(n) {
            report_node(out, tree, n, describe_loop(n));
            break ;
        }
        n = match check_present_node(volume, loc, n, tree, out) {
            Some(next) => next,
            None => break ,
        };
    }
}

} // verus!
