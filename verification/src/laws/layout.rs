//! Laws of the layout of a volume, byte by byte: integers, the volume header,
//! where the B-trees lie, their nodes and their records.
//!
//! Numbers are spelled out of bytes here, and offsets are counted from the start
//! of the volume, of a node or of a record.

use crate::btree::CatalogLoc;
use crate::volume::HfsKind;
use vstd::prelude::*;

verus! {

// ---- Integers ----

/// The two bytes at `at`, the high one first.
pub open spec fn num16(s: Seq<u8>, at: int) -> int {
    256 * s[at] + s[at + 1]
}

/// The four bytes at `at`, the high one first.
pub open spec fn num32(s: Seq<u8>, at: int) -> int {
    0x100_0000 * s[at] + 0x1_0000 * s[at + 1] + 0x100 * s[at + 2] + s[at + 3]
}

/// The eight bytes at `at`, the high one first.
pub open spec fn num64(s: Seq<u8>, at: int) -> int {
    0x1_0000_0000 * num32(s, at) + num32(s, at + 4)
}

/// The four bytes at `at`, the low one first.
pub open spec fn low32(s: Seq<u8>, at: int) -> int {
    s[at] + 0x100 * s[at + 1] + 0x1_0000 * s[at + 2] + 0x100_0000 * s[at + 3]
}

/// The eight bytes at `at`, the low one first.
pub open spec fn low64(s: Seq<u8>, at: int) -> int {
    low32(s, at) + 0x1_0000_0000 * low32(s, at + 4)
}

/// Each integer that is read has the value that its bytes spell, over its whole
/// range.
pub proof fn law_integers(s: Seq<u8>, at: int)
    ensures
        crate::bytes::be16_at(s, at) == num16(s, at),
        crate::bytes::be32_at(s, at) == num32(s, at),
        crate::bytes::be64_at(s, at) == num64(s, at),
        crate::bytes::le32_at(s, at) == low32(s, at),
        crate::bytes::le64_at(s, at) == low64(s, at),
{
}

/// A bounded number is the number itself up to the bound, and the lesser of two
/// numbers is one of them that neither exceeds.
pub proof fn law_bounds(n: int, m: int)
    ensures
        0 <= n <= 0xFFFF_FFFF ==> crate::numbers::capped(n) == n,
        n > 0xFFFF_FFFF ==> crate::numbers::capped(n) == 0xFFFF_FFFF,
        crate::numbers::lesser(n, m) <= n,
        crate::numbers::lesser(n, m) <= m,
        crate::numbers::lesser(n, m) == n || crate::numbers::lesser(n, m) == m,
{
}

// ---- The volume header ----

/// Whether the signature of HFS+ or HFSX stands 1024 bytes into the volume.
pub open spec fn signed(volume: Seq<u8>) -> bool {
    volume[1024] == 0x48 && (volume[1025] == 0x2B || volume[1025] == 0x58)
}

/// A buffer has a header if and only if it holds the 52 bytes of the geometry
/// behind the first 1024, and begins them with `H+` or `HX`. Each field is spelled
/// by its own bytes.
pub proof fn law_header_fields(volume: Seq<u8>)
    ensures
        crate::volume::volume_header(volume) is Some <==> volume.len() >= 1076 && signed(volume),
        crate::volume::volume_header(volume) matches Some(header) ==> {
            &&& header.kind == HfsKind::HfsPlus <==> volume[1025] == 0x2B
            &&& header.version == num16(volume, 1026)
            &&& header.file_count == num32(volume, 1056)
            &&& header.folder_count == num32(volume, 1060)
            &&& header.block_size == num32(volume, 1064)
            &&& header.total_blocks == num32(volume, 1068)
            &&& header.free_blocks == num32(volume, 1072)
        },
{
}

// ---- Where a B-tree lies ----

/// The first byte of the tree whose fork data stand at `fork`: the start block of
/// their first extent, counted in blocks.
pub open spec fn tree_base(volume: Seq<u8>, fork: int) -> int {
    num32(volume, fork + 16) * num32(volume, 1064)
}

/// Whether the fork data at `fork` tell of a tree: the signature and the sizes
/// are there, the fork has blocks, and so is the header of the tree, with nodes
/// of at least 14 bytes.
pub open spec fn tree_told(volume: Seq<u8>, fork: int) -> bool {
    &&& volume.len() >= fork + 20
    &&& signed(volume)
    &&& num32(volume, 1064) > 0
    &&& num32(volume, fork + 12) > 0
    &&& volume.len() >= tree_base(volume, fork) + 34
    &&& num16(volume, tree_base(volume, fork) + 32) >= 14
}

/// Whether `loc` says where the tree lies whose fork data stand at `fork`.
pub open spec fn lies_at(volume: Seq<u8>, fork: int, loc: Option<CatalogLoc>) -> bool {
    &&& loc is Some <==> tree_told(volume, fork)
    &&& loc matches Some(loc) ==> {
        &&& loc.cat_base == tree_base(volume, fork)
        &&& loc.node_size == num16(volume, tree_base(volume, fork) + 32)
        &&& loc.first_leaf == num32(volume, tree_base(volume, fork) + 24)
        &&& loc.block_size == num32(volume, 1064)
    }
}

/// The catalog, the extents-overflow and the attributes B-tree lie where their
/// fork data in the volume header say, 1296, 1216 and 1376 bytes into the volume.
pub proof fn law_tree_locations(volume: Seq<u8>)
    requires
        volume.len() <= usize::MAX,
    ensures
        lies_at(volume, 1296, crate::btree::catalog_loc(volume)),
        lies_at(volume, 1216, crate::btree::extents_loc(volume)),
        lies_at(volume, 1376, crate::btree::attributes_loc(volume)),
{
    law_tree_location(volume, 272);
    law_tree_location(volume, 192);
    law_tree_location(volume, 352);
}

/// A tree is located by the fork data in the volume header, wherever they stand.
pub proof fn law_tree_location(volume: Seq<u8>, field: int)
    requires
        volume.len() <= usize::MAX,
    ensures
        lies_at(volume, 1024 + field, crate::btree::btree_loc(volume, field)),
{
    let fork = 1024 + field;
    law_integers(volume, fork + 16);
    law_integers(volume, 1064);
    assert(tree_base(volume, fork) >= 0) by (nonlinear_arith)
        requires
            tree_base(volume, fork) == num32(volume, fork + 16) * num32(volume, 1064),
            num32(volume, fork + 16) >= 0,
            num32(volume, 1064) >= 0,
    ;
    law_integers(volume, tree_base(volume, fork) + 24);
    law_integers(volume, tree_base(volume, fork) + 32);
}

// ---- Nodes and records ----

/// The first byte of node `n`.
pub open spec fn node_at(loc: CatalogLoc, n: int) -> int {
    loc.cat_base + n * loc.node_size
}

/// Whether the volume holds node `n` whole.
pub open spec fn holds_node(volume: Seq<u8>, loc: CatalogLoc, n: int) -> bool {
    loc.node_size >= 14 && node_at(loc, n) + loc.node_size <= volume.len()
}

/// A node is the bytes of the volume at its place, if the volume holds them.
pub proof fn law_nodes(volume: Seq<u8>, loc: CatalogLoc, n: u32)
    ensures
        crate::btree::node_bytes(volume, loc, n) is Some <==> holds_node(volume, loc, n as int),
        crate::btree::node_bytes(volume, loc, n) matches Some(node) ==> node.len() == loc.node_size
            && forall|k: int|
            0 <= k < loc.node_size ==> #[trigger] node[k] == volume[node_at(loc, n as int) + k],
{
    assert(n * loc.node_size >= 0) by (nonlinear_arith);
}

/// Where record `i` of the node at `at` begins, counted from the node: the
/// offsets stand at the end of the node, the first one last.
pub open spec fn offset_of(volume: Seq<u8>, at: int, size: int, i: int) -> int {
    num16(volume, at + size - 2 * (i + 1))
}

/// Whether the node at `at` has a record `i`: it is among those that the node
/// declares, its offset stands in the node, and at least eight bytes follow.
pub open spec fn has_record(volume: Seq<u8>, at: int, size: int, i: int) -> bool {
    &&& 0 <= i < num16(volume, at + 10)
    &&& 2 * (i + 1) <= size
    &&& offset_of(volume, at, size, i) + 8 <= size
}

/// Whether `chain` is the leaf chain of a tree: it begins at the first leaf, each
/// node links to the next, and it ends at a link of 0, at a link out of the
/// volume or after 65536 nodes, not before.
pub open spec fn is_chain(volume: Seq<u8>, loc: CatalogLoc, chain: Seq<u32>) -> bool {
    chain_from(volume, loc, loc.first_leaf, 65536, chain)
}

/// The number of the node that follows position `k` of a chain from node `n`.
pub open spec fn follower(volume: Seq<u8>, loc: CatalogLoc, n: u32, chain: Seq<u32>, k: int) -> int {
    if k == 0 {
        n as int
    } else {
        num32(volume, node_at(loc, chain[k - 1] as int))
    }
}

/// Whether `chain` is the chain from node `n` on, over at most `budget` nodes.
pub open spec fn chain_from(
    volume: Seq<u8>,
    loc: CatalogLoc,
    n: u32,
    budget: nat,
    chain: Seq<u32>,
) -> bool {
    &&& chain.len() <= budget
    &&& forall|k: int|
        0 <= k < chain.len() ==> {
            &&& #[trigger] chain[k] == follower(volume, loc, n, chain, k)
            &&& chain[k] != 0
            &&& holds_node(volume, loc, chain[k] as int)
        }
    &&& chain.len() < budget ==> {
        let next = follower(volume, loc, n, chain, chain.len() as int);
        next == 0 || !holds_node(volume, loc, next)
    }
}

/// Whether the pair `a` comes before the pair `b`.
pub open spec fn before(a: (int, int), b: (int, int)) -> bool {
    a.0 < b.0 || a.0 == b.0 && a.1 < b.1
}

/// Whether pairs are in order, each once.
pub open spec fn in_order(places: Seq<(int, int)>) -> bool {
    forall|a: int, b: int|
        0 <= a < b < places.len() ==> before(#[trigger] places[a], #[trigger] places[b])
}

/// Whether numbers are in order, each once.
pub open spec fn increasing(picks: Seq<int>) -> bool {
    forall|a: int, b: int| 0 <= a < b < picks.len() ==> #[trigger] picks[a] < #[trigger] picks[b]
}

/// Whether `record` is record `i` of node `n`: the bytes from its offset to the
/// end of the node.
pub open spec fn record_at(
    volume: Seq<u8>,
    loc: CatalogLoc,
    n: u32,
    i: int,
    record: Seq<u8>,
) -> bool {
    let at = node_at(loc, n as int);
    let size = loc.node_size as int;
    record == volume.subrange(at + offset_of(volume, at, size, i), at + size)
}

/// Whether `records` are all the records of the nodes of `chain`, node by node
/// and in the order of their offsets: `places` gives the position in the chain
/// and the number of each.
pub open spec fn records_of(
    volume: Seq<u8>,
    loc: CatalogLoc,
    chain: Seq<u32>,
    places: Seq<(int, int)>,
    records: Seq<Seq<u8>>,
) -> bool {
    &&& in_order(places)
    &&& records.len() == places.len()
    &&& forall|k: int, i: int| #[trigger]
        places.contains((k, i)) <==> 0 <= k < chain.len() && has_record(
            volume,
            node_at(loc, chain[k] as int),
            loc.node_size as int,
            i,
        )
    &&& forall|j: int|
        0 <= j < records.len() ==> record_at(
            volume,
            loc,
            chain[places[j].0],
            places[j].1,
            #[trigger] records[j],
        )
}

proof fn lemma_node_slots(volume: Seq<u8>, loc: CatalogLoc, n: u32, node: Seq<u8>, i: int) -> (slots:
    Seq<int>)
    requires
        crate::btree::node_bytes(volume, loc, n) == Some(node),
        0 <= i,
    ensures
        increasing(slots),
        slots.len() == crate::btree::node_records(node, i).len(),
        forall|s: int| #[trigger]
            slots.contains(s) <==> i <= s && has_record(
                volume,
                node_at(loc, n as int),
                loc.node_size as int,
                s,
            ),
        forall|j: int|
            0 <= j < slots.len() ==> record_at(
                volume,
                loc,
                n,
                #[trigger] slots[j],
                crate::btree::node_records(node, i)[j],
            ),
    decreases crate::btree::record_count(node) - i,
{
    let at = node_at(loc, n as int);
    let size = loc.node_size as int;
    law_nodes(volume, loc, n);
    law_integers(node, 10);
    assert(node[10] == volume[at + 10] && node[11] == volume[at + 11]);
    assert(crate::btree::record_count(node) == num16(volume, at + 10));
    if i >= crate::btree::record_count(node) || 2 * (i + 1) > node.len() {
        let slots = Seq::<int>::empty();
        assert forall|s: int| #[trigger] slots.contains(s) <==> i <= s && has_record(
            volume,
            at,
            size,
            s,
        ) by {}
        slots
    } else {
        let rest = lemma_node_slots(volume, loc, n, node, i + 1);
        let slot = size - 2 * (i + 1);
        law_integers(node, slot);
        assert(node[slot] == volume[at + slot] && node[slot + 1] == volume[at + slot + 1]);
        let offset = crate::btree::record_offset(node, i) as int;
        assert(offset == offset_of(volume, at, size, i));
        if offset + 8 <= node.len() {
            let slots = seq![i] + rest;
            assert(node.subrange(offset, size) =~= volume.subrange(at + offset, at + size));
            assert forall|s: int| #[trigger] slots.contains(s) <==> i <= s && has_record(
                volume,
                at,
                size,
                s,
            ) by {
                if s == i {
                    assert(slots[0] == i);
                }
                if rest.contains(s) {
                    let j = choose|j: int| 0 <= j < rest.len() && rest[j] == s;
                    assert(slots[j + 1] == s);
                }
                if slots.contains(s) && s != i {
                    let j = choose|j: int| 0 <= j < slots.len() && slots[j] == s;
                    assert(rest[j - 1] == s);
                }
            }
            assert forall|a: int, b: int| 0 <= a < b < slots.len() implies #[trigger] slots[a]
                < #[trigger] slots[b] by {
                assert(rest.contains(rest[b - 1]));
                if a > 0 {
                    assert(rest[a - 1] < rest[b - 1]);
                }
            }
            let records = crate::btree::node_records(node, i);
            let tail = crate::btree::node_records(node, i + 1);
            assert forall|j: int| 0 <= j < slots.len() implies record_at(
                volume,
                loc,
                n,
                #[trigger] slots[j],
                records[j],
            ) by {
                if j > 0 {
                    assert(records[j] == tail[j - 1]);
                    assert(slots[j] == rest[j - 1]);
                }
            }
            slots
        } else {
            assert forall|s: int| #[trigger] rest.contains(s) <==> i <= s && has_record(
                volume,
                at,
                size,
                s,
            ) by {}
            rest
        }
    }
}

proof fn lemma_chain_records(volume: Seq<u8>, loc: CatalogLoc, n: u32, budget: nat) -> (found: (
    Seq<u32>,
    Seq<(int, int)>,
))
    ensures
        chain_from(volume, loc, n, budget, found.0),
        records_of(
            volume,
            loc,
            found.0,
            found.1,
            crate::btree::chain_records(volume, loc, n, budget),
        ),
    decreases budget,
{
    let records = crate::btree::chain_records(volume, loc, n, budget);
    law_nodes(volume, loc, n);
    if n == 0 || budget == 0 || crate::btree::node_bytes(volume, loc, n) is None {
        let chain = Seq::<u32>::empty();
        let places = Seq::<(int, int)>::empty();
        assert(records.len() == 0);
        assert(follower(volume, loc, n, chain, 0) == n);
        (chain, places)
    } else {
        let node = crate::btree::node_bytes(volume, loc, n)->0;
        let at = node_at(loc, n as int);
        let next = crate::btree::forward_link(node);
        law_integers(node, 0);
        assert(node[0] == volume[at + 0] && node[1] == volume[at + 1] && node[2] == volume[at + 2]
            && node[3] == volume[at + 3]);
        assert(next == num32(volume, at));
        let slots = lemma_node_slots(volume, loc, n, node, 0);
        let (tail_chain, tail_places) = lemma_chain_records(
            volume,
            loc,
            next,
            (budget - 1) as nat,
        );
        let chain = seq![n] + tail_chain;
        let head = Seq::new(slots.len(), |j: int| (0int, slots[j]));
        let shifted = Seq::new(
            tail_places.len(),
            |j: int| (tail_places[j].0 + 1, tail_places[j].1),
        );
        let places = head + shifted;
        lemma_chain_grows(volume, loc, n, budget, next, tail_chain);
        lemma_places_grow(volume, loc, chain, slots, tail_chain, tail_places, places);
        let head_records = crate::btree::node_records(node, 0);
        let tail_records = crate::btree::chain_records(volume, loc, next, (budget - 1) as nat);
        assert forall|j: int| 0 <= j < records.len() implies record_at(
            volume,
            loc,
            chain[places[j].0],
            places[j].1,
            #[trigger] records[j],
        ) by {
            if j < head_records.len() {
                assert(records[j] == head_records[j]);
                assert(places[j] == (0int, slots[j]));
            } else {
                let m = j - head_records.len();
                assert(records[j] == tail_records[m]);
                assert(tail_places.contains(tail_places[m]));
                assert(chain[places[j].0] == tail_chain[tail_places[m].0]);
            }
        }
        (chain, places)
    }
}

proof fn lemma_chain_grows(
    volume: Seq<u8>,
    loc: CatalogLoc,
    n: u32,
    budget: nat,
    next: u32,
    tail: Seq<u32>,
)
    requires
        n != 0,
        budget > 0,
        holds_node(volume, loc, n as int),
        next == num32(volume, node_at(loc, n as int)),
        chain_from(volume, loc, next, (budget - 1) as nat, tail),
    ensures
        chain_from(volume, loc, n, budget, seq![n] + tail),
{
    let chain = seq![n] + tail;
    assert forall|k: int| 0 <= k < chain.len() implies {
        &&& #[trigger] chain[k] == follower(volume, loc, n, chain, k)
        &&& chain[k] != 0
        &&& holds_node(volume, loc, chain[k] as int)
    } by {
        if k > 0 {
            assert(chain[k] == tail[k - 1]);
            if k > 1 {
                assert(chain[k - 1] == tail[k - 2]);
            }
        }
    }
    if tail.len() > 0 {
        assert(chain[chain.len() - 1] == tail[tail.len() - 1]);
    }
    assert(follower(volume, loc, n, chain, chain.len() as int) == follower(
        volume,
        loc,
        next,
        tail,
        tail.len() as int,
    ));
}

proof fn lemma_places_grow(
    volume: Seq<u8>,
    loc: CatalogLoc,
    chain: Seq<u32>,
    slots: Seq<int>,
    tail_chain: Seq<u32>,
    tail_places: Seq<(int, int)>,
    places: Seq<(int, int)>,
)
    requires
        chain.len() == tail_chain.len() + 1,
        forall|k: int| 0 <= k < tail_chain.len() ==> #[trigger] chain[k + 1] == tail_chain[k],
        increasing(slots),
        forall|s: int| #[trigger]
            slots.contains(s) <==> 0 <= s && has_record(
                volume,
                node_at(loc, chain[0] as int),
                loc.node_size as int,
                s,
            ),
        in_order(tail_places),
        forall|k: int, i: int| #[trigger]
            tail_places.contains((k, i)) <==> 0 <= k < tail_chain.len() && has_record(
                volume,
                node_at(loc, tail_chain[k] as int),
                loc.node_size as int,
                i,
            ),
        places.len() == slots.len() + tail_places.len(),
        forall|j: int| 0 <= j < slots.len() ==> #[trigger] places[j] == (0int, slots[j]),
        forall|j: int|
            slots.len() <= j < places.len() ==> #[trigger] places[j] == (
                tail_places[j - slots.len()].0 + 1,
                tail_places[j - slots.len()].1,
            ),
    ensures
        in_order(places),
        forall|k: int, i: int| #[trigger]
            places.contains((k, i)) <==> 0 <= k < chain.len() && has_record(
                volume,
                node_at(loc, chain[k] as int),
                loc.node_size as int,
                i,
            ),
{
    let size = loc.node_size as int;
    assert forall|a: int, b: int| 0 <= a < b < places.len() implies before(
        #[trigger] places[a],
        #[trigger] places[b],
    ) by {
        if b < slots.len() {
            assert(slots[a] < slots[b]);
        } else {
            let y = tail_places[b - slots.len()];
            assert(tail_places.contains(y));
            assert(tail_places.contains((y.0, y.1)));
            if a >= slots.len() {
                assert(before(tail_places[a - slots.len()], y));
            }
        }
    }
    assert forall|k: int, i: int| #[trigger] places.contains((k, i)) <==> 0 <= k < chain.len()
        && has_record(volume, node_at(loc, chain[k] as int), size, i) by {
        if places.contains((k, i)) {
            let j = choose|j: int| 0 <= j < places.len() && places[j] == (k, i);
            if j < slots.len() {
                assert(slots.contains(slots[j]));
            } else {
                let y = tail_places[j - slots.len()];
                assert(tail_places.contains(y));
                assert(tail_places.contains((y.0, y.1)));
                assert(chain[y.0 + 1] == tail_chain[y.0]);
            }
        }
        if 0 <= k < chain.len() && has_record(volume, node_at(loc, chain[k] as int), size, i) {
            if k == 0 {
                assert(slots.contains(i));
                let j = choose|j: int| 0 <= j < slots.len() && slots[j] == i;
                assert(places[j] == (k, i));
            } else {
                assert(chain[(k - 1) + 1] == tail_chain[k - 1]);
                assert(tail_places.contains((k - 1, i)));
                let j = choose|j: int| 0 <= j < tail_places.len() && tail_places[j] == (k - 1, i);
                assert(places[slots.len() + j] == (k, i));
            }
        }
    }
}

/// The records of a B-tree are the records of the nodes of its leaf chain, all of
/// them, node by node and in the order of their offsets.
pub proof fn law_records_exact(volume: Seq<u8>, loc: CatalogLoc) -> (found: (
    Seq<u32>,
    Seq<(int, int)>,
))
    ensures
        is_chain(volume, loc, found.0),
        records_of(volume, loc, found.0, found.1, crate::btree::leaf_records(volume, loc)),
{
    lemma_chain_records(volume, loc, loc.first_leaf, 65536)
}

// ---- What is picked out of a list of records ----

/// What `f` makes of `records`, where it makes anything of them.
pub open spec fn kept<T>(records: Seq<Seq<u8>>, f: spec_fn(Seq<u8>) -> Option<T>) -> Seq<T>
    decreases records.len(),
{
    if records.len() == 0 {
        Seq::empty()
    } else {
        let rest = kept(records.drop_first(), f);
        match f(records[0]) {
            Some(found) => seq![found] + rest,
            None => rest,
        }
    }
}

/// What is kept comes from the records that give something, all of them, in
/// order.
pub proof fn lemma_kept<T>(records: Seq<Seq<u8>>, f: spec_fn(Seq<u8>) -> Option<T>) -> (picks: Seq<
    int,
>)
    ensures
        increasing(picks),
        picks.len() == kept(records, f).len(),
        forall|i: int| #[trigger]
            picks.contains(i) <==> 0 <= i < records.len() && f(records[i]) is Some,
        forall|j: int|
            0 <= j < picks.len() ==> 0 <= #[trigger] picks[j] < records.len() && f(
                records[picks[j]],
            ) == Some(kept(records, f)[j]),
    decreases records.len(),
{
    if records.len() == 0 {
        Seq::empty()
    } else {
        let rest = records.drop_first();
        let tail = lemma_kept(rest, f);
        let head = if f(records[0]) is Some {
            seq![0int]
        } else {
            Seq::empty()
        };
        let picks = head + tail.map_values(|i: int| i + 1);
        let all = kept(records, f);
        assert forall|j: int| 0 <= j < picks.len() implies 0 <= #[trigger] picks[j] < records.len()
            && f(records[picks[j]]) == Some(all[j]) by {
            if j >= head.len() {
                let m = j - head.len();
                assert(picks[j] == tail[m] + 1);
                assert(records[tail[m] + 1] == rest[tail[m]]);
                assert(all[j] == kept(rest, f)[m]);
            }
        }
        assert forall|i: int| #[trigger] picks.contains(i) <==> 0 <= i < records.len() && f(
            records[i],
        ) is Some by {
            if picks.contains(i) {
                let j = choose|j: int| 0 <= j < picks.len() && picks[j] == i;
                assert(picks[j] == i);
            }
            if 0 <= i < records.len() && f(records[i]) is Some {
                if i == 0 {
                    assert(picks[0] == 0);
                } else {
                    assert(rest[i - 1] == records[i]);
                    assert(tail.contains(i - 1));
                    let m = choose|m: int| 0 <= m < tail.len() && tail[m] == i - 1;
                    assert(picks[head.len() + m] == i);
                }
            }
        }
        assert forall|a: int, b: int| 0 <= a < b < picks.len() implies #[trigger] picks[a]
            < #[trigger] picks[b] by {
            assert(picks[b] == tail[b - head.len()] + 1);
            if a >= head.len() {
                assert(tail[a - head.len()] < tail[b - head.len()]);
                assert(picks[a] == tail[a - head.len()] + 1);
            }
        }
        picks
    }
}

/// Something is kept if and only if some record gives it.
pub proof fn lemma_kept_contains<T>(
    records: Seq<Seq<u8>>,
    f: spec_fn(Seq<u8>) -> Option<T>,
    found: T,
)
    ensures
        kept(records, f).contains(found) <==> exists|i: int|
            0 <= i < records.len() && f(#[trigger] records[i]) == Some(found),
{
    let picks = lemma_kept(records, f);
    let all = kept(records, f);
    if all.contains(found) {
        let j = choose|j: int| 0 <= j < all.len() && all[j] == found;
        assert(f(records[picks[j]]) == Some(found));
    }
    if exists|i: int| 0 <= i < records.len() && f(#[trigger] records[i]) == Some(found) {
        let i = choose|i: int| 0 <= i < records.len() && f(#[trigger] records[i]) == Some(found);
        assert(picks.contains(i));
        let j = choose|j: int| 0 <= j < picks.len() && picks[j] == i;
        assert(f(records[picks[j]]) == Some(all[j]));
        assert(all[j] == found);
    }
}

/// What `f` makes of the first of `records` that it makes anything of.
pub open spec fn first_kept<T>(records: Seq<Seq<u8>>, f: spec_fn(Seq<u8>) -> Option<T>) -> Option<
    T,
>
    decreases records.len(),
{
    if records.len() == 0 {
        None
    } else {
        match f(records[0]) {
            Some(found) => Some(found),
            None => first_kept(records.drop_first(), f),
        }
    }
}

/// The first that is kept comes from the first record that gives something.
pub proof fn lemma_first_kept<T>(records: Seq<Seq<u8>>, f: spec_fn(Seq<u8>) -> Option<T>) -> (i:
    int)
    ensures
        first_kept(records, f) is None ==> forall|j: int|
            0 <= j < records.len() ==> f(#[trigger] records[j]) is None,
        first_kept(records, f) is Some ==> {
            &&& 0 <= i < records.len()
            &&& f(records[i]) == first_kept(records, f)
            &&& forall|j: int| 0 <= j < i ==> f(#[trigger] records[j]) is None
        },
    decreases records.len(),
{
    if records.len() == 0 || f(records[0]) is Some {
        0
    } else {
        let rest = records.drop_first();
        let i = lemma_first_kept(rest, f);
        assert forall|j: int|
            0 <= j < records.len() && (first_kept(records, f) is None || j < i
                + 1) implies f(#[trigger] records[j]) is None by {
            if j > 0 {
                assert(records[j] == rest[j - 1]);
            }
        }
        if first_kept(rest, f) is Some {
            assert(records[i + 1] == rest[i]);
        }
        i + 1
    }
}

} // verus!
