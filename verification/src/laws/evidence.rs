//! Laws of the audit, in terms of the bytes that give rise to a finding.

use crate::audit::records::{FileModel, FolderModel, RecordModel};
use crate::btree::CatalogLoc;
use crate::findings::KindModel;
use crate::laws::auditing::{lemma_entry_finding, lemma_file_finding};
use crate::laws::entries::{law_names, law_names_determined};
use crate::laws::layout::{law_integers, law_nodes, lemma_kept, lemma_kept_contains};
use vstd::prelude::*;

verus! {

// ---- Nodes ----

/// The kind of node `n`, the signed byte eight bytes into it.
pub open spec fn kind_in(volume: Seq<u8>, loc: CatalogLoc, n: u32) -> int {
    let byte = volume[crate::laws::layout::node_at(loc, n as int) + 8];
    if byte < 128 {
        byte as int
    } else {
        byte - 256
    }
}

/// The height of node `n`, the byte behind its kind.
pub open spec fn height_in(volume: Seq<u8>, loc: CatalogLoc, n: u32) -> u8 {
    volume[crate::laws::layout::node_at(loc, n as int) + 9]
}

/// The forward link of node `n`, its first four bytes.
pub open spec fn forward_in(volume: Seq<u8>, loc: CatalogLoc, n: u32) -> int {
    crate::laws::layout::num32(volume, crate::laws::layout::node_at(loc, n as int))
}

/// The backward link of node `n`, its next four bytes.
pub open spec fn backward_in(volume: Seq<u8>, loc: CatalogLoc, n: u32) -> int {
    crate::laws::layout::num32(volume, crate::laws::layout::node_at(loc, n as int) + 4)
}

/// Whether a link leads out of the volume.
pub open spec fn leads_out(volume: Seq<u8>, loc: CatalogLoc, link: int) -> bool {
    link != 0 && !crate::laws::layout::holds_node(volume, loc, link)
}

/// Whether `detail` is true of node `n`: an undocumented kind; a leaf (kind -1)
/// at another height than 1, or an index, header or map node (kinds 0, 1 and 2)
/// there; a header kind elsewhere than on node 0; a link to the node itself; or a
/// link out of the volume.
pub open spec fn wrong_with_node(
    volume: Seq<u8>,
    loc: CatalogLoc,
    n: u32,
    detail: Seq<char>,
) -> bool {
    let kind = kind_in(volume, loc, n);
    let height = height_in(volume, loc, n);
    let forward = forward_in(volume, loc, n);
    let backward = backward_in(volume, loc, n);
    ||| (kind < -1 || kind > 2) && detail == crate::audit::nodes::kind_detail(kind)
    ||| kind == -1 && height != 1 && detail == crate::audit::nodes::height_detail(height)
    ||| 0 <= kind <= 2 && height == 1 && detail == crate::audit::nodes::leaf_height_detail(kind)
    ||| kind == 1 && n != 0 && detail == crate::audit::nodes::header_detail(n)
    ||| n != 0 && (forward == n || backward == n) && detail == crate::audit::nodes::link_detail(
        forward as u32,
        backward as u32,
    )
    ||| (leads_out(volume, loc, forward) || leads_out(volume, loc, backward)) && detail
        == crate::audit::nodes::stray_detail(forward as u32, backward as u32)
}

proof fn lemma_sum(a: Seq<KindModel>, b: Seq<KindModel>, kind: KindModel)
    ensures
        (a + b).contains(kind) <==> a.contains(kind) || b.contains(kind),
{
    if a.contains(kind) {
        let i = choose|i: int| 0 <= i < a.len() && a[i] == kind;
        assert((a + b)[i] == kind);
    }
    if b.contains(kind) {
        let i = choose|i: int| 0 <= i < b.len() && b[i] == kind;
        assert((a + b)[a.len() + i] == kind);
    }
    if (a + b).contains(kind) {
        let i = choose|i: int| 0 <= i < (a + b).len() && (a + b)[i] == kind;
        if i < a.len() {
            assert(a[i] == kind);
        } else {
            assert(b[i - a.len()] == kind);
        }
    }
}

proof fn lemma_if(holds: bool, one: KindModel, kind: KindModel)
    ensures
        crate::findings::finding_if(holds, one).contains(kind) <==> holds && kind == one,
{
    if holds {
        assert(crate::findings::finding_if(holds, one)[0] == one);
    }
}

proof fn lemma_node_fields(volume: Seq<u8>, loc: CatalogLoc, n: u32, node: Seq<u8>)
    requires
        crate::btree::node_bytes(volume, loc, n) == Some(node),
    ensures
        crate::audit::nodes::node_kind(node) == kind_in(volume, loc, n),
        crate::audit::nodes::node_height(node) == height_in(volume, loc, n),
        crate::btree::forward_link(node) == forward_in(volume, loc, n),
        crate::audit::nodes::backward_link(node) == backward_in(volume, loc, n),
{
    let at = crate::laws::layout::node_at(loc, n as int);
    law_nodes(volume, loc, n);
    law_integers(node, 0);
    law_integers(node, 4);
    assert(node[0] == volume[at + 0] && node[1] == volume[at + 1] && node[2] == volume[at + 2]
        && node[3] == volume[at + 3]);
    assert(node[4] == volume[at + 4] && node[5] == volume[at + 5] && node[6] == volume[at + 6]
        && node[7] == volume[at + 7]);
    assert(node[8] == volume[at + 8] && node[9] == volume[at + 9]);
}

/// A node gives rise to a finding if and only if the volume holds the node and
/// the detail is true of its bytes.
pub proof fn law_node_findings_told(
    volume: Seq<u8>,
    loc: CatalogLoc,
    tree: Seq<char>,
    n: u32,
    kind: KindModel,
)
    ensures
        crate::audit::nodes::node_findings(volume, loc, tree, n).contains(kind) <==> {
            &&& crate::laws::layout::holds_node(volume, loc, n as int)
            &&& kind matches KindModel::BtreeNodeInvalid { tree: named, node, detail }
            &&& named == tree
            &&& node == n
            &&& wrong_with_node(volume, loc, n, detail)
        },
{
    law_nodes(volume, loc, n);
    if let Some(node) = crate::btree::node_bytes(volume, loc, n) {
        lemma_node_fields(volume, loc, n, node);
        let code = crate::audit::nodes::node_kind(node);
        let height = crate::audit::nodes::node_height(node);
        let forward = crate::btree::forward_link(node);
        let backward = crate::audit::nodes::backward_link(node);
        law_nodes(volume, loc, forward);
        law_nodes(volume, loc, backward);
        let found = |detail: Seq<char>| KindModel::BtreeNodeInvalid { tree, node: n, detail };
        let a1 = code != -1 && code != 0 && code != 1 && code != 2;
        let a2 = code == -1 && height != 1;
        let a3 = (code == 0 || code == 1 || code == 2) && height == 1;
        let a4 = code == 1 && n != 0;
        let a5 = n != 0 && (forward == n || backward == n);
        let a6 = crate::audit::nodes::strays(volume, loc, forward) || crate::audit::nodes::strays(
            volume,
            loc,
            backward,
        );
        let k1 = found(crate::audit::nodes::kind_detail(code));
        let k2 = found(crate::audit::nodes::height_detail(height));
        let k3 = found(crate::audit::nodes::leaf_height_detail(code));
        let k4 = found(crate::audit::nodes::header_detail(n));
        let k5 = found(crate::audit::nodes::link_detail(forward, backward));
        let k6 = found(crate::audit::nodes::stray_detail(forward, backward));
        let f1 = crate::findings::finding_if(a1, k1);
        let f2 = crate::findings::finding_if(a2, k2);
        let f3 = crate::findings::finding_if(a3, k3);
        let f4 = crate::findings::finding_if(a4, k4);
        let f5 = crate::findings::finding_if(a5, k5);
        let f6 = crate::findings::finding_if(a6, k6);
        lemma_if(a1, k1, kind);
        lemma_if(a2, k2, kind);
        lemma_if(a3, k3, kind);
        lemma_if(a4, k4, kind);
        lemma_if(a5, k5, kind);
        lemma_if(a6, k6, kind);
        lemma_sum(f1, f2, kind);
        lemma_sum(f1 + f2, f3, kind);
        lemma_sum(f1 + f2 + f3, f4, kind);
        lemma_sum(f1 + f2 + f3 + f4, f5, kind);
        lemma_sum(f1 + f2 + f3 + f4 + f5, f6, kind);
        assert(crate::audit::nodes::node_findings(volume, loc, tree, n) == f1 + f2 + f3 + f4 + f5
            + f6);
    }
}

/// How the visit of a leaf chain ends, once `visited` nodes were, in the volume
/// and each once: with a link to one of them (a loop), or with a link of 0, a link
/// out of the volume or the last of `budget` nodes.
pub open spec fn visit_from(
    volume: Seq<u8>,
    loc: CatalogLoc,
    n: u32,
    budget: nat,
    seen: Set<u32>,
    visited: Seq<u32>,
    loops: bool,
) -> bool {
    let next = crate::laws::layout::follower(volume, loc, n, visited, visited.len() as int);
    &&& visited.len() <= budget
    &&& forall|k: int|
        0 <= k < visited.len() ==> {
            &&& #[trigger] visited[k] == crate::laws::layout::follower(volume, loc, n, visited, k)
            &&& visited[k] != 0
            &&& crate::laws::layout::holds_node(volume, loc, visited[k] as int)
            &&& !seen.contains(visited[k])
        }
    &&& forall|j: int, k: int|
        0 <= j < k < visited.len() ==> #[trigger] visited[j] != #[trigger] visited[k]
    &&& loops ==> visited.len() < budget && next != 0 && (seen.contains(next as u32)
        || visited.contains(next as u32))
    &&& !loops ==> visited.len() == budget || next == 0 || !crate::laws::layout::holds_node(
        volume,
        loc,
        next,
    ) && !seen.contains(next as u32) && !visited.contains(next as u32)
}

/// Whether a node at position `k` of `visited` gives rise to the finding.
pub open spec fn found_on_node(
    volume: Seq<u8>,
    loc: CatalogLoc,
    tree: Seq<char>,
    visited: Seq<u32>,
    kind: KindModel,
    k: int,
) -> bool {
    0 <= k < visited.len() && crate::audit::nodes::node_findings(
        volume,
        loc,
        tree,
        visited[k],
    ).contains(kind)
}

proof fn lemma_visit_trace(
    volume: Seq<u8>,
    loc: CatalogLoc,
    tree: Seq<char>,
    n: u32,
    budget: nat,
    seen: Set<u32>,
) -> (trace: (Seq<u32>, bool))
    ensures
        visit_from(volume, loc, n, budget, seen, trace.0, trace.1),
        forall|kind: KindModel| #[trigger]
            crate::audit::nodes::chain_findings(volume, loc, tree, n, budget, seen).contains(kind)
                <==> {
                ||| exists|k: int| #[trigger] found_on_node(volume, loc, tree, trace.0, kind, k)
                ||| trace.1 && kind == loop_finding(volume, loc, tree, n, trace.0)
            },
    decreases budget,
{
    let findings = crate::audit::nodes::chain_findings(volume, loc, tree, n, budget, seen);
    let none = Seq::<u32>::empty();
    law_nodes(volume, loc, n);
    assert(crate::laws::layout::follower(volume, loc, n, none, 0) == n);
    if n == 0 || budget == 0 {
        (none, false)
    } else if seen.contains(n) {
        assert(findings[0] == loop_finding(volume, loc, tree, n, none));
        (none, true)
    } else if crate::btree::node_bytes(volume, loc, n) is None {
        (none, false)
    } else {
        let node = crate::btree::node_bytes(volume, loc, n)->0;
        lemma_node_fields(volume, loc, n, node);
        let next = crate::btree::forward_link(node);
        let after = seen.insert(n);
        let (rest, loops) = lemma_visit_trace(volume, loc, tree, next, (budget - 1) as nat, after);
        let visited = seq![n] + rest;
        lemma_visit_step(volume, loc, n, budget, seen, next, rest, loops);
        let head = crate::audit::nodes::node_findings(volume, loc, tree, n);
        let tail = crate::audit::nodes::chain_findings(
            volume,
            loc,
            tree,
            next,
            (budget - 1) as nat,
            after,
        );
        assert(loop_finding(volume, loc, tree, n, visited) == loop_finding(
            volume,
            loc,
            tree,
            next,
            rest,
        )) by {
            if rest.len() > 0 {
                assert(visited[visited.len() - 1] == rest[rest.len() - 1]);
            }
        }
        assert forall|kind: KindModel| #[trigger] findings.contains(kind) <==> {
            ||| exists|k: int| #[trigger] found_on_node(volume, loc, tree, visited, kind, k)
            ||| loops && kind == loop_finding(volume, loc, tree, n, visited)
        } by {
            lemma_sum(head, tail, kind);
            assert(tail.contains(kind) <==> {
                ||| exists|k: int| #[trigger] found_on_node(volume, loc, tree, rest, kind, k)
                ||| loops && kind == loop_finding(volume, loc, tree, next, rest)
            });
            if head.contains(kind) {
                assert(found_on_node(volume, loc, tree, visited, kind, 0));
            }
            if exists|k: int| #[trigger] found_on_node(volume, loc, tree, rest, kind, k) {
                let k = choose|k: int| #[trigger] found_on_node(volume, loc, tree, rest, kind, k);
                assert(visited[k + 1] == rest[k]);
                assert(found_on_node(volume, loc, tree, visited, kind, k + 1));
            }
            if exists|k: int| #[trigger] found_on_node(volume, loc, tree, visited, kind, k) {
                let k = choose|k: int| #[trigger]
                    found_on_node(volume, loc, tree, visited, kind, k);
                if k > 0 {
                    assert(visited[k] == rest[k - 1]);
                    assert(found_on_node(volume, loc, tree, rest, kind, k - 1));
                }
            }
        }
        (visited, loops)
    }
}

proof fn lemma_visit_step(
    volume: Seq<u8>,
    loc: CatalogLoc,
    n: u32,
    budget: nat,
    seen: Set<u32>,
    next: u32,
    rest: Seq<u32>,
    loops: bool,
)
    requires
        n != 0,
        budget > 0,
        !seen.contains(n),
        crate::laws::layout::holds_node(volume, loc, n as int),
        next == forward_in(volume, loc, n),
        visit_from(volume, loc, next, (budget - 1) as nat, seen.insert(n), rest, loops),
    ensures
        visit_from(volume, loc, n, budget, seen, seq![n] + rest, loops),
{
    let visited = seq![n] + rest;
    let after = seen.insert(n);
    assert forall|k: int| 0 <= k < visited.len() implies {
        &&& #[trigger] visited[k] == crate::laws::layout::follower(volume, loc, n, visited, k)
        &&& visited[k] != 0
        &&& crate::laws::layout::holds_node(volume, loc, visited[k] as int)
        &&& !seen.contains(visited[k])
    } by {
        if k > 0 {
            assert(visited[k] == rest[k - 1]);
            if k > 1 {
                assert(visited[k - 1] == rest[k - 2]);
            }
        }
    }
    assert forall|j: int, k: int| 0 <= j < k < visited.len() implies #[trigger] visited[j]
        != #[trigger] visited[k] by {
        assert(visited[k] == rest[k - 1]);
        assert(!after.contains(rest[k - 1]));
        if j > 0 {
            assert(visited[j] == rest[j - 1]);
        }
    }
    let end = crate::laws::layout::follower(volume, loc, n, visited, visited.len() as int);
    if rest.len() > 0 {
        assert(visited[visited.len() - 1] == rest[rest.len() - 1]);
    }
    assert(end == crate::laws::layout::follower(volume, loc, next, rest, rest.len() as int));
    assert forall|c: u32| #[trigger] visited.contains(c) <==> c == n || rest.contains(c) by {
        if c == n {
            assert(visited[0] == c);
        }
        if rest.contains(c) {
            let k = choose|k: int| 0 <= k < rest.len() && rest[k] == c;
            assert(visited[k + 1] == c);
        }
        if visited.contains(c) && c != n {
            let k = choose|k: int| 0 <= k < visited.len() && visited[k] == c;
            assert(rest[k - 1] == c);
        }
    }
}

/// The finding on a chain that comes back to a node behind `visited`.
pub open spec fn loop_finding(
    volume: Seq<u8>,
    loc: CatalogLoc,
    tree: Seq<char>,
    n: u32,
    visited: Seq<u32>,
) -> KindModel {
    let node = crate::laws::layout::follower(
        volume,
        loc,
        n,
        visited,
        visited.len() as int,
    ) as u32;
    KindModel::BtreeNodeInvalid { tree, node, detail: crate::audit::nodes::loop_detail(node) }
}

/// The findings on a B-tree are those on node 0, those on the nodes of its leaf
/// chain, each visited once, and the one on a chain that loops.
pub proof fn law_tree_findings_told(volume: Seq<u8>, loc: CatalogLoc, tree: Seq<char>) -> (trace: (
    Seq<u32>,
    bool,
))
    ensures
        visit_from(volume, loc, loc.first_leaf, 65536, Set::empty(), trace.0, trace.1),
        forall|kind: KindModel| #[trigger]
            crate::audit::nodes::btree_findings(volume, loc, tree).contains(kind) <==> {
                ||| crate::audit::nodes::node_findings(volume, loc, tree, 0).contains(kind)
                ||| exists|k: int| #[trigger] found_on_node(volume, loc, tree, trace.0, kind, k)
                ||| trace.1 && kind == loop_finding(volume, loc, tree, loc.first_leaf, trace.0)
            },
{
    let trace = lemma_visit_trace(volume, loc, tree, loc.first_leaf, 65536, Set::empty());
    let head = crate::audit::nodes::node_findings(volume, loc, tree, 0);
    let tail = crate::audit::nodes::chain_findings(
        volume,
        loc,
        tree,
        loc.first_leaf,
        65536,
        Set::empty(),
    );
    assert forall|kind: KindModel| #[trigger]
        crate::audit::nodes::btree_findings(volume, loc, tree).contains(kind) <==> {
            ||| head.contains(kind)
            ||| exists|k: int| #[trigger] found_on_node(volume, loc, tree, trace.0, kind, k)
            ||| trace.1 && kind == loop_finding(volume, loc, tree, loc.first_leaf, trace.0)
        } by {
        lemma_sum(head, tail, kind);
        assert(tail.contains(kind) <==> {
            ||| exists|k: int| #[trigger] found_on_node(volume, loc, tree, trace.0, kind, k)
            ||| trace.1 && kind == loop_finding(volume, loc, tree, loc.first_leaf, trace.0)
        });
    }
    trace
}

// ---- Records ----

/// The block counts of the eight slots of the fork data at `at`, added up.
pub open spec fn eight_counts(s: Seq<u8>, at: int) -> int {
    crate::laws::layout::num32(s, at + 20) + crate::laws::layout::num32(s, at + 28)
        + crate::laws::layout::num32(s, at + 36) + crate::laws::layout::num32(s, at + 44)
        + crate::laws::layout::num32(s, at + 52) + crate::laws::layout::num32(s, at + 60)
        + crate::laws::layout::num32(s, at + 68) + crate::laws::layout::num32(s, at + 76)
}

/// `n`, or the largest 32-bit number where `n` is larger.
pub open spec fn up_to_limit(n: int) -> int {
    if n <= 0xFFFF_FFFF {
        n
    } else {
        0xFFFF_FFFF
    }
}

/// Whether none of the eight slots of the fork data at `at` is empty.
pub open spec fn slots_full(s: Seq<u8>, at: int) -> bool {
    forall|i: int| 0 <= i < 8 ==> #[trigger] crate::laws::layout::num32(s, at + 20 + 8 * i) != 0
}

proof fn lemma_slots(s: Seq<u8>, at: int)
    requires
        0 <= at,
        at + 80 <= s.len(),
    ensures
        crate::audit::records::inline_blocks_of(s.skip(at)) == up_to_limit(eight_counts(s, at)),
        crate::audit::records::all_slots_used(s.skip(at)) <==> slots_full(s, at),
        crate::bytes::be64_at(s.skip(at), 0) == crate::laws::layout::num64(s, at),
{
    let fork = s.skip(at);
    reveal_with_fuel(crate::audit::records::slot_blocks, 9);
    assert forall|i: int| 0 <= i < 8 implies #[trigger] crate::forks::slot_count(fork, i)
        == crate::laws::layout::num32(s, at + 20 + 8 * i) by {
        let field = 20 + 8 * i;
        law_integers(fork, field);
        assert(fork[field] == s[at + field]);
        assert(fork[field + 1] == s[at + field + 1]);
        assert(fork[field + 2] == s[at + field + 2]);
        assert(fork[field + 3] == s[at + field + 3]);
    }
    assert(crate::forks::slot_count(fork, 0) == crate::laws::layout::num32(s, at + 20));
    assert(crate::forks::slot_count(fork, 1) == crate::laws::layout::num32(s, at + 28));
    assert(crate::forks::slot_count(fork, 2) == crate::laws::layout::num32(s, at + 36));
    assert(crate::forks::slot_count(fork, 3) == crate::laws::layout::num32(s, at + 44));
    assert(crate::forks::slot_count(fork, 4) == crate::laws::layout::num32(s, at + 52));
    assert(crate::forks::slot_count(fork, 5) == crate::laws::layout::num32(s, at + 60));
    assert(crate::forks::slot_count(fork, 6) == crate::laws::layout::num32(s, at + 68));
    assert(crate::forks::slot_count(fork, 7) == crate::laws::layout::num32(s, at + 76));
    if slots_full(s, at) {
        assert forall|i: int| 0 <= i < 8 implies #[trigger] crate::forks::slot_count(fork, i)
            != 0 by {
            assert(crate::laws::layout::num32(s, at + 20 + 8 * i) != 0);
        }
    }
    if crate::audit::records::all_slots_used(fork) {
        assert forall|i: int| 0 <= i < 8 implies #[trigger] crate::laws::layout::num32(
            s,
            at + 20 + 8 * i,
        ) != 0 by {
            assert(crate::forks::slot_count(fork, i) != 0);
        }
    }
    law_integers(fork, 0);
    assert(fork[0] == s[at + 0] && fork[1] == s[at + 1] && fork[2] == s[at + 2] && fork[3] == s[at
        + 3]);
    assert(fork[4] == s[at + 4] && fork[5] == s[at + 5] && fork[6] == s[at + 6] && fork[7] == s[at
        + 7]);
}

/// The blocks of a fork that its eight slots count are their sum, up to the
/// 32-bit limit, and the fork may go on elsewhere if and only if none is empty.
pub proof fn law_inline_blocks(fork: Seq<u8>)
    ensures
        fork.len() >= 80 ==> crate::audit::records::inline_blocks_of(fork) == up_to_limit(
            eight_counts(fork, 0),
        ),
        fork.len() >= 80 ==> (crate::audit::records::all_slots_used(fork) <==> slots_full(fork, 0)),
        fork.len() < 80 ==> crate::audit::records::inline_blocks_of(fork) == 0
            && !crate::audit::records::all_slots_used(fork),
{
    assert(fork.skip(0) =~= fork);
    if fork.len() >= 80 {
        lemma_slots(fork, 0);
    }
}

/// Whether a record is that of a thread (types 3 and 4).
pub open spec fn is_thread(rec: Seq<u8>) -> bool {
    &&& crate::laws::entries::has_key(rec)
    &&& crate::laws::entries::body_at(rec) + 10 <= rec.len()
    &&& crate::laws::entries::type_of(rec) == 3 || crate::laws::entries::type_of(rec) == 4
}

/// Whether a thread record tells of a node: the CNID is the parent in its key,
/// the parent and the name stand in its body. A name that runs off the end of the
/// record is empty.
pub open spec fn tells_thread(rec: Seq<u8>, cnid: u32, parent: u32, name: Seq<char>) -> bool {
    let body = crate::laws::entries::body_at(rec);
    let n = crate::laws::layout::num16(rec, body + 8);
    &&& is_thread(rec)
    &&& cnid == crate::laws::layout::num32(rec, 2)
    &&& parent == crate::laws::layout::num32(rec, body + 4)
    &&& if body + 10 + 2 * n <= rec.len() {
        crate::laws::entries::named(rec, body + 10, n, name)
    } else {
        name.len() == 0
    }
}

/// Whether a record is a whole file record.
pub open spec fn is_whole_file(rec: Seq<u8>) -> bool {
    &&& crate::laws::entries::is_entry(rec)
    &&& crate::laws::entries::type_of(rec) == 2
    &&& crate::laws::entries::body_at(rec) + 248 <= rec.len()
}

/// Whether a record tells of `file`.
pub open spec fn tells_file(rec: Seq<u8>, file: FileModel) -> bool {
    let body = crate::laws::entries::body_at(rec);
    &&& is_whole_file(rec)
    &&& file.cnid == crate::laws::entries::cnid_in(rec)
    &&& crate::laws::entries::named(rec, 8, crate::laws::layout::num16(rec, 6), file.name)
    &&& file.logical == crate::laws::layout::num64(rec, body + 88)
    &&& file.inline_blocks == up_to_limit(eight_counts(rec, body + 88))
    &&& file.extents_full <==> slots_full(rec, body + 88)
    &&& file.create == crate::laws::layout::num32(rec, body + 16)
    &&& file.content_mod == crate::laws::layout::num32(rec, body + 20)
    &&& file.has_resource_fork <==> crate::laws::layout::num64(rec, body + 168) > 0
    &&& file.resource_logical == crate::laws::layout::num64(rec, body + 168)
    &&& file.resource_blocks == up_to_limit(eight_counts(rec, body + 168))
}

/// Whether a record is a folder record with its times.
pub open spec fn is_timed_folder(rec: Seq<u8>) -> bool {
    &&& crate::laws::entries::has_key(rec)
    &&& crate::laws::entries::type_of(rec) == 1
    &&& crate::laws::entries::body_at(rec) + 24 <= rec.len()
}

/// Whether a record tells of `folder`.
pub open spec fn tells_folder(rec: Seq<u8>, folder: FolderModel) -> bool {
    let body = crate::laws::entries::body_at(rec);
    &&& is_timed_folder(rec)
    &&& folder.cnid == crate::laws::entries::cnid_in(rec)
    &&& crate::laws::entries::named(rec, 8, crate::laws::layout::num16(rec, 6), folder.name)
    &&& folder.create == crate::laws::layout::num32(rec, body + 16)
    &&& folder.content_mod == crate::laws::layout::num32(rec, body + 20)
}

/// What a catalog record is taken for: an entry if it is that of a file or
/// folder, with the file if it is a whole file record; a thread if it is that of
/// one; nothing otherwise. What is taken from it is what its bytes tell.
pub proof fn law_record_told(rec: Seq<u8>)
    ensures
        match crate::audit::records::record_model(rec) {
            None => !crate::laws::entries::is_entry(rec) && !is_thread(rec),
            Some(RecordModel::Entry { cnid, file }) => {
                &&& crate::laws::entries::is_entry(rec)
                &&& cnid == crate::laws::entries::cnid_in(rec)
                &&& match file {
                    Some(file) => tells_file(rec, file),
                    None => !is_whole_file(rec),
                }
            },
            Some(RecordModel::Thread { cnid, parent, name }) => tells_thread(
                rec,
                cnid,
                parent,
                name,
            ),
        },
        match crate::audit::records::folder_model(rec) {
            Some(folder) => tells_folder(rec, folder),
            None => !is_timed_folder(rec),
        },
{
    let body = crate::laws::entries::body_at(rec);
    law_integers(rec, 0);
    law_integers(rec, 2);
    law_integers(rec, 6);
    law_integers(rec, body);
    law_integers(rec, body + 4);
    law_integers(rec, body + 8);
    law_integers(rec, body + 16);
    law_integers(rec, body + 20);
    if crate::laws::entries::has_key(rec) {
        law_names(rec, 8, crate::laws::layout::num16(rec, 6));
    }
    if is_whole_file(rec) {
        lemma_slots(rec, body + 88);
        lemma_slots(rec, body + 168);
    }
    if is_thread(rec) {
        let n = crate::laws::layout::num16(rec, body + 8);
        if body + 10 + 2 * n <= rec.len() {
            law_names(rec, body + 10, n);
        }
    }
}

// ---- Which records the audit goes by ----

spec fn thread_in() -> spec_fn(Seq<u8>) -> Option<(u32, u32, Seq<char>)> {
    |rec: Seq<u8>|
        match crate::audit::records::record_model(rec) {
            Some(RecordModel::Thread { cnid, parent, name }) => Some((cnid, parent, name)),
            _ => None,
        }
}

spec fn file_in() -> spec_fn(Seq<u8>) -> Option<FileModel> {
    |rec: Seq<u8>|
        match crate::audit::records::record_model(rec) {
            Some(RecordModel::Entry { file, .. }) => file,
            _ => None,
        }
}

spec fn folder_in() -> spec_fn(Seq<u8>) -> Option<FolderModel> {
    |rec: Seq<u8>| crate::audit::records::folder_model(rec)
}

proof fn lemma_recorded_kept(records: Seq<Seq<u8>>)
    ensures
        crate::audit::records::recorded_threads(records) == crate::laws::layout::kept(
            records,
            thread_in(),
        ),
        crate::audit::records::recorded_files(records) == crate::laws::layout::kept(
            records,
            file_in(),
        ),
        crate::audit::records::recorded_folders(records) == crate::laws::layout::kept(
            records,
            folder_in(),
        ),
    decreases records.len(),
{
    if records.len() > 0 {
        lemma_recorded_kept(records.drop_first());
    }
}

/// The audit goes by every whole file record, every folder record with times and
/// every thread record, and takes from each what its bytes tell.
pub proof fn law_recorded_told(
    records: Seq<Seq<u8>>,
    file: FileModel,
    folder: FolderModel,
    thread: (u32, u32, Seq<char>),
)
    ensures
        crate::audit::records::recorded_files(records).contains(file) <==> exists|i: int|
            0 <= i < records.len() && tells_file(#[trigger] records[i], file),
        crate::audit::records::recorded_folders(records).contains(folder) <==> exists|i: int|
            0 <= i < records.len() && tells_folder(#[trigger] records[i], folder),
        crate::audit::records::recorded_threads(records).contains(thread) <==> exists|i: int|
            0 <= i < records.len() && tells_thread(
                #[trigger] records[i],
                thread.0,
                thread.1,
                thread.2,
            ),
{
    lemma_recorded_kept(records);
    lemma_kept_contains(records, file_in(), file);
    lemma_kept_contains(records, folder_in(), folder);
    lemma_kept_contains(records, thread_in(), thread);
    let f = file_in();
    let g = folder_in();
    let h = thread_in();
    assert forall|i: int| 0 <= i < records.len() implies (f(#[trigger] records[i]) == Some(file)
        <==> tells_file(records[i], file)) by {
        lemma_file_told(records[i], file);
    }
    assert forall|i: int| 0 <= i < records.len() implies (g(#[trigger] records[i]) == Some(folder)
        <==> tells_folder(records[i], folder)) by {
        lemma_folder_told(records[i], folder);
    }
    assert forall|i: int| 0 <= i < records.len() implies (h(#[trigger] records[i]) == Some(thread)
        <==> tells_thread(records[i], thread.0, thread.1, thread.2)) by {
        lemma_thread_told(records[i], thread);
    }
}

/// The audit takes files, folders and threads in the order of the records, each
/// record once: the lists say which records they come from.
pub proof fn law_recorded_in_order(records: Seq<Seq<u8>>) -> (picks: (Seq<int>, Seq<int>, Seq<int>))
    ensures
        crate::laws::layout::increasing(picks.0),
        crate::laws::layout::increasing(picks.1),
        crate::laws::layout::increasing(picks.2),
        crate::audit::records::recorded_files(records).len() == picks.0.len(),
        crate::audit::records::recorded_folders(records).len() == picks.1.len(),
        crate::audit::records::recorded_threads(records).len() == picks.2.len(),
        forall|j: int|
            0 <= j < picks.0.len() ==> 0 <= #[trigger] picks.0[j] < records.len() && tells_file(
                records[picks.0[j]],
                crate::audit::records::recorded_files(records)[j],
            ),
        forall|j: int|
            0 <= j < picks.1.len() ==> 0 <= #[trigger] picks.1[j] < records.len() && tells_folder(
                records[picks.1[j]],
                crate::audit::records::recorded_folders(records)[j],
            ),
        forall|j: int|
            0 <= j < picks.2.len() ==> 0 <= #[trigger] picks.2[j] < records.len() && {
                let thread = crate::audit::records::recorded_threads(records)[j];
                tells_thread(records[picks.2[j]], thread.0, thread.1, thread.2)
            },
{
    lemma_recorded_kept(records);
    let a = lemma_kept(records, file_in());
    let b = lemma_kept(records, folder_in());
    let c = lemma_kept(records, thread_in());
    assert forall|j: int| 0 <= j < a.len() implies 0 <= #[trigger] a[j] < records.len()
        && tells_file(records[a[j]], crate::audit::records::recorded_files(records)[j]) by {
        lemma_file_told(records[a[j]], crate::audit::records::recorded_files(records)[j]);
    }
    assert forall|j: int| 0 <= j < b.len() implies 0 <= #[trigger] b[j] < records.len()
        && tells_folder(records[b[j]], crate::audit::records::recorded_folders(records)[j]) by {
        lemma_folder_told(records[b[j]], crate::audit::records::recorded_folders(records)[j]);
    }
    assert forall|j: int| 0 <= j < c.len() implies 0 <= #[trigger] c[j] < records.len() && {
        let thread = crate::audit::records::recorded_threads(records)[j];
        tells_thread(records[c[j]], thread.0, thread.1, thread.2)
    } by {
        lemma_thread_told(records[c[j]], crate::audit::records::recorded_threads(records)[j]);
    }
    (a, b, c)
}

proof fn lemma_file_told(rec: Seq<u8>, file: FileModel)
    ensures
        file_in()(rec) == Some(file) <==> tells_file(rec, file),
{
    law_record_told(rec);
    if tells_file(rec, file) {
        let found = file_in()(rec)->0;
        law_names_determined(
            rec,
            8,
            crate::laws::layout::num16(rec, 6),
            file.name,
            found.name,
        );
        assert(found =~= file);
    }
}

proof fn lemma_folder_told(rec: Seq<u8>, folder: FolderModel)
    ensures
        folder_in()(rec) == Some(folder) <==> tells_folder(rec, folder),
{
    law_record_told(rec);
    if tells_folder(rec, folder) {
        let found = folder_in()(rec)->0;
        law_names_determined(
            rec,
            8,
            crate::laws::layout::num16(rec, 6),
            folder.name,
            found.name,
        );
        assert(found =~= folder);
    }
}

proof fn lemma_thread_told(rec: Seq<u8>, thread: (u32, u32, Seq<char>))
    ensures
        thread_in()(rec) == Some(thread) <==> tells_thread(rec, thread.0, thread.1, thread.2),
{
    law_record_told(rec);
    if tells_thread(rec, thread.0, thread.1, thread.2) {
        let body = crate::laws::entries::body_at(rec);
        let n = crate::laws::layout::num16(rec, body + 8);
        let found = thread_in()(rec)->0;
        if body + 10 + 2 * n <= rec.len() {
            law_names_determined(rec, body + 10, n, thread.2, found.2);
        }
        assert(found.2 =~= thread.2);
    }
}

// ---- Threads ----

/// A thread is reported as dangling if and only if a record tells of it and no
/// file or folder record has its CNID.
pub proof fn law_dangling_threads_told(
    volume: Seq<u8>,
    loc: CatalogLoc,
    records: Seq<Seq<u8>>,
    cnid: u32,
    parent: u32,
    name: Seq<char>,
)
    requires
        crate::btree::catalog_loc(volume) == Some(loc),
        records == crate::btree::leaf_records(volume, loc),
    ensures
        crate::audit::audit_findings(volume).contains(
            KindModel::DeletedButReferenced { cnid, parent, name },
        ) <==> {
            &&& exists|i: int|
                0 <= i < records.len() && tells_thread(#[trigger] records[i], cnid, parent, name)
            &&& forall|j: int|
                0 <= j < records.len() && crate::laws::entries::is_entry(#[trigger] records[j])
                    ==> crate::laws::entries::cnid_in(records[j]) != cnid
        },
{
    crate::laws::auditing::law_dangling_threads_exact(volume, loc, records, cnid, parent, name);
    crate::laws::auditing::law_recorded_exact(records, cnid);
    law_recorded_told(records, arbitrary(), arbitrary(), (cnid, parent, name));
    assert forall|j: int| 0 <= j < records.len() implies (#[trigger]
        crate::laws::auditing::records_entry(records[j], cnid) <==> crate::laws::entries::is_entry(
            records[j],
        ) && crate::laws::entries::cnid_in(records[j]) == cnid) by {
        law_record_told(records[j]);
    }
    if exists|j: int|
        0 <= j < records.len() && #[trigger] crate::laws::auditing::records_entry(
            records[j],
            cnid,
        ) {
        let j = choose|j: int|
            0 <= j < records.len() && #[trigger] crate::laws::auditing::records_entry(
                records[j],
                cnid,
            );
        assert(crate::laws::entries::is_entry(records[j]));
    }
    if exists|j: int|
        0 <= j < records.len() && crate::laws::entries::is_entry(#[trigger] records[j])
            && crate::laws::entries::cnid_in(records[j]) == cnid {
        let j = choose|j: int|
            0 <= j < records.len() && crate::laws::entries::is_entry(#[trigger] records[j])
                && crate::laws::entries::cnid_in(records[j]) == cnid;
        assert(crate::laws::auditing::records_entry(records[j], cnid));
    }
}

// ---- Times ----

/// Whether a record has the impossible timestamp that `detail` tells: a whole
/// file record or a folder record with times, which stand 16 and 20 bytes into
/// the body. The volume was last written at the time 1044 bytes into it.
pub open spec fn time_wrong(
    volume: Seq<u8>,
    rec: Seq<u8>,
    cnid: u32,
    name: Seq<char>,
    detail: Seq<char>,
) -> bool {
    let body = crate::laws::entries::body_at(rec);
    &&& is_whole_file(rec) || is_timed_folder(rec)
    &&& crate::laws::entries::cnid_in(rec) == cnid
    &&& crate::laws::entries::named(rec, 8, crate::laws::layout::num16(rec, 6), name)
    &&& crate::audit::times::time_detail(
        if crate::laws::entries::type_of(rec) == 2 {
            "file"@
        } else {
            "folder"@
        },
        crate::laws::layout::num32(rec, body + 16) as u32,
        crate::laws::layout::num32(rec, body + 20) as u32,
        crate::laws::layout::num32(volume, 1044) as u32,
    ) == Some(detail)
}

/// An impossible timestamp is reported if and only if the bytes of some file or
/// folder record tell it.
pub proof fn law_times_told(
    volume: Seq<u8>,
    loc: CatalogLoc,
    records: Seq<Seq<u8>>,
    cnid: u32,
    name: Seq<char>,
    detail: Seq<char>,
)
    requires
        crate::btree::catalog_loc(volume) == Some(loc),
        records == crate::btree::leaf_records(volume, loc),
    ensures
        crate::audit::audit_findings(volume).contains(
            KindModel::TimeAnomaly { cnid, name, detail },
        ) <==> exists|i: int|
            0 <= i < records.len() && time_wrong(volume, #[trigger] records[i], cnid, name, detail),
{
    let files = crate::audit::records::recorded_files(records);
    let folders = crate::audit::records::recorded_folders(records);
    crate::laws::auditing::law_impossible_times_exact(volume, loc, records, cnid, name, detail);
    law_integers(volume, 1044);
    if exists|j: int| #[trigger]
        crate::laws::auditing::file_time_impossible(volume, files, cnid, name, detail, j) {
        let j = choose|j: int| #[trigger]
            crate::laws::auditing::file_time_impossible(volume, files, cnid, name, detail, j);
        assert(files.contains(files[j]));
        law_recorded_told(records, files[j], arbitrary(), arbitrary());
        let i = choose|i: int|
            0 <= i < records.len() && tells_file(#[trigger] records[i], files[j]);
        assert(time_wrong(volume, records[i], cnid, name, detail));
    }
    if exists|j: int| #[trigger]
        crate::laws::auditing::folder_time_impossible(volume, folders, cnid, name, detail, j) {
        let j = choose|j: int| #[trigger]
            crate::laws::auditing::folder_time_impossible(volume, folders, cnid, name, detail, j);
        assert(folders.contains(folders[j]));
        law_recorded_told(records, arbitrary(), folders[j], arbitrary());
        let i = choose|i: int|
            0 <= i < records.len() && tells_folder(#[trigger] records[i], folders[j]);
        assert(time_wrong(volume, records[i], cnid, name, detail));
    }
    if exists|i: int|
        0 <= i < records.len() && time_wrong(volume, #[trigger] records[i], cnid, name, detail) {
        let i = choose|i: int|
            0 <= i < records.len() && time_wrong(volume, #[trigger] records[i], cnid, name, detail);
        let rec = records[i];
        law_record_told(rec);
        if is_whole_file(rec) {
            let file = file_in()(rec)->0;
            assert(tells_file(rec, file));
            law_names_determined(rec, 8, crate::laws::layout::num16(rec, 6), file.name, name);
            law_recorded_told(records, file, arbitrary(), arbitrary());
            let j = choose|j: int| 0 <= j < files.len() && files[j] == file;
            assert(crate::laws::auditing::file_time_impossible(
                volume,
                files,
                cnid,
                name,
                detail,
                j,
            ));
        } else {
            let folder = folder_in()(rec)->0;
            assert(tells_folder(rec, folder));
            law_names_determined(rec, 8, crate::laws::layout::num16(rec, 6), folder.name, name);
            law_recorded_told(records, arbitrary(), folder, arbitrary());
            let j = choose|j: int| 0 <= j < folders.len() && folders[j] == folder;
            assert(crate::laws::auditing::folder_time_impossible(
                volume,
                folders,
                cnid,
                name,
                detail,
                j,
            ));
        }
    }
}

// ---- Extents ----

/// The blocks that the first `k` slots behind the key of an overflow record count,
/// as far as the record holds them: each slot is a start block and a count, four
/// bytes each.
pub open spec fn slot_counts(rec: Seq<u8>, k: int) -> int
    decreases k,
{
    if k <= 0 {
        0
    } else {
        let slot = crate::laws::entries::body_at(rec) + 8 * (k - 1);
        slot_counts(rec, k - 1) + if slot + 8 <= rec.len() {
            crate::laws::layout::num32(rec, slot + 4)
        } else {
            0
        }
    }
}

/// Whether an overflow record belongs to the fork `fork_type` of `cnid`.
pub open spec fn overflow_of(rec: Seq<u8>, cnid: u32, fork_type: u8) -> bool {
    &&& rec.len() >= 12
    &&& rec[2] == fork_type
    &&& crate::laws::layout::num32(rec, 4) == cnid
}

proof fn lemma_slot_counts(rec: Seq<u8>, i: int)
    requires
        0 <= i <= 8,
        rec.len() >= 2,
    ensures
        crate::audit::extents::extent_blocks(rec, crate::laws::entries::body_at(rec), i)
            == slot_counts(rec, 8) - slot_counts(rec, i),
    decreases 8 - i,
{
    let body = crate::laws::entries::body_at(rec);
    if i < 8 {
        if body + 8 * i + 8 <= rec.len() {
            law_integers(rec, body + 8 * i + 4);
            lemma_slot_counts(rec, i + 1);
        } else {
            lemma_slots_end(rec, i, 8);
        }
    }
}

proof fn lemma_slots_end(rec: Seq<u8>, i: int, k: int)
    requires
        0 <= i <= k,
        crate::laws::entries::body_at(rec) + 8 * i + 8 > rec.len(),
    ensures
        slot_counts(rec, k) == slot_counts(rec, i),
    decreases k - i,
{
    if i < k {
        lemma_slots_end(rec, i, k - 1);
    }
}

/// An overflow record adds the counts of all eight slots that it holds to its own
/// fork, and nothing to another.
pub proof fn law_overflow_of_record(rec: Seq<u8>, cnid: u32, fork_type: u8)
    ensures
        overflow_of(rec, cnid, fork_type) ==> crate::audit::extents::record_overflow(
            rec,
            cnid,
            fork_type,
        ) == slot_counts(rec, 8),
        overflow_of(rec, cnid, fork_type) && crate::laws::entries::body_at(rec) + 64 <= rec.len()
            ==> {
            let body = crate::laws::entries::body_at(rec);
            crate::audit::extents::record_overflow(rec, cnid, fork_type)
                == crate::laws::layout::num32(rec, body + 4) + crate::laws::layout::num32(
                rec,
                body + 12,
            ) + crate::laws::layout::num32(rec, body + 20) + crate::laws::layout::num32(
                rec,
                body + 28,
            ) + crate::laws::layout::num32(rec, body + 36) + crate::laws::layout::num32(
                rec,
                body + 44,
            ) + crate::laws::layout::num32(rec, body + 52) + crate::laws::layout::num32(
                rec,
                body + 60,
            )
        },
        !overflow_of(rec, cnid, fork_type) ==> crate::audit::extents::record_overflow(
            rec,
            cnid,
            fork_type,
        ) == 0,
{
    law_integers(rec, 0);
    law_integers(rec, 4);
    if overflow_of(rec, cnid, fork_type) {
        lemma_slot_counts(rec, 0);
        reveal_with_fuel(slot_counts, 9);
    }
}

/// What the first `k` records add to the fork `fork_type` of `cnid`.
pub open spec fn overflow_sum(records: Seq<Seq<u8>>, cnid: u32, fork_type: u8, k: int) -> int
    decreases k,
{
    if k <= 0 {
        0
    } else {
        overflow_sum(records, cnid, fork_type, k - 1) + if overflow_of(
            records[k - 1],
            cnid,
            fork_type,
        ) {
            slot_counts(records[k - 1], 8)
        } else {
            0
        }
    }
}

proof fn lemma_overflow_sum(records: Seq<Seq<u8>>, cnid: u32, fork_type: u8, k: int)
    requires
        0 <= k <= records.len(),
    ensures
        crate::audit::extents::overflow_total(records.skip(k), cnid, fork_type) == overflow_sum(
            records,
            cnid,
            fork_type,
            records.len() as int,
        ) - overflow_sum(records, cnid, fork_type, k),
    decreases records.len() - k,
{
    if k < records.len() {
        assert(records.skip(k)[0] == records[k]);
        assert(records.skip(k).drop_first() =~= records.skip(k + 1));
        law_overflow_of_record(records[k], cnid, fork_type);
        lemma_overflow_sum(records, cnid, fork_type, k + 1);
    }
}

/// The overflow blocks of a fork are the counts of all slots of all its records.
pub proof fn law_overflow_total(records: Seq<Seq<u8>>, cnid: u32, fork_type: u8)
    ensures
        crate::audit::extents::overflow_total(records, cnid, fork_type) == overflow_sum(
            records,
            cnid,
            fork_type,
            records.len() as int,
        ),
{
    lemma_overflow_sum(records, cnid, fork_type, 0);
    assert(records.skip(0) =~= records);
}

/// Whether `needed` is the least number of blocks that hold `logical` bytes, up to
/// the 32-bit limit.
pub open spec fn holds_least(logical: int, block_size: int, needed: int) -> bool {
    &&& 0 <= needed <= 0xFFFF_FFFF
    &&& needed > 0 ==> (needed - 1) * block_size < logical
    &&& needed < 0xFFFF_FFFF ==> logical <= needed * block_size
}

/// The blocks needed are the least number that hold the bytes.
pub proof fn law_blocks_needed(logical: u64, block_size: u64)
    requires
        block_size > 0,
    ensures
        holds_least(
            logical as int,
            block_size as int,
            crate::audit::extents::blocks_needed(logical, block_size) as int,
        ),
{
    let n = crate::numbers::rounded_up(logical as int, block_size as int);
    let needed = crate::audit::extents::blocks_needed(logical, block_size) as int;
    crate::laws::auditing::law_blocks_needed_least(logical as int, block_size as int);
    assert(n >= 0) by {
        assert(logical as int / block_size as int >= 0) by (nonlinear_arith)
            requires
                block_size > 0,
        ;
    }
    if needed > 0 {
        assert(0 <= needed - 1 < n);
        assert((needed - 1) * (block_size as int) < logical);
    }
}

/// The blocks that the extents of the data fork in a file record cover: those of
/// its eight slots, and where none of these is empty the overflow ones too.
pub open spec fn blocks_covered(volume: Seq<u8>, rec: Seq<u8>) -> int {
    let at = crate::laws::entries::body_at(rec) + 88;
    match crate::btree::extents_loc(volume) {
        Some(loc) => if slots_full(rec, at) {
            let records = crate::btree::leaf_records(volume, loc);
            up_to_limit(
                up_to_limit(eight_counts(rec, at)) + overflow_sum(
                    records,
                    crate::laws::entries::cnid_in(rec) as u32,
                    0,
                    records.len() as int,
                ),
            )
        } else {
            up_to_limit(eight_counts(rec, at))
        },
        None => up_to_limit(eight_counts(rec, at)),
    }
}

/// Whether a record is a whole file record whose data fork needs more blocks than
/// its extents cover.
pub open spec fn extents_short(
    volume: Seq<u8>,
    rec: Seq<u8>,
    cnid: u32,
    name: Seq<char>,
    logical: u64,
    allocated: u32,
    needed: u32,
) -> bool {
    &&& is_whole_file(rec)
    &&& crate::laws::entries::cnid_in(rec) == cnid
    &&& crate::laws::entries::named(rec, 8, crate::laws::layout::num16(rec, 6), name)
    &&& logical == crate::laws::layout::num64(rec, crate::laws::entries::body_at(rec) + 88)
    &&& allocated == blocks_covered(volume, rec)
    &&& holds_least(
        logical as int,
        crate::laws::layout::num32(volume, 1064),
        needed as int,
    )
    &&& allocated < needed
}

proof fn lemma_least_determined(logical: int, block_size: int, a: int, b: int)
    requires
        block_size > 0,
        holds_least(logical, block_size, a),
        holds_least(logical, block_size, b),
    ensures
        a == b,
{
    if a < b {
        assert(a * block_size <= (b - 1) * block_size) by (nonlinear_arith)
            requires
                a <= b - 1,
                block_size > 0,
        ;
    }
    if b < a {
        assert(b * block_size <= (a - 1) * block_size) by (nonlinear_arith)
            requires
                b <= a - 1,
                block_size > 0,
        ;
    }
}

/// The blocks that a file's extents cover are those of its inline extents and,
/// where every inline extent is in use and there is an overflow B-tree, those of
/// all overflow records for its data fork, up to the 32-bit limit.
pub proof fn law_blocks_allocated(volume: Seq<u8>, file: FileModel, extents: Option<CatalogLoc>)
    ensures
        crate::audit::extents::blocks_allocated(volume, file, extents) == match extents {
            Some(loc) => if file.extents_full {
                let records = crate::btree::leaf_records(volume, loc);
                up_to_limit(
                    file.inline_blocks + overflow_sum(
                        records,
                        file.cnid,
                        0,
                        records.len() as int,
                    ),
                )
            } else {
                file.inline_blocks as int
            },
            None => file.inline_blocks as int,
        },
{
    if let Some(loc) = extents {
        let records = crate::btree::leaf_records(volume, loc);
        law_overflow_total(records, file.cnid, 0);
        lemma_overflow_sum_nonnegative(records, file.cnid, 0, records.len() as int);
    }
}

proof fn lemma_covered(volume: Seq<u8>, rec: Seq<u8>, file: FileModel)
    requires
        tells_file(rec, file),
    ensures
        crate::audit::extents::blocks_allocated(
            volume,
            file,
            crate::btree::extents_loc(volume),
        ) == blocks_covered(volume, rec),
{
    if let Some(loc) = crate::btree::extents_loc(volume) {
        let records = crate::btree::leaf_records(volume, loc);
        law_overflow_total(records, file.cnid, 0);
        lemma_overflow_sum_nonnegative(records, file.cnid, 0, records.len() as int);
    }
}

proof fn lemma_overflow_sum_nonnegative(
    records: Seq<Seq<u8>>,
    cnid: u32,
    fork_type: u8,
    k: int,
)
    ensures
        overflow_sum(records, cnid, fork_type, k) >= 0,
    decreases k,
{
    if k > 0 {
        lemma_overflow_sum_nonnegative(records, cnid, fork_type, k - 1);
        reveal_with_fuel(slot_counts, 9);
    }
}

proof fn lemma_extents_finding(
    volume: Seq<u8>,
    rec: Seq<u8>,
    file: FileModel,
    block_size: u64,
    kind: KindModel,
)
    requires
        tells_file(rec, file),
        block_size > 0,
        block_size == crate::laws::layout::num32(volume, 1064),
    ensures
        crate::audit::extents::extents_findings(
            volume,
            file,
            block_size,
            crate::btree::extents_loc(volume),
        ).contains(kind) <==> (kind matches KindModel::CatalogExtentsMismatch {
            cnid,
            name,
            logical,
            allocated_blocks,
            needed_blocks,
        } && extents_short(volume, rec, cnid, name, logical, allocated_blocks, needed_blocks)),
{
    let extents = crate::btree::extents_loc(volume);
    let allocated = crate::audit::extents::blocks_allocated(volume, file, extents);
    let needed = crate::audit::extents::blocks_needed(file.logical, block_size);
    let one = KindModel::CatalogExtentsMismatch {
        cnid: file.cnid,
        name: file.name,
        logical: file.logical,
        allocated_blocks: allocated,
        needed_blocks: needed,
    };
    lemma_if(allocated < needed, one, kind);
    lemma_covered(volume, rec, file);
    law_blocks_needed(file.logical, block_size);
    if let KindModel::CatalogExtentsMismatch {
        cnid,
        name,
        logical,
        allocated_blocks,
        needed_blocks,
    } = kind {
        if extents_short(volume, rec, cnid, name, logical, allocated_blocks, needed_blocks) {
            law_names_determined(
                rec,
                8,
                crate::laws::layout::num16(rec, 6),
                file.name,
                name,
            );
            lemma_least_determined(
                logical as int,
                block_size as int,
                needed as int,
                needed_blocks as int,
            );
        }
    }
}

/// A data fork is reported as larger than its extents if and only if the bytes of
/// some file record, with the overflow records of the file, tell it. So a file
/// whose inline and overflow extents cover its size is not reported.
#[verifier::rlimit(40)]
pub proof fn law_short_extents_told(
    volume: Seq<u8>,
    loc: CatalogLoc,
    records: Seq<Seq<u8>>,
    cnid: u32,
    name: Seq<char>,
    logical: u64,
    allocated_blocks: u32,
    needed_blocks: u32,
)
    requires
        volume.len() <= usize::MAX,
        crate::btree::catalog_loc(volume) == Some(loc),
        records == crate::btree::leaf_records(volume, loc),
    ensures
        crate::audit::audit_findings(volume).contains(
            KindModel::CatalogExtentsMismatch {
                cnid,
                name,
                logical,
                allocated_blocks,
                needed_blocks,
            },
        ) <==> exists|i: int|
            0 <= i < records.len() && extents_short(
                volume,
                #[trigger] records[i],
                cnid,
                name,
                logical,
                allocated_blocks,
                needed_blocks,
            ),
{
    let kind = KindModel::CatalogExtentsMismatch {
        cnid,
        name,
        logical,
        allocated_blocks,
        needed_blocks,
    };
    let files = crate::audit::records::recorded_files(records);
    let block_size = loc.block_size as u64;
    crate::laws::layout::law_tree_locations(volume);
    lemma_entry_finding(volume, loc, records, kind);
    if exists|j: int| #[trigger]
        crate::laws::auditing::found_on_file(volume, files, block_size, kind, j) {
        let j = choose|j: int| #[trigger]
            crate::laws::auditing::found_on_file(volume, files, block_size, kind, j);
        lemma_file_finding(volume, files, block_size, kind, j);
        assert(files.contains(files[j]));
        law_recorded_told(records, files[j], arbitrary(), arbitrary());
        let i = choose|i: int|
            0 <= i < records.len() && tells_file(#[trigger] records[i], files[j]);
        lemma_extents_finding(volume, records[i], files[j], block_size, kind);
    }
    if exists|i: int|
        0 <= i < records.len() && extents_short(
            volume,
            #[trigger] records[i],
            cnid,
            name,
            logical,
            allocated_blocks,
            needed_blocks,
        ) {
        let i = choose|i: int|
            0 <= i < records.len() && extents_short(
                volume,
                #[trigger] records[i],
                cnid,
                name,
                logical,
                allocated_blocks,
                needed_blocks,
            );
        law_record_told(records[i]);
        let file = file_in()(records[i])->0;
        assert(tells_file(records[i], file));
        law_recorded_told(records, file, arbitrary(), arbitrary());
        let j = choose|j: int| 0 <= j < files.len() && files[j] == file;
        lemma_extents_finding(volume, records[i], file, block_size, kind);
        lemma_file_finding(volume, files, block_size, kind, j);
    }
}

// ---- Payloads ----

/// Whether a compression type is documented.
pub open spec fn is_documented(kind: int) -> bool {
    kind == 1 || kind == 3 || kind == 4 || 7 <= kind <= 14
}

/// Whether a documented compression type keeps its payload in the resource fork.
pub open spec fn keeps_fork(kind: int) -> bool {
    kind % 2 == 0
}

/// Whether the payload that the mark `xattr` of the file in `rec` refers to is
/// wanting, for the reason `detail`: the mark is cut short, its type is not
/// documented, the resource fork of the file is empty or has no blocks, or no
/// payload follows the header of the mark, unless the file is stored and has no
/// bytes.
pub open spec fn payload_wanting(
    rec: Seq<u8>,
    xattr: Seq<u8>,
    compression_type: u32,
    detail: Seq<char>,
) -> bool {
    let at = crate::laws::entries::body_at(rec) + 168;
    let kind = crate::laws::layout::low32(xattr, 4);
    if xattr.len() < 16 {
        &&& compression_type == 0
        &&& detail == "its com.apple.decmpfs xattr is "@ + crate::text::decimal(xattr.len() as int)
            + " bytes, shorter than the 16-byte decmpfs header"@
    } else {
        &&& compression_type == kind
        &&& if !is_documented(kind) {
            detail
                == "its compression_type is not a documented decmpfs type (read_file refuses it)"@
        } else if keeps_fork(kind) {
            let logical = crate::laws::layout::num64(rec, at);
            ||| logical == 0 && detail
                == "it declares resource-fork storage but its resource fork is empty"@
            ||| logical > 0 && eight_counts(rec, at) == 0 && detail == "it declares a "@
                + crate::text::decimal(logical)
                + "-byte resource fork but the fork allocates zero blocks (the payload is unrecoverable)"@
        } else {
            &&& xattr.len() == 16
            &&& (kind != 1 && kind != 9) || crate::laws::layout::low64(xattr, 8) != 0
            &&& detail
                == "it declares inline storage but the xattr holds only the header, with no payload following it"@
        }
    }
}

proof fn lemma_payload_told(
    rec: Seq<u8>,
    file: FileModel,
    xattr: Seq<u8>,
    kind: u32,
    detail: Seq<char>,
)
    requires
        tells_file(rec, file),
    ensures
        crate::audit::payloads::payload_detail(file, xattr) == Some((kind, detail))
            <==> payload_wanting(rec, xattr, kind, detail),
{
    law_integers(xattr, 4);
    law_integers(xattr, 8);
}

/// Whether a record is a whole file record whose file is marked as compressed,
/// but whose payload is wanting.
pub open spec fn payload_missing(
    volume: Seq<u8>,
    rec: Seq<u8>,
    cnid: u32,
    name: Seq<char>,
    kind: u32,
    detail: Seq<char>,
) -> bool {
    &&& is_whole_file(rec)
    &&& crate::laws::entries::cnid_in(rec) == cnid
    &&& crate::laws::entries::named(rec, 8, crate::laws::layout::num16(rec, 6), name)
    &&& crate::attributes::decmpfs_attribute(volume, cnid) matches Some(xattr) && payload_wanting(
        rec,
        xattr,
        kind,
        detail,
    )
}

proof fn lemma_payload_finding(volume: Seq<u8>, rec: Seq<u8>, file: FileModel, kind: KindModel)
    requires
        tells_file(rec, file),
    ensures
        crate::audit::payloads::payload_findings(
            file,
            crate::attributes::decmpfs_attribute(volume, file.cnid),
        ).contains(kind) <==> (kind matches KindModel::DecmpfsMissingResource {
            cnid,
            name,
            compression_type,
            detail,
        } && payload_missing(volume, rec, cnid, name, compression_type, detail)),
{
    let findings = crate::audit::payloads::payload_findings(
        file,
        crate::attributes::decmpfs_attribute(volume, file.cnid),
    );
    if let Some(xattr) = crate::attributes::decmpfs_attribute(volume, file.cnid) {
        if let Some((found, detail)) = crate::audit::payloads::payload_detail(file, xattr) {
            let one = KindModel::DecmpfsMissingResource {
                cnid: file.cnid,
                name: file.name,
                compression_type: found,
                detail,
            };
            assert(findings =~= seq![one]);
            assert(findings[0] == one);
            lemma_payload_told(rec, file, xattr, found, detail);
        }
        if let KindModel::DecmpfsMissingResource { cnid, name, compression_type, detail } = kind {
            lemma_payload_told(rec, file, xattr, compression_type, detail);
            if payload_missing(volume, rec, cnid, name, compression_type, detail) {
                law_names_determined(
                    rec,
                    8,
                    crate::laws::layout::num16(rec, 6),
                    file.name,
                    name,
                );
            }
        }
    }
}

/// A compressed payload is reported as missing if and only if the bytes of some
/// file record and the mark of its file tell it.
#[verifier::rlimit(40)]
pub proof fn law_missing_payloads_told(
    volume: Seq<u8>,
    loc: CatalogLoc,
    records: Seq<Seq<u8>>,
    cnid: u32,
    name: Seq<char>,
    compression_type: u32,
    detail: Seq<char>,
)
    requires
        crate::btree::catalog_loc(volume) == Some(loc),
        records == crate::btree::leaf_records(volume, loc),
    ensures
        crate::audit::audit_findings(volume).contains(
            KindModel::DecmpfsMissingResource { cnid, name, compression_type, detail },
        ) <==> exists|i: int|
            0 <= i < records.len() && payload_missing(
                volume,
                #[trigger] records[i],
                cnid,
                name,
                compression_type,
                detail,
            ),
{
    let kind = KindModel::DecmpfsMissingResource { cnid, name, compression_type, detail };
    let files = crate::audit::records::recorded_files(records);
    let block_size = crate::laws::auditing::block_bytes(loc);
    lemma_entry_finding(volume, loc, records, kind);
    if exists|j: int| #[trigger]
        crate::laws::auditing::found_on_file(volume, files, block_size, kind, j) {
        let j = choose|j: int| #[trigger]
            crate::laws::auditing::found_on_file(volume, files, block_size, kind, j);
        lemma_file_finding(volume, files, block_size, kind, j);
        assert(files.contains(files[j]));
        law_recorded_told(records, files[j], arbitrary(), arbitrary());
        let i = choose|i: int|
            0 <= i < records.len() && tells_file(#[trigger] records[i], files[j]);
        lemma_payload_finding(volume, records[i], files[j], kind);
    }
    if exists|i: int|
        0 <= i < records.len() && payload_missing(
            volume,
            #[trigger] records[i],
            cnid,
            name,
            compression_type,
            detail,
        ) {
        let i = choose|i: int|
            0 <= i < records.len() && payload_missing(
                volume,
                #[trigger] records[i],
                cnid,
                name,
                compression_type,
                detail,
            );
        law_record_told(records[i]);
        let file = file_in()(records[i])->0;
        assert(tells_file(records[i], file));
        law_recorded_told(records, file, arbitrary(), arbitrary());
        let j = choose|j: int| 0 <= j < files.len() && files[j] == file;
        lemma_payload_finding(volume, records[i], file, kind);
        lemma_file_finding(volume, files, block_size, kind, j);
    }
}

// ---- What is reported on nodes ----

/// A node is reported if and only if the catalog B-tree or the extents-overflow
/// B-tree gives rise to it, under its own name; without a catalog nothing is.
#[verifier::rlimit(40)]
pub proof fn law_reported_nodes(volume: Seq<u8>, tree: Seq<char>, node: u32, detail: Seq<char>)
    ensures
        ({
            let kind = KindModel::BtreeNodeInvalid { tree, node, detail };
            match crate::btree::catalog_loc(volume) {
                None => crate::audit::audit_findings(volume).len() == 0,
                Some(loc) => crate::audit::audit_findings(volume).contains(kind) <==> {
                    ||| crate::audit::nodes::btree_findings(volume, loc, "catalog"@).contains(kind)
                    ||| (crate::btree::extents_loc(volume) matches Some(extents)
                        && crate::audit::nodes::btree_findings(
                        volume,
                        extents,
                        "extents"@,
                    ).contains(kind))
                },
            }
        }),
{
    let kind = KindModel::BtreeNodeInvalid { tree, node, detail };
    if let Some(loc) = crate::btree::catalog_loc(volume) {
        let records = crate::btree::leaf_records(volume, loc);
        let files = crate::audit::records::recorded_files(records);
        let folders = crate::audit::records::recorded_folders(records);
        let block_size = loc.block_size as u64;
        crate::laws::auditing::law_findings_exact(volume, loc, records, kind);
        crate::laws::auditing::lemma_thread_findings(
            crate::audit::records::recorded_threads(records),
            crate::audit::records::recorded_cnids(records),
            kind,
        );
        assert forall|j: int| !(#[trigger] crate::laws::auditing::found_on_file(
            volume,
            files,
            block_size,
            kind,
            j,
        )) by {
            if 0 <= j < files.len() {
                lemma_file_finding(volume, files, block_size, kind, j);
            }
        }
    }
}

// ---- The order of the findings ----

/// Where a finding stands among the others: first those on the nodes of the
/// catalog, then those on the nodes of the extents-overflow B-tree, then those on
/// threads, then the rest.
pub open spec fn rank(kind: KindModel) -> int {
    match kind {
        KindModel::BtreeNodeInvalid { tree, .. } => if tree == "catalog"@ {
            0
        } else {
            1
        },
        KindModel::DeletedButReferenced { .. } => 2,
        _ => 3,
    }
}

/// Findings stand in the order of their ranks.
#[verifier::rlimit(40)]
pub proof fn law_findings_ranked(volume: Seq<u8>, i: int, j: int)
    requires
        0 <= i < j < crate::audit::audit_findings(volume).len(),
    ensures
        rank(crate::audit::audit_findings(volume)[i]) <= rank(
            crate::audit::audit_findings(volume)[j],
        ),
{
    let all = crate::audit::audit_findings(volume);
    let loc = crate::btree::catalog_loc(volume)->0;
    let records = crate::btree::leaf_records(volume, loc);
    let first = crate::audit::nodes::btree_findings(volume, loc, "catalog"@);
    let second = crate::audit::extents_tree_findings(volume);
    let third = crate::audit::threads::thread_findings(
        crate::audit::records::recorded_threads(records),
        crate::audit::records::recorded_cnids(records),
    );
    let fourth = crate::audit::files_findings(
        volume,
        crate::audit::records::recorded_files(records),
        loc.block_size as u64,
        crate::btree::extents_loc(volume),
    ) + crate::audit::folders_findings(
        volume,
        crate::audit::records::recorded_folders(records),
    );
    assert(all =~= first + second + third + fourth);
    assert forall|k: int| 0 <= k < all.len() implies rank(#[trigger] all[k]) == if k < first.len() {
        0int
    } else if k < first.len() + second.len() {
        1int
    } else if k < first.len() + second.len() + third.len() {
        2int
    } else {
        3int
    } by {
        let a = first.len();
        let b = a + second.len();
        let c = b + third.len();
        if k < a {
            assert(all[k] == first[k]);
            assert(first.contains(first[k]));
            lemma_tree_rank(volume, loc, "catalog"@, first[k]);
        } else if k < b {
            assert(all[k] == second[k - a]);
            assert(second.contains(second[k - a]));
            lemma_tree_rank(
                volume,
                crate::btree::extents_loc(volume)->0,
                "extents"@,
                second[k - a],
            );
            reveal_strlit("catalog");
            reveal_strlit("extents");
            assert("catalog"@[0] != "extents"@[0]);
        } else if k < c {
            assert(all[k] == third[k - b]);
            assert(third.contains(third[k - b]));
            crate::laws::auditing::lemma_thread_findings(
                crate::audit::records::recorded_threads(records),
                crate::audit::records::recorded_cnids(records),
                third[k - b],
            );
        } else {
            assert(all[k] == fourth[k - c]);
            assert(fourth.contains(fourth[k - c]));
            lemma_entry_rank(volume, records, loc.block_size as u64, fourth[k - c]);
        }
    }
}

proof fn lemma_tree_rank(volume: Seq<u8>, loc: CatalogLoc, tree: Seq<char>, kind: KindModel)
    requires
        crate::audit::nodes::btree_findings(volume, loc, tree).contains(kind),
    ensures
        kind matches KindModel::BtreeNodeInvalid { tree: named, .. } && named == tree,
{
    let trace = law_tree_findings_told(volume, loc, tree);
    if crate::audit::nodes::node_findings(volume, loc, tree, 0).contains(kind) {
        law_node_findings_told(volume, loc, tree, 0, kind);
    }
    if exists|k: int| #[trigger] found_on_node(volume, loc, tree, trace.0, kind, k) {
        let k = choose|k: int| #[trigger] found_on_node(volume, loc, tree, trace.0, kind, k);
        law_node_findings_told(volume, loc, tree, trace.0[k], kind);
    }
}

proof fn lemma_entry_rank(
    volume: Seq<u8>,
    records: Seq<Seq<u8>>,
    block_size: u64,
    kind: KindModel,
)
    requires
        (crate::audit::files_findings(
            volume,
            crate::audit::records::recorded_files(records),
            block_size,
            crate::btree::extents_loc(volume),
        ) + crate::audit::folders_findings(
            volume,
            crate::audit::records::recorded_folders(records),
        )).contains(kind),
    ensures
        rank(kind) == 3,
{
    let files = crate::audit::records::recorded_files(records);
    let folders = crate::audit::records::recorded_folders(records);
    lemma_sum(
        crate::audit::files_findings(
            volume,
            files,
            block_size,
            crate::btree::extents_loc(volume),
        ),
        crate::audit::folders_findings(volume, folders),
        kind,
    );
    crate::laws::auditing::lemma_files_findings(volume, files, block_size, kind);
    crate::laws::auditing::lemma_folders_findings(volume, folders, kind);
    if exists|j: int| #[trigger]
        crate::laws::auditing::found_on_file(volume, files, block_size, kind, j) {
        let j = choose|j: int| #[trigger]
            crate::laws::auditing::found_on_file(volume, files, block_size, kind, j);
        lemma_file_finding(volume, files, block_size, kind, j);
    }
}

/// `parts`, one after the other.
pub open spec fn flat(parts: Seq<Seq<KindModel>>) -> Seq<KindModel>
    decreases parts.len(),
{
    if parts.len() == 0 {
        Seq::empty()
    } else {
        parts[0] + flat(parts.drop_first())
    }
}

/// Whether `findings` are those of `parts`, each once, part by part and in order:
/// `places` gives the part and the position of each.
pub open spec fn placed(
    parts: Seq<Seq<KindModel>>,
    places: Seq<(int, int)>,
    findings: Seq<KindModel>,
) -> bool {
    &&& crate::laws::layout::in_order(places)
    &&& findings.len() == places.len()
    &&& forall|a: int, b: int| #[trigger]
        places.contains((a, b)) <==> 0 <= a < parts.len() && 0 <= b < parts[a].len()
    &&& forall|j: int|
        0 <= j < findings.len() ==> #[trigger] findings[j] == parts[places[j].0][places[j].1]
}

proof fn lemma_flat_placed(parts: Seq<Seq<KindModel>>) -> (places: Seq<(int, int)>)
    ensures
        placed(parts, places, flat(parts)),
    decreases parts.len(),
{
    if parts.len() == 0 {
        Seq::empty()
    } else {
        let rest = parts.drop_first();
        let later = lemma_flat_placed(rest);
        let n = parts[0].len();
        let all = flat(parts);
        let places = Seq::new(
            n + later.len(),
            |j: int|
                if j < n {
                    (0int, j)
                } else {
                    (later[j - n].0 + 1, later[j - n].1)
                },
        );
        assert forall|j: int| n <= j < places.len() implies 1 <= (#[trigger] places[j]).0
            < parts.len() && parts[places[j].0] == rest[later[j - n].0] by {
            assert(later.contains((later[j - n].0, later[j - n].1)));
        }
        assert forall|a: int, b: int|
            0 <= a < b < places.len() implies crate::laws::layout::before(
            #[trigger] places[a],
            #[trigger] places[b],
        ) by {
            if a >= n {
                assert(crate::laws::layout::before(later[a - n], later[b - n]));
            }
        }
        assert forall|a: int, b: int| #[trigger]
            places.contains((a, b)) <==> 0 <= a < parts.len() && 0 <= b < parts[a].len() by {
            if places.contains((a, b)) {
                let j = choose|j: int| 0 <= j < places.len() && places[j] == (a, b);
                if j >= n {
                    assert(later.contains((a - 1, b)));
                    assert(rest[a - 1] == parts[a]);
                }
            }
            if 0 <= a < parts.len() && 0 <= b < parts[a].len() {
                if a == 0 {
                    assert(places[b] == (a, b));
                } else {
                    assert(rest[a - 1] == parts[a]);
                    assert(later.contains((a - 1, b)));
                    let m = choose|m: int| 0 <= m < later.len() && later[m] == (a - 1, b);
                    assert(places[n + m] == (a, b));
                }
            }
        }
        assert forall|j: int| 0 <= j < all.len() implies #[trigger] all[j]
            == parts[places[j].0][places[j].1] by {
            if j >= n {
                assert(all[j] == flat(rest)[j - n]);
            }
        }
        places
    }
}

/// The findings on each of `files`.
pub open spec fn file_parts(
    volume: Seq<u8>,
    files: Seq<FileModel>,
    block_size: u64,
    extents: Option<CatalogLoc>,
) -> Seq<Seq<KindModel>> {
    Seq::new(
        files.len(),
        |i: int| crate::audit::file_findings(volume, files[i], block_size, extents),
    )
}

/// The findings on each of `folders`.
pub open spec fn folder_parts(volume: Seq<u8>, folders: Seq<FolderModel>) -> Seq<Seq<KindModel>> {
    Seq::new(
        folders.len(),
        |i: int|
            crate::audit::times::folder_time_findings(
                folders[i],
                crate::laws::layout::num32(volume, 1044) as u32,
            ),
    )
}

proof fn lemma_files_flat(
    volume: Seq<u8>,
    files: Seq<FileModel>,
    block_size: u64,
    extents: Option<CatalogLoc>,
)
    ensures
        crate::audit::files_findings(volume, files, block_size, extents) == flat(
            file_parts(volume, files, block_size, extents),
        ),
    decreases files.len(),
{
    if files.len() > 0 {
        lemma_files_flat(volume, files.drop_first(), block_size, extents);
        assert(file_parts(volume, files, block_size, extents).drop_first() =~= file_parts(
            volume,
            files.drop_first(),
            block_size,
            extents,
        ));
    }
}

proof fn lemma_folders_flat(volume: Seq<u8>, folders: Seq<FolderModel>)
    ensures
        crate::audit::folders_findings(volume, folders) == flat(folder_parts(volume, folders)),
    decreases folders.len(),
{
    law_integers(volume, 1044);
    if folders.len() > 0 {
        lemma_folders_flat(volume, folders.drop_first());
        assert(folder_parts(volume, folders).drop_first() =~= folder_parts(
            volume,
            folders.drop_first(),
        ));
    }
}

/// The findings on files stand file by file, and those on folders folder by
/// folder, each once.
pub proof fn law_entry_findings_placed(
    volume: Seq<u8>,
    files: Seq<FileModel>,
    folders: Seq<FolderModel>,
    block_size: u64,
    extents: Option<CatalogLoc>,
) -> (places: (Seq<(int, int)>, Seq<(int, int)>))
    ensures
        placed(
            file_parts(volume, files, block_size, extents),
            places.0,
            crate::audit::files_findings(volume, files, block_size, extents),
        ),
        placed(
            folder_parts(volume, folders),
            places.1,
            crate::audit::folders_findings(volume, folders),
        ),
{
    lemma_files_flat(volume, files, block_size, extents);
    lemma_folders_flat(volume, folders);
    (
        lemma_flat_placed(file_parts(volume, files, block_size, extents)),
        lemma_flat_placed(folder_parts(volume, folders)),
    )
}

/// Where a finding on a file stands among the others on it: its timestamps, its
/// extents, its payload.
pub open spec fn file_rank(kind: KindModel) -> int {
    match kind {
        KindModel::TimeAnomaly { .. } => 0,
        KindModel::CatalogExtentsMismatch { .. } => 1,
        _ => 2,
    }
}

/// A folder gives rise to at most one finding.
pub proof fn law_folder_findings_single(folder: FolderModel, written: u32)
    ensures
        crate::audit::times::folder_time_findings(folder, written).len() <= 1,
{
}

/// A file gives rise to at most one finding of each kind, in the order of their
/// ranks.
pub proof fn law_file_findings_ranked(
    volume: Seq<u8>,
    file: FileModel,
    block_size: u64,
    extents: Option<CatalogLoc>,
    i: int,
    j: int,
)
    requires
        0 <= i < j < crate::audit::file_findings(volume, file, block_size, extents).len(),
    ensures
        file_rank(crate::audit::file_findings(volume, file, block_size, extents)[i]) < file_rank(
            crate::audit::file_findings(volume, file, block_size, extents)[j],
        ),
{
}

/// The findings on threads stand in the order of the threads, one for each that
/// dangles.
pub proof fn law_thread_findings_picked(
    threads: Seq<(u32, u32, Seq<char>)>,
    recorded: Set<u32>,
) -> (picks: Seq<int>)
    ensures
        crate::laws::layout::increasing(picks),
        picks.len() == crate::audit::threads::thread_findings(threads, recorded).len(),
        forall|i: int| #[trigger]
            picks.contains(i) <==> 0 <= i < threads.len() && !recorded.contains(threads[i].0),
        forall|j: int|
            0 <= j < picks.len() ==> {
                let thread = threads[#[trigger] picks[j]];
                crate::audit::threads::thread_findings(threads, recorded)[j] == (
                KindModel::DeletedButReferenced {
                    cnid: thread.0,
                    parent: thread.1,
                    name: thread.2,
                })
            },
    decreases threads.len(),
{
    if threads.len() == 0 {
        Seq::empty()
    } else {
        let rest = threads.drop_first();
        let tail = law_thread_findings_picked(rest, recorded);
        let found = crate::audit::threads::thread_findings(threads, recorded);
        let later = crate::audit::threads::thread_findings(rest, recorded);
        let head = if recorded.contains(threads[0].0) {
            Seq::empty()
        } else {
            seq![0int]
        };
        let picks = head + tail.map_values(|i: int| i + 1);
        assert forall|i: int| #[trigger] picks.contains(i) <==> 0 <= i < threads.len()
            && !recorded.contains(threads[i].0) by {
            if picks.contains(i) {
                let j = choose|j: int| 0 <= j < picks.len() && picks[j] == i;
                if j >= head.len() {
                    assert(tail.contains(tail[j - head.len()]));
                    assert(rest[i - 1] == threads[i]);
                }
            }
            if 0 <= i < threads.len() && !recorded.contains(threads[i].0) {
                if i == 0 {
                    assert(picks[0] == 0);
                } else {
                    assert(rest[i - 1] == threads[i]);
                    assert(tail.contains(i - 1));
                    let m = choose|m: int| 0 <= m < tail.len() && tail[m] == i - 1;
                    assert(picks[head.len() + m] == i);
                }
            }
        }
        assert forall|j: int| 0 <= j < picks.len() implies {
            let thread = threads[#[trigger] picks[j]];
            found[j] == (KindModel::DeletedButReferenced {
                cnid: thread.0,
                parent: thread.1,
                name: thread.2,
            })
        } by {
            if j >= head.len() {
                let m = j - head.len();
                assert(tail.contains(tail[m]));
                assert(picks[j] == tail[m] + 1);
                assert(threads[picks[j]] == rest[tail[m]]);
                assert(found[j] == later[m]);
            }
        }
        assert forall|a: int, b: int| 0 <= a < b < picks.len() implies #[trigger] picks[a]
            < #[trigger] picks[b] by {
            assert(tail.contains(tail[b - head.len()]));
            assert(picks[b] == tail[b - head.len()] + 1);
            if a >= head.len() {
                assert(tail[a - head.len()] < tail[b - head.len()]);
                assert(picks[a] == tail[a - head.len()] + 1);
            }
        }
        picks
    }
}

} // verus!
