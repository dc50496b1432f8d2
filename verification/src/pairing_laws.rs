//! What holds of every pairing.

use vstd::prelude::*;

use crate::pairing;
use crate::pairing::{EvidenceView, NodeView, PairingView, StatusView, Statuses};
use crate::pairs::HubPairsView;
use crate::sysfs;
use crate::text;

verus! {

// ---------------------------------------------------------------------------
// What the laws speak of
// ---------------------------------------------------------------------------

/// Whether the hubs can be those of a machine: each at the location of its bus
/// and path, and no two hubs in one place.
pub open spec fn valid_bus(nodes: Seq<NodeView>) -> bool {
    &&& forall|i: int| 0 <= i < nodes.len() ==> (#[trigger] nodes[i]).well_placed()
    &&& forall|i: int, j: int|
        0 <= i < j < nodes.len() ==> (#[trigger] nodes[i]).location != (
        #[trigger] nodes[j]).location
}

/// Whether no hub comes before one nearer to the root.
pub open spec fn shallow_first(nodes: Seq<NodeView>) -> bool {
    forall|i: int, j: int|
        0 <= i <= j < nodes.len() ==> (#[trigger] nodes[i]).path.len() <= (
        #[trigger] nodes[j]).path.len()
}

/// Whether each hub is the other half of its other half, and found so in the
/// same way.
pub open spec fn mutual(status: Statuses) -> bool {
    forall|k: Seq<char>| #[trigger]
        status.contains_key(k) ==> match status[k] {
            StatusView::Paired { other, evidence } => status.contains_key(other) && status[other]
                == (StatusView::Paired { other: k, evidence }),
            _ => true,
        }
}

/// Whether what [`mutual`] says holds of the hubs that `base` does not settle.
pub open spec fn mutual_outside(base: Statuses, status: Statuses) -> bool {
    forall|k: Seq<char>| #[trigger]
        status.contains_key(k) && !base.contains_key(k) ==> match status[k] {
            StatusView::Paired { other, evidence } => {
                &&& status.contains_key(other)
                &&& !base.contains_key(other)
                &&& status[other] == (StatusView::Paired { other: k, evidence })
            },
            _ => true,
        }
}

/// Whether everything that `before` settles is settled so in `after` too.
pub open spec fn keeps(before: Statuses, after: Statuses) -> bool {
    forall|k: Seq<char>| #[trigger]
        before.contains_key(k) ==> after.contains_key(k) && after[k] == before[k]
}

// ---------------------------------------------------------------------------
// Looking up hubs
// ---------------------------------------------------------------------------

/// What looking up a location gives.
pub proof fn lemma_node_at(nodes: Seq<NodeView>, location: Seq<char>)
    ensures
        match pairing::node_at(nodes, location) {
            Some(n) => n.location == location && exists|i: int|
                0 <= i < nodes.len() && #[trigger] nodes[i] == n,
            None => forall|i: int|
                0 <= i < nodes.len() ==> (#[trigger] nodes[i]).location != location,
        },
    decreases nodes.len(),
{
    if nodes.len() > 0 && nodes[0].location != location {
        let rest = nodes.drop_first();
        lemma_node_at(rest, location);
        match pairing::node_at(rest, location) {
            Some(n) => {
                let i = choose|i: int| 0 <= i < rest.len() && #[trigger] rest[i] == n;
                assert(nodes[i + 1] == n);
            },
            None => {
                assert forall|i: int| 0 <= i < nodes.len() implies (
                #[trigger] nodes[i]).location != location by {
                    if i > 0 {
                        assert(nodes[i] == rest[i - 1]);
                    }
                }
            },
        }
    }
}

/// Where no two hubs are in one place, looking up a hub's location gives that
/// hub.
pub proof fn lemma_node_at_index(nodes: Seq<NodeView>, i: int)
    requires
        valid_bus(nodes),
        0 <= i < nodes.len(),
    ensures
        pairing::node_at(nodes, nodes[i].location) == Some(nodes[i]),
{
    lemma_node_at(nodes, nodes[i].location);
    match pairing::node_at(nodes, nodes[i].location) {
        Some(n) => {
            let j = choose|j: int| 0 <= j < nodes.len() && #[trigger] nodes[j] == n;
            if j < i {
                assert(nodes[j].location != nodes[i].location);
            }
            if i < j {
                assert(nodes[i].location != nodes[j].location);
            }
        },
        None => {
            assert(nodes[i].location != nodes[i].location);
        },
    }
}

/// Where a hub is put.
proof fn lemma_inserted(node: NodeView, nodes: Seq<NodeView>)
    ensures
        pairing::inserted(node, nodes).len() == nodes.len() + 1,
        forall|n: NodeView|
            #![trigger pairing::inserted(node, nodes).contains(n)]
            pairing::inserted(node, nodes).contains(n) <==> (n == node || nodes.contains(n)),
        shallow_first(nodes) ==> shallow_first(pairing::inserted(node, nodes)),
        valid_bus(nodes) && node.well_placed() && (forall|i: int|
            0 <= i < nodes.len() ==> (#[trigger] nodes[i]).location != node.location) ==> valid_bus(
            pairing::inserted(node, nodes),
        ),
    decreases nodes.len(),
{
    let whole = pairing::inserted(node, nodes);
    if nodes.len() == 0 || nodes[0].path.len() >= node.path.len() {
        assert(whole[0] == node);
        assert forall|n: NodeView| #[trigger] whole.contains(n) <==> (n == node || nodes.contains(
            n,
        )) by {
            if nodes.contains(n) {
                let i = choose|i: int| 0 <= i < nodes.len() && nodes[i] == n;
                assert(whole[i + 1] == n);
            }
        }
        if shallow_first(nodes) {
            assert forall|i: int, j: int| 0 <= i <= j < whole.len() implies (
            #[trigger] whole[i]).path.len() <= (#[trigger] whole[j]).path.len() by {
                if i > 0 {
                    assert(whole[i] == nodes[i - 1] && whole[j] == nodes[j - 1]);
                } else if j > 0 {
                    assert(whole[j] == nodes[j - 1]);
                    assert(nodes[0].path.len() <= nodes[j - 1].path.len());
                }
            }
        }
    } else {
        let rest = nodes.drop_first();
        let tail = pairing::inserted(node, rest);
        lemma_inserted(node, rest);
        assert forall|n: NodeView| #[trigger] whole.contains(n) <==> (n == node || nodes.contains(
            n,
        )) by {
            if whole.contains(n) {
                let i = choose|i: int| 0 <= i < whole.len() && whole[i] == n;
                if i > 0 {
                    assert(tail[i - 1] == n);
                    assert(tail.contains(n));
                    if rest.contains(n) {
                        let k = choose|k: int| 0 <= k < rest.len() && rest[k] == n;
                        assert(nodes[k + 1] == n);
                    }
                } else {
                    assert(nodes[0] == n);
                }
            }
            if n == node || nodes.contains(n) {
                if n != nodes[0] || n == node {
                    if n != node {
                        let i = choose|i: int| 0 <= i < nodes.len() && nodes[i] == n;
                        assert(rest[i - 1] == n);
                    }
                    assert(tail.contains(n));
                    let k = choose|k: int| 0 <= k < tail.len() && tail[k] == n;
                    assert(whole[k + 1] == n);
                } else {
                    assert(whole[0] == n);
                }
            }
        }
        assert forall|k: int| 0 <= k < tail.len() implies (#[trigger] tail[k]) == node
            || rest.contains(tail[k]) by {
            assert(tail.contains(tail[k]));
        }
        if shallow_first(nodes) {
            assert(shallow_first(rest)) by {
                assert forall|i: int, j: int| 0 <= i <= j < rest.len() implies (
                #[trigger] rest[i]).path.len() <= (#[trigger] rest[j]).path.len() by {
                    assert(rest[i] == nodes[i + 1] && rest[j] == nodes[j + 1]);
                }
            }
            assert forall|i: int, j: int| 0 <= i <= j < whole.len() implies (
            #[trigger] whole[i]).path.len() <= (#[trigger] whole[j]).path.len() by {
                if i > 0 {
                    assert(whole[i] == tail[i - 1] && whole[j] == tail[j - 1]);
                } else if j > 0 {
                    assert(whole[j] == tail[j - 1]);
                    if tail[j - 1] != node {
                        let k = choose|k: int| 0 <= k < rest.len() && rest[k] == tail[j - 1];
                        assert(nodes[k + 1] == tail[j - 1]);
                        assert(nodes[0].path.len() <= nodes[k + 1].path.len());
                    }
                }
            }
        }
        if valid_bus(nodes) && node.well_placed() && (forall|i: int|
            0 <= i < nodes.len() ==> (#[trigger] nodes[i]).location != node.location) {
            assert forall|i: int| 0 <= i < rest.len() implies (#[trigger] rest[i]).location
                != node.location && rest[i].well_placed() by {
                assert(rest[i] == nodes[i + 1]);
            }
            assert(valid_bus(rest)) by {
                assert forall|i: int, j: int| 0 <= i < j < rest.len() implies (
                #[trigger] rest[i]).location != (#[trigger] rest[j]).location by {
                    assert(rest[i] == nodes[i + 1] && rest[j] == nodes[j + 1]);
                }
            }
            assert forall|i: int| 0 <= i < whole.len() implies (
            #[trigger] whole[i]).well_placed() by {
                if i > 0 {
                    assert(whole[i] == tail[i - 1]);
                }
            }
            assert forall|i: int, j: int| 0 <= i < j < whole.len() implies (
            #[trigger] whole[i]).location != (#[trigger] whole[j]).location by {
                assert(whole[j] == tail[j - 1]);
                if i > 0 {
                    assert(whole[i] == tail[i - 1]);
                } else if tail[j - 1] != node {
                    let k = choose|k: int| 0 <= k < rest.len() && rest[k] == tail[j - 1];
                    assert(nodes[k + 1] == tail[j - 1]);
                    assert(nodes[0].location != nodes[k + 1].location);
                }
            }
        }
    }
}

/// Sorting the hubs keeps every one, and puts parents before children.
pub proof fn law_sorting_keeps_every_hub(nodes: Seq<NodeView>)
    ensures
        pairing::by_depth(nodes).len() == nodes.len(),
        forall|n: NodeView|
            #![trigger pairing::by_depth(nodes).contains(n)]
            pairing::by_depth(nodes).contains(n) <==> nodes.contains(n),
        shallow_first(pairing::by_depth(nodes)),
        valid_bus(nodes) ==> valid_bus(pairing::by_depth(nodes)),
    decreases nodes.len(),
{
    if nodes.len() > 0 {
        let rest = nodes.drop_first();
        let sorted = pairing::by_depth(rest);
        law_sorting_keeps_every_hub(rest);
        lemma_inserted(nodes[0], sorted);
        assert forall|n: NodeView| #[trigger] pairing::by_depth(nodes).contains(n)
            <==> nodes.contains(n) by {
            if nodes.contains(n) && n != nodes[0] {
                let i = choose|i: int| 0 <= i < nodes.len() && nodes[i] == n;
                assert(rest[i - 1] == n);
                assert(sorted.contains(n));
            }
            if sorted.contains(n) {
                assert(rest.contains(n));
                let i = choose|i: int| 0 <= i < rest.len() && rest[i] == n;
                assert(nodes[i + 1] == n);
            }
            assert(nodes.contains(nodes[0]));
        }
        if valid_bus(nodes) {
            assert forall|i: int| 0 <= i < rest.len() implies (
            #[trigger] rest[i]).well_placed() by {
                assert(rest[i] == nodes[i + 1]);
            }
            assert forall|i: int, j: int| 0 <= i < j < rest.len() implies (
            #[trigger] rest[i]).location != (#[trigger] rest[j]).location by {
                assert(rest[i] == nodes[i + 1] && rest[j] == nodes[j + 1]);
            }
            assert forall|i: int| 0 <= i < sorted.len() implies (#[trigger] sorted[i]).location
                != nodes[0].location by {
                assert(sorted.contains(sorted[i]));
                let k = choose|k: int| 0 <= k < rest.len() && rest[k] == sorted[i];
                assert(nodes[k + 1] == sorted[i]);
                assert(nodes[0].location != nodes[k + 1].location);
            }
        }
    }
}

// ---------------------------------------------------------------------------
// Rule 1
// ---------------------------------------------------------------------------

/// A pair may name its hubs in either order: what the rules settle is the same.
pub proof fn law_a_pair_has_no_order(
    hubs: Seq<NodeView>,
    declared: HubPairsView,
    a: Seq<char>,
    b: Seq<char>,
)
    ensures
        pairing::paired(hubs, declared.with_pair(a, b)).status == pairing::paired(
            hubs,
            declared.with_pair(b, a),
        ).status,
{
    let before = pairing::linked_all(Map::empty(), declared.pairs, EvidenceView::Declared);
    let one = declared.with_pair(a, b);
    let other = declared.with_pair(b, a);
    assert(one.pairs.drop_last() =~= declared.pairs);
    assert(other.pairs.drop_last() =~= declared.pairs);
    assert(pairing::linked(before, a, b, EvidenceView::Declared) =~= pairing::linked(
        before,
        b,
        a,
        EvidenceView::Declared,
    ));
    assert(pairing::declared_status(one) == pairing::declared_status(other));
}

/// Declared pairs settle declared pairs, with both hubs of each.
proof fn lemma_declared_pairs(pairs: Seq<(Seq<char>, Seq<char>)>)
    ensures
        only_declared(pairing::linked_all(Map::empty(), pairs, EvidenceView::Declared)),
    decreases pairs.len(),
{
    if pairs.len() > 0 {
        lemma_declared_pairs(pairs.drop_last());
        let before = pairing::linked_all(
            Map::empty(),
            pairs.drop_last(),
            EvidenceView::Declared,
        );
        let after = pairing::linked_all(Map::empty(), pairs, EvidenceView::Declared);
        assert forall|k: Seq<char>| #[trigger] after.contains_key(k) implies match after[k] {
            StatusView::Paired { other, evidence } => evidence is Declared && after.contains_key(
                other,
            ),
            StatusView::StoodInFor { .. } => false,
            StatusView::DeclaredAlone => true,
        } by {
            if k != pairs.last().0 && k != pairs.last().1 {
                assert(before.contains_key(k));
            }
        }
    }
}

/// Hubs with no other half add to what is settled, and replace it.
proof fn lemma_alone(status: Statuses, alone: Seq<Seq<char>>)
    ensures
        forall|k: Seq<char>|
            #![trigger pairing::alone_all(status, alone).contains_key(k)]
            #![trigger status.contains_key(k)]
            status.contains_key(k) ==> pairing::alone_all(status, alone).contains_key(k),
        forall|k: Seq<char>|
            #![trigger pairing::alone_all(status, alone).contains_key(k)]
            pairing::alone_all(status, alone).contains_key(k) ==> (pairing::alone_all(
                status,
                alone,
            )[k] is DeclaredAlone || (status.contains_key(k) && pairing::alone_all(status, alone)[k]
                == status[k])),
    decreases alone.len(),
{
    if alone.len() > 0 {
        lemma_alone(status, alone.drop_last());
    }
}

/// Whether what is settled so far came from declarations.
pub open spec fn only_declared(status: Statuses) -> bool {
    forall|k: Seq<char>| #[trigger]
        status.contains_key(k) ==> match status[k] {
            StatusView::Paired { other, evidence } => evidence is Declared && status.contains_key(
                other,
            ),
            StatusView::StoodInFor { .. } => false,
            StatusView::DeclaredAlone => true,
        }
}

/// Rule 1 settles by declaration only.
pub(crate) proof fn lemma_only_declared(declared: HubPairsView)
    ensures
        only_declared(pairing::declared_status(declared)),
{
    let pairs = pairing::linked_all(Map::empty(), declared.pairs, EvidenceView::Declared);
    lemma_declared_pairs(declared.pairs);
    lemma_alone(pairs, declared.alone);
}

// ---------------------------------------------------------------------------
// Rule 2
// ---------------------------------------------------------------------------

/// The unsettled roots of a controller.
pub(crate) proof fn lemma_roots_of(
    nodes: Seq<NodeView>,
    status: Statuses,
    controller: Seq<char>,
    n: int,
)
    requires
        0 <= n <= nodes.len(),
    ensures
        forall|r: int|
            0 <= r < pairing::roots_of(nodes, status, controller, n).len() ==> {
                let i = #[trigger] pairing::roots_of(nodes, status, controller, n)[r];
                &&& 0 <= i < n
                &&& nodes[i].controller == Some(controller)
                &&& !status.contains_key(nodes[i].location)
            },
        forall|r: int, q: int|
            0 <= r < q < pairing::roots_of(nodes, status, controller, n).len()
                ==> #[trigger] pairing::roots_of(nodes, status, controller, n)[r]
                < #[trigger] pairing::roots_of(nodes, status, controller, n)[q],
    decreases n,
{
    if n > 0 {
        lemma_roots_of(nodes, status, controller, n - 1);
    }
}

/// A pair of root hubs is made of two unsettled roots of one controller.
pub(crate) proof fn lemma_root_pair(nodes: Seq<NodeView>, status: Statuses, i: int) -> (j: int)
    requires
        0 <= i < nodes.len(),
        pairing::root_pair(nodes, status, i) is Some,
    ensures
        i < j < nodes.len(),
        pairing::root_pair(nodes, status, i) == Some((nodes[i].location, nodes[j].location)),
        nodes[i].controller is Some,
        nodes[j].controller == nodes[i].controller,
        pairing::roots_of(nodes, status, nodes[i].controller->0, nodes.len() as int)
            == seq![i, j],
        !status.contains_key(nodes[i].location),
        !status.contains_key(nodes[j].location),
        nodes[i].super_speed() != nodes[j].super_speed(),
{
    let controller = nodes[i].controller->0;
    let roots = pairing::roots_of(nodes, status, controller, nodes.len() as int);
    lemma_roots_of(nodes, status, controller, nodes.len() as int);
    assert(roots[0] < roots[1]);
    assert(roots =~= seq![i, roots[1]]);
    roots[1]
}

/// Every pair of root hubs has a first half.
pub(crate) proof fn lemma_root_pairs(nodes: Seq<NodeView>, status: Statuses, n: int)
    requires
        0 <= n <= nodes.len(),
    ensures
        forall|p: int|
            0 <= p < pairing::root_pairs(nodes, status, n).len() ==> exists|i: int|
                0 <= i < n && #[trigger] pairing::root_pair(nodes, status, i) == Some(
                    #[trigger] pairing::root_pairs(nodes, status, n)[p],
                ),
    decreases n,
{
    if n > 0 {
        lemma_root_pairs(nodes, status, n - 1);
        let pairs = pairing::root_pairs(nodes, status, n);
        let fewer = pairing::root_pairs(nodes, status, n - 1);
        assert forall|p: int| 0 <= p < pairs.len() implies exists|i: int|
            0 <= i < n && #[trigger] pairing::root_pair(nodes, status, i) == Some(
                #[trigger] pairs[p],
            ) by {
            if p < fewer.len() {
                assert(pairs[p] == fewer[p]);
                let i = choose|i: int|
                    0 <= i < n - 1 && #[trigger] pairing::root_pair(nodes, status, i) == Some(
                        fewer[p],
                    );
                assert(pairing::root_pair(nodes, status, i) == Some(pairs[p]));
            } else {
                assert(pairing::root_pair(nodes, status, n - 1) == Some(pairs[p]));
            }
        }
    }
}

/// Whether neither hub of any pair is settled.
pub open spec fn all_free(status: Statuses, pairs: Seq<(Seq<char>, Seq<char>)>) -> bool {
    forall|p: int|
        0 <= p < pairs.len() ==> !status.contains_key((#[trigger] pairs[p]).0)
            && !status.contains_key(pairs[p].1)
}

/// The pairs of root hubs are not settled.
pub(crate) proof fn lemma_root_pairs_free(nodes: Seq<NodeView>, status: Statuses)
    ensures
        all_free(status, pairing::root_pairs(nodes, status, nodes.len() as int)),
{
    let pairs = pairing::root_pairs(nodes, status, nodes.len() as int);
    lemma_root_pairs(nodes, status, nodes.len() as int);
    assert forall|p: int| 0 <= p < pairs.len() implies !status.contains_key(
        (#[trigger] pairs[p]).0,
    ) && !status.contains_key(pairs[p].1) by {
        let i = choose|i: int|
            0 <= i < nodes.len() && #[trigger] pairing::root_pair(nodes, status, i) == Some(
                pairs[p],
            );
        let j = lemma_root_pair(nodes, status, i);
    }
}

/// Whether a pair settles the hub at `k` as `status` says.
pub open spec fn settles(
    pair: (Seq<char>, Seq<char>),
    k: Seq<char>,
    status: StatusView,
    evidence: EvidenceView,
) -> bool {
    ||| k == pair.0 && status == (StatusView::Paired { other: pair.1, evidence })
    ||| k == pair.1 && status == (StatusView::Paired { other: pair.0, evidence })
}

/// Linking pairs of free hubs keeps what is settled, and settles nothing but
/// these pairs.
pub(crate) proof fn lemma_linked_all(
    status: Statuses,
    pairs: Seq<(Seq<char>, Seq<char>)>,
    evidence: EvidenceView,
)
    requires
        all_free(status, pairs),
    ensures
        keeps(status, pairing::linked_all(status, pairs, evidence)),
        forall|k: Seq<char>|
            #![trigger pairing::linked_all(status, pairs, evidence).contains_key(k)]
            pairing::linked_all(status, pairs, evidence).contains_key(k) && !status.contains_key(
                k,
            ) ==> exists|p: int|
                0 <= p < pairs.len() && settles(
                    #[trigger] pairs[p],
                    k,
                    pairing::linked_all(status, pairs, evidence)[k],
                    evidence,
                ),
    decreases pairs.len(),
{
    if pairs.len() > 0 {
        let fewer = pairs.drop_last();
        let n = pairs.len() - 1;
        assert forall|p: int| 0 <= p < fewer.len() implies !status.contains_key(
            (#[trigger] fewer[p]).0,
        ) && !status.contains_key(fewer[p].1) by {
            assert(fewer[p] == pairs[p]);
        }
        lemma_linked_all(status, fewer, evidence);
        let before = pairing::linked_all(status, fewer, evidence);
        let after = pairing::linked_all(status, pairs, evidence);
        assert(pairs[n] == pairs.last());
        assert forall|k: Seq<char>| #[trigger] after.contains_key(k) && !status.contains_key(
            k,
        ) implies exists|p: int|
            0 <= p < pairs.len() && settles(#[trigger] pairs[p], k, after[k], evidence) by {
            if k == pairs[n].1 || k == pairs[n].0 {
                assert(settles(pairs[n], k, after[k], evidence));
            } else {
                assert(before.contains_key(k));
                let p = choose|p: int|
                    0 <= p < fewer.len() && settles(
                        #[trigger] fewer[p],
                        k,
                        before[k],
                        evidence,
                    );
                assert(pairs[p] == fewer[p]);
                assert(settles(pairs[p], k, after[k], evidence));
            }
        }
    }
}

/// Rule 2 keeps what is declared, and the pairs it finds are of undeclared hubs.
pub(crate) proof fn lemma_controller_status(nodes: Seq<NodeView>, base: Statuses)
    requires
        only_declared(base),
    ensures
        keeps(base, pairing::controller_status(nodes, base)),
        all_free(
            base,
            pairing::controller_pairs(
                nodes,
                pairing::controller_status(nodes, base),
                nodes.len() as int,
            ),
        ),
{
    let found = pairing::root_pairs(nodes, base, nodes.len() as int);
    let status = pairing::controller_status(nodes, base);
    lemma_root_pairs_free(nodes, base);
    lemma_linked_all(base, found, EvidenceView::Controller);
    let pairs = pairing::controller_pairs(nodes, status, nodes.len() as int);
    lemma_controller_pairs(nodes, status, nodes.len() as int);
    assert forall|p: int| 0 <= p < pairs.len() implies !base.contains_key((#[trigger] pairs[p]).0)
        && !base.contains_key(pairs[p].1) by {
        let (k, o) = pairs[p];
        let i = choose|i: int|
            0 <= i < nodes.len() && #[trigger] pairing::controller_pair(nodes, status, i) == Some(
                pairs[p],
            );
        assert(status.contains_key(k));
        assert(!base.contains_key(k));
        let r = choose|r: int|
            0 <= r < found.len() && settles(
                #[trigger] found[r],
                k,
                status[k],
                EvidenceView::Controller,
            );
        assert(!base.contains_key(found[r].0) && !base.contains_key(found[r].1));
    }
}

// ---------------------------------------------------------------------------
// Rule 3
// ---------------------------------------------------------------------------

/// Every listed pair of root hubs was found from one of its halves.
pub(crate) proof fn lemma_controller_pairs(nodes: Seq<NodeView>, status: Statuses, n: int)
    requires
        0 <= n <= nodes.len(),
    ensures
        forall|p: int|
            0 <= p < pairing::controller_pairs(nodes, status, n).len() ==> exists|i: int|
                0 <= i < n && #[trigger] pairing::controller_pair(nodes, status, i) == Some(
                    #[trigger] pairing::controller_pairs(nodes, status, n)[p],
                ),
    decreases n,
{
    if n > 0 {
        lemma_controller_pairs(nodes, status, n - 1);
        let pairs = pairing::controller_pairs(nodes, status, n);
        let fewer = pairing::controller_pairs(nodes, status, n - 1);
        assert forall|p: int| 0 <= p < pairs.len() implies exists|i: int|
            0 <= i < n && #[trigger] pairing::controller_pair(nodes, status, i) == Some(
                #[trigger] pairs[p],
            ) by {
            if p < fewer.len() {
                assert(pairs[p] == fewer[p]);
                let i = choose|i: int|
                    0 <= i < n - 1 && #[trigger] pairing::controller_pair(nodes, status, i) == Some(
                        fewer[p],
                    );
                assert(pairing::controller_pair(nodes, status, i) == Some(pairs[p]));
            } else {
                assert(pairing::controller_pair(nodes, status, n - 1) == Some(pairs[p]));
            }
        }
    }
}

/// What a stand-in is found to be.
pub(crate) proof fn lemma_expansion(nodes: Seq<NodeView>, status: Statuses, a: Seq<char>, b: Seq<char>)
    requires
        pairing::expansion(nodes, status, a, b) is Some,
    ensures
        ({
            let (hub, small, large, ports) = pairing::expansion(nodes, status, a, b)->0;
            let h = pairing::node_at(nodes, hub);
            let s = pairing::node_at(nodes, small);
            let l = pairing::node_at(nodes, large);
            &&& (small == a && large == b) || (small == b && large == a)
            &&& !status.contains_key(hub)
            &&& h is Some && s is Some && l is Some
            &&& hub == sysfs::location_below(small, s->0.bus, 1)
            &&& h->0.nports == Some(ports)
            &&& l->0.nports == Some(ports)
            &&& s->0.nports == Some(1u8)
            &&& ports > 1
            &&& h->0.super_speed() != l->0.super_speed()
        }),
{
    lemma_node_at(nodes, a);
    lemma_node_at(nodes, b);
}

/// Rule 3 keeps what is settled, but for the pair of root hubs it looks at.
proof fn lemma_expanded_keeps(
    nodes: Seq<NodeView>,
    base: Statuses,
    status: Statuses,
    a: Seq<char>,
    b: Seq<char>,
)
    requires
        keeps(base, status),
        !base.contains_key(a),
        !base.contains_key(b),
    ensures
        keeps(base, pairing::expanded(nodes, status, a, b)),
{
    if pairing::expansion(nodes, status, a, b) is Some {
        lemma_expansion(nodes, status, a, b);
    }
}

/// Rule 3 keeps what is settled, but for the pairs of root hubs it looks at.
proof fn lemma_expanded_all_keeps(
    nodes: Seq<NodeView>,
    base: Statuses,
    status: Statuses,
    pairs: Seq<(Seq<char>, Seq<char>)>,
)
    requires
        keeps(base, status),
        all_free(base, pairs),
    ensures
        keeps(base, pairing::expanded_all(nodes, status, pairs)),
    decreases pairs.len(),
{
    if pairs.len() > 0 {
        let fewer = pairs.drop_last();
        assert forall|p: int| 0 <= p < fewer.len() implies !base.contains_key(
            (#[trigger] fewer[p]).0,
        ) && !base.contains_key(fewer[p].1) by {
            assert(fewer[p] == pairs[p]);
        }
        lemma_expanded_all_keeps(nodes, base, status, fewer);
        assert(pairs[pairs.len() - 1] == pairs.last());
        lemma_expanded_keeps(
            nodes,
            base,
            pairing::expanded_all(nodes, status, fewer),
            pairs.last().0,
            pairs.last().1,
        );
    }
}

// ---------------------------------------------------------------------------
// Rule 4
// ---------------------------------------------------------------------------

/// Rule 4 keeps everything that is settled.
pub(crate) proof fn lemma_descended_keeps(nodes: Seq<NodeView>, status: Statuses, m: int, n: int)
    requires
        m <= n,
    ensures
        keeps(
            pairing::descended_all(nodes, status, m),
            pairing::descended_all(nodes, status, n),
        ),
    decreases n - m,
{
    if m < n {
        lemma_descended_keeps(nodes, status, m, n - 1);
    }
}

// ---------------------------------------------------------------------------
// Declarations stand
// ---------------------------------------------------------------------------

/// A declaration is never overridden: whatever the bus looks like, a hub that
/// the declarations settle stays as they say.
pub proof fn law_a_declaration_stands(hubs: Seq<NodeView>, declared: HubPairsView)
    ensures
        keeps(pairing::declared_status(declared), pairing::paired(hubs, declared).status),
{
    let nodes = pairing::by_depth(hubs);
    let base = pairing::declared_status(declared);
    let roots = pairing::controller_status(nodes, base);
    lemma_only_declared(declared);
    lemma_controller_status(nodes, base);
    lemma_expanded_all_keeps(
        nodes,
        base,
        roots,
        pairing::controller_pairs(nodes, roots, nodes.len() as int),
    );
    lemma_descended_keeps(
        nodes,
        pairing::status_of_stand_ins(nodes, declared),
        0,
        nodes.len() as int,
    );
}

// ---------------------------------------------------------------------------
// Pairing is mutual, and every pair has its reason
// ---------------------------------------------------------------------------

/// Whether no hub is in two of the pairs.
pub open spec fn disjoint(pairs: Seq<(Seq<char>, Seq<char>)>) -> bool {
    forall|p: int, q: int|
        0 <= p < q < pairs.len() ==> {
            let x = #[trigger] pairs[p];
            let y = #[trigger] pairs[q];
            x.0 != y.0 && x.0 != y.1 && x.1 != y.0 && x.1 != y.1
        }
}

/// Whether two hubs are on the same port of their parents, and those are paired.
pub open spec fn on_paired_ports(
    status: Statuses,
    x: NodeView,
    y: NodeView,
    port: u8,
) -> bool {
    &&& x.path.len() > 0
    &&& y.path.len() > 0
    &&& x.path.last() == port
    &&& y.path.last() == port
    &&& pairing::other_half_in(status, sysfs::location_of(x.bus, x.path.drop_last())) == Some(
        sysfs::location_of(y.bus, y.path.drop_last()),
    )
}

/// Whether there is a reason for what is settled of the hub at `k`.
///
/// Two hubs are paired because that was declared; or as the root hubs of one
/// host controller; or because one, with as many ports as the other, stands in
/// for the single-port root above it; or because they sit on the same port of
/// paired hubs, and agree in vendor and number of ports. The two are on the bus
/// and of opposite speed in all but the first case. In the last, the one from
/// which the other was found declares that it may have another half.
pub open spec fn has_reason(nodes: Seq<NodeView>, status: Statuses, k: Seq<char>) -> bool {
    match status[k] {
        StatusView::Paired { other, evidence } => {
            let x = pairing::node_at(nodes, k);
            let y = pairing::node_at(nodes, other);
            &&& !(evidence is Declared) ==> x is Some && y is Some && x->0.super_speed()
                != y->0.super_speed()
            &&& match evidence {
                EvidenceView::Declared => true,
                EvidenceView::Controller => x->0.controller is Some && x->0.controller
                    == y->0.controller,
                EvidenceView::Expansion { root, ports } => {
                    let r = pairing::node_at(nodes, root);
                    &&& ports > 1
                    &&& x->0.nports == Some(ports)
                    &&& y->0.nports == Some(ports)
                    &&& r is Some
                    &&& r->0.nports == Some(1u8)
                    &&& k == sysfs::location_below(root, r->0.bus, 1) || other
                        == sysfs::location_below(root, r->0.bus, 1)
                    &&& status.contains_key(root)
                    &&& status[root] is StoodInFor
                },
                EvidenceView::Descent(port) => {
                    &&& x->0.matches(y->0)
                    &&& (x->0.may_have_other_half() && on_paired_ports(status, x->0, y->0, port))
                        || (y->0.may_have_other_half() && on_paired_ports(
                        status,
                        y->0,
                        x->0,
                        port,
                    ))
                },
            }
        },
        StatusView::StoodInFor { other, via } => {
            &&& status.contains_key(other)
            &&& match status[other] {
                StatusView::Paired {
                    other: hub,
                    evidence: EvidenceView::Expansion { root, .. },
                } => hub == via && root == k,
                _ => false,
            }
            &&& pairing::node_at(nodes, k) is Some
            &&& pairing::node_at(nodes, k)->0.nports == Some(1u8)
        },
        StatusView::DeclaredAlone => true,
    }
}

/// Whether there is a reason for everything that is settled.
pub open spec fn reasoned(nodes: Seq<NodeView>, status: Statuses) -> bool {
    forall|k: Seq<char>| #[trigger] status.contains_key(k) ==> has_reason(nodes, status, k)
}

/// Whether the pairs are settled as root hubs of one controller.
pub open spec fn found_by_controller(
    status: Statuses,
    pairs: Seq<(Seq<char>, Seq<char>)>,
    from: int,
) -> bool {
    forall|p: int|
        from <= p < pairs.len() ==> {
            let x = #[trigger] pairs[p];
            &&& status.contains_key(x.0)
            &&& status.contains_key(x.1)
            &&& x.0 != x.1
            &&& status[x.0] == (StatusView::Paired {
                other: x.1,
                evidence: EvidenceView::Controller,
            })
            &&& status[x.1] == (StatusView::Paired {
                other: x.0,
                evidence: EvidenceView::Controller,
            })
        }
}

/// The pairs of root hubs hold no hub twice.
pub(crate) proof fn lemma_root_pairs_disjoint(nodes: Seq<NodeView>, status: Statuses, n: int)
    requires
        valid_bus(nodes),
        0 <= n <= nodes.len(),
    ensures
        disjoint(pairing::root_pairs(nodes, status, n)),
    decreases n,
{
    if n > 0 {
        lemma_root_pairs_disjoint(nodes, status, n - 1);
        lemma_root_pairs(nodes, status, n - 1);
        let pairs = pairing::root_pairs(nodes, status, n);
        let fewer = pairing::root_pairs(nodes, status, n - 1);
        if pairing::root_pair(nodes, status, n - 1) is Some {
            let i = n - 1;
            let j = lemma_root_pair(nodes, status, i);
            assert forall|p: int, q: int| 0 <= p < q < pairs.len() implies ({
                let x = #[trigger] pairs[p];
                let y = #[trigger] pairs[q];
                x.0 != y.0 && x.0 != y.1 && x.1 != y.0 && x.1 != y.1
            }) by {
                assert(pairs[p] == fewer[p]);
                if q < fewer.len() {
                    assert(pairs[q] == fewer[q]);
                } else {
                    let a = choose|a: int|
                        0 <= a < n - 1 && #[trigger] pairing::root_pair(nodes, status, a) == Some(
                            fewer[p],
                        );
                    let b = lemma_root_pair(nodes, status, a);
                    if nodes[a].controller == nodes[i].controller {
                        assert(seq![a, b][0] == seq![i, j][0]);
                    }
                    assert(a != i && a != j && b != i && b != j);
                    lemma_apart(nodes, a, i);
                    lemma_apart(nodes, a, j);
                    lemma_apart(nodes, b, i);
                    lemma_apart(nodes, b, j);
                }
            }
        }
    }
}

/// Two hubs of a bus are in different places.
pub(crate) proof fn lemma_apart(nodes: Seq<NodeView>, i: int, j: int)
    requires
        valid_bus(nodes),
        0 <= i < nodes.len(),
        0 <= j < nodes.len(),
        i != j,
    ensures
        nodes[i].location != nodes[j].location,
{
    if i < j {
        assert(nodes[i].location != nodes[j].location);
    } else {
        assert(nodes[j].location != nodes[i].location);
    }
}

/// Linking two free hubs keeps pairing mutual.
proof fn lemma_linked_mutual(
    base: Statuses,
    status: Statuses,
    a: Seq<char>,
    b: Seq<char>,
    evidence: EvidenceView,
)
    requires
        keeps(base, status),
        mutual_outside(base, status),
        !status.contains_key(a),
        !status.contains_key(b),
    ensures
        keeps(base, pairing::linked(status, a, b, evidence)),
        mutual_outside(base, pairing::linked(status, a, b, evidence)),
{
}

/// Linking pairs of free hubs, each in one pair, keeps pairing mutual.
proof fn lemma_linked_all_mutual(
    status: Statuses,
    pairs: Seq<(Seq<char>, Seq<char>)>,
    evidence: EvidenceView,
)
    requires
        all_free(status, pairs),
        disjoint(pairs),
    ensures
        mutual_outside(status, pairing::linked_all(status, pairs, evidence)),
    decreases pairs.len(),
{
    if pairs.len() > 0 {
        let fewer = pairs.drop_last();
        let n = pairs.len() - 1;
        assert forall|p: int| 0 <= p < fewer.len() implies !status.contains_key(
            (#[trigger] fewer[p]).0,
        ) && !status.contains_key(fewer[p].1) by {
            assert(fewer[p] == pairs[p]);
        }
        assert forall|p: int, q: int| 0 <= p < q < fewer.len() implies ({
            let x = #[trigger] fewer[p];
            let y = #[trigger] fewer[q];
            x.0 != y.0 && x.0 != y.1 && x.1 != y.0 && x.1 != y.1
        }) by {
            assert(fewer[p] == pairs[p] && fewer[q] == pairs[q]);
        }
        lemma_linked_all_mutual(status, fewer, evidence);
        lemma_linked_all(status, fewer, evidence);
        let before = pairing::linked_all(status, fewer, evidence);
        assert(pairs[n] == pairs.last());
        assert forall|k: Seq<char>| (k == pairs[n].0 || k == pairs[n].1) implies !(
        #[trigger] before.contains_key(k)) by {
            assert(!status.contains_key(k));
            if before.contains_key(k) {
                let p = choose|p: int|
                    0 <= p < fewer.len() && settles(
                        #[trigger] fewer[p],
                        k,
                        before[k],
                        evidence,
                    );
                assert(fewer[p] == pairs[p]);
                assert(pairs[p].0 != pairs[n].0);
            }
        }
        lemma_linked_mutual(status, before, pairs[n].0, pairs[n].1, evidence);
    }
}

/// Whether no pair was found by descent.
pub open spec fn no_descent(status: Statuses) -> bool {
    forall|k: Seq<char>| #[trigger]
        status.contains_key(k) ==> match status[k] {
            StatusView::Paired { evidence, .. } => !(evidence is Descent),
            _ => true,
        }
}

/// After rule 2, pairing is mutual beside the declarations, and every pair has
/// its reason.
pub(crate) proof fn lemma_roots_mutual(nodes: Seq<NodeView>, base: Statuses)
    requires
        valid_bus(nodes),
        only_declared(base),
    ensures
        mutual_outside(base, pairing::controller_status(nodes, base)),
        reasoned(nodes, pairing::controller_status(nodes, base)),
        no_descent(pairing::controller_status(nodes, base)),
{
    let found = pairing::root_pairs(nodes, base, nodes.len() as int);
    let status = pairing::controller_status(nodes, base);
    lemma_root_pairs_free(nodes, base);
    lemma_root_pairs_disjoint(nodes, base, nodes.len() as int);
    lemma_root_pairs(nodes, base, nodes.len() as int);
    lemma_linked_all(base, found, EvidenceView::Controller);
    lemma_linked_all_mutual(base, found, EvidenceView::Controller);
    assert forall|k: Seq<char>| #[trigger] status.contains_key(k) implies has_reason(
        nodes,
        status,
        k,
    ) && match status[k] {
        StatusView::Paired { evidence, .. } => !(evidence is Descent),
        _ => true,
    } by {
        if !base.contains_key(k) {
            let r = choose|r: int|
                0 <= r < found.len() && settles(
                    #[trigger] found[r],
                    k,
                    status[k],
                    EvidenceView::Controller,
                );
            let i = choose|i: int|
                0 <= i < nodes.len() && #[trigger] pairing::root_pair(nodes, base, i) == Some(
                    found[r],
                );
            let j = lemma_root_pair(nodes, base, i);
            lemma_node_at_index(nodes, i);
            lemma_node_at_index(nodes, j);
        }
    }
}

/// The listed pairs of root hubs are what rule 2 found, and hold no hub twice.
pub(crate) proof fn lemma_controller_pairs_found(
    nodes: Seq<NodeView>,
    base: Statuses,
    status: Statuses,
    n: int,
)
    requires
        valid_bus(nodes),
        mutual_outside(base, status),
        all_free(base, pairing::controller_pairs(nodes, status, n)),
        0 <= n <= nodes.len(),
    ensures
        found_by_controller(status, pairing::controller_pairs(nodes, status, n), 0),
        disjoint(pairing::controller_pairs(nodes, status, n)),
    decreases n,
{
    if n > 0 {
        let pairs = pairing::controller_pairs(nodes, status, n);
        let fewer = pairing::controller_pairs(nodes, status, n - 1);
        assert forall|p: int| 0 <= p < fewer.len() implies !base.contains_key(
            (#[trigger] fewer[p]).0,
        ) && !base.contains_key(fewer[p].1) by {
            assert(fewer[p] == pairs[p]);
        }
        lemma_controller_pairs_found(nodes, base, status, n - 1);
        lemma_controller_pairs(nodes, status, n - 1);
        if pairing::controller_pair(nodes, status, n - 1) is Some {
            let m = fewer.len() as int;
            let y = pairs[m];
            assert(pairing::controller_pair(nodes, status, n - 1) == Some(y));
            assert(status.contains_key(y.0));
            assert(!base.contains_key(y.0) && !base.contains_key(y.1));
            text::lemma_sorts_one_way(y.0, y.1);
            assert forall|p: int| 0 <= p < pairs.len() implies ({
                let x = #[trigger] pairs[p];
                &&& status.contains_key(x.0)
                &&& status.contains_key(x.1)
                &&& x.0 != x.1
                &&& status[x.0] == (StatusView::Paired {
                    other: x.1,
                    evidence: EvidenceView::Controller,
                })
                &&& status[x.1] == (StatusView::Paired {
                    other: x.0,
                    evidence: EvidenceView::Controller,
                })
            }) by {
                if p < m {
                    assert(pairs[p] == fewer[p]);
                }
            }
            assert forall|p: int, q: int| 0 <= p < q < pairs.len() implies ({
                let x = #[trigger] pairs[p];
                let y = #[trigger] pairs[q];
                x.0 != y.0 && x.0 != y.1 && x.1 != y.0 && x.1 != y.1
            }) by {
                assert(pairs[p] == fewer[p]);
                if q < m {
                    assert(pairs[q] == fewer[q]);
                } else {
                    let x = fewer[p];
                    let a = choose|a: int|
                        0 <= a < n - 1 && #[trigger] pairing::controller_pair(nodes, status, a)
                            == Some(x);
                    lemma_apart(nodes, a, n - 1);
                    text::lemma_sorts_one_way(x.0, x.1);
                }
            }
        }
    }
}

/// Rule 3 for one pair of root hubs keeps pairing mutual, and every pair has its
/// reason.
proof fn lemma_expanded_mutual(
    nodes: Seq<NodeView>,
    base: Statuses,
    status: Statuses,
    pairs: Seq<(Seq<char>, Seq<char>)>,
    n: int,
)
    requires
        0 <= n < pairs.len(),
        keeps(base, status),
        all_free(base, pairs),
        disjoint(pairs),
        mutual_outside(base, status),
        reasoned(nodes, status),
        no_descent(status),
        found_by_controller(status, pairs, n),
    ensures
        ({
            let after = pairing::expanded(nodes, status, pairs[n].0, pairs[n].1);
            &&& keeps(base, after)
            &&& mutual_outside(base, after)
            &&& reasoned(nodes, after)
            &&& no_descent(after)
            &&& found_by_controller(after, pairs, n + 1)
        }),
{
    let (a, b) = pairs[n];
    let after = pairing::expanded(nodes, status, a, b);
    if pairing::expansion(nodes, status, a, b) is Some {
        lemma_expansion(nodes, status, a, b);
        let (hub, small, large, ports) = pairing::expansion(nodes, status, a, b)->0;
        assert(status.contains_key(small) && status.contains_key(large));
        assert(hub != small && hub != large && small != large);
        assert forall|p: int| n + 1 <= p < pairs.len() implies ({
            let x = #[trigger] pairs[p];
            &&& after.contains_key(x.0)
            &&& after.contains_key(x.1)
            &&& x.0 != x.1
            &&& after[x.0] == (StatusView::Paired {
                other: x.1,
                evidence: EvidenceView::Controller,
            })
            &&& after[x.1] == (StatusView::Paired {
                other: x.0,
                evidence: EvidenceView::Controller,
            })
        }) by {
            assert(pairs[n].0 != pairs[p].0);
        }
        assert forall|k: Seq<char>| #[trigger]
            after.contains_key(k) && !base.contains_key(k) implies match after[k] {
            StatusView::Paired { other, evidence } => {
                &&& after.contains_key(other)
                &&& !base.contains_key(other)
                &&& after[other] == (StatusView::Paired { other: k, evidence })
            },
            _ => true,
        } by {
            if k != hub && k != small && k != large {
                assert(status.contains_key(k));
            }
        }
        assert forall|k: Seq<char>| #[trigger] after.contains_key(k) implies has_reason(
            nodes,
            after,
            k,
        ) by {
            if k != hub && k != small && k != large {
                assert(status.contains_key(k));
                assert(has_reason(nodes, status, k));
            }
        }
    }
}

/// After rule 3, pairing is mutual beside the declarations, and every pair has
/// its reason.
proof fn lemma_expanded_all_mutual(
    nodes: Seq<NodeView>,
    base: Statuses,
    status: Statuses,
    pairs: Seq<(Seq<char>, Seq<char>)>,
    n: int,
)
    requires
        0 <= n <= pairs.len(),
        keeps(base, status),
        all_free(base, pairs),
        disjoint(pairs),
        mutual_outside(base, status),
        reasoned(nodes, status),
        no_descent(status),
        found_by_controller(status, pairs, 0),
    ensures
        ({
            let after = pairing::expanded_all(nodes, status, pairs.take(n));
            &&& keeps(base, after)
            &&& mutual_outside(base, after)
            &&& reasoned(nodes, after)
            &&& no_descent(after)
            &&& found_by_controller(after, pairs, n)
        }),
    decreases n,
{
    if n > 0 {
        lemma_expanded_all_mutual(nodes, base, status, pairs, n - 1);
        assert(pairs.take(n).drop_last() =~= pairs.take(n - 1));
        assert(pairs.take(n).last() == pairs[n - 1]);
        lemma_expanded_mutual(
            nodes,
            base,
            pairing::expanded_all(nodes, status, pairs.take(n - 1)),
            pairs,
            n - 1,
        );
    }
}

/// A reason stays a reason when more is settled.
proof fn lemma_reason_stays(
    nodes: Seq<NodeView>,
    before: Statuses,
    after: Statuses,
    k: Seq<char>,
)
    requires
        keeps(before, after),
        before.contains_key(k),
        has_reason(nodes, before, k),
    ensures
        has_reason(nodes, after, k),
{
    assert(after[k] == before[k]);
}

/// Rule 4 pairs a hub with one on the same port of the other half of its parent.
pub(crate) proof fn lemma_descent_port(nodes: Seq<NodeView>, status: Statuses, i: int)
    requires
        valid_bus(nodes),
        0 <= i < nodes.len(),
        pairing::descent(nodes, status, i) is Some,
    ensures
        ({
            let candidate = pairing::descent(nodes, status, i)->0;
            let y = pairing::node_at(nodes, candidate);
            &&& y is Some
            &&& y->0.location == candidate
            &&& on_paired_ports(status, nodes[i], y->0, nodes[i].path.last())
            &&& pairing::node_at(
                nodes,
                sysfs::location_of(y->0.bus, y->0.path.drop_last()),
            ) is Some
        }),
{
    let node = nodes[i];
    let candidate = pairing::descent(nodes, status, i)->0;
    lemma_node_at(nodes, candidate);
    let y = pairing::node_at(nodes, candidate)->0;
    let j = choose|j: int| 0 <= j < nodes.len() && #[trigger] nodes[j] == y;
    assert(nodes[j].well_placed());
    lemma_opposite(nodes, status, node);
    let parent = sysfs::location_of(node.bus, node.path.drop_last());
    let partner = pairing::other_half_in(status, parent)->0;
    let p = pairing::node_at(nodes, partner)->0;
    lemma_node_at(nodes, partner);
    let t = choose|t: int| 0 <= t < nodes.len() && #[trigger] nodes[t] == p;
    assert(nodes[t].well_placed());
    sysfs::law_a_location_names_one_place(
        y.bus,
        y.path,
        p.bus,
        p.path.push(node.path.last()),
    );
    assert(y.path.drop_last() =~= p.path);
}

/// Rule 4 for one hub keeps pairing mutual, and every pair has its reason.
proof fn lemma_descended_mutual(
    nodes: Seq<NodeView>,
    base: Statuses,
    status: Statuses,
    i: int,
)
    requires
        valid_bus(nodes),
        0 <= i < nodes.len(),
        keeps(base, status),
        mutual_outside(base, status),
        reasoned(nodes, status),
    ensures
        keeps(base, pairing::descended(nodes, status, i)),
        mutual_outside(base, pairing::descended(nodes, status, i)),
        reasoned(nodes, pairing::descended(nodes, status, i)),
{
    let node = nodes[i];
    let after = pairing::descended(nodes, status, i);
    if let Some(candidate) = pairing::descent(nodes, status, i) {
        let port = node.path.last();
        let evidence = EvidenceView::Descent(port);
        lemma_linked_mutual(base, status, node.location, candidate, evidence);
        lemma_node_at_index(nodes, i);
        lemma_node_at(nodes, candidate);
        assert(node.location != candidate);
        assert(keeps(status, after));
        lemma_descent_port(nodes, status, i);
        let y = pairing::node_at(nodes, candidate)->0;
        assert(status.contains_key(sysfs::location_of(node.bus, node.path.drop_last())));
        assert(on_paired_ports(after, node, y, port));
        assert forall|k: Seq<char>| #[trigger] after.contains_key(k) implies has_reason(
            nodes,
            after,
            k,
        ) by {
            if k != node.location && k != candidate {
                assert(status.contains_key(k));
                lemma_reason_stays(nodes, status, after, k);
            }
        }
    }
}

/// After rule 4, pairing is mutual beside the declarations, and every pair has
/// its reason.
proof fn lemma_descended_all_mutual(
    nodes: Seq<NodeView>,
    base: Statuses,
    status: Statuses,
    n: int,
)
    requires
        valid_bus(nodes),
        0 <= n <= nodes.len(),
        keeps(base, status),
        mutual_outside(base, status),
        reasoned(nodes, status),
    ensures
        keeps(base, pairing::descended_all(nodes, status, n)),
        mutual_outside(base, pairing::descended_all(nodes, status, n)),
        reasoned(nodes, pairing::descended_all(nodes, status, n)),
    decreases n,
{
    if n > 0 {
        lemma_descended_all_mutual(nodes, base, status, n - 1);
        lemma_descended_mutual(
            nodes,
            base,
            pairing::descended_all(nodes, status, n - 1),
            n - 1,
        );
    }
}

/// What holds of what the first three rules settle.
pub(crate) proof fn lemma_stand_ins(nodes: Seq<NodeView>, declared: HubPairsView)
    requires
        valid_bus(nodes),
    ensures
        ({
            let base = pairing::declared_status(declared);
            let status = pairing::status_of_stand_ins(nodes, declared);
            &&& keeps(base, status)
            &&& mutual_outside(base, status)
            &&& reasoned(nodes, status)
            &&& no_descent(status)
            &&& mutual(base) ==> mutual(status)
        }),
{
    let base = pairing::declared_status(declared);
    let roots = pairing::controller_status(nodes, base);
    let pairs = pairing::controller_pairs(nodes, roots, nodes.len() as int);
    lemma_only_declared(declared);
    lemma_controller_status(nodes, base);
    lemma_roots_mutual(nodes, base);
    lemma_controller_pairs_found(nodes, base, roots, nodes.len() as int);
    lemma_expanded_all_mutual(nodes, base, roots, pairs, pairs.len() as int);
    assert(pairs.take(pairs.len() as int) =~= pairs);
    if mutual(base) {
        lemma_mutual_throughout(base, pairing::status_of_stand_ins(nodes, declared));
    }
}

/// Pairing that is mutual in what is kept and beside it is mutual.
proof fn lemma_mutual_throughout(base: Statuses, status: Statuses)
    requires
        keeps(base, status),
        mutual(base),
        mutual_outside(base, status),
    ensures
        mutual(status),
{
    assert forall|k: Seq<char>| #[trigger] status.contains_key(k) implies match status[k] {
        StatusView::Paired { other, evidence } => status.contains_key(other) && status[other] == (
        StatusView::Paired { other: k, evidence }),
        _ => true,
    } by {
        if base.contains_key(k) {
            assert(status[k] == base[k]);
            match base[k] {
                StatusView::Paired { other, .. } => {
                    assert(base.contains_key(other));
                },
                _ => {},
            }
        }
    }
}

/// What holds of what all four rules settle.
proof fn lemma_settled(nodes: Seq<NodeView>, declared: HubPairsView)
    requires
        valid_bus(nodes),
    ensures
        ({
            let base = pairing::declared_status(declared);
            let status = pairing::settled(nodes, declared);
            &&& keeps(base, status)
            &&& mutual_outside(base, status)
            &&& reasoned(nodes, status)
        }),
{
    lemma_stand_ins(nodes, declared);
    lemma_descended_all_mutual(
        nodes,
        pairing::declared_status(declared),
        pairing::status_of_stand_ins(nodes, declared),
        nodes.len() as int,
    );
}

/// Whatever is settled has its reason: no two hubs are paired by guesswork.
pub proof fn law_every_pair_has_its_reason(hubs: Seq<NodeView>, declared: HubPairsView)
    requires
        valid_bus(hubs),
    ensures
        reasoned(pairing::paired(hubs, declared).nodes, pairing::paired(hubs, declared).status),
{
    law_sorting_keeps_every_hub(hubs);
    lemma_settled(pairing::by_depth(hubs), declared);
}

/// Where the declarations are mutual, so is the pairing: a hub is the other half
/// of its other half.
pub proof fn law_pairing_is_mutual(hubs: Seq<NodeView>, declared: HubPairsView, a: Seq<char>)
    requires
        valid_bus(hubs),
        mutual(pairing::declared_status(declared)),
    ensures
        mutual(pairing::paired(hubs, declared).status),
        match pairing::paired(hubs, declared).other_half(a) {
            Some(b) => pairing::paired(hubs, declared).other_half(b) == Some(a),
            None => true,
        },
{
    law_sorting_keeps_every_hub(hubs);
    lemma_settled(pairing::by_depth(hubs), declared);
    lemma_mutual_throughout(
        pairing::declared_status(declared),
        pairing::paired(hubs, declared).status,
    );
}

/// Declarations that name each hub once are mutual.
pub proof fn law_declarations_that_name_each_hub_once_are_mutual(declared: HubPairsView)
    requires
        disjoint(declared.pairs),
        forall|p: int, q: int|
            0 <= p < declared.pairs.len() && 0 <= q < declared.alone.len() ==> (
            #[trigger] declared.pairs[p]).0 != #[trigger] declared.alone[q] && declared.pairs[p].1
                != declared.alone[q],
    ensures
        mutual(pairing::declared_status(declared)),
{
    let none: Statuses = Map::empty();
    let pairs = pairing::linked_all(none, declared.pairs, EvidenceView::Declared);
    lemma_linked_all(none, declared.pairs, EvidenceView::Declared);
    lemma_linked_all_mutual(none, declared.pairs, EvidenceView::Declared);
    lemma_alone_elsewhere(pairs, declared.alone);
    lemma_alone(pairs, declared.alone);
    let status = pairing::declared_status(declared);
    assert forall|k: Seq<char>| #[trigger] status.contains_key(k) implies match status[k] {
        StatusView::Paired { other, evidence } => status.contains_key(other) && status[other] == (
        StatusView::Paired { other: k, evidence }),
        _ => true,
    } by {
        match status[k] {
            StatusView::Paired { other, evidence } => {
                assert(pairs.contains_key(k) && pairs[k] == status[k]);
                assert(pairs.contains_key(other));
                let p = choose|p: int|
                    0 <= p < declared.pairs.len() && settles(
                        #[trigger] declared.pairs[p],
                        k,
                        pairs[k],
                        EvidenceView::Declared,
                    );
                assert(!declared.alone.contains(other)) by {
                    if declared.alone.contains(other) {
                        let q = choose|q: int|
                            0 <= q < declared.alone.len() && declared.alone[q] == other;
                        assert(declared.pairs[p].0 != declared.alone[q]);
                    }
                }
            },
            _ => {},
        }
    }
}

/// Hubs with no other half replace nothing but what was settled of them.
proof fn lemma_alone_elsewhere(status: Statuses, alone: Seq<Seq<char>>)
    ensures
        forall|k: Seq<char>|
            #![trigger pairing::alone_all(status, alone).contains_key(k)]
            status.contains_key(k) && !alone.contains(k) ==> pairing::alone_all(
                status,
                alone,
            ).contains_key(k) && pairing::alone_all(status, alone)[k] == status[k],
    decreases alone.len(),
{
    if alone.len() > 0 {
        let fewer = alone.drop_last();
        lemma_alone_elsewhere(status, fewer);
        assert forall|k: Seq<char>|
            #![trigger pairing::alone_all(status, alone).contains_key(k)]
            status.contains_key(k) && !alone.contains(k) implies pairing::alone_all(
            status,
            alone,
        ).contains_key(k) && pairing::alone_all(status, alone)[k] == status[k] by {
            assert(alone[alone.len() - 1] == alone.last());
            assert(!fewer.contains(k)) by {
                if fewer.contains(k) {
                    let q = choose|q: int| 0 <= q < fewer.len() && fewer[q] == k;
                    assert(alone[q] == k);
                }
            }
            assert(pairing::alone_all(status, fewer).contains_key(k));
        }
    }
}

// ---------------------------------------------------------------------------
// Descent finds every hub below a pair
// ---------------------------------------------------------------------------

/// The step at which rule 4 settles a hub.
proof fn lemma_settling_step(nodes: Seq<NodeView>, status: Statuses, k: Seq<char>, n: int) -> (t:
    int)
    requires
        0 <= n,
        !status.contains_key(k),
        pairing::descended_all(nodes, status, n).contains_key(k),
    ensures
        0 <= t < n,
        !pairing::descended_all(nodes, status, t).contains_key(k),
        pairing::descended_all(nodes, status, t + 1).contains_key(k),
    decreases n,
{
    if pairing::descended_all(nodes, status, n - 1).contains_key(k) {
        lemma_settling_step(nodes, status, k, n - 1)
    } else {
        n - 1
    }
}

/// Where the hub opposite sits.
proof fn lemma_opposite(nodes: Seq<NodeView>, status: Statuses, node: NodeView)
    requires
        valid_bus(nodes),
        pairing::opposite(nodes, status, node) is Some,
    ensures
        ({
            let parent = sysfs::location_of(node.bus, node.path.drop_last());
            let partner = pairing::other_half_in(status, parent)->0;
            let p = pairing::node_at(nodes, partner)->0;
            &&& pairing::other_half_in(status, parent) is Some
            &&& partner == sysfs::location_of(p.bus, p.path)
            &&& pairing::opposite(nodes, status, node) == Some(
                sysfs::location_of(p.bus, p.path.push(node.path.last())),
            )
        }),
{
    let parent = sysfs::location_of(node.bus, node.path.drop_last());
    let partner = pairing::other_half_in(status, parent)->0;
    lemma_node_at(nodes, partner);
    let p = pairing::node_at(nodes, partner)->0;
    let i = choose|i: int| 0 <= i < nodes.len() && #[trigger] nodes[i] == p;
    assert(nodes[i].well_placed());
    sysfs::law_child_location_extends_the_path(p.bus, p.path, node.path.last());
}

/// Whether two hubs sit on the same port of hubs that are each other's other
/// half, at least one of them on the bus, and could be the halves of one chip.
pub open spec fn opposite_halves(
    nodes: Seq<NodeView>,
    status: Statuses,
    x: NodeView,
    z: NodeView,
) -> bool {
    let p = sysfs::location_of(x.bus, x.path.drop_last());
    let q = sysfs::location_of(z.bus, z.path.drop_last());
    &&& x.path.len() > 0
    &&& z.path.len() > 0
    &&& x.path.last() == z.path.last()
    &&& pairing::node_at(nodes, p) is Some || pairing::node_at(nodes, q) is Some
    &&& pairing::other_half_in(status, p) == Some(q)
    &&& pairing::other_half_in(status, q) == Some(p)
    &&& x.may_have_other_half()
    &&& z.may_have_other_half()
    &&& x.matches(z)
}

/// A hub whose parent is settled by the time it is looked at, with the parent's
/// other half on the bus, and its opposite half are not both left unsettled.
proof fn lemma_descent_settles(
    nodes: Seq<NodeView>,
    status: Statuses,
    i: int,
    j: int,
)
    requires
        valid_bus(nodes),
        0 <= i < nodes.len(),
        0 <= j < nodes.len(),
        opposite_halves(
            nodes,
            pairing::descended_all(nodes, status, nodes.len() as int),
            nodes[i],
            nodes[j],
        ),
        pairing::descended_all(nodes, status, i).contains_key(
            sysfs::location_of(nodes[i].bus, nodes[i].path.drop_last()),
        ),
        pairing::node_at(
            nodes,
            sysfs::location_of(nodes[j].bus, nodes[j].path.drop_last()),
        ) is Some,
    ensures
        pairing::descended_all(nodes, status, nodes.len() as int).contains_key(nodes[i].location)
            || pairing::descended_all(nodes, status, nodes.len() as int).contains_key(
            nodes[j].location,
        ),
{
    let n = nodes.len() as int;
    let x = nodes[i];
    let z = nodes[j];
    let now = pairing::descended_all(nodes, status, i);
    let last = pairing::descended_all(nodes, status, n);
    let p = sysfs::location_of(x.bus, x.path.drop_last());
    let q = sysfs::location_of(z.bus, z.path.drop_last());
    lemma_descended_keeps(nodes, status, i, n);
    lemma_descended_keeps(nodes, status, i + 1, n);
    assert(pairing::other_half_in(now, p) == Some(q));
    assert(pairing::opposite(nodes, now, x) is Some);
    lemma_opposite(nodes, now, x);
    let qn = pairing::node_at(nodes, q)->0;
    lemma_node_at(nodes, q);
    sysfs::law_a_location_names_one_place(qn.bus, qn.path, z.bus, z.path.drop_last());
    assert(z.path.drop_last().push(x.path.last()) =~= z.path);
    assert(z.well_placed());
    assert(pairing::opposite(nodes, now, x) == Some(z.location));
    lemma_node_at_index(nodes, j);
    if !last.contains_key(x.location) && !last.contains_key(z.location) {
        assert(!now.contains_key(x.location) && !now.contains_key(z.location));
        assert(pairing::descent(nodes, now, i) == Some(z.location));
        assert(pairing::descended_all(nodes, status, i + 1).contains_key(x.location));
    }
}

/// A hub comes before those below it.
proof fn lemma_parent_first(nodes: Seq<NodeView>, t: int, i: int)
    requires
        valid_bus(nodes),
        shallow_first(nodes),
        0 <= t < nodes.len(),
        0 <= i < nodes.len(),
        nodes[i].path.len() > 0,
        nodes[t].location == sysfs::location_of(nodes[i].bus, nodes[i].path.drop_last()),
    ensures
        t < i,
{
    assert(nodes[t].well_placed());
    sysfs::law_a_location_names_one_place(
        nodes[t].bus,
        nodes[t].path,
        nodes[i].bus,
        nodes[i].path.drop_last(),
    );
    if i <= t {
        assert(nodes[i].path.len() <= nodes[t].path.len());
    }
}

/// Of two opposite halves, rule 4 settles at least one.
pub(crate) proof fn lemma_one_is_settled(nodes: Seq<NodeView>, status: Statuses, i: int, j: int)
    requires
        valid_bus(nodes),
        shallow_first(nodes),
        mutual(status),
        0 <= i < nodes.len(),
        0 <= j < nodes.len(),
        opposite_halves(
            nodes,
            pairing::descended_all(nodes, status, nodes.len() as int),
            nodes[i],
            nodes[j],
        ),
    ensures
        pairing::descended_all(nodes, status, nodes.len() as int).contains_key(nodes[i].location)
            || pairing::descended_all(nodes, status, nodes.len() as int).contains_key(
            nodes[j].location,
        ),
{
    let n = nodes.len() as int;
    let x = nodes[i];
    let z = nodes[j];
    let last = pairing::descended_all(nodes, status, n);
    let p = sysfs::location_of(x.bus, x.path.drop_last());
    let q = sysfs::location_of(z.bus, z.path.drop_last());
    if status.contains_key(p) {
        lemma_descended_keeps(nodes, status, 0, n);
        assert(last[p] == status[p]);
        assert(status.contains_key(q));
        lemma_descended_keeps(nodes, status, 0, i);
        lemma_descended_keeps(nodes, status, 0, j);
        if pairing::node_at(nodes, q) is Some {
            lemma_descent_settles(nodes, status, i, j);
        } else {
            lemma_descent_settles(nodes, status, j, i);
        }
    } else {
        // The parents were paired at one step, which looked at one of them and
        // found the other. Each comes before its child.
        assert(last.contains_key(p));
        let t = lemma_settling_step(nodes, status, p, n);
        let after = pairing::descended_all(nodes, status, t + 1);
        lemma_descended_keeps(nodes, status, t + 1, n);
        assert(after[p] == last[p]);
        assert(nodes[t].location == p || nodes[t].location == q);
        lemma_node_at_index(nodes, t);
        assert(pairing::node_at(nodes, p) is Some && pairing::node_at(nodes, q) is Some);
        assert(after.contains_key(p) && after.contains_key(q));
        if nodes[t].location == p {
            lemma_parent_first(nodes, t, i);
            lemma_descended_keeps(nodes, status, t + 1, i);
            lemma_descent_settles(nodes, status, i, j);
        } else {
            lemma_parent_first(nodes, t, j);
            lemma_descended_keeps(nodes, status, t + 1, j);
            lemma_descent_settles(nodes, status, j, i);
        }
    }
}

/// Rule 4 links a hub to the one opposite, or to none.
pub(crate) proof fn lemma_linked_to_opposite(
    nodes: Seq<NodeView>,
    status: Statuses,
    i: int,
    j: int,
)
    requires
        valid_bus(nodes),
        0 <= i < nodes.len(),
        0 <= j < nodes.len(),
        opposite_halves(
            nodes,
            pairing::descended_all(nodes, status, nodes.len() as int),
            nodes[i],
            nodes[j],
        ),
        mutual(pairing::descended_all(nodes, status, nodes.len() as int)),
        !status.contains_key(nodes[i].location),
        pairing::descended_all(nodes, status, nodes.len() as int).contains_key(nodes[i].location),
    ensures
        pairing::other_half_in(
            pairing::descended_all(nodes, status, nodes.len() as int),
            nodes[i].location,
        ) == Some(nodes[j].location),
{
    let n = nodes.len() as int;
    let x = nodes[i];
    let z = nodes[j];
    let last = pairing::descended_all(nodes, status, n);
    let p = sysfs::location_of(x.bus, x.path.drop_last());
    let q = sysfs::location_of(z.bus, z.path.drop_last());
    let t = lemma_settling_step(nodes, status, x.location, n);
    let before = pairing::descended_all(nodes, status, t);
    let after = pairing::descended_all(nodes, status, t + 1);
    lemma_descended_keeps(nodes, status, t, n);
    lemma_descended_keeps(nodes, status, t + 1, n);
    let w = nodes[t];
    let candidate = pairing::descent(nodes, before, t)->0;
    assert(pairing::descent(nodes, before, t) is Some);
    assert(after[x.location] == last[x.location]);
    assert(w.well_placed() && x.well_placed() && z.well_placed());
    lemma_opposite(nodes, before, w);
    let parent = sysfs::location_of(w.bus, w.path.drop_last());
    let partner = pairing::other_half_in(before, parent)->0;
    let pn = pairing::node_at(nodes, partner)->0;
    assert(before.contains_key(parent));
    assert(pairing::other_half_in(last, parent) == Some(partner));
    assert(w.path.drop_last().push(w.path.last()) =~= w.path);
    assert(z.path.drop_last().push(z.path.last()) =~= z.path);
    if w.location == x.location {
        sysfs::law_a_location_names_one_place(w.bus, w.path, x.bus, x.path);
        sysfs::law_a_location_names_one_place(pn.bus, pn.path, z.bus, z.path.drop_last());
        assert(candidate == z.location);
        lemma_node_at_index(nodes, i);
        lemma_node_at(nodes, candidate);
        assert(candidate != w.location);
    } else {
        assert(candidate == x.location);
        sysfs::law_a_location_names_one_place(
            pn.bus,
            pn.path.push(w.path.last()),
            x.bus,
            x.path,
        );
        assert(x.path.drop_last() =~= pn.path);
        assert(partner == p);
        assert(last.contains_key(parent) && last.contains_key(p));
        assert(parent == q);
        sysfs::law_a_location_names_one_place(
            w.bus,
            w.path.drop_last(),
            z.bus,
            z.path.drop_last(),
        );
        assert(w.path.last() == x.path.last());
        assert(w.location == z.location);
    }
}

/// Descent finds every hub below a pair: two hubs that no earlier rule settles,
/// on the same port of hubs that are each other's other half, and alike as the
/// halves of one chip must be, are paired with each other.
pub proof fn law_descent_pairs_what_sits_on_paired_ports(
    hubs: Seq<NodeView>,
    declared: HubPairsView,
    i: int,
    j: int,
)
    requires
        valid_bus(hubs),
        mutual(pairing::declared_status(declared)),
        0 <= i < hubs.len(),
        0 <= j < hubs.len(),
        opposite_halves(
            pairing::paired(hubs, declared).nodes,
            pairing::paired(hubs, declared).status,
            hubs[i],
            hubs[j],
        ),
        !pairing::status_of_stand_ins(pairing::by_depth(hubs), declared).contains_key(
            hubs[i].location,
        ),
        !pairing::status_of_stand_ins(pairing::by_depth(hubs), declared).contains_key(
            hubs[j].location,
        ),
    ensures
        pairing::paired(hubs, declared).other_half(hubs[i].location) == Some(hubs[j].location),
        pairing::paired(hubs, declared).other_half(hubs[j].location) == Some(hubs[i].location),
{
    let nodes = pairing::by_depth(hubs);
    let status = pairing::status_of_stand_ins(nodes, declared);
    law_sorting_keeps_every_hub(hubs);
    law_pairing_is_mutual(hubs, declared, hubs[i].location);
    law_pairing_is_mutual(hubs, declared, hubs[j].location);
    assert(hubs.contains(hubs[i]) && hubs.contains(hubs[j]));
    assert(nodes.contains(hubs[i]) && nodes.contains(hubs[j]));
    let a = choose|a: int| 0 <= a < nodes.len() && nodes[a] == hubs[i];
    let b = choose|b: int| 0 <= b < nodes.len() && nodes[b] == hubs[j];
    lemma_stand_ins(nodes, declared);
    lemma_one_is_settled(nodes, status, a, b);
    let last = pairing::descended_all(nodes, status, nodes.len() as int);
    if last.contains_key(nodes[a].location) {
        lemma_linked_to_opposite(nodes, status, a, b);
    } else {
        lemma_linked_to_opposite(nodes, status, b, a);
    }
}

// ---------------------------------------------------------------------------
// What is reported of a pairing
// ---------------------------------------------------------------------------

proof fn lemma_unpaired(pairing: PairingView, n: int, location: Seq<char>)
    requires
        0 <= n <= pairing.nodes.len(),
    ensures
        pairing.unpaired(n).contains(location) <==> pairing.verdict(location) is Unpaired && exists|
            i: int,
        |
            0 <= i < n && (#[trigger] pairing.nodes[i]).location == location,
    decreases n,
{
    if n > 0 {
        lemma_unpaired(pairing, n - 1, location);
        let fewer = pairing.unpaired(n - 1);
        let all = pairing.unpaired(n);
        let last = pairing.nodes[n - 1].location;
        if pairing.verdict(last) is Unpaired {
            assert(all == fewer.push(last));
            assert(all[all.len() - 1] == last);
            if fewer.contains(location) {
                let k = choose|k: int| 0 <= k < fewer.len() && fewer[k] == location;
                assert(all[k] == location);
            }
            if all.contains(location) {
                let k = choose|k: int| 0 <= k < all.len() && all[k] == location;
                if k < fewer.len() {
                    assert(fewer[k] == location);
                }
            }
        }
        if exists|i: int| 0 <= i < n && (#[trigger] pairing.nodes[i]).location == location {
            let i = choose|i: int|
                0 <= i < n && (#[trigger] pairing.nodes[i]).location == location;
            if i < n - 1 {
                assert(exists|k: int|
                    0 <= k < n - 1 && (#[trigger] pairing.nodes[k]).location == location);
            }
        }
    }
}

/// The hubs reported as unpaired are exactly those hubs on the bus whose verdict
/// is that they are.
pub proof fn law_the_unpaired_hubs_are_reported(pairing: PairingView, location: Seq<char>)
    ensures
        pairing.unpaired(pairing.nodes.len() as int).contains(location) <==> pairing.verdict(
            location,
        ) is Unpaired && exists|i: int|
            0 <= i < pairing.nodes.len() && (#[trigger] pairing.nodes[i]).location == location,
{
    lemma_unpaired(pairing, pairing.nodes.len() as int, location);
}

proof fn lemma_absent(nodes: Seq<NodeView>, locations: Seq<Seq<char>>, location: Seq<char>)
    ensures
        pairing::absent(nodes, locations).contains(location) <==> locations.contains(location)
            && pairing::node_at(nodes, location) is None,
    decreases locations.len(),
{
    if locations.len() > 0 {
        let fewer = locations.drop_last();
        lemma_absent(nodes, fewer, location);
        let less = pairing::absent(nodes, fewer);
        let all = pairing::absent(nodes, locations);
        assert(locations[locations.len() - 1] == locations.last());
        if fewer.contains(location) {
            let k = choose|k: int| 0 <= k < fewer.len() && fewer[k] == location;
            assert(locations[k] == location);
        }
        if locations.contains(location) {
            let k = choose|k: int| 0 <= k < locations.len() && locations[k] == location;
            if k < fewer.len() {
                assert(fewer[k] == location);
            }
        }
        if pairing::node_at(nodes, locations.last()) is None {
            assert(all == less.push(locations.last()));
            assert(all[all.len() - 1] == locations.last());
            if less.contains(location) {
                let k = choose|k: int| 0 <= k < less.len() && less[k] == location;
                assert(all[k] == location);
            }
            if all.contains(location) {
                let k = choose|k: int| 0 <= k < all.len() && all[k] == location;
                if k < less.len() {
                    assert(less[k] == location);
                }
            }
        }
    }
}

/// The declared hubs reported as absent are exactly those that a declaration
/// names and that are not on the bus.
pub proof fn law_the_absent_hubs_are_reported(
    hubs: Seq<NodeView>,
    declared: HubPairsView,
    location: Seq<char>,
)
    ensures
        pairing::paired(hubs, declared).declared_absent.contains(location) <==> (pairing::named(
            declared.pairs,
        ) + declared.alone).contains(location) && pairing::node_at(
            pairing::by_depth(hubs),
            location,
        ) is None,
{
    lemma_absent(
        pairing::by_depth(hubs),
        pairing::named(declared.pairs) + declared.alone,
        location,
    );
}

} // verus!
