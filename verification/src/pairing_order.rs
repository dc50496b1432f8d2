//! A pairing does not depend on the order in which the hubs are listed.

use vstd::prelude::*;

use crate::pairing;
use crate::pairing::{EvidenceView, NodeView, StatusView, Statuses};
use crate::pairing_laws;
use crate::pairs::HubPairsView;
use crate::sysfs;

verus! {

/// Whether two lists hold the same hubs.
pub open spec fn same_hubs(nodes: Seq<NodeView>, others: Seq<NodeView>) -> bool {
    forall|n: NodeView|
        #![trigger nodes.contains(n)]
        #![trigger others.contains(n)]
        nodes.contains(n) <==> others.contains(n)
}

/// Whether every hub below a root may have another half.
pub open spec fn usb3_below_roots(nodes: Seq<NodeView>) -> bool {
    forall|i: int|
        0 <= i < nodes.len() && (#[trigger] nodes[i]).path.len() > 0
            ==> nodes[i].may_have_other_half()
}

/// A hub of one list, found in the other.
proof fn lemma_found(nodes: Seq<NodeView>, others: Seq<NodeView>, i: int) -> (j: int)
    requires
        same_hubs(nodes, others),
        0 <= i < nodes.len(),
    ensures
        0 <= j < others.len(),
        others[j] == nodes[i],
{
    assert(nodes.contains(nodes[i]));
    assert(others.contains(nodes[i]));
    choose|j: int| 0 <= j < others.len() && others[j] == nodes[i]
}

/// Looking up a location gives the same hub in both lists.
proof fn lemma_same_node_at(nodes: Seq<NodeView>, others: Seq<NodeView>, location: Seq<char>)
    requires
        pairing_laws::valid_bus(nodes),
        pairing_laws::valid_bus(others),
        same_hubs(nodes, others),
    ensures
        pairing::node_at(nodes, location) == pairing::node_at(others, location),
{
    pairing_laws::lemma_node_at(nodes, location);
    pairing_laws::lemma_node_at(others, location);
    match pairing::node_at(nodes, location) {
        Some(n) => {
            let i = choose|i: int| 0 <= i < nodes.len() && #[trigger] nodes[i] == n;
            let j = lemma_found(nodes, others, i);
            pairing_laws::lemma_node_at_index(others, j);
        },
        None => {
            if let Some(n) = pairing::node_at(others, location) {
                let j = choose|j: int| 0 <= j < others.len() && #[trigger] others[j] == n;
                let i = lemma_found(others, nodes, j);
                assert(nodes[i].location != location);
            }
        },
    }
}

// ---------------------------------------------------------------------------
// Rule 2
// ---------------------------------------------------------------------------

/// Whether hubs `i` and `j` are the only unsettled ones of one host controller,
/// and of opposite speed.
pub open spec fn only_two(nodes: Seq<NodeView>, status: Statuses, i: int, j: int) -> bool {
    &&& 0 <= i < nodes.len()
    &&& 0 <= j < nodes.len()
    &&& i != j
    &&& nodes[i].controller is Some
    &&& nodes[j].controller == nodes[i].controller
    &&& !status.contains_key(nodes[i].location)
    &&& !status.contains_key(nodes[j].location)
    &&& nodes[i].super_speed() != nodes[j].super_speed()
    &&& forall|t: int|
        0 <= t < nodes.len() && (#[trigger] nodes[t]).controller == nodes[i].controller
            && !status.contains_key(nodes[t].location) ==> t == i || t == j
}

/// Every unsettled root of a controller is listed.
proof fn lemma_roots_of_all(
    nodes: Seq<NodeView>,
    status: Statuses,
    controller: Seq<char>,
    n: int,
    i: int,
) -> (r: int)
    requires
        0 <= i < n <= nodes.len(),
        nodes[i].controller == Some(controller),
        !status.contains_key(nodes[i].location),
    ensures
        0 <= r < pairing::roots_of(nodes, status, controller, n).len(),
        pairing::roots_of(nodes, status, controller, n)[r] == i,
    decreases n,
{
    let roots = pairing::roots_of(nodes, status, controller, n);
    if i == n - 1 {
        roots.len() - 1
    } else {
        lemma_roots_of_all(nodes, status, controller, n - 1, i)
    }
}

/// The only two unsettled roots of a controller are its list.
proof fn lemma_two_roots(nodes: Seq<NodeView>, status: Statuses, i: int, j: int)
    requires
        only_two(nodes, status, i, j),
        i < j,
    ensures
        pairing::root_pair(nodes, status, i) == Some((nodes[i].location, nodes[j].location)),
{
    let controller = nodes[i].controller->0;
    let n = nodes.len() as int;
    let roots = pairing::roots_of(nodes, status, controller, n);
    pairing_laws::lemma_roots_of(nodes, status, controller, n);
    let a = lemma_roots_of_all(nodes, status, controller, n, i);
    let b = lemma_roots_of_all(nodes, status, controller, n, j);
    assert(roots[a] == i && roots[b] == j);
    assert forall|r: int| 0 <= r < roots.len() implies (#[trigger] roots[r] == i || roots[r]
        == j) by {}
    if roots.len() > 2 {
        assert(roots[0] < roots[1] && roots[1] < roots[2]);
    }
    assert(roots[0] < roots[1]);
}

/// A pair found from one of the first hubs is listed.
proof fn lemma_root_pair_listed(nodes: Seq<NodeView>, status: Statuses, n: int, i: int) -> (p: int)
    requires
        0 <= i < n,
        pairing::root_pair(nodes, status, i) is Some,
    ensures
        0 <= p < pairing::root_pairs(nodes, status, n).len(),
        pairing::root_pairs(nodes, status, n)[p] == pairing::root_pair(nodes, status, i)->0,
    decreases n,
{
    if i == n - 1 {
        pairing::root_pairs(nodes, status, n).len() - 1
    } else {
        lemma_root_pair_listed(nodes, status, n - 1, i)
    }
}

/// Linking pairs settles each of them, where no hub is in two and none is paired
/// with itself.
proof fn lemma_linked_all_settles(
    status: Statuses,
    pairs: Seq<(Seq<char>, Seq<char>)>,
    evidence: EvidenceView,
    p: int,
)
    requires
        pairing_laws::disjoint(pairs),
        0 <= p < pairs.len(),
        pairs[p].0 != pairs[p].1,
    ensures
        ({
            let after = pairing::linked_all(status, pairs, evidence);
            let (a, b) = pairs[p];
            &&& after.contains_key(a)
            &&& after.contains_key(b)
            &&& after[a] == (StatusView::Paired { other: b, evidence })
            &&& after[b] == (StatusView::Paired { other: a, evidence })
        }),
    decreases pairs.len(),
{
    let last = pairs.len() - 1;
    assert(pairs.last() == pairs[last]);
    if p < last {
        let fewer = pairs.drop_last();
        assert forall|p: int, q: int| 0 <= p < q < fewer.len() implies ({
            let x = #[trigger] fewer[p];
            let y = #[trigger] fewer[q];
            x.0 != y.0 && x.0 != y.1 && x.1 != y.0 && x.1 != y.1
        }) by {
            assert(fewer[p] == pairs[p] && fewer[q] == pairs[q]);
        }
        assert(fewer[p] == pairs[p]);
        lemma_linked_all_settles(status, fewer, evidence, p);
        assert(pairs[p].0 != pairs[last].0);
    }
}

/// Rule 2 pairs the only two unsettled roots of a controller.
pub(crate) proof fn lemma_two_are_paired(nodes: Seq<NodeView>, base: Statuses, i: int, j: int)
    requires
        pairing_laws::valid_bus(nodes),
        only_two(nodes, base, i, j),
    ensures
        ({
            let status = pairing::controller_status(nodes, base);
            &&& status.contains_key(nodes[i].location)
            &&& status[nodes[i].location] == (StatusView::Paired {
                other: nodes[j].location,
                evidence: EvidenceView::Controller,
            })
        }),
{
    let n = nodes.len() as int;
    let (a, b) = if i < j {
        (i, j)
    } else {
        (j, i)
    };
    assert(only_two(nodes, base, a, b));
    lemma_two_roots(nodes, base, a, b);
    let p = lemma_root_pair_listed(nodes, base, n, a);
    pairing_laws::lemma_root_pairs_disjoint(nodes, base, n);
    pairing_laws::lemma_apart(nodes, i, j);
    lemma_linked_all_settles(
        base,
        pairing::root_pairs(nodes, base, n),
        EvidenceView::Controller,
        p,
    );
}

/// What rule 2 settles is the only two unsettled roots of a controller.
pub(crate) proof fn lemma_paired_are_two(nodes: Seq<NodeView>, base: Statuses, k: Seq<char>) -> (ij: (
    int,
    int,
))
    requires
        pairing_laws::valid_bus(nodes),
        !base.contains_key(k),
        pairing::controller_status(nodes, base).contains_key(k),
    ensures
        only_two(nodes, base, ij.0, ij.1),
        k == nodes[ij.0].location,
{
    let n = nodes.len() as int;
    let found = pairing::root_pairs(nodes, base, n);
    let status = pairing::controller_status(nodes, base);
    pairing_laws::lemma_root_pairs_free(nodes, base);
    pairing_laws::lemma_linked_all(base, found, EvidenceView::Controller);
    pairing_laws::lemma_root_pairs(nodes, base, n);
    let r = choose|r: int|
        0 <= r < found.len() && pairing_laws::settles(
            #[trigger] found[r],
            k,
            status[k],
            EvidenceView::Controller,
        );
    let i = choose|i: int|
        0 <= i < n && #[trigger] pairing::root_pair(nodes, base, i) == Some(found[r]);
    let j = pairing_laws::lemma_root_pair(nodes, base, i);
    let controller = nodes[i].controller->0;
    assert forall|t: int|
        0 <= t < nodes.len() && (#[trigger] nodes[t]).controller == nodes[i].controller
            && !base.contains_key(nodes[t].location) implies t == i || t == j by {
        let x = lemma_roots_of_all(nodes, base, controller, n, t);
        assert(seq![i, j][x] == t);
    }
    if k == nodes[i].location {
        (i, j)
    } else {
        (j, i)
    }
}

/// What rule 2 settles from one list it settles so from the other.
proof fn lemma_same_roots_one_way(
    nodes: Seq<NodeView>,
    others: Seq<NodeView>,
    base: Statuses,
    k: Seq<char>,
)
    requires
        pairing_laws::valid_bus(nodes),
        pairing_laws::valid_bus(others),
        same_hubs(nodes, others),
        pairing_laws::only_declared(base),
        pairing::controller_status(nodes, base).contains_key(k),
    ensures
        pairing::controller_status(others, base).contains_key(k),
        pairing::controller_status(others, base)[k] == pairing::controller_status(nodes, base)[k],
{
    pairing_laws::lemma_controller_status(nodes, base);
    pairing_laws::lemma_controller_status(others, base);
    if !base.contains_key(k) {
        let (i, j) = lemma_paired_are_two(nodes, base, k);
        lemma_two_are_paired(nodes, base, i, j);
        let a = lemma_found(nodes, others, i);
        let b = lemma_found(nodes, others, j);
        assert(a != b);
        assert forall|t: int|
            0 <= t < others.len() && (#[trigger] others[t]).controller == others[a].controller
                && !base.contains_key(others[t].location) implies t == a || t == b by {
            let s = lemma_found(others, nodes, t);
            assert(s == i || s == j);
            if t != a {
                pairing_laws::lemma_apart(others, t, a);
            }
            if t != b {
                pairing_laws::lemma_apart(others, t, b);
            }
        }
        assert(only_two(others, base, a, b));
        lemma_two_are_paired(others, base, a, b);
    }
}

/// Rule 2 settles the same from both lists.
proof fn lemma_same_roots(nodes: Seq<NodeView>, others: Seq<NodeView>, base: Statuses)
    requires
        pairing_laws::valid_bus(nodes),
        pairing_laws::valid_bus(others),
        same_hubs(nodes, others),
        pairing_laws::only_declared(base),
    ensures
        pairing::controller_status(nodes, base) == pairing::controller_status(others, base),
{
    let one = pairing::controller_status(nodes, base);
    let other = pairing::controller_status(others, base);
    assert forall|k: Seq<char>| #[trigger] one.contains_key(k) implies other.contains_key(k)
        && other[k] == one[k] by {
        lemma_same_roots_one_way(nodes, others, base, k);
    }
    assert forall|k: Seq<char>| #[trigger] other.contains_key(k) implies one.contains_key(k) by {
        lemma_same_roots_one_way(others, nodes, base, k);
    }
    assert(one =~= other);
}

// ---------------------------------------------------------------------------
// Rule 3
// ---------------------------------------------------------------------------

/// Whether the stand-in of a pair of root hubs settles the hub at `k` as `v`.
pub open spec fn stands(
    nodes: Seq<NodeView>,
    status: Statuses,
    pair: (Seq<char>, Seq<char>),
    k: Seq<char>,
    v: StatusView,
) -> bool {
    match pairing::expansion(nodes, status, pair.0, pair.1) {
        Some((hub, small, large, ports)) => {
            let evidence = EvidenceView::Expansion { root: small, ports };
            ||| k == hub && v == (StatusView::Paired { other: large, evidence })
            ||| k == large && v == (StatusView::Paired { other: hub, evidence })
            ||| k == small && v == (StatusView::StoodInFor { other: large, via: hub })
        },
        None => false,
    }
}

/// Whether `after` holds what the stand-ins of the first `n` pairs settle, each
/// found from `status` alone, and the rest of `status`.
pub open spec fn stood(
    nodes: Seq<NodeView>,
    status: Statuses,
    pairs: Seq<(Seq<char>, Seq<char>)>,
    n: int,
    after: Statuses,
) -> bool {
    &&& forall|k: Seq<char>| #[trigger] status.contains_key(k) ==> after.contains_key(k)
    &&& forall|k: Seq<char>| #[trigger]
        after.contains_key(k) ==> (status.contains_key(k) && after[k] == status[k]) || exists|p: int|
            0 <= p < n && stands(nodes, status, #[trigger] pairs[p], k, after[k])
    &&& forall|p: int, k: Seq<char>, v: StatusView|
        0 <= p < n && #[trigger] stands(nodes, status, pairs[p], k, v) ==> after.contains_key(k)
            && after[k] == v
}

/// The single-port root below which a hub would stand in is the only one.
proof fn lemma_one_root_above(nodes: Seq<NodeView>, a: NodeView, b: NodeView)
    requires
        pairing_laws::valid_bus(nodes),
        nodes.contains(a),
        nodes.contains(b),
        sysfs::location_below(a.location, a.bus, 1) == sysfs::location_below(b.location, b.bus, 1),
    ensures
        a.location == b.location,
{
    let i = choose|i: int| 0 <= i < nodes.len() && nodes[i] == a;
    let j = choose|j: int| 0 <= j < nodes.len() && nodes[j] == b;
    assert(nodes[i].well_placed() && nodes[j].well_placed());
    sysfs::law_child_location_extends_the_path(a.bus, a.path, 1);
    sysfs::law_child_location_extends_the_path(b.bus, b.path, 1);
    sysfs::law_a_location_names_one_place(a.bus, a.path.push(1), b.bus, b.path.push(1));
    assert(a.path.push(1).drop_last() =~= a.path);
    assert(b.path.push(1).drop_last() =~= b.path);
}

/// The stand-in of a pair does not depend on which pairs were looked at before.
proof fn lemma_expansion_stays(
    nodes: Seq<NodeView>,
    status: Statuses,
    pairs: Seq<(Seq<char>, Seq<char>)>,
    n: int,
    later: Statuses,
)
    requires
        pairing_laws::valid_bus(nodes),
        pairing_laws::disjoint(pairs),
        pairing_laws::found_by_controller(status, pairs, 0),
        0 <= n < pairs.len(),
        stood(nodes, status, pairs, n, later),
    ensures
        pairing::expansion(nodes, later, pairs[n].0, pairs[n].1) == pairing::expansion(
            nodes,
            status,
            pairs[n].0,
            pairs[n].1,
        ),
{
    let (a, b) = pairs[n];
    match (pairing::node_at(nodes, a), pairing::node_at(nodes, b)) {
        (Some(x), Some(y)) => match pairing::lopsided(x, y) {
            Some((small, large, ports)) => {
                let location = sysfs::location_below(small.location, small.bus, 1);
                if let Some(hub) = pairing::node_at(nodes, location) {
                    pairing_laws::lemma_node_at(nodes, location);
                    if !status.contains_key(location) {
                        lemma_not_stood_in(nodes, status, pairs, n, later, location, small);
                        lemma_twins_stay(nodes, status, pairs, n, later, hub);
                    }
                }
            },
            None => {},
        },
        _ => {},
    }
}

/// The hub on the port of a single-port root is not settled by the stand-in of
/// another pair.
proof fn lemma_not_stood_in(
    nodes: Seq<NodeView>,
    status: Statuses,
    pairs: Seq<(Seq<char>, Seq<char>)>,
    n: int,
    later: Statuses,
    location: Seq<char>,
    small: NodeView,
)
    requires
        pairing_laws::valid_bus(nodes),
        pairing_laws::disjoint(pairs),
        pairing_laws::found_by_controller(status, pairs, 0),
        0 <= n < pairs.len(),
        stood(nodes, status, pairs, n, later),
        !status.contains_key(location),
        Some(small) == pairing::node_at(nodes, pairs[n].0) || Some(small) == pairing::node_at(
            nodes,
            pairs[n].1,
        ),
        location == sysfs::location_below(small.location, small.bus, 1),
    ensures
        !later.contains_key(location),
{
    if later.contains_key(location) {
        let p = choose|p: int|
            0 <= p < n && stands(nodes, status, #[trigger] pairs[p], location, later[location]);
        let x = pairs[p];
        assert(pairs[p].0 != pairs[n].0);
        pairing_laws::lemma_expansion(nodes, status, x.0, x.1);
        let (hub, s, l, ports) = pairing::expansion(nodes, status, x.0, x.1)->0;
        assert(status.contains_key(s) && status.contains_key(l));
        assert(location == hub);
        let root = pairing::node_at(nodes, s)->0;
        pairing_laws::lemma_node_at(nodes, s);
        pairing_laws::lemma_node_at(nodes, pairs[n].0);
        pairing_laws::lemma_node_at(nodes, pairs[n].1);
        assert(nodes.contains(root) && nodes.contains(small));
        lemma_one_root_above(nodes, root, small);
    }
}

/// Whether an unsettled hub has a twin does not depend on the stand-ins of pairs.
proof fn lemma_twins_stay(
    nodes: Seq<NodeView>,
    status: Statuses,
    pairs: Seq<(Seq<char>, Seq<char>)>,
    n: int,
    later: Statuses,
    hub: NodeView,
)
    requires
        pairing_laws::valid_bus(nodes),
        pairing_laws::found_by_controller(status, pairs, 0),
        0 <= n < pairs.len(),
        stood(nodes, status, pairs, n, later),
        !status.contains_key(hub.location),
        exists|i: int| 0 <= i < nodes.len() && #[trigger] nodes[i] == hub,
    ensures
        pairing::has_twin(nodes, later, hub) == pairing::has_twin(nodes, status, hub),
{
    if pairing::has_twin(nodes, later, hub) {
        let i = choose|i: int| 0 <= i < nodes.len() && #[trigger] pairing::twin(nodes, later, hub, i);
        assert(pairing::twin(nodes, status, hub, i));
    }
    if pairing::has_twin(nodes, status, hub) {
        let i = choose|i: int|
            0 <= i < nodes.len() && #[trigger] pairing::twin(nodes, status, hub, i);
        let k = nodes[i].location;
        if later.contains_key(k) {
            let p = choose|p: int|
                0 <= p < n && stands(nodes, status, #[trigger] pairs[p], k, later[k]);
            let x = pairs[p];
            pairing_laws::lemma_expansion(nodes, status, x.0, x.1);
            let (h, s, l, ports) = pairing::expansion(nodes, status, x.0, x.1)->0;
            assert(status.contains_key(s) && status.contains_key(l));
            assert(k == h);
            pairing_laws::lemma_node_at_index(nodes, i);
            let t = choose|t: int| 0 <= t < nodes.len() && #[trigger] nodes[t] == hub;
            assert(pairing::twin(nodes, status, nodes[i], t));
            assert(!pairing::has_twin(nodes, status, nodes[i]));
        }
        assert(pairing::twin(nodes, later, hub, i));
    }
}

/// What rule 3 settles, pair by pair.
proof fn lemma_stood(
    nodes: Seq<NodeView>,
    status: Statuses,
    pairs: Seq<(Seq<char>, Seq<char>)>,
    n: int,
)
    requires
        pairing_laws::valid_bus(nodes),
        pairing_laws::disjoint(pairs),
        pairing_laws::found_by_controller(status, pairs, 0),
        0 <= n <= pairs.len(),
    ensures
        stood(nodes, status, pairs, n, pairing::expanded_all(nodes, status, pairs.take(n))),
    decreases n,
{
    if n > 0 {
        let m = n - 1;
        let before = pairing::expanded_all(nodes, status, pairs.take(m));
        let after = pairing::expanded_all(nodes, status, pairs.take(n));
        lemma_stood(nodes, status, pairs, m);
        assert(pairs.take(n).drop_last() =~= pairs.take(m));
        assert(pairs.take(n).last() == pairs[m]);
        lemma_expansion_stays(nodes, status, pairs, m, before);
        lemma_stood_step(nodes, status, pairs, m, before);
        assert(after == pairing::expanded(nodes, before, pairs[m].0, pairs[m].1));
    }
}

/// What rule 3 settles for one more pair.
proof fn lemma_stood_step(
    nodes: Seq<NodeView>,
    status: Statuses,
    pairs: Seq<(Seq<char>, Seq<char>)>,
    m: int,
    before: Statuses,
)
    requires
        pairing_laws::valid_bus(nodes),
        pairing_laws::disjoint(pairs),
        pairing_laws::found_by_controller(status, pairs, 0),
        0 <= m < pairs.len(),
        stood(nodes, status, pairs, m, before),
        pairing::expansion(nodes, before, pairs[m].0, pairs[m].1) == pairing::expansion(
            nodes,
            status,
            pairs[m].0,
            pairs[m].1,
        ),
    ensures
        stood(
            nodes,
            status,
            pairs,
            m + 1,
            pairing::expanded(nodes, before, pairs[m].0, pairs[m].1),
        ),
{
    let (a, b) = pairs[m];
    let after = pairing::expanded(nodes, before, a, b);
    if pairing::expansion(nodes, before, a, b) is Some {
        pairing_laws::lemma_expansion(nodes, before, a, b);
        let (hub, small, large, ports) = pairing::expansion(nodes, before, a, b)->0;
        assert(status.contains_key(small) && status.contains_key(large));
        assert(hub != small && hub != large && small != large);
        assert forall|k: Seq<char>| #[trigger] after.contains_key(k) implies (status.contains_key(k)
            && after[k] == status[k]) || exists|p: int|
            0 <= p < m + 1 && stands(nodes, status, #[trigger] pairs[p], k, after[k]) by {
            if k == hub || k == small || k == large {
                assert(stands(nodes, status, pairs[m], k, after[k]));
            } else {
                assert(before.contains_key(k));
                assert(after[k] == before[k]);
            }
        }
        assert forall|p: int, k: Seq<char>, v: StatusView|
            0 <= p < m + 1 && #[trigger] stands(nodes, status, pairs[p], k, v) implies after.contains_key(
            k,
        ) && after[k] == v by {
            if p < m {
                assert(pairs[p].0 != pairs[m].0);
                pairing_laws::lemma_expansion(nodes, status, pairs[p].0, pairs[p].1);
                assert(before.contains_key(k) && before[k] == v);
                assert(status.contains_key(pairs[p].0) && status.contains_key(pairs[p].1));
                assert(status.contains_key(pairs[m].0) && status.contains_key(pairs[m].1));
            }
        }
    } else {
        assert forall|p: int, k: Seq<char>, v: StatusView|
            0 <= p < m + 1 && #[trigger] stands(nodes, status, pairs[p], k, v) implies after.contains_key(
            k,
        ) && after[k] == v by {
            assert(p < m);
        }
        assert forall|k: Seq<char>| #[trigger] after.contains_key(k) implies (status.contains_key(k)
            && after[k] == status[k]) || exists|p: int|
            0 <= p < m + 1 && stands(nodes, status, #[trigger] pairs[p], k, after[k]) by {
            assert(before.contains_key(k));
        }
    }
}

/// A pair of root hubs found from one of the first hubs is listed.
pub(crate) proof fn lemma_controller_pair_listed(
    nodes: Seq<NodeView>,
    status: Statuses,
    n: int,
    i: int,
) -> (p: int)
    requires
        0 <= i < n,
        pairing::controller_pair(nodes, status, i) is Some,
    ensures
        0 <= p < pairing::controller_pairs(nodes, status, n).len(),
        pairing::controller_pairs(nodes, status, n)[p] == pairing::controller_pair(
            nodes,
            status,
            i,
        )->0,
    decreases n,
{
    if i == n - 1 {
        pairing::controller_pairs(nodes, status, n).len() - 1
    } else {
        lemma_controller_pair_listed(nodes, status, n - 1, i)
    }
}

/// The stand-in of a pair is the same in both lists.
proof fn lemma_same_expansion(
    nodes: Seq<NodeView>,
    others: Seq<NodeView>,
    status: Statuses,
    a: Seq<char>,
    b: Seq<char>,
)
    requires
        pairing_laws::valid_bus(nodes),
        pairing_laws::valid_bus(others),
        same_hubs(nodes, others),
    ensures
        pairing::expansion(nodes, status, a, b) == pairing::expansion(others, status, a, b),
{
    assert forall|k: Seq<char>| #[trigger]
        pairing::node_at(nodes, k) == pairing::node_at(others, k) by {
        lemma_same_node_at(nodes, others, k);
    }
    assert forall|hub: NodeView| #[trigger]
        pairing::has_twin(nodes, status, hub) == pairing::has_twin(others, status, hub) by {
        if pairing::has_twin(nodes, status, hub) {
            let i = choose|i: int|
                0 <= i < nodes.len() && #[trigger] pairing::twin(nodes, status, hub, i);
            let j = lemma_found(nodes, others, i);
            assert(pairing::twin(others, status, hub, j));
        }
        if pairing::has_twin(others, status, hub) {
            let j = choose|j: int|
                0 <= j < others.len() && #[trigger] pairing::twin(others, status, hub, j);
            let i = lemma_found(others, nodes, j);
            assert(pairing::twin(nodes, status, hub, i));
        }
    }
}

/// What a stand-in settles from one list it settles from the other.
proof fn lemma_stands_in_both(
    nodes: Seq<NodeView>,
    others: Seq<NodeView>,
    status: Statuses,
    p: int,
    k: Seq<char>,
    v: StatusView,
) -> (q: int)
    requires
        pairing_laws::valid_bus(nodes),
        pairing_laws::valid_bus(others),
        same_hubs(nodes, others),
        0 <= p < pairing::controller_pairs(nodes, status, nodes.len() as int).len(),
        stands(
            nodes,
            status,
            pairing::controller_pairs(nodes, status, nodes.len() as int)[p],
            k,
            v,
        ),
    ensures
        0 <= q < pairing::controller_pairs(others, status, others.len() as int).len(),
        stands(
            others,
            status,
            pairing::controller_pairs(others, status, others.len() as int)[q],
            k,
            v,
        ),
{
    let pair = pairing::controller_pairs(nodes, status, nodes.len() as int)[p];
    pairing_laws::lemma_controller_pairs(nodes, status, nodes.len() as int);
    let i = choose|i: int|
        0 <= i < nodes.len() && #[trigger] pairing::controller_pair(nodes, status, i) == Some(pair);
    let j = lemma_found(nodes, others, i);
    assert(pairing::controller_pair(others, status, j) == Some(pair));
    lemma_same_expansion(nodes, others, status, pair.0, pair.1);
    lemma_controller_pair_listed(others, status, others.len() as int, j)
}

/// What rule 3 settles, from the pairs of root hubs that rule 2 found.
pub(crate) proof fn lemma_stood_by_all(nodes: Seq<NodeView>, base: Statuses)
    requires
        pairing_laws::valid_bus(nodes),
        pairing_laws::only_declared(base),
    ensures
        ({
            let status = pairing::controller_status(nodes, base);
            let pairs = pairing::controller_pairs(nodes, status, nodes.len() as int);
            stood(
                nodes,
                status,
                pairs,
                pairs.len() as int,
                pairing::expansion_status(nodes, status),
            )
        }),
{
    let status = pairing::controller_status(nodes, base);
    let pairs = pairing::controller_pairs(nodes, status, nodes.len() as int);
    pairing_laws::lemma_controller_status(nodes, base);
    pairing_laws::lemma_roots_mutual(nodes, base);
    pairing_laws::lemma_controller_pairs_found(nodes, base, status, nodes.len() as int);
    lemma_stood(nodes, status, pairs, pairs.len() as int);
    assert(pairs.take(pairs.len() as int) =~= pairs);
}

/// What rule 3 settles from one list it settles so from the other.
proof fn lemma_same_stand_ins_one_way(
    nodes: Seq<NodeView>,
    others: Seq<NodeView>,
    base: Statuses,
    k: Seq<char>,
)
    requires
        pairing_laws::valid_bus(nodes),
        pairing_laws::valid_bus(others),
        same_hubs(nodes, others),
        pairing_laws::only_declared(base),
        pairing::expansion_status(nodes, pairing::controller_status(nodes, base)).contains_key(k),
    ensures
        ({
            let one = pairing::expansion_status(nodes, pairing::controller_status(nodes, base));
            let other = pairing::expansion_status(others, pairing::controller_status(others, base));
            other.contains_key(k) && other[k] == one[k]
        }),
{
    lemma_same_roots(nodes, others, base);
    lemma_stood_by_all(nodes, base);
    lemma_stood_by_all(others, base);
    let status = pairing::controller_status(nodes, base);
    let one = pairing::expansion_status(nodes, status);
    let other = pairing::expansion_status(others, status);
    let pairs = pairing::controller_pairs(nodes, status, nodes.len() as int);
    let rest = pairing::controller_pairs(others, status, others.len() as int);
    if status.contains_key(k) && one[k] == status[k] {
        assert(other.contains_key(k));
        if other[k] != status[k] {
            let q = choose|q: int|
                0 <= q < rest.len() && stands(others, status, #[trigger] rest[q], k, other[k]);
            let p = lemma_stands_in_both(others, nodes, status, q, k, other[k]);
            assert(stands(nodes, status, pairs[p], k, other[k]));
        }
    } else {
        let p = choose|p: int|
            0 <= p < pairs.len() && stands(nodes, status, #[trigger] pairs[p], k, one[k]);
        let q = lemma_stands_in_both(nodes, others, status, p, k, one[k]);
        assert(stands(others, status, rest[q], k, one[k]));
    }
}

/// The first three rules settle the same from both lists.
proof fn lemma_same_stand_ins(
    nodes: Seq<NodeView>,
    others: Seq<NodeView>,
    declared: HubPairsView,
)
    requires
        pairing_laws::valid_bus(nodes),
        pairing_laws::valid_bus(others),
        same_hubs(nodes, others),
    ensures
        pairing::status_of_stand_ins(nodes, declared) == pairing::status_of_stand_ins(
            others,
            declared,
        ),
{
    let base = pairing::declared_status(declared);
    pairing_laws::lemma_only_declared(declared);
    let one = pairing::status_of_stand_ins(nodes, declared);
    let other = pairing::status_of_stand_ins(others, declared);
    assert forall|k: Seq<char>| #[trigger] one.contains_key(k) implies other.contains_key(k)
        && other[k] == one[k] by {
        lemma_same_stand_ins_one_way(nodes, others, base, k);
    }
    assert forall|k: Seq<char>| #[trigger] other.contains_key(k) implies one.contains_key(k) by {
        lemma_same_stand_ins_one_way(others, nodes, base, k);
    }
    assert(one =~= other);
}

// ---------------------------------------------------------------------------
// Rule 4
// ---------------------------------------------------------------------------

/// Whether descent pairs the hub at `k`, which is hub `i`, with hub `j`: the two
/// are opposite halves, and `base` settles neither.
pub open spec fn by_descent(
    nodes: Seq<NodeView>,
    base: Statuses,
    status: Statuses,
    k: Seq<char>,
    i: int,
    j: int,
) -> bool {
    &&& 0 <= i < nodes.len()
    &&& 0 <= j < nodes.len()
    &&& nodes[i].location == k
    &&& !base.contains_key(k)
    &&& !base.contains_key(nodes[j].location)
    &&& pairing_laws::opposite_halves(nodes, status, nodes[i], nodes[j])
    &&& status[k] == (StatusView::Paired {
        other: nodes[j].location,
        evidence: EvidenceView::Descent(nodes[i].path.last()),
    })
}

/// Whether whatever is settled beside `base` is settled by descent.
pub open spec fn descends(nodes: Seq<NodeView>, base: Statuses, status: Statuses) -> bool {
    forall|k: Seq<char>| #[trigger]
        status.contains_key(k) && !base.contains_key(k) ==> exists|i: int, j: int| #[trigger]
            by_descent(nodes, base, status, k, i, j)
}

/// Rule 4 for one hub settles by descent.
proof fn lemma_descends_step(nodes: Seq<NodeView>, base: Statuses, status: Statuses, t: int)
    requires
        pairing_laws::valid_bus(nodes),
        usb3_below_roots(nodes),
        pairing_laws::keeps(base, status),
        pairing_laws::mutual(status),
        descends(nodes, base, status),
        0 <= t < nodes.len(),
    ensures
        pairing_laws::keeps(base, pairing::descended(nodes, status, t)),
        pairing_laws::mutual(pairing::descended(nodes, status, t)),
        descends(nodes, base, pairing::descended(nodes, status, t)),
{
    let after = pairing::descended(nodes, status, t);
    if let Some(candidate) = pairing::descent(nodes, status, t) {
        pairing_laws::lemma_descent_port(nodes, status, t);
        pairing_laws::lemma_node_at(nodes, candidate);
        let x = nodes[t];
        let y = pairing::node_at(nodes, candidate)->0;
        let u = choose|u: int| 0 <= u < nodes.len() && #[trigger] nodes[u] == y;
        let p = sysfs::location_of(x.bus, x.path.drop_last());
        let q = sysfs::location_of(y.bus, y.path.drop_last());
        assert(x.location != y.location);
        assert(status.contains_key(p));
        assert(status.contains_key(q));
        assert(pairing::other_half_in(status, q) == Some(p));
        assert(pairing_laws::opposite_halves(nodes, after, nodes[t], nodes[u]));
        assert(pairing_laws::opposite_halves(nodes, after, nodes[u], nodes[t]));
        assert(pairing_laws::keeps(status, after));
        assert forall|k: Seq<char>| #[trigger]
            after.contains_key(k) && !base.contains_key(k) implies exists|i: int, j: int| #[trigger]
            by_descent(nodes, base, after, k, i, j) by {
            if k != x.location && k != candidate {
                assert(status.contains_key(k));
                let (i, j) = choose|i: int, j: int| #[trigger]
                    by_descent(nodes, base, status, k, i, j);
                assert(by_descent(nodes, base, after, k, i, j));
            } else if k == x.location {
                assert(by_descent(nodes, base, after, k, t, u));
            } else {
                assert(by_descent(nodes, base, after, k, u, t));
            }
        }
    }
}

/// Rule 4 settles by descent.
proof fn lemma_descends(nodes: Seq<NodeView>, base: Statuses, n: int)
    requires
        pairing_laws::valid_bus(nodes),
        usb3_below_roots(nodes),
        pairing_laws::mutual(base),
        0 <= n <= nodes.len(),
    ensures
        pairing_laws::keeps(base, pairing::descended_all(nodes, base, n)),
        pairing_laws::mutual(pairing::descended_all(nodes, base, n)),
        descends(nodes, base, pairing::descended_all(nodes, base, n)),
    decreases n,
{
    if n > 0 {
        lemma_descends(nodes, base, n - 1);
        lemma_descends_step(nodes, base, pairing::descended_all(nodes, base, n - 1), n - 1);
    }
}

/// What rule 4 settles from one list it settles so from the other.
proof fn lemma_same_descent(
    nodes: Seq<NodeView>,
    others: Seq<NodeView>,
    base: Statuses,
    i: int,
)
    requires
        pairing_laws::valid_bus(nodes),
        pairing_laws::valid_bus(others),
        pairing_laws::shallow_first(others),
        same_hubs(nodes, others),
        usb3_below_roots(nodes),
        usb3_below_roots(others),
        pairing_laws::mutual(base),
        0 <= i < nodes.len(),
        !base.contains_key(nodes[i].location),
        pairing::descended_all(nodes, base, nodes.len() as int).contains_key(nodes[i].location),
    ensures
        ({
            let one = pairing::descended_all(nodes, base, nodes.len() as int);
            let other = pairing::descended_all(others, base, others.len() as int);
            let k = nodes[i].location;
            other.contains_key(k) && other[k] == one[k]
        }),
    decreases nodes[i].path.len(),
{
    let n = nodes.len() as int;
    let m = others.len() as int;
    let one = pairing::descended_all(nodes, base, n);
    let other = pairing::descended_all(others, base, m);
    let k = nodes[i].location;
    lemma_descends(nodes, base, n);
    lemma_descends(others, base, m);
    let (a, j) = choose|a: int, j: int| #[trigger]
        by_descent(nodes, base, one, k, a, j);
    if a != i {
        pairing_laws::lemma_apart(nodes, a, i);
    }
    let x = nodes[i];
    let y = nodes[j];
    let p = sysfs::location_of(x.bus, x.path.drop_last());
    let q = sysfs::location_of(y.bus, y.path.drop_last());
    assert(one.contains_key(p) && one.contains_key(q));
    if base.contains_key(p) {
        assert(other.contains_key(p) && other[p] == one[p]);
    } else {
        let (b, c) = choose|b: int, c: int| #[trigger]
            by_descent(nodes, base, one, p, b, c);
        assert(nodes[b].well_placed());
        sysfs::law_a_location_names_one_place(
            nodes[b].bus,
            nodes[b].path,
            x.bus,
            x.path.drop_last(),
        );
        lemma_same_descent(nodes, others, base, b);
    }
    assert(pairing::other_half_in(other, p) == Some(q));
    assert(other.contains_key(q));
    assert(pairing::other_half_in(other, q) == Some(p));
    lemma_same_node_at(nodes, others, p);
    lemma_same_node_at(nodes, others, q);
    let b = lemma_found(nodes, others, i);
    let c = lemma_found(nodes, others, j);
    assert(pairing_laws::opposite_halves(others, other, others[b], others[c]));
    assert(pairing_laws::opposite_halves(others, other, others[c], others[b]));
    pairing_laws::lemma_one_is_settled(others, base, b, c);
    if other.contains_key(others[b].location) {
        pairing_laws::lemma_linked_to_opposite(others, base, b, c);
    } else {
        pairing_laws::lemma_linked_to_opposite(others, base, c, b);
    }
    assert(other.contains_key(k));
    let (d, e) = choose|d: int, e: int| #[trigger]
        by_descent(others, base, other, k, d, e);
    if d != b {
        pairing_laws::lemma_apart(others, d, b);
    }
    assert(pairing::other_half_in(other, k) == Some(y.location));
}

/// All four rules settle the same from both lists.
proof fn lemma_same_settled_one_way(
    nodes: Seq<NodeView>,
    others: Seq<NodeView>,
    declared: HubPairsView,
    k: Seq<char>,
)
    requires
        pairing_laws::valid_bus(nodes),
        pairing_laws::valid_bus(others),
        pairing_laws::shallow_first(others),
        same_hubs(nodes, others),
        usb3_below_roots(nodes),
        usb3_below_roots(others),
        pairing_laws::mutual(pairing::declared_status(declared)),
        pairing::settled(nodes, declared).contains_key(k),
    ensures
        pairing::settled(others, declared).contains_key(k),
        pairing::settled(others, declared)[k] == pairing::settled(nodes, declared)[k],
{
    lemma_same_stand_ins(nodes, others, declared);
    let base = pairing::status_of_stand_ins(nodes, declared);
    pairing_laws::lemma_stand_ins(nodes, declared);
    let one = pairing::descended_all(nodes, base, nodes.len() as int);
    lemma_descends(nodes, base, nodes.len() as int);
    lemma_descends(others, base, others.len() as int);
    if !base.contains_key(k) {
        let (i, j) = choose|i: int, j: int| #[trigger]
            by_descent(nodes, base, one, k, i, j);
        lemma_same_descent(nodes, others, base, i);
    }
}

/// What sorting by depth leaves of a list.
proof fn lemma_sorted(hubs: Seq<NodeView>)
    requires
        pairing_laws::valid_bus(hubs),
        usb3_below_roots(hubs),
    ensures
        same_hubs(hubs, pairing::by_depth(hubs)),
        pairing_laws::valid_bus(pairing::by_depth(hubs)),
        pairing_laws::shallow_first(pairing::by_depth(hubs)),
        usb3_below_roots(pairing::by_depth(hubs)),
{
    let nodes = pairing::by_depth(hubs);
    pairing_laws::law_sorting_keeps_every_hub(hubs);
    assert forall|i: int| 0 <= i < nodes.len() && (#[trigger] nodes[i]).path.len() > 0 implies
        nodes[i].may_have_other_half() by {
        let j = lemma_found(nodes, hubs, i);
    }
}

/// The order in which the hubs are listed does not matter: where no hub below a
/// root is a plain USB 2.0 hub, and the declarations are mutual, every location
/// gets the same verdict.
///
/// Declarations that name each hub once are mutual:
/// [`pairing_laws::law_declarations_that_name_each_hub_once_are_mutual`].
pub proof fn law_the_order_of_the_hubs_does_not_matter(
    hubs: Seq<NodeView>,
    others: Seq<NodeView>,
    declared: HubPairsView,
    location: Seq<char>,
)
    requires
        pairing_laws::valid_bus(hubs),
        pairing_laws::valid_bus(others),
        same_hubs(hubs, others),
        usb3_below_roots(hubs),
        pairing_laws::mutual(pairing::declared_status(declared)),
    ensures
        pairing::paired(hubs, declared).status == pairing::paired(others, declared).status,
        pairing::paired(hubs, declared).verdict(location) == pairing::paired(
            others,
            declared,
        ).verdict(location),
{
    assert forall|i: int| 0 <= i < others.len() && (#[trigger] others[i]).path.len() > 0 implies
        others[i].may_have_other_half() by {
        let j = lemma_found(others, hubs, i);
    }
    lemma_sorted(hubs);
    lemma_sorted(others);
    let a = pairing::by_depth(hubs);
    let b = pairing::by_depth(others);
    assert(same_hubs(a, b)) by {
        assert forall|n: NodeView|
            #![trigger a.contains(n)]
            #![trigger b.contains(n)]
            a.contains(n) <==> b.contains(n) by {
            assert(hubs.contains(n) <==> others.contains(n));
        }
    }
    let one = pairing::settled(a, declared);
    let other = pairing::settled(b, declared);
    assert forall|k: Seq<char>| #[trigger] one.contains_key(k) implies other.contains_key(k)
        && other[k] == one[k] by {
        lemma_same_settled_one_way(a, b, declared, k);
    }
    assert forall|k: Seq<char>| #[trigger] other.contains_key(k) implies one.contains_key(k) by {
        lemma_same_settled_one_way(b, a, declared, k);
    }
    assert(one =~= other);
    lemma_same_node_at(a, b, location);
}

} // verus!
