//! What each rule of pairing settles, told by what the hubs are and where they
//! sit.

use vstd::prelude::*;

use crate::device::DeviceView;
use crate::device_laws;
use crate::pairing;
use crate::pairing::{EvidenceView, NodeView, PairingView, StatusView, Statuses, VerdictView};
use crate::pairing_laws;
use crate::pairing_order;
use crate::pairs::HubPairsView;
use crate::sysfs;
use crate::text;

verus! {

// ---------------------------------------------------------------------------
// What the laws speak of
// ---------------------------------------------------------------------------

/// Whether a declaration names a hub.
pub open spec fn names(declared: HubPairsView, hub: Seq<char>) -> bool {
    ||| declared.alone.contains(hub)
    ||| exists|p: int|
        0 <= p < declared.pairs.len() && ((#[trigger] declared.pairs[p]).0 == hub
            || declared.pairs[p].1 == hub)
}

/// Whether no hub is named twice.
pub open spec fn names_each_hub_once(declared: HubPairsView) -> bool {
    &&& pairing_laws::disjoint(declared.pairs)
    &&& forall|p: int, q: int|
        0 <= p < declared.pairs.len() && 0 <= q < declared.alone.len() ==> (
        #[trigger] declared.pairs[p]).0 != #[trigger] declared.alone[q] && declared.pairs[p].1
            != declared.alone[q]
}

/// Whether a hub is a `SuperSpeed` hub.
pub open spec fn fast(hub: NodeView) -> bool {
    device_laws::version_number(hub.version) >= 0x030000
}

/// Whether two hubs could be the halves of one chip: opposite speeds, the same
/// vendor, and the same number of ports where both are known.
pub open spec fn alike(a: NodeView, b: NodeView) -> bool {
    &&& fast(a) != fast(b)
    &&& a.vid == b.vid
    &&& a.nports is None || b.nports is None || a.nports == b.nports
}

/// Whether nothing but descent may settle what a verdict is about.
pub open spec fn left_to_descent(verdict: VerdictView) -> bool {
    verdict is Unpaired || verdict is Usb2Hub || (verdict matches VerdictView::Paired {
        evidence,
        ..
    } && evidence is Descent)
}

/// Whether hubs `i` and `j` are the root hubs of one host controller, of opposite
/// speed and not declared, and it has no other that is not declared.
pub open spec fn sibling_roots(
    hubs: Seq<NodeView>,
    declared: HubPairsView,
    i: int,
    j: int,
) -> bool {
    &&& 0 <= i < hubs.len()
    &&& 0 <= j < hubs.len()
    &&& i != j
    &&& hubs[i].controller is Some
    &&& hubs[j].controller == hubs[i].controller
    &&& fast(hubs[i]) != fast(hubs[j])
    &&& !names(declared, hubs[i].location)
    &&& !names(declared, hubs[j].location)
    &&& forall|t: int|
        0 <= t < hubs.len() && (#[trigger] hubs[t]).controller == hubs[i].controller && t != i && t
            != j ==> names(declared, hubs[t].location)
}

/// Whether of two root hubs one has a single port and the other several.
pub open spec fn uneven(a: NodeView, b: NodeView) -> bool {
    ||| a.nports == Some(1u8) && b.nports is Some && b.nports->0 > 1
    ||| b.nports == Some(1u8) && a.nports is Some && a.nports->0 > 1
}

// ---------------------------------------------------------------------------
// Rule 1
// ---------------------------------------------------------------------------

proof fn lemma_declared_pair_keys(pairs: Seq<(Seq<char>, Seq<char>)>, hub: Seq<char>)
    ensures
        pairing::linked_all(Map::empty(), pairs, EvidenceView::Declared).contains_key(hub)
            <==> exists|p: int|
            0 <= p < pairs.len() && ((#[trigger] pairs[p]).0 == hub || pairs[p].1 == hub),
    decreases pairs.len(),
{
    if pairs.len() > 0 {
        let fewer = pairs.drop_last();
        lemma_declared_pair_keys(fewer, hub);
        assert(pairs[pairs.len() - 1] == pairs.last());
        if exists|p: int|
            0 <= p < fewer.len() && ((#[trigger] fewer[p]).0 == hub || fewer[p].1 == hub) {
            let p = choose|p: int|
                0 <= p < fewer.len() && ((#[trigger] fewer[p]).0 == hub || fewer[p].1 == hub);
            assert(pairs[p] == fewer[p]);
        }
        if exists|p: int|
            0 <= p < pairs.len() && ((#[trigger] pairs[p]).0 == hub || pairs[p].1 == hub) {
            let p = choose|p: int|
                0 <= p < pairs.len() && ((#[trigger] pairs[p]).0 == hub || pairs[p].1 == hub);
            if p < fewer.len() {
                assert(fewer[p] == pairs[p]);
            }
        }
    }
}

proof fn lemma_alone_keys(status: Statuses, alone: Seq<Seq<char>>, hub: Seq<char>)
    ensures
        pairing::alone_all(status, alone).contains_key(hub) <==> status.contains_key(hub)
            || alone.contains(hub),
        alone.contains(hub) ==> pairing::alone_all(status, alone)[hub] is DeclaredAlone,
        !alone.contains(hub) && status.contains_key(hub) ==> pairing::alone_all(status, alone)[hub]
            == status[hub],
    decreases alone.len(),
{
    if alone.len() > 0 {
        let fewer = alone.drop_last();
        lemma_alone_keys(status, fewer, hub);
        assert(alone[alone.len() - 1] == alone.last());
        if fewer.contains(hub) {
            let i = choose|i: int| 0 <= i < fewer.len() && fewer[i] == hub;
            assert(alone[i] == hub);
        }
        if alone.contains(hub) {
            let i = choose|i: int| 0 <= i < alone.len() && alone[i] == hub;
            if i < fewer.len() {
                assert(fewer[i] == hub);
            }
        }
    }
}

/// What is declared is what the declarations name.
proof fn lemma_declared_keys(declared: HubPairsView, hub: Seq<char>)
    ensures
        pairing::declared_status(declared).contains_key(hub) <==> names(declared, hub),
{
    lemma_declared_pair_keys(declared.pairs, hub);
    lemma_alone_keys(
        pairing::linked_all(Map::empty(), declared.pairs, EvidenceView::Declared),
        declared.alone,
        hub,
    );
}

proof fn lemma_linked_elsewhere(
    before: Seq<(Seq<char>, Seq<char>)>,
    a: Seq<char>,
    b: Seq<char>,
    after: Seq<(Seq<char>, Seq<char>)>,
    hub: Seq<char>,
)
    requires
        hub == a || hub == b,
        forall|p: int|
            0 <= p < after.len() ==> (#[trigger] after[p]).0 != hub && after[p].1 != hub,
    ensures
        ({
            let all = before.push((a, b)) + after;
            let status = pairing::linked_all(Map::empty(), all, EvidenceView::Declared);
            &&& status.contains_key(hub)
            &&& status[hub] == (StatusView::Paired {
                other: if hub == b {
                    a
                } else {
                    b
                },
                evidence: EvidenceView::Declared,
            })
        }),
    decreases after.len(),
{
    let all = before.push((a, b)) + after;
    if after.len() > 0 {
        let fewer = after.drop_last();
        assert forall|p: int| 0 <= p < fewer.len() implies (#[trigger] fewer[p]).0 != hub
            && fewer[p].1 != hub by {
            assert(fewer[p] == after[p]);
        }
        lemma_linked_elsewhere(before, a, b, fewer, hub);
        assert(all.drop_last() =~= before.push((a, b)) + fewer);
        assert(after[after.len() - 1] == all.last());
    } else {
        assert(all =~= before.push((a, b)));
        assert(all.drop_last() =~= before);
    }
}

/// A declaration settles the hubs it names, whatever is on the bus: a hub that is
/// declared to have no other half has none; any other is paired as the last pair
/// says that names it. A hub that none names is not paired by declaration.
pub proof fn law_a_hub_is_settled_as_declared(
    hubs: Seq<NodeView>,
    declared: HubPairsView,
    before: Seq<(Seq<char>, Seq<char>)>,
    a: Seq<char>,
    b: Seq<char>,
    after: Seq<(Seq<char>, Seq<char>)>,
    hub: Seq<char>,
)
    ensures
        ({
            let verdict = pairing::paired(hubs, declared).verdict(hub);
            &&& declared.alone.contains(hub) ==> verdict == VerdictView::DeclaredAlone
            &&& !declared.alone.contains(hub) && declared.pairs == before.push((a, b)) + after && (
            hub == a || hub == b) && (forall|p: int|
                0 <= p < after.len() ==> (#[trigger] after[p]).0 != hub && after[p].1 != hub)
                ==> verdict == (VerdictView::Paired {
                other: if hub == b {
                    a
                } else {
                    b
                },
                evidence: EvidenceView::Declared,
            })
        }),
{
    let base = pairing::declared_status(declared);
    let linked = pairing::linked_all(Map::empty(), declared.pairs, EvidenceView::Declared);
    pairing_laws::law_a_declaration_stands(hubs, declared);
    lemma_alone_keys(linked, declared.alone, hub);
    if declared.alone.contains(hub) {
        assert(base.contains_key(hub));
    } else if declared.pairs == before.push((a, b)) + after && (hub == a || hub == b) && (forall|
        p: int,
    |
        0 <= p < after.len() ==> (#[trigger] after[p]).0 != hub && after[p].1 != hub) {
        lemma_linked_elsewhere(before, a, b, after, hub);
        assert(base.contains_key(hub));
    }
}

/// Only a hub that is named is settled by declaration.
pub proof fn law_only_named_hubs_are_settled_by_declaration(
    hubs: Seq<NodeView>,
    declared: HubPairsView,
    hub: Seq<char>,
)
    requires
        pairing_laws::valid_bus(hubs),
        !names(declared, hub),
    ensures
        ({
            let verdict = pairing::paired(hubs, declared).verdict(hub);
            &&& verdict !is DeclaredAlone
            &&& verdict matches VerdictView::Paired { evidence, .. } ==> evidence !is Declared
        }),
{
    let nodes = pairing::by_depth(hubs);
    let base = pairing::declared_status(declared);
    let status = pairing::settled(nodes, declared);
    pairing_laws::law_sorting_keeps_every_hub(hubs);
    lemma_declared_keys(declared, hub);
    lemma_new_statuses(nodes, declared, hub);
}

/// Whether a status is not one that a declaration gives.
spec fn found_out(status: StatusView) -> bool {
    match status {
        StatusView::Paired { evidence, .. } => evidence !is Declared,
        StatusView::StoodInFor { .. } => true,
        StatusView::DeclaredAlone => false,
    }
}

/// What the later rules settle, they do not settle by declaration.
proof fn lemma_new_statuses(nodes: Seq<NodeView>, declared: HubPairsView, hub: Seq<char>)
    requires
        pairing_laws::valid_bus(nodes),
        !pairing::declared_status(declared).contains_key(hub),
    ensures
        pairing::settled(nodes, declared).contains_key(hub) ==> found_out(
            pairing::settled(nodes, declared)[hub],
        ),
{
    let base = pairing::declared_status(declared);
    let roots = pairing::status_of_roots(nodes, declared);
    let stand_ins = pairing::status_of_stand_ins(nodes, declared);
    let n = nodes.len() as int;
    pairing_laws::lemma_only_declared(declared);
    if roots.contains_key(hub) {
        let (i, j) = pairing_order::lemma_paired_are_two(nodes, base, hub);
        pairing_order::lemma_two_are_paired(nodes, base, i, j);
    }
    pairing_order::lemma_stood_by_all(nodes, base);
    if stand_ins.contains_key(hub) {
        pairing_laws::lemma_descended_keeps(nodes, stand_ins, 0, n);
    } else {
        lemma_descended_is_found(nodes, stand_ins, n, hub);
    }
}

proof fn lemma_descended_is_found(
    nodes: Seq<NodeView>,
    status: Statuses,
    n: int,
    hub: Seq<char>,
)
    requires
        !status.contains_key(hub),
    ensures
        pairing::descended_all(nodes, status, n).contains_key(hub) ==> (pairing::descended_all(
            nodes,
            status,
            n,
        )[hub] matches StatusView::Paired { evidence, .. } && evidence is Descent),
    decreases n,
{
    if n > 0 {
        lemma_descended_is_found(nodes, status, n - 1, hub);
    }
}

// ---------------------------------------------------------------------------
// Rule 2
// ---------------------------------------------------------------------------

/// Two hubs of a list, found where sorting has put them.
proof fn lemma_sorted_place(hubs: Seq<NodeView>, i: int) -> (a: int)
    requires
        0 <= i < hubs.len(),
    ensures
        0 <= a < pairing::by_depth(hubs).len(),
        pairing::by_depth(hubs)[a] == hubs[i],
{
    pairing_laws::law_sorting_keeps_every_hub(hubs);
    let nodes = pairing::by_depth(hubs);
    assert(hubs.contains(hubs[i]));
    assert(nodes.contains(hubs[i]));
    choose|a: int| 0 <= a < nodes.len() && nodes[a] == hubs[i]
}

/// The root hubs of one controller, among the sorted hubs.
proof fn lemma_sibling_roots(
    hubs: Seq<NodeView>,
    declared: HubPairsView,
    i: int,
    j: int,
) -> (ab: (int, int))
    requires
        pairing_laws::valid_bus(hubs),
        sibling_roots(hubs, declared, i, j),
    ensures
        ({
            let nodes = pairing::by_depth(hubs);
            let base = pairing::declared_status(declared);
            &&& pairing_laws::valid_bus(nodes)
            &&& pairing_order::only_two(nodes, base, ab.0, ab.1)
            &&& nodes[ab.0] == hubs[i]
            &&& nodes[ab.1] == hubs[j]
        }),
{
    let nodes = pairing::by_depth(hubs);
    let base = pairing::declared_status(declared);
    pairing_laws::law_sorting_keeps_every_hub(hubs);
    let a = lemma_sorted_place(hubs, i);
    let b = lemma_sorted_place(hubs, j);
    pairing_laws::lemma_apart(hubs, i, j);
    lemma_declared_keys(declared, hubs[i].location);
    lemma_declared_keys(declared, hubs[j].location);
    assert forall|t: int|
        0 <= t < nodes.len() && (#[trigger] nodes[t]).controller == nodes[a].controller
            && !base.contains_key(nodes[t].location) implies t == a || t == b by {
        assert(nodes.contains(nodes[t]));
        assert(hubs.contains(nodes[t]));
        let s = choose|s: int| 0 <= s < hubs.len() && hubs[s] == nodes[t];
        lemma_declared_keys(declared, hubs[s].location);
        assert(s == i || s == j);
        if t != a {
            pairing_laws::lemma_apart(nodes, t, a);
        }
        if t != b {
            pairing_laws::lemma_apart(nodes, t, b);
        }
    }
    (a, b)
}

/// The two root hubs of one host controller are paired, unless one has a single
/// port and the other several. Then a hub may stand in for the one with a single
/// port, and they are paired unless one does.
pub proof fn law_root_hubs_of_one_controller_are_paired(
    hubs: Seq<NodeView>,
    declared: HubPairsView,
    i: int,
    j: int,
)
    requires
        pairing_laws::valid_bus(hubs),
        sibling_roots(hubs, declared, i, j),
    ensures
        ({
            let verdict = pairing::paired(hubs, declared).verdict(hubs[i].location);
            let pair = VerdictView::Paired {
                other: hubs[j].location,
                evidence: EvidenceView::Controller,
            };
            if uneven(hubs[i], hubs[j]) {
                ||| verdict == pair
                ||| verdict matches VerdictView::StoodInFor { other, .. } && other
                    == hubs[j].location
                ||| verdict matches VerdictView::Paired { evidence, .. } && evidence is Expansion
            } else {
                verdict == pair
            }
        }),
{
    let nodes = pairing::by_depth(hubs);
    let base = pairing::declared_status(declared);
    let roots = pairing::status_of_roots(nodes, declared);
    let stand_ins = pairing::status_of_stand_ins(nodes, declared);
    let k = hubs[i].location;
    let (a, b) = lemma_sibling_roots(hubs, declared, i, j);
    pairing_laws::lemma_only_declared(declared);
    pairing_order::lemma_two_are_paired(nodes, base, a, b);
    pairing_order::lemma_stood_by_all(nodes, base);
    pairing_laws::lemma_descended_keeps(nodes, stand_ins, 0, nodes.len() as int);
    assert(stand_ins.contains_key(k));
    let pairs = pairing::controller_pairs(nodes, roots, nodes.len() as int);
    if stand_ins[k] != roots[k] {
        let p = choose|p: int|
            0 <= p < pairs.len() && pairing_order::stands(
                nodes,
                roots,
                #[trigger] pairs[p],
                k,
                stand_ins[k],
            );
        lemma_listed_pair(nodes, base, p);
        let (x, y) = pairs[p];
        pairing_laws::lemma_expansion(nodes, roots, x, y);
        let (hub, small, large, ports) = pairing::expansion(nodes, roots, x, y)->0;
        assert(roots.contains_key(small) && roots.contains_key(large));
        assert(k == small || k == large);
        pairing_laws::lemma_node_at_index(nodes, a);
        pairing_laws::lemma_node_at_index(nodes, b);
        assert(uneven(hubs[i], hubs[j]));
    }
}

/// A listed pair of root hubs is a pair that rule 2 found.
proof fn lemma_listed_pair(nodes: Seq<NodeView>, base: Statuses, p: int)
    requires
        pairing_laws::valid_bus(nodes),
        pairing_laws::only_declared(base),
        0 <= p < pairing::controller_pairs(
            nodes,
            pairing::controller_status(nodes, base),
            nodes.len() as int,
        ).len(),
    ensures
        ({
            let roots = pairing::controller_status(nodes, base);
            let (x, y) = pairing::controller_pairs(nodes, roots, nodes.len() as int)[p];
            &&& roots.contains_key(x)
            &&& roots.contains_key(y)
            &&& x != y
            &&& roots[x] == (StatusView::Paired { other: y, evidence: EvidenceView::Controller })
            &&& roots[y] == (StatusView::Paired { other: x, evidence: EvidenceView::Controller })
        }),
{
    let roots = pairing::controller_status(nodes, base);
    pairing_laws::lemma_controller_status(nodes, base);
    pairing_laws::lemma_roots_mutual(nodes, base);
    pairing_laws::lemma_controller_pairs_found(nodes, base, roots, nodes.len() as int);
}

/// Root hubs are paired as such only where they are the root hubs of one host
/// controller, of opposite speed, and it has no other that is not declared.
pub proof fn law_paired_root_hubs_have_no_third(
    hubs: Seq<NodeView>,
    declared: HubPairsView,
    k: Seq<char>,
)
    requires
        pairing_laws::valid_bus(hubs),
        pairing::paired(hubs, declared).verdict(k) matches VerdictView::Paired { evidence, .. }
            && evidence is Controller,
    ensures
        exists|i: int, j: int|
            #[trigger] sibling_roots(hubs, declared, i, j) && k == hubs[i].location
                && pairing::paired(hubs, declared).verdict(k) == (VerdictView::Paired {
                other: hubs[j].location,
                evidence: EvidenceView::Controller,
            }),
{
    let nodes = pairing::by_depth(hubs);
    let base = pairing::declared_status(declared);
    let roots = pairing::status_of_roots(nodes, declared);
    let stand_ins = pairing::status_of_stand_ins(nodes, declared);
    let n = nodes.len() as int;
    pairing_laws::law_sorting_keeps_every_hub(hubs);
    pairing_laws::lemma_only_declared(declared);
    pairing_laws::law_a_declaration_stands(hubs, declared);
    pairing_order::lemma_stood_by_all(nodes, base);
    if stand_ins.contains_key(k) {
        pairing_laws::lemma_descended_keeps(nodes, stand_ins, 0, n);
    } else {
        lemma_descended_is_found(nodes, stand_ins, n, k);
    }
    assert(stand_ins.contains_key(k) && roots.contains_key(k) && stand_ins[k] == roots[k]);
    assert(!base.contains_key(k));
    let (a, b) = pairing_order::lemma_paired_are_two(nodes, base, k);
    pairing_order::lemma_two_are_paired(nodes, base, a, b);
    assert(nodes.contains(nodes[a]) && nodes.contains(nodes[b]));
    assert(hubs.contains(nodes[a]) && hubs.contains(nodes[b]));
    let i = choose|i: int| 0 <= i < hubs.len() && hubs[i] == nodes[a];
    let j = choose|j: int| 0 <= j < hubs.len() && hubs[j] == nodes[b];
    pairing_laws::lemma_apart(nodes, a, b);
    lemma_declared_keys(declared, hubs[i].location);
    lemma_declared_keys(declared, hubs[j].location);
    assert forall|t: int|
        0 <= t < hubs.len() && (#[trigger] hubs[t]).controller == hubs[i].controller && t != i && t
            != j implies names(declared, hubs[t].location) by {
        lemma_declared_keys(declared, hubs[t].location);
        let u = lemma_sorted_place(hubs, t);
        pairing_laws::lemma_apart(hubs, t, i);
        pairing_laws::lemma_apart(hubs, t, j);
        assert(u != a && u != b);
        assert(nodes[u].controller == nodes[a].controller);
    }
    assert(sibling_roots(hubs, declared, i, j));
}

// ---------------------------------------------------------------------------
// Rule 3
// ---------------------------------------------------------------------------

/// A hub on the single port of a root hub stands in for it where the
/// controller's other root hub has as many ports as that hub, several and of the
/// opposite speed, and nothing else on the bus could be the hub's own other half.
pub proof fn law_a_hub_stands_in_for_a_single_port(
    hubs: Seq<NodeView>,
    declared: HubPairsView,
    s: int,
    l: int,
    h: int,
)
    requires
        pairing_laws::valid_bus(hubs),
        sibling_roots(hubs, declared, s, l),
        0 <= h < hubs.len(),
        hubs[h].location == sysfs::location_of(hubs[s].bus, hubs[s].path.push(1)),
        hubs[h].controller is None,
        !names(declared, hubs[h].location),
        hubs[s].nports == Some(1u8),
        hubs[l].nports is Some,
        hubs[l].nports->0 > 1,
        hubs[h].nports == hubs[l].nports,
        fast(hubs[h]) != fast(hubs[l]),
        forall|t: int|
            0 <= t < hubs.len() && t != h && t != s && t != l && alike(#[trigger] hubs[t], hubs[h])
                ==> names(declared, hubs[t].location),
    ensures
        ({
            let pairing = pairing::paired(hubs, declared);
            let (root, large, hub) = (hubs[s].location, hubs[l].location, hubs[h].location);
            let evidence = EvidenceView::Expansion { root, ports: hubs[l].nports->0 };
            &&& pairing.verdict(hub) == (VerdictView::Paired { other: large, evidence })
            &&& pairing.verdict(large) == (VerdictView::Paired { other: hub, evidence })
            &&& pairing.verdict(root) == (VerdictView::StoodInFor { other: large, via: hub })
        }),
{
    let nodes = pairing::by_depth(hubs);
    let n = nodes.len() as int;
    let base = pairing::declared_status(declared);
    let roots = pairing::status_of_roots(nodes, declared);
    let stand_ins = pairing::status_of_stand_ins(nodes, declared);
    let (root, large, hub) = (hubs[s].location, hubs[l].location, hubs[h].location);
    let ports = hubs[l].nports->0;
    pairing_laws::law_sorting_keeps_every_hub(hubs);
    let (a, b) = lemma_sibling_roots(hubs, declared, s, l);
    assert(pairing_order::only_two(nodes, base, b, a));
    let c = lemma_sorted_place(hubs, h);
    pairing_laws::lemma_only_declared(declared);
    pairing_laws::lemma_controller_status(nodes, base);
    pairing_order::lemma_two_are_paired(nodes, base, a, b);
    pairing_order::lemma_two_are_paired(nodes, base, b, a);
    pairing_laws::lemma_node_at_index(nodes, a);
    pairing_laws::lemma_node_at_index(nodes, b);
    pairing_laws::lemma_node_at_index(nodes, c);
    // The hub is free
    lemma_declared_keys(declared, hub);
    assert(!roots.contains_key(hub)) by {
        if roots.contains_key(hub) {
            let (i, j) = pairing_order::lemma_paired_are_two(nodes, base, hub);
            if i != c {
                pairing_laws::lemma_apart(nodes, i, c);
            }
        }
    }
    // and has no twin
    assert(!pairing::has_twin(nodes, roots, nodes[c])) by {
        if pairing::has_twin(nodes, roots, nodes[c]) {
            let i = choose|i: int|
                0 <= i < nodes.len() && #[trigger] pairing::twin(nodes, roots, nodes[c], i);
            assert(nodes.contains(nodes[i]));
            assert(hubs.contains(nodes[i]));
            let t = choose|t: int| 0 <= t < hubs.len() && hubs[t] == nodes[i];
            device_laws::law_what_halves_have_in_common(nodes[c], nodes[i]);
            assert(alike(hubs[t], hubs[h]));
            lemma_declared_keys(declared, hubs[t].location);
        }
    }
    assert(nodes[a].well_placed());
    sysfs::law_child_location_extends_the_path(hubs[s].bus, hubs[s].path, 1);
    assert(sysfs::location_below(root, hubs[s].bus, 1) == hub);
    // The pair is listed
    pairing_laws::lemma_apart(nodes, a, b);
    text::lemma_sorts_all(root, large, root);
    let pairs = pairing::controller_pairs(nodes, roots, n);
    let p = if text::sorts_before(root, large) {
        assert(pairing::controller_pair(nodes, roots, a) == Some((root, large)));
        pairing_order::lemma_controller_pair_listed(nodes, roots, n, a)
    } else {
        assert(pairing::controller_pair(nodes, roots, b) == Some((large, root)));
        pairing_order::lemma_controller_pair_listed(nodes, roots, n, b)
    };
    assert(pairing::expansion(nodes, roots, pairs[p].0, pairs[p].1) == Some(
        (hub, root, large, ports),
    ));
    pairing_order::lemma_stood_by_all(nodes, base);
    let evidence = EvidenceView::Expansion { root, ports };
    let x = StatusView::Paired { other: large, evidence };
    let y = StatusView::Paired { other: hub, evidence };
    let z = StatusView::StoodInFor { other: large, via: hub };
    assert(pairing_order::stands(nodes, roots, pairs[p], hub, x));
    assert(pairing_order::stands(nodes, roots, pairs[p], large, y));
    assert(pairing_order::stands(nodes, roots, pairs[p], root, z));
    assert(stand_ins.contains_key(hub) && stand_ins.contains_key(large)
        && stand_ins.contains_key(root));
    pairing_laws::lemma_descended_keeps(nodes, stand_ins, 0, n);
}

/// A hub stands in for a root hub only where nothing else on the bus is left that
/// could be its own other half: whatever is alike is settled by another rule than
/// descent.
pub proof fn law_a_stand_in_has_no_twin(
    hubs: Seq<NodeView>,
    declared: HubPairsView,
    h: int,
    t: int,
)
    requires
        pairing_laws::valid_bus(hubs),
        0 <= h < hubs.len(),
        0 <= t < hubs.len(),
        t != h,
        alike(hubs[t], hubs[h]),
        pairing::paired(hubs, declared).verdict(
            hubs[h].location,
        ) matches VerdictView::Paired {
            evidence: EvidenceView::Expansion { root, .. },
            ..
        } && exists|r: int| 0 <= r < hubs.len() && (#[trigger] hubs[r]).location == root
            && hubs[h].location == sysfs::location_of(hubs[r].bus, hubs[r].path.push(1)),
    ensures
        !left_to_descent(pairing::paired(hubs, declared).verdict(hubs[t].location)),
{
    let nodes = pairing::by_depth(hubs);
    let n = nodes.len() as int;
    let base = pairing::declared_status(declared);
    let roots = pairing::status_of_roots(nodes, declared);
    let stand_ins = pairing::status_of_stand_ins(nodes, declared);
    let k = hubs[h].location;
    pairing_laws::law_sorting_keeps_every_hub(hubs);
    pairing_laws::lemma_only_declared(declared);
    pairing_laws::lemma_controller_status(nodes, base);
    pairing_laws::lemma_stand_ins(nodes, declared);
    pairing_order::lemma_stood_by_all(nodes, base);
    let c = lemma_sorted_place(hubs, h);
    let d = lemma_sorted_place(hubs, t);
    pairing_laws::lemma_apart(hubs, h, t);
    pairing_laws::lemma_node_at_index(nodes, c);
    if stand_ins.contains_key(k) {
        pairing_laws::lemma_descended_keeps(nodes, stand_ins, 0, n);
    } else {
        lemma_descended_is_found(nodes, stand_ins, n, k);
    }
    assert(stand_ins.contains_key(k));
    if roots.contains_key(k) && !base.contains_key(k) {
        let (i, j) = pairing_order::lemma_paired_are_two(nodes, base, k);
        pairing_order::lemma_two_are_paired(nodes, base, i, j);
    }
    let pairs = pairing::controller_pairs(nodes, roots, n);
    let p = choose|p: int|
        0 <= p < pairs.len() && pairing_order::stands(
            nodes,
            roots,
            #[trigger] pairs[p],
            k,
            stand_ins[k],
        );
    lemma_listed_pair(nodes, base, p);
    let (x, y) = pairs[p];
    pairing_laws::lemma_expansion(nodes, roots, x, y);
    let (hub, small, large, ports) = pairing::expansion(nodes, roots, x, y)->0;
    let r = choose|r: int|
        0 <= r < hubs.len() && (#[trigger] hubs[r]).location == small && hubs[h].location
            == sysfs::location_of(hubs[r].bus, hubs[r].path.push(1));
    let e = lemma_sorted_place(hubs, r);
    pairing_laws::lemma_node_at_index(nodes, e);
    assert(nodes[e].well_placed());
    sysfs::law_child_location_extends_the_path(hubs[r].bus, hubs[r].path, 1);
    assert(k == hub);
    device_laws::law_what_halves_have_in_common(nodes[c], nodes[d]);
    assert(roots.contains_key(nodes[d].location)) by {
        if !roots.contains_key(nodes[d].location) {
            assert(pairing::twin(nodes, roots, nodes[c], d));
        }
    }
    assert(stand_ins.contains_key(nodes[d].location));
    pairing_laws::lemma_descended_keeps(nodes, stand_ins, 0, n);
}

// ---------------------------------------------------------------------------
// Rule 4
// ---------------------------------------------------------------------------

/// Whether no two of the devices are in one place.
pub open spec fn one_device_per_place(devices: Seq<DeviceView>) -> bool {
    forall|i: int, j: int|
        0 <= i < j < devices.len() && (#[trigger] devices[i]).path is Ok && (
        #[trigger] devices[j]).path is Ok ==> devices[i].bus != devices[j].bus
            || devices[i].path->Ok_0 != devices[j].path->Ok_0
}

/// What pairing knows of a list of devices.
proof fn lemma_nodes_of(devices: Seq<DeviceView>)
    requires
        one_device_per_place(devices),
    ensures
        pairing_laws::valid_bus(pairing::nodes_of(devices)),
        forall|n: NodeView| #[trigger]
            pairing::nodes_of(devices).contains(n) <==> exists|i: int|
                0 <= i < devices.len() && pairing::node_of(#[trigger] devices[i]) == Some(n),
    decreases devices.len(),
{
    if devices.len() > 0 {
        let fewer = devices.drop_last();
        let last = devices.len() - 1;
        assert forall|i: int, j: int|
            0 <= i < j < fewer.len() && (#[trigger] fewer[i]).path is Ok && (
            #[trigger] fewer[j]).path is Ok implies fewer[i].bus != fewer[j].bus
            || fewer[i].path->Ok_0 != fewer[j].path->Ok_0 by {
            assert(fewer[i] == devices[i] && fewer[j] == devices[j]);
        }
        lemma_nodes_of(fewer);
        let less = pairing::nodes_of(fewer);
        let all = pairing::nodes_of(devices);
        assert(devices[last] == devices.last());
        assert forall|n: NodeView| #[trigger] all.contains(n) <==> exists|i: int|
            0 <= i < devices.len() && pairing::node_of(#[trigger] devices[i]) == Some(n) by {
            if all.contains(n) {
                let k = choose|k: int| 0 <= k < all.len() && all[k] == n;
                if k < less.len() {
                    assert(less[k] == n);
                    assert(less.contains(n));
                    let i = choose|i: int|
                        0 <= i < fewer.len() && pairing::node_of(#[trigger] fewer[i]) == Some(n);
                    assert(devices[i] == fewer[i]);
                } else {
                    assert(pairing::node_of(devices[last]) == Some(n));
                }
            }
            if exists|i: int|
                0 <= i < devices.len() && pairing::node_of(#[trigger] devices[i]) == Some(n) {
                let i = choose|i: int|
                    0 <= i < devices.len() && pairing::node_of(#[trigger] devices[i]) == Some(n);
                if i < last {
                    assert(fewer[i] == devices[i]);
                    assert(less.contains(n));
                    let k = choose|k: int| 0 <= k < less.len() && less[k] == n;
                    assert(all[k] == n);
                } else {
                    assert(all[all.len() - 1] == n);
                }
            }
        }
        if let Some(node) = pairing::node_of(devices.last()) {
            assert forall|k: int| 0 <= k < all.len() implies (#[trigger] all[k]).well_placed() by {
                if k < less.len() {
                    assert(all[k] == less[k]);
                }
            }
            assert forall|k: int, m: int| 0 <= k < m < all.len() implies (
            #[trigger] all[k]).location != (#[trigger] all[m]).location by {
                assert(all[k] == less[k]);
                if m < less.len() {
                    assert(all[m] == less[m]);
                } else {
                    assert(less.contains(less[k]));
                    let i = choose|i: int|
                        0 <= i < fewer.len() && pairing::node_of(#[trigger] fewer[i]) == Some(
                            less[k],
                        );
                    assert(fewer[i] == devices[i]);
                    if all[k].location == all[m].location {
                        sysfs::law_a_location_names_one_place(
                            all[k].bus,
                            all[k].path,
                            all[m].bus,
                            all[m].path,
                        );
                    }
                    assert(devices[i].path is Ok && devices[last].path is Ok);
                }
            }
        }
    }
}

/// What pairing knows of one of the devices is among what it knows of all.
proof fn lemma_node_among(devices: Seq<DeviceView>, i: int) -> (a: int)
    requires
        one_device_per_place(devices),
        0 <= i < devices.len(),
        pairing::node_of(devices[i]) is Some,
    ensures
        0 <= a < pairing::nodes_of(devices).len(),
        pairing::nodes_of(devices)[a] == pairing::node_of(devices[i])->0,
{
    lemma_nodes_of(devices);
    let nodes = pairing::nodes_of(devices);
    let n = pairing::node_of(devices[i])->0;
    assert(nodes.contains(n));
    choose|a: int| 0 <= a < nodes.len() && nodes[a] == n
}

/// Whether what the bus tells of two hubs says that they could be the halves of
/// one USB 3.x hub: both read, each at least USB 2.1.0, one of them at least USB
/// 3.0.0 and the other not, the same vendor, and the same number of ports where
/// sysfs tells that of both. What product they are does not matter.
pub open spec fn could_be_halves(x: DeviceView, y: DeviceView) -> bool {
    &&& x.descriptor is Ok
    &&& y.descriptor is Ok
    &&& x.path is Ok
    &&& y.path is Ok
    &&& ({
        let a = x.descriptor->Ok_0;
        let b = y.descriptor->Ok_0;
        &&& device_laws::version_number(a.version) >= 0x020100
        &&& device_laws::version_number(b.version) >= 0x020100
        &&& (device_laws::version_number(a.version) >= 0x030000) != (device_laws::version_number(
            b.version,
        ) >= 0x030000)
        &&& a.vid == b.vid
    })
    &&& x.max_child == y.max_child || x.max_child is None || y.max_child is None
}

/// Two hubs on the same port of paired hubs are paired with each other where they
/// could be the halves of one hub and no other rule settles them.
pub proof fn law_halves_on_paired_ports_are_paired(
    devices: Seq<DeviceView>,
    declared: HubPairsView,
    i: int,
    j: int,
    k: int,
)
    requires
        one_device_per_place(devices),
        names_each_hub_once(declared),
        0 <= i < devices.len(),
        0 <= j < devices.len(),
        0 <= k < devices.len(),
        could_be_halves(devices[i], devices[j]),
        ({
            let (x, y) = (devices[i].path->Ok_0, devices[j].path->Ok_0);
            let p = sysfs::location_of(devices[i].bus, x.drop_last());
            let q = sysfs::location_of(devices[j].bus, y.drop_last());
            let pairing = pairing::paired(pairing::nodes_of(devices), declared);
            &&& x.len() > 0
            &&& y.len() > 0
            &&& x.last() == y.last()
            // Their parents are paired, and one of them at least is there
            &&& pairing.verdict(p) matches VerdictView::Paired { other, .. } && other == q
            &&& devices[k].descriptor is Ok && devices[k].path is Ok
            &&& devices[k].location() == p || devices[k].location() == q
            &&& left_to_descent(pairing.verdict(devices[i].location()))
            &&& left_to_descent(pairing.verdict(devices[j].location()))
        }),
    ensures
        ({
            let pairing = pairing::paired(pairing::nodes_of(devices), declared);
            let evidence = EvidenceView::Descent(devices[i].path->Ok_0.last());
            &&& pairing.verdict(devices[i].location()) == (VerdictView::Paired {
                other: devices[j].location(),
                evidence,
            })
            &&& pairing.verdict(devices[j].location()) == (VerdictView::Paired {
                other: devices[i].location(),
                evidence,
            })
        }),
{
    let hubs = pairing::nodes_of(devices);
    let nodes = pairing::by_depth(hubs);
    let pairing = pairing::paired(hubs, declared);
    let stand_ins = pairing::status_of_stand_ins(nodes, declared);
    device_laws::law_pairing_knows_what_the_bus_tells(devices[i]);
    device_laws::law_pairing_knows_what_the_bus_tells(devices[j]);
    device_laws::law_pairing_knows_what_the_bus_tells(devices[k]);
    lemma_nodes_of(devices);
    let a = lemma_node_among(devices, i);
    let b = lemma_node_among(devices, j);
    let c = lemma_node_among(devices, k);
    let (x, y) = (hubs[a], hubs[b]);
    let p = sysfs::location_of(x.bus, x.path.drop_last());
    let q = sysfs::location_of(y.bus, y.path.drop_last());
    pairing_laws::law_declarations_that_name_each_hub_once_are_mutual(declared);
    pairing_laws::law_sorting_keeps_every_hub(hubs);
    pairing_laws::law_pairing_is_mutual(hubs, declared, p);
    pairing_laws::lemma_stand_ins(nodes, declared);
    pairing_laws::lemma_descended_keeps(nodes, stand_ins, 0, nodes.len() as int);
    let d = lemma_sorted_place(hubs, c);
    pairing_laws::lemma_node_at_index(nodes, d);
    device_laws::law_what_halves_have_in_common(x, y);
    assert(pairing_laws::opposite_halves(pairing.nodes, pairing.status, x, y));
    assert(!stand_ins.contains_key(x.location));
    assert(!stand_ins.contains_key(y.location));
    pairing_laws::law_descent_pairs_what_sits_on_paired_ports(hubs, declared, a, b);
    pairing_laws::law_every_pair_has_its_reason(hubs, declared);
    let e = lemma_sorted_place(hubs, a);
    let f = lemma_sorted_place(hubs, b);
    pairing_laws::lemma_node_at_index(nodes, e);
    pairing_laws::lemma_node_at_index(nodes, f);
    assert(pairing_laws::has_reason(pairing.nodes, pairing.status, x.location));
    assert(pairing_laws::has_reason(pairing.nodes, pairing.status, y.location));
}

/// Hubs are paired by descent only where they could be the halves of one hub, on
/// the same port of hubs that are paired.
pub proof fn law_descent_rejects_what_cannot_be_halves(
    hubs: Seq<NodeView>,
    declared: HubPairsView,
    i: int,
)
    requires
        pairing_laws::valid_bus(hubs),
        mutual_declarations(declared),
        0 <= i < hubs.len(),
        pairing::paired(hubs, declared).verdict(
            hubs[i].location,
        ) matches VerdictView::Paired { evidence: EvidenceView::Descent(_), .. },
    ensures
        exists|j: int|
            {
                let pairing = pairing::paired(hubs, declared);
                let y = #[trigger] hubs[j];
                &&& 0 <= j < hubs.len()
                &&& alike(hubs[i], y)
                &&& hubs[i].path.len() > 0
                &&& y.path.len() > 0
                &&& hubs[i].path.last() == y.path.last()
                &&& pairing.verdict(hubs[i].location) == (VerdictView::Paired {
                    other: y.location,
                    evidence: EvidenceView::Descent(y.path.last()),
                })
                &&& pairing.other_half(
                    sysfs::location_of(hubs[i].bus, hubs[i].path.drop_last()),
                ) == Some(sysfs::location_of(y.bus, y.path.drop_last()))
            },
{
    let pairing = pairing::paired(hubs, declared);
    let nodes = pairing.nodes;
    pairing_laws::law_sorting_keeps_every_hub(hubs);
    pairing_laws::law_every_pair_has_its_reason(hubs, declared);
    let a = lemma_sorted_place(hubs, i);
    pairing_laws::lemma_node_at_index(nodes, a);
    let k = hubs[i].location;
    assert(pairing_laws::has_reason(nodes, pairing.status, k));
    let other = pairing.verdict(k)->Paired_other;
    let y = pairing::node_at(nodes, other)->0;
    pairing_laws::lemma_node_at(nodes, other);
    assert(nodes.contains(y));
    assert(hubs.contains(y));
    let j = choose|j: int| 0 <= j < hubs.len() && hubs[j] == y;
    device_laws::law_what_halves_have_in_common(hubs[i], y);
    let p = sysfs::location_of(hubs[i].bus, hubs[i].path.drop_last());
    let q = sysfs::location_of(y.bus, y.path.drop_last());
    pairing_laws::law_pairing_is_mutual(hubs, declared, p);
    pairing_laws::law_pairing_is_mutual(hubs, declared, q);
    assert(hubs[j] == y);
}

/// Whether the declarations are mutual.
pub open spec fn mutual_declarations(declared: HubPairsView) -> bool {
    pairing_laws::mutual(pairing::declared_status(declared))
}

// ---------------------------------------------------------------------------
// Verdicts
// ---------------------------------------------------------------------------

/// What is said of a hub that no rule settles: that it is unpaired where it is at
/// least a USB 2.1.0 hub, and that it has no other half where it is not. Nothing
/// is known of what is no hub on the bus.
pub proof fn law_what_is_said_of_an_unsettled_hub(
    hubs: Seq<NodeView>,
    declared: HubPairsView,
    location: Seq<char>,
    i: int,
)
    requires
        pairing_laws::valid_bus(hubs),
    ensures
        ({
            let verdict = pairing::paired(hubs, declared).verdict(location);
            let open = verdict is Unpaired || verdict is Usb2Hub || verdict is Unknown;
            &&& open && 0 <= i < hubs.len() && hubs[i].location == location ==> verdict == (
            if device_laws::version_number(hubs[i].version) >= 0x020100 {
                VerdictView::Unpaired
            } else {
                VerdictView::Usb2Hub
            })
            &&& verdict is Unpaired || verdict is Usb2Hub ==> exists|j: int|
                0 <= j < hubs.len() && (#[trigger] hubs[j]).location == location
        }),
{
    let nodes = pairing::by_depth(hubs);
    pairing_laws::law_sorting_keeps_every_hub(hubs);
    pairing_laws::lemma_node_at(nodes, location);
    if 0 <= i < hubs.len() && hubs[i].location == location {
        let a = lemma_sorted_place(hubs, i);
        pairing_laws::lemma_node_at_index(nodes, a);
    }
    if let Some(n) = pairing::node_at(nodes, location) {
        assert(nodes.contains(n));
        assert(hubs.contains(n));
    }
}

/// How what is known of a hub is written.
pub proof fn law_a_verdict_is_written_out(a: Seq<char>, b: Seq<char>, ports: u8)
    ensures
        ({
            let number = text::dec(ports as nat);
            let said = |evidence: EvidenceView|
                pairing::verdict_text(VerdictView::Paired { other: a, evidence });
            &&& said(EvidenceView::Declared) == "<-> "@ + a + " ("@ + "declared"@ + ")"@
            &&& said(EvidenceView::Controller) == "<-> "@ + a + " ("@ + "same host controller"@
                + ")"@
            &&& said(EvidenceView::Expansion { root: b, ports }) == "<-> "@ + a + " ("@ + (
            "expands "@ + b + "'s single port to "@ + number) + ")"@
            &&& said(EvidenceView::Descent(ports)) == "<-> "@ + a + " ("@ + ("port "@ + number
                + " of paired parents"@) + ")"@
            &&& pairing::verdict_text(VerdictView::StoodInFor { other: a, via: b })
                == "same host controller as "@ + a + "; "@ + b + " stands in for it"@
            &&& pairing::verdict_text(VerdictView::DeclaredAlone) == "no other half (declared)"@
            &&& pairing::verdict_text(VerdictView::Usb2Hub) == "no other half (USB 2.0 hub)"@
            &&& pairing::verdict_text(VerdictView::Unpaired) == "UNPAIRED - other half unknown"@
            &&& pairing::verdict_text(VerdictView::Unknown) == "unreadable"@
        }),
{
}

/// The absent hubs are listed as they are declared: those of the pairs first, the
/// two of a pair in the order it names them, then those declared to have no other
/// half, and each as often as it is declared.
pub proof fn law_absent_hubs_are_listed_as_declared(
    hubs: Seq<NodeView>,
    declared: HubPairsView,
    before: Seq<(Seq<char>, Seq<char>)>,
    a: Seq<char>,
    b: Seq<char>,
    x: Seq<Seq<char>>,
    y: Seq<Seq<char>>,
)
    ensures
        pairing::paired(hubs, declared).declared_absent == pairing::absent(
            hubs,
            pairing::named(declared.pairs),
        ) + pairing::absent(hubs, declared.alone),
        pairing::named(Seq::empty()) == Seq::<Seq<char>>::empty(),
        pairing::named(before.push((a, b))) == pairing::named(before) + seq![a, b],
        pairing::absent(hubs, x + y) == pairing::absent(hubs, x) + pairing::absent(hubs, y),
        pairing::absent(hubs, seq![a]) == (if exists|i: int|
            0 <= i < hubs.len() && (#[trigger] hubs[i]).location == a {
            Seq::empty()
        } else {
            seq![a]
        }),
{
    let nodes = pairing::by_depth(hubs);
    lemma_absent_adds_up(hubs, x, y);
    lemma_absent_sorted(hubs, pairing::named(declared.pairs) + declared.alone);
    lemma_absent_adds_up(hubs, pairing::named(declared.pairs), declared.alone);
    assert(before.push((a, b)).drop_last() =~= before);
    assert(pairing::named(before.push((a, b))) =~= pairing::named(before) + seq![a, b]);
    assert(seq![a].drop_last() =~= Seq::<Seq<char>>::empty());
    assert(pairing::absent(hubs, seq![a].drop_last()) =~= Seq::<Seq<char>>::empty());
    pairing_laws::lemma_node_at(hubs, a);
    if exists|i: int| 0 <= i < hubs.len() && (#[trigger] hubs[i]).location == a {
        assert(pairing::node_at(hubs, a) is Some);
    } else {
        assert(pairing::absent(hubs, seq![a]) =~= seq![a]);
    }
}

proof fn lemma_absent_adds_up(nodes: Seq<NodeView>, x: Seq<Seq<char>>, y: Seq<Seq<char>>)
    ensures
        pairing::absent(nodes, x + y) == pairing::absent(nodes, x) + pairing::absent(nodes, y),
    decreases y.len(),
{
    if y.len() == 0 {
        assert(x + y =~= x);
        assert(pairing::absent(nodes, x) + Seq::<Seq<char>>::empty() =~= pairing::absent(nodes, x));
    } else {
        lemma_absent_adds_up(nodes, x, y.drop_last());
        assert((x + y).drop_last() =~= x + y.drop_last());
        assert((x + y).last() == y.last());
        assert(pairing::absent(nodes, x + y) =~= pairing::absent(nodes, x) + pairing::absent(
            nodes,
            y,
        ));
    }
}

/// Sorting the hubs makes none of them absent.
proof fn lemma_absent_sorted(hubs: Seq<NodeView>, x: Seq<Seq<char>>)
    ensures
        pairing::absent(pairing::by_depth(hubs), x) == pairing::absent(hubs, x),
    decreases x.len(),
{
    if x.len() > 0 {
        lemma_absent_sorted(hubs, x.drop_last());
        let nodes = pairing::by_depth(hubs);
        let location = x.last();
        pairing_laws::law_sorting_keeps_every_hub(hubs);
        pairing_laws::lemma_node_at(hubs, location);
        pairing_laws::lemma_node_at(nodes, location);
        if pairing::node_at(hubs, location) is Some {
            let node = pairing::node_at(hubs, location)->0;
            assert(hubs.contains(node));
            assert(nodes.contains(node));
        }
        if pairing::node_at(nodes, location) is Some {
            let node = pairing::node_at(nodes, location)->0;
            assert(nodes.contains(node));
            assert(hubs.contains(node));
        }
    }
}

/// The unpaired hubs are listed in the order of the hubs, each once per hub.
pub proof fn law_unpaired_hubs_are_listed_in_order(pairing: PairingView, n: int)
    ensures
        pairing.unpaired(0) == Seq::<Seq<char>>::empty(),
        n >= 0 ==> pairing.unpaired(n + 1) == pairing.unpaired(n) + (if pairing.verdict(
            pairing.nodes[n].location,
        ) is Unpaired {
            seq![pairing.nodes[n].location]
        } else {
            Seq::empty()
        }),
{
    if n >= 0 {
        let before = pairing.unpaired(n);
        assert(before + Seq::<Seq<char>>::empty() =~= before);
        assert(before + seq![pairing.nodes[n].location] =~= before.push(
            pairing.nodes[n].location,
        ));
    }
}

} // verus!
