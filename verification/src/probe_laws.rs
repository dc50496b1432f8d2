//! What holds of every probe.

use vstd::prelude::*;
use vstd::seq_lib::*;

use crate::device::DeviceView;
use crate::error::ErrorView;
use crate::hub::HubView;
use crate::pairing;
use crate::pairing::{EvidenceView, NodeView, StatusView, VerdictView};
use crate::pairing_laws;
use crate::pairs;
use crate::pairs::HubPairsView;
use crate::port::{HubPortView, SocketView};
use crate::power::HubAnswerView;
use crate::probe;
use crate::probe::{Answer, AskingView, CuttingView, PlanView, ProbeView};
use crate::span::Span;
use crate::switching::{Mode, ReportView, Stage, Step, Which};
use crate::switching_laws;
use crate::sysfs;
use crate::text;
use crate::usb::UsbError;

verus! {

// ---------------------------------------------------------------------------
// The order of the plan
// ---------------------------------------------------------------------------

/// What comes before what is transitive, and so is not coming before.
proof fn lemma_comes_before(hub: HubView, a: HubPortView, b: HubPortView, c: HubPortView)
    ensures
        probe::comes_before(hub, a, b) ==> !probe::comes_before(hub, b, a),
        !probe::comes_before(hub, b, a) && !probe::comes_before(hub, c, b)
            ==> !probe::comes_before(hub, c, a),
{
    let (x, y, z) = (a.hub.location, b.hub.location, c.hub.location);
    text::lemma_sorts_all(x, y, z);
    text::lemma_sorts_all(z, x, y);
    text::lemma_sorts_all(y, z, x);
    if text::sorts_before(x, y) {
        text::lemma_sorts_one_way(x, y);
    }
    if text::sorts_before(y, z) {
        text::lemma_sorts_one_way(y, z);
    }
    if text::sorts_before(z, x) {
        text::lemma_sorts_one_way(z, x);
    }
    if text::sorts_before(y, x) {
        text::lemma_sorts_one_way(y, x);
    }
}

/// Whether no candidate of a list comes before an earlier one.
pub open spec fn in_order(hub: HubView, list: Seq<HubPortView>) -> bool {
    forall|i: int, j: int|
        0 <= i < j < list.len() ==> !probe::comes_before(
            hub,
            #[trigger] list[j],
            #[trigger] list[i],
        )
}

proof fn lemma_placed(hub: HubView, port: HubPortView, list: Seq<HubPortView>)
    requires
        in_order(hub, list),
    ensures
        in_order(hub, probe::placed(hub, port, list)),
        probe::placed(hub, port, list).to_multiset() == list.to_multiset().insert(port),
        probe::placed(hub, port, list).len() == list.len() + 1,
        forall|i: int|
            0 <= i < list.len() + 1 ==> {
                let x = #[trigger] probe::placed(hub, port, list)[i];
                x == port || list.contains(x)
            },
    decreases list.len(),
{
    broadcast use group_to_multiset_ensures;

    let new = probe::placed(hub, port, list);
    if list.len() > 0 && probe::comes_before(hub, port, list.last()) {
        let fewer = list.drop_last();
        assert forall|i: int, j: int| 0 <= i < j < fewer.len() implies !probe::comes_before(
            hub,
            #[trigger] fewer[j],
            #[trigger] fewer[i],
        ) by {
            assert(fewer[j] == list[j] && fewer[i] == list[i]);
        }
        lemma_placed(hub, port, fewer);
        let inner = probe::placed(hub, port, fewer);
        assert(list =~= fewer.push(list.last()));
        assert(new.to_multiset() =~= list.to_multiset().insert(port));
        assert forall|i: int| 0 <= i < new.len() implies ({
            let x = #[trigger] new[i];
            x == port || list.contains(x)
        }) by {
            if i < inner.len() {
                let x = inner[i];
                if x != port {
                    let k = choose|k: int| 0 <= k < fewer.len() && fewer[k] == x;
                    assert(list[k] == x);
                }
            } else {
                assert(list[list.len() - 1] == new[i]);
            }
        }
        assert forall|i: int, j: int| 0 <= i < j < new.len() implies !probe::comes_before(
            hub,
            #[trigger] new[j],
            #[trigger] new[i],
        ) by {
            if j < inner.len() {
                assert(new[j] == inner[j] && new[i] == inner[i]);
            } else {
                let x = inner[i];
                assert(new[i] == x && new[j] == list.last());
                if x == port {
                    lemma_comes_before(hub, port, list.last(), port);
                } else {
                    let k = choose|k: int| 0 <= k < fewer.len() && fewer[k] == x;
                    assert(list[k] == x && list[list.len() - 1] == list.last());
                }
            }
        }
    } else {
        assert forall|i: int, j: int| 0 <= i < j < new.len() implies !probe::comes_before(
            hub,
            #[trigger] new[j],
            #[trigger] new[i],
        ) by {
            if j < list.len() {
                assert(new[j] == list[j] && new[i] == list[i]);
            } else {
                assert(new[i] == list[i] && new[j] == port);
                let last = list.last();
                assert(last == list[list.len() - 1]);
                lemma_comes_before(hub, list[i], last, port);
                if i < list.len() - 1 {
                    assert(!probe::comes_before(hub, list[list.len() - 1], list[i]));
                }
            }
        }
        assert forall|i: int| 0 <= i < new.len() implies ({
            let x = #[trigger] new[i];
            x == port || list.contains(x)
        }) by {
            if i < list.len() {
                assert(list[i] == new[i]);
            }
        }
    }
}

/// The plan cuts the probed port alone first. Then it cuts the probed port
/// together with each candidate, each just once, and no candidate before one
/// that is more likely, or as likely and nearer to the root.
pub proof fn law_the_plan_is_most_likely_first(probed: HubPortView, candidates: Seq<HubPortView>)
    ensures
        ({
            let order = probe::ranked(probed.hub, candidates);
            let steps = probe::planned(probed, candidates);
            &&& in_order(probed.hub, order)
            &&& order.to_multiset() == candidates.to_multiset()
            &&& order.len() == candidates.len()
            &&& steps.len() == candidates.len() + 1
            &&& steps[0] == probe::alone(probed)
            &&& forall|i: int|
                0 <= i < order.len() ==> #[trigger] steps[i + 1] == probe::together(
                    probed,
                    order[i],
                )
        }),
    decreases candidates.len(),
{
    broadcast use group_to_multiset_ensures;

    if candidates.len() > 0 {
        law_the_plan_is_most_likely_first(probed, candidates.drop_last());
        lemma_placed(
            probed.hub,
            candidates.last(),
            probe::ranked(probed.hub, candidates.drop_last()),
        );
        assert(candidates =~= candidates.drop_last().push(candidates.last()));
    }
}

// ---------------------------------------------------------------------------
// What is found
// ---------------------------------------------------------------------------

proof fn lemma_alone_all(
    status: pairing::Statuses,
    alone: Seq<Seq<char>>,
    hub: Seq<char>,
)
    requires
        !alone.contains(hub),
    ensures
        pairing::alone_all(status, alone).contains_key(hub) == status.contains_key(hub),
        status.contains_key(hub) ==> pairing::alone_all(status, alone)[hub] == status[hub],
    decreases alone.len(),
{
    if alone.len() > 0 {
        let fewer = alone.drop_last();
        assert forall|i: int| 0 <= i < fewer.len() implies fewer[i] != hub by {
            assert(alone[i] == fewer[i]);
        }
        assert(!fewer.contains(hub));
        assert(alone[alone.len() - 1] != hub);
        lemma_alone_all(status, fewer, hub);
    }
}

/// The line that a probe finds is one declaration, and that settles the probed
/// hub: a cut of the port alone finds that its hub has no other half, and a cut
/// together with a candidate finds that the two hubs share receptacles. Whatever
/// else is declared and whatever is on the bus, unless the hub is declared to
/// have no other half.
pub proof fn law_the_found_line_settles_the_hub(
    probed: HubPortView,
    candidate: HubPortView,
    declared: HubPairsView,
    hubs: Seq<NodeView>,
    number: u8,
    path: Seq<u8>,
    other_number: u8,
    other_path: Seq<u8>,
)
    requires
        probed.hub.location == sysfs::location_of(number, path),
        candidate.hub.location == sysfs::location_of(other_number, other_path),
        probed.hub.location != candidate.hub.location,
    ensures
        ({
            let none = pairs::nothing_declared();
            let hub = probed.hub.location;
            let other = candidate.hub.location;
            let (a, b) = if probed.hub.super_speed() {
                (other, hub)
            } else {
                (hub, other)
            };
            &&& pairs::parses_to(probe::alone(probed).line, Ok(none.with_alone(hub)))
            &&& pairs::parses_to(probe::together(probed, candidate).line, Ok(none.with_pair(a, b)))
            &&& pairing::paired(hubs, declared.with_alone(hub)).verdict(hub)
                == VerdictView::DeclaredAlone
            &&& !declared.alone.contains(hub) ==> pairing::paired(
                hubs,
                declared.with_pair(a, b),
            ).verdict(hub) == (VerdictView::Paired { other, evidence: EvidenceView::Declared })
        }),
{
    let hub = probed.hub.location;
    let other = candidate.hub.location;
    let (a, b) = if probed.hub.super_speed() {
        (other, hub)
    } else {
        (hub, other)
    };
    pairs::law_locations_are_nameable(number, path);
    pairs::law_locations_are_nameable(other_number, other_path);
    pairs::law_an_alone_line_reads_back(hub);
    pairs::law_a_pair_line_reads_back(a, b);
    reveal_strlit(" none");
    reveal_strlit(" ");
    reveal_strlit("none");
    assert(hub + " none"@ =~= hub + " "@ + pairs::NONE@);
    // Having no other half
    let lonely = declared.with_alone(hub);
    pairing_laws::law_a_declaration_stands(hubs, lonely);
    assert(lonely.alone.drop_last() =~= declared.alone);
    let settled = pairing::declared_status(lonely);
    assert(settled.contains_key(hub) && settled[hub] == StatusView::DeclaredAlone);
    assert(pairing::paired(hubs, lonely).verdict(hub) == VerdictView::DeclaredAlone);
    // Sharing receptacles
    let both = declared.with_pair(a, b);
    pairing_laws::law_a_declaration_stands(hubs, both);
    if !declared.alone.contains(hub) {
        assert(both.pairs.drop_last() =~= declared.pairs);
        let linked = pairing::linked_all(Map::empty(), both.pairs, EvidenceView::Declared);
        assert(linked.contains_key(hub));
        assert(linked[hub] == StatusView::Paired { other, evidence: EvidenceView::Declared });
        lemma_alone_all(linked, both.alone, hub);
        let settled = pairing::declared_status(both);
        assert(settled.contains_key(hub) && settled[hub] == linked[hub]);
        assert(pairing::paired(hubs, both).status[hub] == linked[hub]);
    }
}

// ---------------------------------------------------------------------------
// Cutting and asking
// ---------------------------------------------------------------------------

/// How far a probe has come after reports on the steps of a cut.
pub open spec fn cut_down(cutting: CuttingView, reports: Seq<ReportView>) -> ProbeView
    decreases reports.len(),
{
    if reports.len() == 0 {
        ProbeView::Cut(cutting)
    } else {
        match cut_down(cutting, reports.drop_last()) {
            ProbeView::Cut(c) => c.reported(reports.last()),
            p => p,
        }
    }
}

proof fn lemma_cut_down(cutting: CuttingView, reports: Seq<ReportView>)
    requires
        switching_laws::faithful(cutting.run, reports),
        cutting.run.step() != Step::Finished,
    ensures
        ({
            let run = switching_laws::ran(cutting.run, reports);
            match cut_down(cutting, reports) {
                ProbeView::Cut(c) => c.run == run && c.plan == cutting.plan && run.step()
                    != Step::Finished,
                ProbeView::Ask(asking) => {
                    &&& run.step() == Step::Finished
                    &&& run.failure is None
                    &&& asking == (AskingView {
                        say: Seq::empty(),
                        plan: cutting.plan,
                        restored: true,
                    })
                },
                ProbeView::Done(ended) => {
                    &&& run.step() == Step::Finished
                    &&& run.failure is Some
                    &&& ended.outcome == Err::<Option<Seq<char>>, ErrorView>(run.failure->0)
                },
                _ => false,
            }
        }),
    decreases reports.len(),
{
    if reports.len() > 0 {
        let fewer = reports.drop_last();
        assert(reports.take(reports.len() - 1) =~= fewer);
        assert(switching_laws::ran(cutting.run, fewer).awaits(reports[reports.len() - 1]));
        assert forall|i: int| 0 <= i < fewer.len() implies switching_laws::ran(
            cutting.run,
            #[trigger] fewer.take(i),
        ).awaits(fewer[i]) by {
            assert(reports.take(i) =~= fewer.take(i));
        }
        lemma_cut_down(cutting, fewer);
    }
}

/// A cut restores what it cut: once it is over, every port of it was switched
/// on, after the last time that any of them was switched off. The LED is asked
/// about only where every step of the cut went well.
pub proof fn law_a_probe_restores_before_it_asks(
    plan: PlanView,
    reports: Seq<ReportView>,
    port: Which,
)
    requires
        switching_laws::faithful(plan.run(), reports),
        cut_down(CuttingView { plan, run: plan.run() }, reports) !is Cut,
        switching_laws::switches(plan.run(), port),
    ensures
        ({
            let run = plan.run();
            let after = cut_down(CuttingView { plan, run }, reports);
            &&& exists|b: int|
                {
                    &&& 0 <= b < reports.len()
                    &&& #[trigger] switching_laws::taken(run, reports, b)
                        == switching_laws::restore_of(port)
                    &&& forall|a: int, other: Which|
                        0 <= a < reports.len() && #[trigger] switching_laws::taken(run, reports, a)
                            == #[trigger] switching_laws::cut_of(other) ==> a < b
                }
            &&& after is Ask ==> switching_laws::first_failure(run, reports) is None
            &&& after is Done ==> switching_laws::first_failure(run, reports) is Some
        }),
{
    let held = (plan.steps[plan.i].ports.len() - 1) as usize;
    lemma_cut_down(CuttingView { plan, run: plan.run() }, reports);
    switching_laws::law_no_port_is_left_off(
        Mode::Blink,
        held,
        plan.off_time,
        plan.probed.text(),
        reports,
        port,
    );
    switching_laws::law_the_first_failure_is_reported(
        Mode::Blink,
        held,
        plan.off_time,
        plan.probed.text(),
        reports,
    );
}

/// How near a probe is to its end: the stage, then what is left of the stage.
pub open spec fn to_do(p: ProbeView) -> (int, int, int) {
    match p {
        ProbeView::OpenHub(_) => (3, 0, 0),
        ProbeView::LookAt(_) => (2, 0, 0),
        ProbeView::Survey(s) => (1, s.candidates.len() as int, 0),
        ProbeView::Ask(a) => (
            0,
            3 * (a.plan.steps.len() - a.plan.i) + if a.restored {
                1int
            } else {
                3
            },
            0,
        ),
        ProbeView::Cut(c) => (
            0,
            3 * (c.plan.steps.len() - c.plan.i) + 2,
            switching_laws::left(c.run),
        ),
        ProbeView::Done(_) => (0, 0, 0),
    }
}

/// Whether one measure is below another: at the first place where they differ.
pub open spec fn below(a: (int, int, int), b: (int, int, int)) -> bool {
    a.0 < b.0 || (a.0 == b.0 && (a.1 < b.1 || (a.1 == b.1 && a.2 < b.2)))
}

/// Every answer, and every report on the step that is due, brings a probe nearer
/// to its end.
pub proof fn law_a_probe_ends(p: ProbeView)
    requires
        p matches ProbeView::Ask(a) ==> 0 <= a.plan.i < a.plan.steps.len(),
        p matches ProbeView::Cut(c) ==> 0 <= c.plan.i < c.plan.steps.len() && c.run.wf(),
        p matches ProbeView::Survey(s) ==> s.candidates.len() > 0,
    ensures
        match p {
            ProbeView::OpenHub(q) => forall|a: HubAnswerView|
                below(to_do(#[trigger] q.answered(a)), to_do(p)),
            ProbeView::LookAt(q) => forall|s: SocketView|
                below(to_do(#[trigger] q.answered(s)), to_do(p)),
            ProbeView::Survey(q) => forall|a: HubAnswerView, s: SocketView, t: SocketView|
                below(to_do(#[trigger] q.answered(a, s, t)), to_do(p)),
            ProbeView::Ask(q) => forall|t: Result<Seq<char>, Seq<char>>|
                below(to_do(#[trigger] q.answered(t)), to_do(p)),
            ProbeView::Cut(q) => forall|r: ReportView|
                q.run.awaits(r) ==> below(to_do(#[trigger] q.reported(r)), to_do(p)),
            ProbeView::Done(_) => true,
        },
{
}

// ---------------------------------------------------------------------------
// Every course of a probe
// ---------------------------------------------------------------------------

/// What a caller tells a probe.
pub enum EventView {
    /// What came of opening the probed hub.
    Opened(HubAnswerView),
    /// What is plugged into the probed port.
    LookedAt(SocketView),
    /// What came of opening a hub, and what its port and the probed one hold.
    Surveyed(HubAnswerView, SocketView, SocketView),
    /// What the user typed, or why it could not be read.
    Typed(Result<Seq<char>, Seq<char>>),
    /// What came of a step of a cut.
    Reported(ReportView),
}

/// How a probe goes on. What it does not wait for changes nothing.
pub open spec fn told(p: ProbeView, event: EventView) -> ProbeView {
    match (p, event) {
        (ProbeView::OpenHub(q), EventView::Opened(answer)) => q.answered(answer),
        (ProbeView::LookAt(q), EventView::LookedAt(socket)) => q.answered(socket),
        (ProbeView::Survey(q), EventView::Surveyed(answer, peer, primary)) => q.answered(
            answer,
            peer,
            primary,
        ),
        (ProbeView::Ask(q), EventView::Typed(typed)) => q.answered(typed),
        (ProbeView::Cut(q), EventView::Reported(report)) => q.reported(report),
        _ => p,
    }
}

/// How far a probe has come after events.
pub open spec fn course(p: ProbeView, events: Seq<EventView>) -> ProbeView
    decreases events.len(),
{
    if events.len() == 0 {
        p
    } else {
        told(course(p, events.drop_last()), events.last())
    }
}

/// The port that a step of a cut names.
pub open spec fn port_of_step(cutting: CuttingView, which: Which) -> HubPortView {
    let ports = cutting.plan.steps[cutting.plan.i].ports;
    match which {
        Which::Primary => ports.last(),
        Which::Held(i) => ports[i as int],
    }
}

/// The ports that may be off after events: those that were to be switched off,
/// whatever came of it, and that were not switched on since.
pub open spec fn maybe_off(p: ProbeView, events: Seq<EventView>) -> Set<HubPortView>
    decreases events.len(),
{
    if events.len() == 0 {
        Set::empty()
    } else {
        let before = maybe_off(p, events.drop_last());
        match (course(p, events.drop_last()), events.last()) {
            (
                ProbeView::Cut(c),
                EventView::Reported(ReportView::Switched(result)),
            ) => match c.run.step() {
                Step::Switch { port, on } => if !on {
                    before.insert(port_of_step(c, port))
                } else if result is Ok {
                    before.remove(port_of_step(c, port))
                } else {
                    before
                },
                _ => before,
            },
            _ => before,
        }
    }
}

/// Whether a port could not be switched on.
pub open spec fn restore_failed(p: ProbeView, events: Seq<EventView>) -> bool
    decreases events.len(),
{
    if events.len() == 0 {
        false
    } else {
        ||| restore_failed(p, events.drop_last())
        ||| match (course(p, events.drop_last()), events.last()) {
            (
                ProbeView::Cut(c),
                EventView::Reported(ReportView::Switched(result)),
            ) => result is Err && (c.run.step() matches Step::Switch { on, .. } && on),
            _ => false,
        }
    }
}

/// Whether every cut of a plan is of one port or two, and one of the cuts is
/// due.
pub open spec fn sound_plan(plan: PlanView) -> bool {
    &&& 0 <= plan.i < plan.steps.len()
    &&& forall|i: int|
        0 <= i < plan.steps.len() ==> 1 <= (#[trigger] plan.steps[i]).ports.len() <= 2
}

/// Whether each of the ports is among the first `n` of a list.
pub open spec fn among_first(off: Set<HubPortView>, ports: Seq<HubPortView>, n: int) -> bool {
    forall|x: HubPortView| #[trigger] off.contains(x) ==> ports.take(n).contains(x)
}

/// What holds of a cut on its way: the run is that of the cut which is due, and
/// unless a port could not be switched on, no port is off but those which were
/// cut and not restored yet.
pub open spec fn sound_cut(c: CuttingView, off: Set<HubPortView>, bad: bool) -> bool {
    let ports = c.plan.steps[c.plan.i].ports;
    &&& sound_plan(c.plan)
    &&& c.run.wf()
    &&& c.run.mode == Mode::Blink
    &&& c.run.held == ports.len() - 1
    &&& c.run.stage != Stage::Finished
    &&& bad ==> c.run.failure is Some
    &&& !bad ==> among_first(
        off,
        ports,
        match c.run.stage {
            Stage::CutHeld(i) => i as int,
            Stage::CutPrimary => c.run.held as int,
            Stage::RestoreHeld(i) => i + 1,
            _ => ports.len() as int,
        },
    )
}

/// What holds of a probe on its way.
pub open spec fn sound(p: ProbeView, off: Set<HubPortView>, bad: bool) -> bool {
    match p {
        ProbeView::Ask(a) => sound_plan(a.plan) && !bad && off.is_empty(),
        ProbeView::Cut(c) => sound_cut(c, off, bad),
        ProbeView::Done(ended) => if bad {
            ended.outcome is Err
        } else {
            off.is_empty()
        },
        _ => !bad && off.is_empty(),
    }
}

/// The plan of a probe is sound.
proof fn lemma_planned(probed: HubPortView, candidates: Seq<HubPortView>)
    ensures
        probe::planned(probed, candidates).len() > 0,
        forall|i: int|
            0 <= i < probe::planned(probed, candidates).len() ==> 1 <= (
            #[trigger] probe::planned(probed, candidates)[i]).ports.len() <= 2,
{
    let steps = probe::planned(probed, candidates);
    law_the_plan_is_most_likely_first(probed, candidates);
    let order = probe::ranked(probed.hub, candidates);
    assert forall|i: int| 0 <= i < steps.len() implies 1 <= (
    #[trigger] steps[i]).ports.len() <= 2 by {
        if i > 0 {
            assert(steps[(i - 1) + 1] == probe::together(probed, order[i - 1]));
        }
    }
}

/// One report keeps a cut sound.
proof fn lemma_sound_report(
    c: CuttingView,
    off: Set<HubPortView>,
    bad: bool,
    result: Result<(), ErrorView>,
)
    requires
        sound_cut(c, off, bad),
        c.run.step() is Switch,
    ensures
        ({
            let which = c.run.step()->port;
            let on = c.run.step()->on;
            let port = port_of_step(c, which);
            let after = c.reported(ReportView::Switched(result));
            if !on {
                sound(after, off.insert(port), bad)
            } else if result is Ok {
                sound(after, off.remove(port), bad)
            } else {
                sound(after, off, true)
            }
        }),
{
    let ports = c.plan.steps[c.plan.i].ports;
    let held = c.run.held as int;
    if !bad {
        match c.run.stage {
            Stage::CutHeld(i) => {
                lemma_one_more(off, ports, i as int);
                lemma_among_more(off.insert(ports[i as int]), ports, i + 1, ports.len() as int);
            },
            Stage::CutPrimary => {
                lemma_one_more(off, ports, held);
            },
            Stage::RestorePrimary => {
                lemma_one_less(off, ports, held);
            },
            Stage::RestoreHeld(i) => {
                lemma_one_less(off, ports, i as int);
            },
            _ => {},
        }
    }
}

/// A port more.
proof fn lemma_one_more(off: Set<HubPortView>, ports: Seq<HubPortView>, n: int)
    requires
        0 <= n < ports.len(),
        among_first(off, ports, n),
    ensures
        among_first(off.insert(ports[n]), ports, n + 1),
{
    let new = off.insert(ports[n]);
    assert forall|x: HubPortView| #[trigger] new.contains(x) implies ports.take(n + 1).contains(
        x,
    ) by {
        if off.contains(x) {
            let k = choose|k: int| 0 <= k < n && ports.take(n)[k] == x;
            assert(ports.take(n + 1)[k] == x);
        } else {
            assert(ports.take(n + 1)[n] == x);
        }
    }
}

/// A port less.
proof fn lemma_one_less(off: Set<HubPortView>, ports: Seq<HubPortView>, n: int)
    requires
        0 <= n < ports.len(),
        among_first(off, ports, n + 1),
    ensures
        among_first(off.remove(ports[n]), ports, n),
        n == 0 ==> off.remove(ports[n]).is_empty(),
{
    let new = off.remove(ports[n]);
    assert forall|x: HubPortView| #[trigger] new.contains(x) implies ports.take(n).contains(x) by {
        let first = ports.take(n + 1);
        assert(first.contains(x));
        let k = choose|k: int| 0 <= k < first.len() && first[k] == x;
        assert(ports.take(n)[k] == x);
    }
}

/// What is among the first ports is among more of them.
proof fn lemma_among_more(off: Set<HubPortView>, ports: Seq<HubPortView>, n: int, m: int)
    requires
        0 <= n <= m <= ports.len(),
        among_first(off, ports, n),
    ensures
        among_first(off, ports, m),
{
    assert forall|x: HubPortView| #[trigger] off.contains(x) implies ports.take(m).contains(x) by {
        let k = choose|k: int| 0 <= k < n && ports.take(n)[k] == x;
        assert(ports.take(m)[k] == x);
    }
}

/// What holds of a probe on its way holds throughout.
proof fn lemma_sound(p: ProbeView, events: Seq<EventView>)
    requires
        sound(p, Set::empty(), false),
    ensures
        sound(course(p, events), maybe_off(p, events), restore_failed(p, events)),
    decreases events.len(),
{
    if events.len() > 0 {
        let fewer = events.drop_last();
        lemma_sound(p, fewer);
        let before = course(p, fewer);
        let off = maybe_off(p, fewer);
        let bad = restore_failed(p, fewer);
        match (before, events.last()) {
            (ProbeView::LookAt(q), EventView::LookedAt(socket)) => {
                lemma_planned(q.probed, Seq::empty());
            },
            (ProbeView::Survey(q), EventView::Surveyed(answer, peer, primary)) => {
                match probe::accepted(q.candidates[0], answer, peer, primary, q.probed) {
                    Some(port) => {
                        lemma_planned(q.probed, q.accepted.push(port));
                    },
                    None => {
                        lemma_planned(q.probed, q.accepted);
                    },
                }
            },
            (ProbeView::Cut(c), EventView::Reported(report)) => {
                if let ReportView::Switched(result) = report {
                    if c.run.step() is Switch {
                        lemma_sound_report(c, off, bad, result);
                    }
                }
            },
            _ => {},
        }
    }
}

/// Whatever is answered, typed and reported, no port is off while the user is
/// asked, nor when the probe ends well; and none is off when it ends at all,
/// but for one that could not be switched on, and then the probe ends with a
/// failure.
pub proof fn law_no_port_is_off_outside_a_cut(
    hub: Seq<char>,
    port: u8,
    off_time: Span,
    pairs: HubPairsView,
    bus: Result<Seq<DeviceView>, UsbError>,
    events: Seq<EventView>,
)
    ensures
        ({
            let p = probe::started(hub, port, off_time, pairs, bus);
            let off = maybe_off(p, events);
            match course(p, events) {
                ProbeView::Cut(_) => true,
                ProbeView::Done(ended) => {
                    &&& ended.outcome is Ok ==> off.is_empty()
                    &&& !restore_failed(p, events) ==> off.is_empty()
                },
                _ => off.is_empty(),
            }
        }),
{
    lemma_sound(probe::started(hub, port, off_time, pairs, bus), events);
}

/// Whether an event is a yes to the cut of a plan that a probe asks about.
pub open spec fn yes_to(p: ProbeView, event: EventView, plan: PlanView) -> bool {
    &&& p matches ProbeView::Ask(a) && !a.restored && a.plan == plan
    &&& event matches EventView::Typed(Ok(typed)) && probe::answer_in(typed, true) == Answer::Yes
}

/// Whether event `m` is a yes to the cut that is due, and every event since was
/// about the steps of that cut.
pub open spec fn agreed(p: ProbeView, events: Seq<EventView>, plan: PlanView, m: int) -> bool {
    &&& 0 <= m < events.len()
    &&& yes_to(course(p, events.take(m)), events[m], plan)
    &&& forall|l: int|
        m < l <= events.len() ==> (course(p, #[trigger] events.take(l)) matches ProbeView::Cut(c)
            && c.plan == plan)
}

/// A probe cuts where it did already, or was told yes.
proof fn lemma_only_a_yes_cuts(p: ProbeView, event: EventView)
    requires
        told(p, event) is Cut,
    ensures
        ({
            let plan = told(p, event)->Cut_0.plan;
            p is Cut && p->Cut_0.plan == plan || yes_to(p, event, plan)
        }),
{
}

proof fn lemma_agreed(p: ProbeView, events: Seq<EventView>) -> (m: int)
    requires
        p !is Cut,
        course(p, events) is Cut,
    ensures
        agreed(p, events, course(p, events)->Cut_0.plan, m),
    decreases events.len(),
{
    let plan = course(p, events)->Cut_0.plan;
    let n = events.len() as int;
    let fewer = events.drop_last();
    assert(events.take(n) =~= events);
    assert(events.take(n - 1) =~= fewer);
    lemma_only_a_yes_cuts(course(p, fewer), events.last());
    if course(p, fewer) is Cut {
        let m = lemma_agreed(p, fewer);
        assert(events.take(m) =~= fewer.take(m));
        assert forall|l: int| m < l <= events.len() implies (course(
            p,
            #[trigger] events.take(l),
        ) matches ProbeView::Cut(c) && c.plan == plan) by {
            if l < n {
                assert(events.take(l) =~= fewer.take(l));
            }
        }
        m
    } else {
        n - 1
    }
}

/// Nothing is cut without a yes: whatever is answered, typed and reported, a cut
/// that is on its way was asked about as just that step of the plan, the answer
/// was yes, and nothing but that cut was done since.
pub proof fn law_nothing_is_cut_without_a_yes(
    hub: Seq<char>,
    port: u8,
    off_time: Span,
    pairs: HubPairsView,
    bus: Result<Seq<DeviceView>, UsbError>,
    events: Seq<EventView>,
)
    ensures
        ({
            let p = probe::started(hub, port, off_time, pairs, bus);
            course(p, events) matches ProbeView::Cut(c) ==> exists|m: int| #[trigger]
                agreed(p, events, c.plan, m)
        }),
{
    let p = probe::started(hub, port, off_time, pairs, bus);
    if course(p, events) is Cut {
        let m = lemma_agreed(p, events);
    }
}

} // verus!
