//! Finding a hub's other half by watching a device's power LED.
//!
//! [`probe`] gives a [`Probe`], which says what to do next: open a hub, look at
//! a port, ask the user, or switch ports. What came of it gives the next one.

use vstd::prelude::*;

use crate::device::{device_location, Device, DeviceView};
use crate::error::{Error, ErrorView};
use crate::hub;
use crate::hub::{Hub, HubView, Hubs};
use crate::pairing;
use crate::pairing::{Pairing, PairingView, Verdict, VerdictView};
use crate::pairs::{HubPairs, HubPairsView};
use crate::port;
use crate::port::{HubPort, HubPortView, Socket, SocketView};
use crate::power;
use crate::power::{HubAnswer, HubAnswerView};
use crate::span;
use crate::span::Span;
use crate::switching::{Mode, Report, ReportView, Step, Switching, SwitchingView, Which};
use crate::sysfs::child_location;
use crate::text;
use crate::text::{
    join, put_dec, put_padded, put_right_aligned, same_lowered, same_text, text_less, trim,
};
use crate::usb::UsbError;
use crate::version;

verus! {

// ---------------------------------------------------------------------------
// Answers
// ---------------------------------------------------------------------------

/// What the user typed at a prompt.
#[derive(Debug, Clone, Copy, PartialEq, Eq, Structural)]
pub enum Answer {
    /// Yes, or Enter where that is the default.
    Yes,
    /// No, anything unclear, or Enter where that is the default.
    No,
    /// Stop probing.
    Quit,
}

/// What was typed at a prompt, without regard to case and surrounding white
/// space.
pub open spec fn answer_in(typed: Seq<char>, default_yes: bool) -> Answer {
    let word = text::lowered(text::trimmed(typed));
    if word.len() == 0 {
        if default_yes {
            Answer::Yes
        } else {
            Answer::No
        }
    } else if word == "y"@ || word == "yes"@ {
        Answer::Yes
    } else if word == "q"@ || word == "quit"@ {
        Answer::Quit
    } else {
        Answer::No
    }
}

impl Answer {
    /// What `text` answers, where Enter alone means yes if `default_yes`.
    pub fn parse(text: &str, default_yes: bool) -> (answer: Self)
        ensures
            answer == answer_in(text@, default_yes),
    {
        let word: &str = trim(text);
        if word.unicode_len() == 0 {
            if default_yes {
                Answer::Yes
            } else {
                Answer::No
            }
        } else if same_lowered(word, "y") || same_lowered(word, "yes") {
            Answer::Yes
        } else if same_lowered(word, "q") || same_lowered(word, "quit") {
            Answer::Quit
        } else {
            Answer::No
        }
    }
}

// ---------------------------------------------------------------------------
// The plan
// ---------------------------------------------------------------------------

/// One cut of the plan: the ports to cut together, the line to declare if
/// the LED goes dark, and why this step ranks where it does.
#[derive(Debug)]
pub struct Cut {
    ports: Vec<HubPort>,
    line: String,
    why: &'static str,
}

/// What a [`Cut`] holds.
pub struct CutView {
    /// The ports to cut together, in the order in which they are cut.
    pub ports: Seq<HubPortView>,
    /// The line to declare if the LED goes dark.
    pub line: Seq<char>,
    /// Why this step ranks where it does.
    pub why: Seq<char>,
}

impl View for Cut {
    type V = CutView;

    closed spec fn view(&self) -> CutView {
        CutView { ports: port::port_views(self.ports@), line: self.line@, why: self.why@ }
    }
}

impl CutView {
    /// The ports in words, e.g. `2-1.4 port 1 + 3-4 port 1`.
    pub open spec fn text(self) -> Seq<char> {
        text::joined(self.ports.map_values(|p: HubPortView| p.text()), " + "@)
    }
}

/// What the cuts of a list hold.
pub open spec fn cut_views(cuts: Seq<Cut>) -> Seq<CutView> {
    cuts.map_values(|c: Cut| c@)
}

impl Cut {
    /// `2-1.4 port 1 + 3-4 port 1`.
    fn ports_text(&self) -> (s: String)
        ensures
            s@ == self@.text(),
    {
        let ghost names = self@.ports.map_values(|p: HubPortView| p.text());
        let mut list: Vec<String> = Vec::new();
        let mut i: usize = 0;
        while i < self.ports.len()
            invariant
                i <= self.ports.len(),
                names == port::port_views(self.ports@).map_values(|p: HubPortView| p.text()),
                text::texts(list@) =~= names.take(i as int),
            decreases self.ports.len() - i,
        {
            let ghost before = list@;
            list.push(self.ports[i].to_text());
            assert(text::texts(list@) =~= text::texts(before).push(names[i as int]));
            i = i + 1;
        }
        assert(names.take(names.len() as int) =~= names);
        join(&list, " + ")
    }
}

/// How likely a hub is the other half of another, lower first, and why.
pub open spec fn likely(hub: HubView, candidate: HubView) -> (u8, Seq<char>) {
    if candidate.vid == hub.vid && candidate.nports == hub.nports {
        (0, "same vendor and size"@)
    } else if candidate.vid == hub.vid {
        (1, "same vendor"@)
    } else if candidate.nports == hub.nports {
        (2, "same size"@)
    } else {
        (3, ""@)
    }
}

/// How likely `candidate` is the other half of `hub`, lower first.
pub fn likelihood(hub: &Hub, candidate: &Hub) -> (rank: (u8, &'static str))
    ensures
        rank.0 == likely(hub@, candidate@).0,
        rank.1@ == likely(hub@, candidate@).1,
{
    if candidate.vid == hub.vid {
        if candidate.nports == hub.nports {
            (0, "same vendor and size")
        } else {
            (1, "same vendor")
        }
    } else if candidate.nports == hub.nports {
        (2, "same size")
    } else {
        (3, "")
    }
}

/// Whether one candidate comes before another: it is more likely, or else
/// nearer to the root, or else its location sorts first.
///
/// The other half of a chip is the same chip: same vendor, same size. Of those,
/// the one nearest the root - a board that splices a hub into one side only puts
/// the other side's hub higher up, never lower.
pub open spec fn comes_before(hub: HubView, a: HubPortView, b: HubPortView) -> bool {
    let x = likely(hub, a.hub).0;
    let y = likely(hub, b.hub).0;
    if x != y {
        x < y
    } else if a.hub.path.len() != b.hub.path.len() {
        a.hub.path.len() < b.hub.path.len()
    } else {
        text::sorts_before(a.hub.location, b.hub.location)
    }
}

/// Whether `a` comes before `b` as a candidate for the other half of `hub`.
fn is_before(hub: &Hub, a: &HubPort, b: &HubPort) -> (yes: bool)
    ensures
        yes == comes_before(hub@, a@, b@),
{
    let x: u8 = likelihood(hub, a.hub()).0;
    let y: u8 = likelihood(hub, b.hub()).0;
    if x != y {
        x < y
    } else if a.hub().depth() != b.hub().depth() {
        a.hub().depth() < b.hub().depth()
    } else {
        text_less(a.hub_location(), b.hub_location())
    }
}

/// A candidate placed behind those that it does not come before.
pub open spec fn placed(hub: HubView, port: HubPortView, list: Seq<HubPortView>) -> Seq<
    HubPortView,
>
    decreases list.len(),
{
    if list.len() > 0 && comes_before(hub, port, list.last()) {
        placed(hub, port, list.drop_last()).push(list.last())
    } else {
        list.push(port)
    }
}

/// The candidates in order, those that rank alike in the order they came.
pub open spec fn ranked(hub: HubView, candidates: Seq<HubPortView>) -> Seq<HubPortView>
    decreases candidates.len(),
{
    if candidates.len() == 0 {
        candidates
    } else {
        placed(hub, candidates.last(), ranked(hub, candidates.drop_last()))
    }
}

/// The probed port alone.
pub open spec fn alone(probed: HubPortView) -> CutView {
    CutView { ports: seq![probed], line: probed.hub.location + " none"@, why: ""@ }
}

/// The probed port with a candidate.
pub open spec fn together(probed: HubPortView, candidate: HubPortView) -> CutView {
    CutView {
        ports: seq![candidate, probed],
        line: if probed.hub.super_speed() {
            candidate.hub.location + " "@ + probed.hub.location
        } else {
            probed.hub.location + " "@ + candidate.hub.location
        },
        why: likely(probed.hub, candidate.hub).1,
    }
}

/// The probed port alone, then with each candidate, most likely first.
pub open spec fn planned(probed: HubPortView, candidates: Seq<HubPortView>) -> Seq<CutView> {
    seq![alone(probed)] + ranked(probed.hub, candidates).map_values(
        |c: HubPortView| together(probed, c),
    )
}

proof fn lemma_placed(hub: HubView, port: HubPortView, list: Seq<HubPortView>, n: int)
    requires
        0 <= n <= list.len(),
        forall|k: int| n <= k < list.len() ==> comes_before(hub, port, #[trigger] list[k]),
        n > 0 ==> !comes_before(hub, port, list[n - 1]),
    ensures
        placed(hub, port, list) == list.insert(n, port),
    decreases list.len(),
{
    if n < list.len() {
        lemma_placed(hub, port, list.drop_last(), n);
        assert(list.insert(n, port) =~= list.drop_last().insert(n, port).push(list.last()));
    } else {
        assert(list.insert(n, port) =~= list.push(port));
    }
}

/// Sort the candidates, most likely first.
fn rank(hub: &Hub, candidates: Vec<HubPort>) -> (list: Vec<HubPort>)
    ensures
        port::port_views(list@) == ranked(hub@, port::port_views(candidates@)),
{
    let ghost all = port::port_views(candidates@);
    let mut candidates: Vec<HubPort> = candidates;
    let mut rest: Vec<HubPort> = Vec::new();
    // Reversed, so that the first comes off the end first.
    while candidates.len() > 0
        invariant
            candidates.len() + rest.len() == all.len(),
            port::port_views(candidates@) =~= all.take(candidates.len() as int),
            forall|k: int|
                0 <= k < rest.len() ==> (#[trigger] rest@[k])@ == all[all.len() - 1 - k],
        decreases candidates.len(),
    {
        let ghost before = candidates@;
        match candidates.pop() {
            Some(port) => {
                assert(port@ == port::port_views(before)[before.len() - 1]);
                rest.push(port);
                assert(port::port_views(candidates@) =~= port::port_views(before).drop_last());
            },
            None => {},
        }
    }
    let mut list: Vec<HubPort> = Vec::new();
    assert(port::port_views(list@) =~= ranked(hub@, all.take(0)));
    while rest.len() > 0
        invariant
            rest.len() <= all.len(),
            forall|k: int|
                0 <= k < rest.len() ==> (#[trigger] rest@[k])@ == all[all.len() - 1 - k],
            port::port_views(list@) == ranked(hub@, all.take(all.len() - rest.len())),
        decreases rest.len(),
    {
        let ghost done = all.len() - rest.len();
        let ghost sorted = port::port_views(list@);
        match rest.pop() {
            Some(port) => {
                assert(port@ == all[done]);
                let mut n: usize = list.len();
                while n > 0 && is_before(hub, &port, &list[n - 1])
                    invariant
                        n <= list.len(),
                        sorted == port::port_views(list@),
                        forall|k: int|
                            n <= k < list.len() ==> comes_before(
                                hub@,
                                port@,
                                #[trigger] sorted[k],
                            ),
                    decreases n,
                {
                    n = n - 1;
                }
                let ghost view = port@;
                proof {
                    lemma_placed(hub@, view, sorted, n as int);
                }
                list.insert(n, port);
                assert(port::port_views(list@) =~= sorted.insert(n as int, view));
                assert(all.take(done + 1).drop_last() =~= all.take(done));
            },
            None => {},
        }
    }
    assert(all.take(all.len() as int) =~= all);
    list
}

/// The probed port alone, then with each candidate, most likely first.
pub fn plan(probed: &HubPort, candidates: Vec<HubPort>) -> (steps: Vec<Cut>)
    ensures
        cut_views(steps@) == planned(probed@, port::port_views(candidates@)),
{
    let hub: &Hub = probed.hub();
    let ghost order = ranked(probed@.hub, port::port_views(candidates@));
    let ghost cuts = order.map_values(|c: HubPortView| together(probed@, c));
    let mut list: Vec<HubPort> = rank(hub, candidates);
    // Reversed, so that the first comes off the end first.
    let mut rest: Vec<HubPort> = Vec::new();
    while list.len() > 0
        invariant
            list.len() + rest.len() == order.len(),
            port::port_views(list@) =~= order.take(list.len() as int),
            forall|k: int|
                0 <= k < rest.len() ==> (#[trigger] rest@[k])@ == order[order.len() - 1 - k],
        decreases list.len(),
    {
        let ghost before = list@;
        match list.pop() {
            Some(port) => {
                assert(port@ == port::port_views(before)[before.len() - 1]);
                rest.push(port);
                assert(port::port_views(list@) =~= port::port_views(before).drop_last());
            },
            None => {},
        }
    }

    let mut line: String = hub.location.clone();
    line.append(" none");
    let mut ports: Vec<HubPort> = Vec::new();
    ports.push(probed.copy());
    assert(port::port_views(ports@) =~= seq![probed@]);
    let first: Cut = Cut { ports, line, why: "" };
    let mut steps: Vec<Cut> = Vec::new();
    steps.push(first);
    assert(cut_views(steps@) =~= seq![alone(probed@)] + cuts.take(0));
    while rest.len() > 0
        invariant
            hub@ == probed@.hub,
            rest.len() <= order.len(),
            forall|k: int|
                0 <= k < rest.len() ==> (#[trigger] rest@[k])@ == order[order.len() - 1 - k],
            cuts == order.map_values(|c: HubPortView| together(probed@, c)),
            cut_views(steps@) == seq![alone(probed@)] + cuts.take(order.len() - rest.len()),
        decreases rest.len(),
    {
        let ghost done = order.len() - rest.len();
        let ghost before = steps@;
        match rest.pop() {
            Some(candidate) => {
                let ghost view = candidate@;
                assert(view == order[done]);
                let why: &'static str = likelihood(hub, candidate.hub()).1;
                let line: String = if hub.is_super_speed() {
                    let mut line: String = candidate.hub_location().to_owned();
                    line.append(" ");
                    line.append(hub.location.as_str());
                    line
                } else {
                    let mut line: String = hub.location.clone();
                    line.append(" ");
                    line.append(candidate.hub_location());
                    line
                };
                let mut ports: Vec<HubPort> = Vec::new();
                ports.push(candidate);
                ports.push(probed.copy());
                assert(port::port_views(ports@) =~= seq![view, probed@]);
                let cut: Cut = Cut { ports, line, why };
                assert(cut@ == together(probed@, view));
                steps.push(cut);
                assert(cuts.take(done + 1) =~= cuts.take(done).push(cut@));
                assert(cut_views(steps@) =~= cut_views(before).push(cut@));
            },
            None => {},
        }
    }
    assert(cuts.take(cuts.len() as int) =~= cuts);
    steps
}

/// The line of the plan for its step number `i`, counted from 0.
pub open spec fn step_line(cut: CutView, i: int) -> Seq<char> {
    "   "@ + text::right_aligned(text::dec((i + 1) as nat), 2) + ". "@ + text::padded(
        cut.text(),
        40,
    ) + " => \""@ + cut.line + "\"  "@ + cut.why + "\n"@
}

/// The lines of the plan for its first `n` steps.
pub open spec fn step_lines(steps: Seq<CutView>, n: int) -> Seq<char>
    decreases n,
{
    if n <= 0 {
        Seq::empty()
    } else {
        step_lines(steps, n - 1) + step_line(steps[n - 1], n - 1)
    }
}

/// The plan in words, with the time that each step cuts for in words.
pub open spec fn plan_text(
    steps: Seq<CutView>,
    probed: HubPortView,
    off_time: Seq<char>,
) -> Seq<char> {
    "probing "@ + probed.text() + " - watch the power LED of the device on it\n"@
        + "plan, most likely first; each step cuts for "@ + off_time + ", restores, then asks:\n"@
        + step_lines(steps, steps.len() as int) + (if steps.len() == 1 {
        "   (no "@ + probed.hub.other_side()
            + " hub that switches power per port has port "@ + text::dec(probed.port as nat)
            + " free)\n"@
    } else {
        Seq::empty()
    })
        + "Enter runs a step, n skips it, q quits. Ctrl-C during a cut would leave ports off - use q.\n\n"@
}

/// The plan in words, with the time that each step cuts for in words.
pub fn print_plan(steps: &Vec<Cut>, probed: &HubPort, off_time: &str) -> (s: String)
    ensures
        s@ == plan_text(cut_views(steps@), probed@, off_time@),
{
    let ghost all = cut_views(steps@);
    let mut s: String = "probing ".to_owned();
    s.append(probed.to_text().as_str());
    s.append(" - watch the power LED of the device on it\n");
    s.append("plan, most likely first; each step cuts for ");
    s.append(off_time);
    s.append(", restores, then asks:\n");
    let ghost head = s@;
    let mut i: usize = 0;
    assert(s@ =~= head + step_lines(all, 0));
    while i < steps.len()
        invariant
            i <= steps.len(),
            all == cut_views(steps@),
            s@ == head + step_lines(all, i as int),
        decreases steps.len() - i,
    {
        let ghost before = s@;
        let step: &Cut = &steps[i];
        assert(step@ == all[i as int]);
        let mut line: String = "   ".to_owned();
        put_right_aligned(&mut line, text::dec_text(i as u64 + 1).as_str(), 2);
        line.append(". ");
        put_padded(&mut line, step.ports_text().as_str(), 40);
        line.append(" => \"");
        line.append(step.line.as_str());
        line.append("\"  ");
        line.append(step.why);
        line.append("\n");
        assert(line@ == step_line(all[i as int], i as int));
        s.append(line.as_str());
        assert(s@ =~= head + step_lines(all, i + 1));
        i = i + 1;
    }
    let ghost lines = s@;
    if steps.len() == 1 {
        let mut note: String = "   (no ".to_owned();
        note.append(probed.hub().other_side());
        note.append(" hub that switches power per port has port ");
        put_dec(&mut note, probed.port() as u64);
        note.append(" free)\n");
        s.append(note.as_str());
    } else {
        assert(lines + Seq::<char>::empty() =~= lines);
    }
    s.append(
        "Enter runs a step, n skips it, q quits. Ctrl-C during a cut would leave ports off - use q.\n\n",
    );
    s
}

// ---------------------------------------------------------------------------
// The course of a probe
// ---------------------------------------------------------------------------

/// A plan, and how far it has come.
#[derive(Debug)]
pub struct Plan {
    steps: Vec<Cut>,
    probed: HubPort,
    off_time: Span,
    i: usize,
}

/// What a [`Plan`] holds.
pub struct PlanView {
    /// The cuts.
    pub steps: Seq<CutView>,
    /// The port that is probed.
    pub probed: HubPortView,
    /// How long each cut lasts.
    pub off_time: Span,
    /// The cut that is due.
    pub i: int,
}

impl View for Plan {
    type V = PlanView;

    closed spec fn view(&self) -> PlanView {
        PlanView {
            steps: cut_views(self.steps@),
            probed: self.probed@,
            off_time: self.off_time,
            i: self.i as int,
        }
    }
}

/// A probe that waits for the probed hub to be opened.
pub struct Opening<'a> {
    hub: String,
    port: u8,
    off_time: Span,
    hubs: Hubs<'a>,
    pairing: Pairing,
}

/// What an [`Opening`] holds.
pub struct OpeningView {
    /// The sysfs location of the probed hub.
    pub hub: Seq<char>,
    /// The number of the probed port.
    pub port: u8,
    /// How long each cut is to last.
    pub off_time: Span,
    /// The hubs on the bus.
    pub hubs: Seq<DeviceView>,
    /// Which of them is the other half of which.
    pub pairing: PairingView,
}

impl<'a> View for Opening<'a> {
    type V = OpeningView;

    closed spec fn view(&self) -> OpeningView {
        OpeningView {
            hub: self.hub@,
            port: self.port,
            off_time: self.off_time,
            hubs: self.hubs@,
            pairing: self.pairing@,
        }
    }
}

/// A probe that waits for what is plugged into the probed port.
pub struct Looking<'a> {
    probed: HubPort,
    off_time: Span,
    hubs: Hubs<'a>,
    pairing: Pairing,
}

/// What a [`Looking`] holds.
pub struct LookingView {
    /// The probed port.
    pub probed: HubPortView,
    /// How long each cut is to last.
    pub off_time: Span,
    /// The hubs on the bus.
    pub hubs: Seq<DeviceView>,
    /// Which of them is the other half of which.
    pub pairing: PairingView,
}

impl<'a> View for Looking<'a> {
    type V = LookingView;

    closed spec fn view(&self) -> LookingView {
        LookingView {
            probed: self.probed@,
            off_time: self.off_time,
            hubs: self.hubs@,
            pairing: self.pairing@,
        }
    }
}

/// A probe that waits for a hub that may be the other half to be opened.
pub struct Survey<'a> {
    probed: HubPort,
    off_time: Span,
    candidates: Vec<&'a Device>,
    i: usize,
    accepted: Vec<HubPort>,
}

/// What a [`Survey`] holds.
pub struct SurveyView {
    /// The probed port.
    pub probed: HubPortView,
    /// How long each cut is to last.
    pub off_time: Span,
    /// The hubs still to be opened.
    pub candidates: Seq<DeviceView>,
    /// The ports that may be the other half of the receptacle.
    pub accepted: Seq<HubPortView>,
}

impl<'a> View for Survey<'a> {
    type V = SurveyView;

    closed spec fn view(&self) -> SurveyView {
        SurveyView {
            probed: self.probed@,
            off_time: self.off_time,
            candidates: self.candidates@.map_values(|d: &Device| d@).skip(self.i as int),
            accepted: port::port_views(self.accepted@),
        }
    }
}

/// A probe that waits for the user. Every port is on meanwhile.
#[derive(Debug)]
pub struct Asking {
    say: String,
    plan: Plan,
    restored: bool,
}

/// What an [`Asking`] holds.
pub struct AskingView {
    /// What to write before the prompt.
    pub say: Seq<char>,
    /// The plan.
    pub plan: PlanView,
    /// Whether the cut that is due was made, and the question is about the LED.
    pub restored: bool,
}

impl View for Asking {
    type V = AskingView;

    closed spec fn view(&self) -> AskingView {
        AskingView { say: self.say@, plan: self.plan@, restored: self.restored }
    }
}

/// A probe that cuts and restores ports.
#[derive(Debug)]
pub struct Cutting {
    plan: Plan,
    run: Switching,
}

/// What a [`Cutting`] holds.
pub struct CuttingView {
    /// The plan.
    pub plan: PlanView,
    /// The steps that switch the ports.
    pub run: SwitchingView,
}

impl View for Cutting {
    type V = CuttingView;

    closed spec fn view(&self) -> CuttingView {
        CuttingView { plan: self.plan@, run: self.run@ }
    }
}

/// How a probe ended.
#[derive(Debug)]
pub struct Ended {
    /// What to write.
    pub say: String,
    /// The line to declare, if the other half was found.
    pub outcome: Result<Option<String>, Error>,
}

/// What an [`Ended`] holds.
pub struct EndedView {
    /// What to write.
    pub say: Seq<char>,
    /// The line to declare, if the other half was found.
    pub outcome: Result<Option<Seq<char>>, ErrorView>,
}

impl View for Ended {
    type V = EndedView;

    open spec fn view(&self) -> EndedView {
        EndedView {
            say: self.say@,
            outcome: match self.outcome {
                Ok(Some(line)) => Ok(Some(line@)),
                Ok(None) => Ok(None),
                Err(e) => Err(e@),
            },
        }
    }
}

/// How far a probe has come.
pub enum Probe<'a> {
    /// Open the probed hub, and hand what came of it to [`Opening::answer`].
    OpenHub(Opening<'a>),
    /// Look at the probed port, and hand what is plugged in to
    /// [`Looking::answer`].
    LookAt(Looking<'a>),
    /// Open a hub, look at two ports, and hand both to [`Survey::answer`].
    Survey(Survey<'a>),
    /// Show a prompt, and hand what was typed to [`Asking::answer`].
    Ask(Asking),
    /// Take a step, and hand what came of it to [`Cutting::report`].
    Cut(Cutting),
    /// The probe is over.
    Done(Ended),
}

/// What a [`Probe`] holds.
pub enum ProbeView {
    /// Waiting for the probed hub to be opened.
    OpenHub(OpeningView),
    /// Waiting for what is plugged into the probed port.
    LookAt(LookingView),
    /// Waiting for a hub to be opened.
    Survey(SurveyView),
    /// Waiting for the user.
    Ask(AskingView),
    /// Switching ports.
    Cut(CuttingView),
    /// Over.
    Done(EndedView),
}

impl<'a> View for Probe<'a> {
    type V = ProbeView;

    open spec fn view(&self) -> ProbeView {
        match *self {
            Probe::OpenHub(p) => ProbeView::OpenHub(p@),
            Probe::LookAt(p) => ProbeView::LookAt(p@),
            Probe::Survey(p) => ProbeView::Survey(p@),
            Probe::Ask(p) => ProbeView::Ask(p@),
            Probe::Cut(p) => ProbeView::Cut(p@),
            Probe::Done(p) => ProbeView::Done(p@),
        }
    }
}

/// The probe failed.
pub open spec fn failed(error: ErrorView) -> ProbeView {
    ProbeView::Done(EndedView { say: Seq::empty(), outcome: Err(error) })
}

/// The probe found nothing, and says why.
pub open spec fn gave_up(say: Seq<char>) -> ProbeView {
    ProbeView::Done(EndedView { say, outcome: Ok(None) })
}

impl OpeningView {
    /// How the probe goes on once the probed hub was opened: its port must be
    /// there, and be switched on its own.
    pub open spec fn answered(self, answer: HubAnswerView) -> ProbeView {
        match hub::opened_at(self.hubs, self.hub, answer.reply) {
            Err(e) => failed(e),
            Ok(hub) => if self.port > hub.nports {
                gave_up(
                    self.hub + " has "@ + text::dec(hub.nports as nat) + " ports, no port "@
                        + text::dec(self.port as nat) + "\n"@,
                )
            } else if !hub.per_port_power {
                gave_up(
                    self.hub
                        + " switches power in ganged mode, so its ports cannot be cut one at a time and there is nothing to pair it for\n"@,
                )
            } else {
                match port::port_of(hub, self.port, answer.config) {
                    Err(e) => failed(e),
                    Ok(probed) => ProbeView::LookAt(
                        LookingView {
                            probed,
                            off_time: self.off_time,
                            hubs: self.hubs,
                            pairing: self.pairing,
                        },
                    ),
                }
            },
        }
    }
}

/// Whether a hub may be the other half, as far as can be told without opening
/// it: it is not the probed hub, not settled already, and of the opposite speed.
pub open spec fn may_pair(dev: DeviceView, pairing: PairingView, probed: HubView) -> bool {
    &&& dev.location() != probed.location
    &&& (pairing.verdict(dev.location()) is Unpaired || pairing.verdict(dev.location()) is Usb2Hub)
    &&& dev.descriptor is Ok
    &&& version::at_least(dev.descriptor->Ok_0.version, version::usb_ss()) != probed.super_speed()
}

impl LookingView {
    /// How the probe goes on: something must be plugged in, to be watched.
    pub open spec fn answered(self, socket: SocketView) -> ProbeView {
        if !socket.occupied {
            gave_up(
                "nothing is plugged into "@ + self.probed.text()
                    + " - plug in a device with a power LED and watch it\n"@,
            )
        } else {
            (SurveyView {
                probed: self.probed,
                off_time: self.off_time,
                candidates: self.hubs.filter(
                    |d: DeviceView| may_pair(d, self.pairing, self.probed.hub),
                ),
                accepted: Seq::empty(),
            }).next()
        }
    }
}

/// The port of a hub that may be the other half of the probed receptacle: the
/// hub opens, switches power per port, has a port of the probed number, and
/// nothing on that port would be stranded.
pub open spec fn accepted(
    dev: DeviceView,
    answer: HubAnswerView,
    peer: SocketView,
    primary: SocketView,
    probed: HubPortView,
) -> Option<HubPortView> {
    match hub::opened(dev, answer.reply) {
        Err(_) => None,
        Ok(hub) => if !hub.per_port_power || probed.port > hub.nports {
            None
        } else {
            match port::port_of(hub, probed.port, answer.config) {
                Err(_) => None,
                Ok(port) => if port::holdable(peer, primary) {
                    Some(port)
                } else {
                    None
                },
            }
        },
    }
}

impl SurveyView {
    /// Ask about the next hub, or begin with the plan after the last one.
    pub open spec fn next(self) -> ProbeView {
        if self.candidates.len() > 0 {
            ProbeView::Survey(self)
        } else {
            let steps = planned(self.probed, self.accepted);
            ProbeView::Ask(
                AskingView {
                    say: plan_text(
                        steps,
                        self.probed,
                        span::duration_debug(self.off_time.secs, self.off_time.nanos),
                    ),
                    plan: PlanView {
                        steps,
                        probed: self.probed,
                        off_time: self.off_time,
                        i: 0,
                    },
                    restored: false,
                },
            )
        }
    }

    /// How the probe goes on once the hub was opened and the ports looked at.
    pub open spec fn answered(
        self,
        answer: HubAnswerView,
        peer: SocketView,
        primary: SocketView,
    ) -> ProbeView {
        (SurveyView {
            candidates: self.candidates.drop_first(),
            accepted: match accepted(self.candidates[0], answer, peer, primary, self.probed) {
                Some(port) => self.accepted.push(port),
                None => self.accepted,
            },
            ..self
        }).next()
    }
}

impl PlanView {
    /// Ask whether to make the cut number `i`, or end after the last one.
    pub open spec fn at(self, i: int) -> ProbeView {
        if i < self.steps.len() {
            ProbeView::Ask(
                AskingView {
                    say: Seq::empty(),
                    plan: PlanView { i, ..self },
                    restored: false,
                },
            )
        } else {
            gave_up(
                "\nno step cut the power. Either the other half is on a hub that switches power in ganged mode (then this receptacle cannot be cut at all), or its port "@
                    + text::dec(self.probed.port as nat)
                    + " is occupied, or the hub does not act on PORT_POWER (check with a meter)\n"@,
            )
        }
    }

    /// The steps of the cut that is due: the ports before the last are held
    /// down, and the last is the probed one.
    pub open spec fn run(self) -> SwitchingView {
        SwitchingView::started(
            Mode::Blink,
            (self.steps[self.i].ports.len() - 1) as usize,
            self.off_time,
            self.probed.text(),
        )
    }

    /// The cut that is due made the LED go dark.
    pub open spec fn found(self) -> ProbeView {
        let step = self.steps[self.i];
        let what = if self.i == 0 {
            self.probed.text() + " cuts VBUS by itself"@
        } else {
            step.text() + " share a receptacle"@
        };
        ProbeView::Done(
            EndedView {
                say: "\n"@ + what + ". Declare this line in your hub pairs:\n\n    "@ + step.line
                    + "\n\n"@,
                outcome: Ok(Some(step.line)),
            },
        )
    }
}

impl AskingView {
    /// The prompt.
    pub open spec fn prompt(self) -> Seq<char> {
        if self.restored {
            "   restored. LED went dark? [y=dark, Enter=lit, q=quit] "@
        } else {
            "step "@ + text::dec((self.plan.i + 1) as nat) + "/"@ + text::dec(
                self.plan.steps.len(),
            ) + ": cut "@ + self.plan.steps[self.plan.i].text()
                + " [Enter=cut, n=skip, q=quit] "@
        }
    }

    /// How the probe goes on once something was typed, or could not be read.
    /// Enter alone runs a step, and says that the LED is lit.
    pub open spec fn answered(self, typed: Result<Seq<char>, Seq<char>>) -> ProbeView {
        match typed {
            Err(reason) => failed(ErrorView::Io(reason)),
            Ok(typed) => match answer_in(typed, !self.restored) {
                Answer::Quit => gave_up("quit - every port is restored\n"@),
                Answer::No => self.plan.at(self.plan.i + 1),
                Answer::Yes => if self.restored {
                    self.plan.found()
                } else {
                    ProbeView::Cut(CuttingView { plan: self.plan, run: self.plan.run() })
                },
            },
        }
    }
}

impl CuttingView {
    /// How the probe goes on: once the ports are restored, it asks about the
    /// LED.
    pub open spec fn reported(self, report: ReportView) -> ProbeView {
        let run = self.run.after(report);
        if run.step() != Step::Finished {
            ProbeView::Cut(CuttingView { run, ..self })
        } else {
            match run.failure {
                Some(e) => failed(e),
                None => ProbeView::Ask(
                    AskingView { say: Seq::empty(), plan: self.plan, restored: true },
                ),
            }
        }
    }
}

/// A probe at the place where it begins.
pub open spec fn started(
    hub: Seq<char>,
    port: u8,
    off_time: Span,
    pairs: HubPairsView,
    bus: Result<Seq<DeviceView>, UsbError>,
) -> ProbeView {
    match bus {
        Err(e) => failed(ErrorView::Usb(e)),
        Ok(devices) => {
            let hubs = hub::hubs_among(devices);
            let pairing = pairing::paired(pairing::nodes_of(hubs), pairs);
            match pairing.verdict(hub) {
                VerdictView::Paired { other, .. } => gave_up(
                    hub + " is already paired with "@ + other
                        + " - nothing to probe. To probe it again, drop the declaration that pairs them.\n"@,
                ),
                _ => if hub::first_at(hubs, hub) is None {
                    failed(ErrorView::HubMissing { location: hub })
                } else {
                    ProbeView::OpenHub(OpeningView { hub, port, off_time, hubs, pairing })
                },
            }
        },
    }
}

impl<'a> Probe<'a> {
    fn failed(error: Error) -> (probe: Self)
        ensures
            probe@ == failed(error@),
    {
        Probe::Done(Ended { say: String::new(), outcome: Err(error) })
    }

    fn gave_up(say: String) -> (probe: Self)
        ensures
            probe@ == gave_up(say@),
    {
        Probe::Done(Ended { say, outcome: Ok(None) })
    }
}

/// Find which hub shares receptacles with `hub`, by cutting port `port` of it
/// together with each candidate in turn and asking whether the device on it
/// lost power. `bus` is what enumerating the bus gave, `pairs` what the machine
/// declares about its hubs.
///
/// Something with a power LED must be plugged into that port: the device
/// leaves the bus whether its power went or only its link, so only the LED
/// tells.
///
/// The plan is shown first, most likely pair first: candidates are the hubs
/// of the opposite speed that switch power per port, are not paired already,
/// and have port `port` free (or holding a hub, if the probed port does),
/// ranked by same vendor and size as `hub`, then by nearness to the root.
/// Root hubs are candidates: a board may wire the `SuperSpeed` side of its
/// receptacles straight to the host controller. Each step cuts, waits
/// `off_time`, restores, and only then asks - so the ports are never left off
/// while waiting for an answer.
///
/// At a step prompt, Enter runs it, `n` skips it, `q` quits; at the LED prompt,
/// `y` means dark, Enter means lit, `q` quits. The outcome is the line to
/// declare in the machine's [`HubPairs`] text, or `None` if nothing was found.
///
/// # Errors
///
/// [`Error::HubMissing`] or [`Error::HubUnreadable`] for `hub`,
/// [`Error::SwitchFailed`] if a port would not switch, [`Error::Usb`] if the bus
/// could not be enumerated, or [`Error::Io`] if a prompt failed.
pub fn probe<'a>(
    hub: &str,
    port: u8,
    off_time: Span,
    pairs: &HubPairs,
    bus: &'a Result<Vec<Device>, UsbError>,
) -> (probe: Probe<'a>)
    requires
        off_time.wf(),
    ensures
        probe@ == started(hub@, port, off_time, pairs@, power::bus_view(*bus)),
{
    let hubs: Hubs<'a> = match Hubs::enumerate(bus) {
        Ok(hubs) => hubs,
        Err(e) => {
            return Probe::failed(Error::Usb(e));
        },
    };
    let pairing: Pairing = Pairing::compute(&hubs, pairs);
    if let Verdict::Paired { other, .. } = pairing.verdict(hub) {
        let mut say: String = hub.to_owned();
        say.append(" is already paired with ");
        say.append(other);
        say.append(
            " - nothing to probe. To probe it again, drop the declaration that pairs them.\n",
        );
        return Probe::gave_up(say);
    }
    match hubs.device_at(hub) {
        None => Probe::failed(Error::HubMissing { location: hub.to_owned() }),
        Some(_) => Probe::OpenHub(
            Opening { hub: hub.to_owned(), port, off_time, hubs, pairing },
        ),
    }
}

impl<'a> Opening<'a> {
    #[verifier::type_invariant]
    closed spec fn inv(self) -> bool {
        self.off_time.wf()
    }

    /// The hub to open, among the enumerated devices.
    pub fn hub(&self) -> (dev: Option<&'a Device>)
        ensures
            match dev {
                Some(dev) => hub::first_at(self@.hubs, self@.hub) == Some(dev@),
                None => hub::first_at(self@.hubs, self@.hub) is None,
            },
    {
        self.hubs.device_at(self.hub.as_str())
    }

    /// What came of opening the probed hub: whether its port can be probed.
    /// Otherwise says why not.
    pub fn answer(self, answer: &HubAnswer) -> (probe: Probe<'a>)
        ensures
            probe@ == self@.answered(answer@),
    {
        proof {
            use_type_invariant(&self);
        }
        let probed_hub: Hub = match self.hubs.open_at(self.hub.as_str(), &answer.reply) {
            Ok(hub) => hub,
            Err(e) => {
                return Probe::failed(e);
            },
        };
        let Opening { hub, port, off_time, hubs, pairing } = self;
        if port > probed_hub.nports {
            let mut say: String = hub;
            say.append(" has ");
            put_dec(&mut say, probed_hub.nports as u64);
            say.append(" ports, no port ");
            put_dec(&mut say, port as u64);
            say.append("\n");
            return Probe::gave_up(say);
        }
        if !probed_hub.per_port_power {
            let mut say: String = hub;
            say.append(
                " switches power in ganged mode, so its ports cannot be cut one at a time and there is nothing to pair it for\n",
            );
            return Probe::gave_up(say);
        }
        match HubPort::new(probed_hub, port, answer.config) {
            Err(e) => Probe::failed(e),
            Ok(probed) => Probe::LookAt(Looking { probed, off_time, hubs, pairing }),
        }
    }
}

impl<'a> Looking<'a> {
    #[verifier::type_invariant]
    closed spec fn inv(self) -> bool {
        self.off_time.wf()
    }

    /// The port to look at.
    pub fn port(&self) -> (port: &HubPort)
        ensures
            port@ == self@.probed,
    {
        &self.probed
    }

    /// What is plugged into the probed port.
    pub fn answer(self, socket: &Socket) -> (probe: Probe<'a>)
        ensures
            probe@ == self@.answered(socket@),
    {
        proof {
            use_type_invariant(&self);
        }
        let ghost view = self@;
        let Looking { probed, off_time, hubs, pairing } = self;
        if !socket.occupied {
            let mut say: String = "nothing is plugged into ".to_owned();
            say.append(probed.to_text().as_str());
            say.append(" - plug in a device with a power LED and watch it\n");
            return Probe::gave_up(say);
        }
        let candidates: Vec<&'a Device> = Survey::candidates(&hubs, &pairing, probed.hub());
        let accepted: Vec<HubPort> = Vec::new();
        assert(port::port_views(accepted@) =~= Seq::<HubPortView>::empty());
        let survey: Survey<'a> = Survey { probed, off_time, candidates, i: 0, accepted };
        assert(survey@.candidates =~= candidates@.map_values(|d: &Device| d@));
        survey.next()
    }
}

impl<'a> Survey<'a> {
    #[verifier::type_invariant]
    closed spec fn inv(self) -> bool {
        self.off_time.wf() && self.i <= self.candidates.len()
    }

    /// The hubs that may be the other half of `probed`. Cheap tests only, from
    /// cached descriptors, before any hub is opened.
    fn candidates(hubs: &Hubs<'a>, pairing: &Pairing, probed: &Hub) -> (list: Vec<&'a Device>)
        ensures
            list@.map_values(|d: &Device| d@) == hubs@.filter(
                |d: DeviceView| may_pair(d, pairing@, probed@),
            ),
    {
        let devices: &Vec<&'a Device> = hubs.iter();
        let ghost all = hubs@;
        let ghost keep = |d: DeviceView| may_pair(d, pairing@, probed@);
        let mut list: Vec<&'a Device> = Vec::new();
        let mut i: usize = 0;
        reveal(Seq::filter);
        assert(all.take(0) =~= Seq::<DeviceView>::empty());
        assert(list@.map_values(|d: &Device| d@) =~= all.take(0).filter(keep));
        while i < devices.len()
            invariant
                i <= devices.len(),
                all == devices@.map_values(|d: &Device| d@),
                keep == (|d: DeviceView| may_pair(d, pairing@, probed@)),
                list@.map_values(|d: &Device| d@) == all.take(i as int).filter(keep),
            decreases devices.len() - i,
        {
            reveal(Seq::filter);
            let ghost before = list@;
            let dev: &'a Device = devices[i];
            assert(all.take(i + 1).drop_last() =~= all.take(i as int));
            assert(all.take(i + 1).last() == dev@);
            if Survey::may_pair(dev, pairing, probed) {
                list.push(dev);
                assert(list@.map_values(|d: &Device| d@) =~= before.map_values(
                    |d: &Device| d@,
                ).push(dev@));
            }
            i = i + 1;
        }
        assert(all.take(all.len() as int) =~= all);
        list
    }

    /// Whether `dev` may be the other half of `probed`.
    fn may_pair(dev: &Device, pairing: &Pairing, probed: &Hub) -> (yes: bool)
        ensures
            yes == may_pair(dev@, pairing@, probed@),
    {
        let location: String = device_location(dev);
        if same_text(location.as_str(), probed.location.as_str()) {
            return false;
        }
        match pairing.verdict(location.as_str()) {
            Verdict::Unpaired | Verdict::Usb2Hub => {},
            _ => {
                return false;
            },
        }
        match &dev.descriptor {
            Ok(desc) => desc.version.is_super_speed() != probed.is_super_speed(),
            Err(_) => false,
        }
    }

    /// Ask about the next hub, or begin with the plan after the last one.
    fn next(self) -> (probe: Probe<'a>)
        ensures
            probe@ == self@.next(),
    {
        proof {
            use_type_invariant(&self);
        }
        if self.i < self.candidates.len() {
            return Probe::Survey(self);
        }
        let Survey { probed, off_time, candidates, i, accepted } = self;
        let steps: Vec<Cut> = plan(&probed, accepted);
        let say: String = print_plan(&steps, &probed, off_time.to_text().as_str());
        assert forall|k: int| 0 <= k < steps.len() implies (#[trigger] steps@[k])@.ports.len()
            > 0 by {
            assert(cut_views(steps@)[k].ports.len() > 0);
        }
        Probe::Ask(Asking { say, plan: Plan { steps, probed, off_time, i: 0 }, restored: false })
    }

    /// The hub to open, if there is one.
    pub fn hub(&self) -> (dev: Option<&'a Device>)
        ensures
            match dev {
                Some(dev) => self@.candidates.len() > 0 && self@.candidates[0] == dev@,
                None => self@.candidates.len() == 0,
            },
    {
        proof {
            use_type_invariant(self);
        }
        if self.i < self.candidates.len() {
            Some(self.candidates[self.i])
        } else {
            None
        }
    }

    /// The probed port, which is the first to look at.
    pub fn probed(&self) -> (port: &HubPort)
        ensures
            port@ == self@.probed,
    {
        &self.probed
    }

    /// Where a device would be on the hub's port of the probed number, which is
    /// the second port to look at.
    pub fn child_location(&self) -> (location: Option<String>)
        ensures
            match location {
                Some(location) => {
                    &&& self@.candidates.len() > 0
                    &&& location@ == crate::sysfs::location_below(
                        self@.candidates[0].location(),
                        self@.candidates[0].bus,
                        self@.probed.port,
                    )
                },
                None => self@.candidates.len() == 0,
            },
    {
        match self.hub() {
            Some(dev) => Some(
                child_location(device_location(dev).as_str(), dev.bus, self.probed.port()),
            ),
            None => None,
        }
    }

    /// What came of opening the hub, and what is plugged into its port and into
    /// the probed port.
    pub fn answer(self, answer: &HubAnswer, peer: &Socket, primary: &Socket) -> (probe: Probe<'a>)
        ensures
            self@.candidates.len() > 0 ==> probe@ == self@.answered(answer@, peer@, primary@),
            self@.candidates.len() == 0 ==> probe@ == self@.next(),
    {
        proof {
            use_type_invariant(&self);
        }
        if self.i >= self.candidates.len() {
            return self.next();
        }
        let ghost view = self@;
        let Survey { probed, off_time, candidates, i, accepted } = self;
        let mut accepted: Vec<HubPort> = accepted;
        let ghost before = accepted@;
        let dev: &'a Device = candidates[i];
        assert(view.candidates[0] == dev@);
        match Survey::accept(dev, answer, peer, primary, &probed) {
            Some(port) => {
                accepted.push(port);
                assert(port::port_views(accepted@) =~= port::port_views(before).push(port@));
            },
            None => {},
        }
        let survey: Survey<'a> = Survey { probed, off_time, candidates, i: i + 1, accepted };
        assert(survey@.candidates =~= view.candidates.drop_first());
        survey.next()
    }

    /// The port of `dev` that may be the other half of the probed receptacle.
    fn accept(
        dev: &Device,
        answer: &HubAnswer,
        peer: &Socket,
        primary: &Socket,
        probed: &HubPort,
    ) -> (port: Option<HubPort>)
        ensures
            match port {
                Some(port) => accepted(dev@, answer@, peer@, primary@, probed@) == Some(port@),
                None => accepted(dev@, answer@, peer@, primary@, probed@) is None,
            },
    {
        let hub: Hub = match Hub::open(dev, &answer.reply) {
            Ok(hub) => hub,
            Err(_) => {
                return None;
            },
        };
        if !hub.per_port_power || probed.port() > hub.nports {
            return None;
        }
        match HubPort::new(hub, probed.port(), answer.config) {
            Err(_) => None,
            Ok(port) => {
                if peer.is_holdable_for(primary) {
                    Some(port)
                } else {
                    None
                }
            },
        }
    }
}

impl Plan {
    #[verifier::type_invariant]
    closed spec fn inv(self) -> bool {
        &&& self.i < self.steps.len()
        &&& self.off_time.wf()
        &&& forall|k: int| 0 <= k < self.steps.len() ==> (#[trigger] self.steps@[k])@.ports.len()
            > 0
    }

    /// Go on with the cut after the one that is due.
    fn skip<'a>(self) -> (probe: Probe<'a>)
        ensures
            probe@ == self@.at(self@.i + 1),
    {
        proof {
            use_type_invariant(&self);
        }
        let Plan { steps, probed, off_time, i } = self;
        if i + 1 < steps.len() {
            return Probe::Ask(
                Asking {
                    say: String::new(),
                    plan: Plan { steps, probed, off_time, i: i + 1 },
                    restored: false,
                },
            );
        }
        let mut say: String =
            "\nno step cut the power. Either the other half is on a hub that switches power in ganged mode (then this receptacle cannot be cut at all), or its port ".to_owned();
        put_dec(&mut say, probed.port() as u64);
        say.append(
            " is occupied, or the hub does not act on PORT_POWER (check with a meter)\n",
        );
        Probe::gave_up(say)
    }

    /// The cut that is due made the LED go dark.
    fn found<'a>(self) -> (probe: Probe<'a>)
        ensures
            probe@ == self@.found(),
    {
        proof {
            use_type_invariant(&self);
        }
        let step: &Cut = &self.steps[self.i];
        assert(step@ == self@.steps[self@.i]);
        let mut what: String = if self.i == 0 {
            let mut what: String = self.probed.to_text();
            what.append(" cuts VBUS by itself");
            what
        } else {
            let mut what: String = step.ports_text();
            what.append(" share a receptacle");
            what
        };
        let mut say: String = "\n".to_owned();
        say.append(what.as_str());
        say.append(". Declare this line in your hub pairs:\n\n    ");
        say.append(step.line.as_str());
        say.append("\n\n");
        Probe::Done(Ended { say, outcome: Ok(Some(step.line.clone())) })
    }
}

/// The probe was quit.
fn quit<'a>() -> (probe: Probe<'a>)
    ensures
        probe@ == gave_up("quit - every port is restored\n"@),
{
    Probe::gave_up("quit - every port is restored\n".to_owned())
}

impl Asking {
    /// What to write before the prompt.
    pub fn say(&self) -> (say: &str)
        ensures
            say@ == self@.say,
    {
        self.say.as_str()
    }

    /// The prompt.
    pub fn prompt(&self) -> (s: String)
        ensures
            s@ == self@.prompt(),
    {
        if self.restored {
            return "   restored. LED went dark? [y=dark, Enter=lit, q=quit] ".to_owned();
        }
        let plan: &Plan = &self.plan;
        proof {
            use_type_invariant(plan);
        }
        let step: &Cut = &plan.steps[plan.i];
        assert(step@ == self@.plan.steps[self@.plan.i]);
        let mut s: String = "step ".to_owned();
        put_dec(&mut s, plan.i as u64 + 1);
        s.append("/");
        put_dec(&mut s, plan.steps.len() as u64);
        s.append(": cut ");
        s.append(step.ports_text().as_str());
        s.append(" [Enter=cut, n=skip, q=quit] ");
        s
    }

    /// What was typed, or why nothing could be read, as the system describes
    /// it.
    pub fn answer<'a>(self, typed: Result<&str, String>) -> (probe: Probe<'a>)
        ensures
            probe@ == self@.answered(
                match typed {
                    Ok(typed) => Ok(typed@),
                    Err(reason) => Err(reason@),
                },
            ),
    {
        let Asking { say, plan, restored } = self;
        let typed: &str = match typed {
            Ok(typed) => typed,
            Err(reason) => {
                return Probe::failed(Error::Io(reason));
            },
        };
        match Answer::parse(typed, !restored) {
            Answer::Quit => quit(),
            Answer::No => plan.skip(),
            Answer::Yes => {
                if restored {
                    return plan.found();
                }
                proof {
                    use_type_invariant(&plan);
                }
                let run: Switching = Switching::start(
                    Mode::Blink,
                    plan.steps[plan.i].ports.len() - 1,
                    plan.off_time,
                    plan.probed.to_text(),
                );
                Probe::Cut(Cutting { plan, run })
            },
        }
    }
}

impl Cutting {
    /// The step to take.
    pub fn step(&self) -> (step: Step)
        ensures
            step == self@.run.step(),
    {
        self.run.step()
    }

    /// The port that a step names.
    pub fn port(&self, which: Which) -> (port: Option<&HubPort>)
        ensures
            ({
                let ports = self@.plan.steps[self@.plan.i].ports;
                match (which, port) {
                    (Which::Primary, Some(port)) => port@ == ports.last(),
                    (Which::Primary, None) => false,
                    (Which::Held(i), Some(port)) => i < ports.len() - 1 && port@
                        == ports[i as int],
                    (Which::Held(i), None) => i >= ports.len() - 1,
                }
            }),
    {
        let plan: &Plan = &self.plan;
        proof {
            use_type_invariant(plan);
        }
        let step: &Cut = &plan.steps[plan.i];
        assert(step@ == self@.plan.steps[self@.plan.i]);
        let ports: &Vec<HubPort> = &step.ports;
        assert(ports.len() == step@.ports.len());
        match which {
            Which::Primary => Some(&ports[ports.len() - 1]),
            Which::Held(i) => {
                if i < ports.len() - 1 {
                    Some(&ports[i])
                } else {
                    None
                }
            },
        }
    }

    /// What came of the step.
    ///
    /// The ports are cut in order, and restored in reverse order whatever the
    /// cut did; the first failure of either ends the probe.
    pub fn report<'a>(self, report: Report) -> (probe: Probe<'a>)
        ensures
            probe@ == self@.reported(report@),
    {
        let Cutting { plan, run } = self;
        let run: Switching = run.report(report);
        match run.step() {
            Step::Finished => match run.outcome() {
                Err(e) => Probe::failed(e),
                Ok(()) => Probe::Ask(Asking { say: String::new(), plan, restored: true }),
            },
            _ => Probe::Cut(Cutting { plan, run }),
        }
    }
}

} // verus!
