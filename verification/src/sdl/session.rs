//! The connected-mode session: one link driven through the generated tables.

use ax25sdl::{Ax25Event, TransitionSpec};
use vstd::prelude::*;

use super::context;
use super::context::{Edit, Link, PayloadView, SessionContext};
use super::dispatch;
use super::dispatch::{execute_actions, MAX_NESTING};
use super::drawn;
use super::event::{Event, Trigger};
use super::guard;
use super::guard::eval_guard;
use super::keeping;
use super::signal;
use super::signal::{SessionSink, Signal};
use super::tables::{same_event, Charts, SdlTables};
use super::timer::{TimerService, TimerSnapshot};
use super::tx::{Machine, Tx};
use super::verbs::{Fault, Outcome};
use crate::text::same_text;

verus! {

/// The states of the data-link machine.
#[derive(Debug, Clone, Copy, PartialEq, Eq, Structural)]
pub enum State {
    /// No connection.
    Disconnected,
    /// SABM sent, awaiting UA or DM.
    AwaitingConnection,
    /// SABME sent, awaiting UA, DM or FRMR.
    AwaitingV22Connection,
    /// DISC sent, awaiting UA or DM.
    AwaitingRelease,
    /// Information transfer.
    Connected,
    /// A poll is outstanding.
    TimerRecovery,
}

impl State {
    /// The name that the tables use for this state.
    pub open spec fn label(self) -> Seq<char> {
        match self {
            State::Disconnected => "Disconnected"@,
            State::AwaitingConnection => "AwaitingConnection"@,
            State::AwaitingV22Connection => "AwaitingV22Connection"@,
            State::AwaitingRelease => "AwaitingRelease"@,
            State::Connected => "Connected"@,
            State::TimerRecovery => "TimerRecovery"@,
        }
    }

    /// The state that the tables call `name`.
    pub open spec fn called(name: Seq<char>) -> Option<State> {
        if name == State::Disconnected.label() {
            Some(State::Disconnected)
        } else if name == State::AwaitingConnection.label() {
            Some(State::AwaitingConnection)
        } else if name == State::AwaitingV22Connection.label() {
            Some(State::AwaitingV22Connection)
        } else if name == State::AwaitingRelease.label() {
            Some(State::AwaitingRelease)
        } else if name == State::Connected.label() {
            Some(State::Connected)
        } else if name == State::TimerRecovery.label() {
            Some(State::TimerRecovery)
        } else {
            None
        }
    }

    /// The name that the tables use for this state.
    pub fn name(self) -> (r: &'static str)
        ensures
            r@ == self.label(),
    {
        match self {
            State::Disconnected => "Disconnected",
            State::AwaitingConnection => "AwaitingConnection",
            State::AwaitingV22Connection => "AwaitingV22Connection",
            State::AwaitingRelease => "AwaitingRelease",
            State::Connected => "Connected",
            State::TimerRecovery => "TimerRecovery",
        }
    }

    /// The state that the tables call `name`, if there is one.
    pub fn from_name(name: &str) -> (r: Option<State>)
        ensures
            r == State::called(name@),
    {
        if same_text(name, "Disconnected") {
            Some(State::Disconnected)
        } else if same_text(name, "AwaitingConnection") {
            Some(State::AwaitingConnection)
        } else if same_text(name, "AwaitingV22Connection") {
            Some(State::AwaitingV22Connection)
        } else if same_text(name, "AwaitingRelease") {
            Some(State::AwaitingRelease)
        } else if same_text(name, "Connected") {
            Some(State::Connected)
        } else if same_text(name, "TimerRecovery") {
            Some(State::TimerRecovery)
        } else {
            None
        }
    }
}

/// Every state is found again by its name.
pub proof fn law_state_names_round_trip(state: State)
    ensures
        State::called(state.label()) == Some(state),
{
    reveal_strlit("Disconnected");
    reveal_strlit("AwaitingConnection");
    reveal_strlit("AwaitingV22Connection");
    reveal_strlit("AwaitingRelease");
    reveal_strlit("Connected");
    reveal_strlit("TimerRecovery");
    let d: Seq<char> = "Disconnected"@;
    let a: Seq<char> = "AwaitingConnection"@;
    let v: Seq<char> = "AwaitingV22Connection"@;
    let r: Seq<char> = "AwaitingRelease"@;
    let c: Seq<char> = "Connected"@;
    let t: Seq<char> = "TimerRecovery"@;
    assert(d.len() == 12 && a.len() == 18 && v.len() == 21 && r.len() == 15 && c.len() == 9
        && t.len() == 13);
}

// ─── What an event does ─────────────────────────────────────────────────────

/// The first transition at or after index `i` that is keyed on the event and whose
/// guard holds.
pub open spec fn first_match(
    page: Seq<TransitionSpec>,
    link: Link,
    timers: TimerSnapshot,
    t: Trigger,
    i: int,
) -> Option<TransitionSpec>
    decreases page.len() - i,
{
    if i < 0 || i >= page.len() {
        None
    } else if page[i].on == t.on && guard::guard_holds(page[i].guard@, link, timers, t) {
        Some(page[i])
    } else {
        first_match(page, link, timers, t, i + 1)
    }
}

/// The first transition at or after index `i` that is keyed on `on`.
pub open spec fn first_on(page: Seq<TransitionSpec>, on: Ax25Event, i: int) -> Option<
    TransitionSpec,
>
    decreases page.len() - i,
{
    if i < 0 || i >= page.len() {
        None
    } else if page[i].on == on {
        Some(page[i])
    } else {
        first_on(page, on, i + 1)
    }
}

/// The link at the start of an event. A T1 expiry after progress keeps the retry
/// counter below N2, where that correction is on.
pub open spec fn roused(link: Link, on: Ax25Event) -> Link {
    if on == Ax25Event::T1Expiry && link.quirks.ack_progress_resets_rc && link.ack_progress {
        let noted: Link = link.edited(Edit::AckProgress(false));
        if link.n2 > 0 && link.rc >= link.n2 {
            noted.edited(Edit::Rc((link.n2 - 1) as u32))
        } else {
            noted
        }
    } else {
        link
    }
}

/// The transition that stands in for a matched one: a DM that refuses a SABME
/// runs the FRMR transition, where that correction is on.
pub open spec fn degraded(matched: TransitionSpec, page: Seq<TransitionSpec>, link: Link) ->
    TransitionSpec {
    if link.quirks.dm_rejection_degrades_to_v20 && link.is_extended && matched.on
        == Ax25Event::DMReceived && matched.from@ == State::AwaitingV22Connection.label() {
        match first_on(page, Ax25Event::FRMRReceived, 0) {
            Some(frmr) => frmr,
            None => matched,
        }
    } else {
        matched
    }
}

/// A refusal of version 2.2 forces version 2.0 before the actions run.
pub open spec fn falls_back(link: Link, tr: TransitionSpec, on: Ax25Event) -> bool {
    &&& link.is_extended
    &&& tr.from@ == State::AwaitingV22Connection.label()
    &&& (link.quirks.frmr_fallback_reestablishes_v20 && tr.on == Ax25Event::FRMRReceived
        || link.quirks.dm_rejection_degrades_to_v20 && on == Ax25Event::DMReceived)
}

/// The link that the actions of a transition start from.
pub open spec fn prepared(link: Link, tr: TransitionSpec, on: Ax25Event) -> Link {
    let expired: Link = if on == Ax25Event::T1Expiry {
        link.edited(Edit::T1Expired(true))
    } else {
        link
    };
    if falls_back(expired, tr, on) {
        expired.edited(Edit::Extended(false))
    } else {
        expired
    }
}

/// The state that a transition leads to. A modulo-128 connect request goes to the
/// version 2.2 establishment, where that correction is on.
pub open spec fn successor(link: Link, tr: TransitionSpec) -> Option<State> {
    if link.quirks.mod128_connect_routes_to_v22 && link.is_extended && tr.from@
        == State::Disconnected.label() && tr.on == Ax25Event::DLCONNECTRequest && tr.next@
        == State::AwaitingConnection.label() {
        Some(State::AwaitingV22Connection)
    } else {
        State::called(tr.next@)
    }
}

/// A session after an event: its state and link, the timers, what it emitted, and
/// what stopped it if anything did.
pub struct Drive {
    pub state: State,
    pub link: Link,
    pub timers: TimerSnapshot,
    pub out: Seq<Signal>,
    pub fault: Option<Fault>,
}

/// A session to which nothing happened.
pub open spec fn at_rest(state: State, link: Link, timers: TimerSnapshot) -> Drive {
    Drive { state, link, timers, out: Seq::empty(), fault: None }
}

/// A session after the actions of a transition. A fault leaves the state and puts
/// the timers back.
pub open spec fn settled(
    state: State,
    timers: TimerSnapshot,
    tr: TransitionSpec,
    o: Outcome,
) -> Drive {
    let stuck: Option<Fault> = match o.fault {
        Some(fault) => Some(fault),
        None => match successor(o.machine.link, tr) {
            Some(_) => None,
            None => Some(Fault::UnknownState),
        },
    };
    if stuck is Some {
        Drive { state, link: o.machine.link, timers, out: o.machine.out, fault: stuck }
    } else {
        Drive {
            state: successor(o.machine.link, tr)->0,
            link: o.machine.link,
            timers: o.machine.timers,
            out: o.machine.out,
            fault: None,
        }
    }
}

/// What one event does: the first transition that matches runs, and without one
/// the event is dropped.
pub open spec fn dispatched(
    charts: Charts,
    state: State,
    link: Link,
    timers: TimerSnapshot,
    t: Trigger,
) -> Drive {
    let ready: Link = roused(link, t.on);
    match first_match(charts.page(state), ready, timers, t, 0) {
        None => at_rest(state, ready, timers),
        Some(matched) => {
            let tr: TransitionSpec = degraded(matched, charts.page(state), ready);
            settled(
                state,
                timers,
                tr,
                dispatch::run_actions(
                    charts.subroutines,
                    MAX_NESTING as nat,
                    tr.actions@,
                    tr.loops@,
                    0,
                    Machine::start(prepared(ready, tr, t.on), timers),
                    t,
                ),
            )
        },
    }
}

/// Whether an I frame may be sent now: in a state of information transfer, to a
/// peer that is not busy, with room in the window.
pub open spec fn may_transmit(state: State, link: Link) -> bool {
    &&& state == State::Connected || state == State::TimerRecovery
    &&& !link.peer_receiver_busy
    &&& link.outstanding() < (link.window() as u16)
}

/// The event of a payload that pops off the transmit queue.
pub open spec fn popped(payload: PayloadView) -> Trigger {
    Trigger {
        on: Ax25Event::IFramePopsOffQueue,
        frame: None,
        data: Some((payload.pid, payload.data)),
    }
}

/// One event never lengthens the transmit queue, unless it is a DL-DATA request,
/// and never changes the corrections or the node's policy.
pub proof fn law_dispatch_keeps(
    charts: Charts,
    state: State,
    link: Link,
    timers: TimerSnapshot,
    t: Trigger,
)
    ensures
        keeping::keeps(link, dispatched(charts, state, link, timers, t).link, t.on),
{
    let ready: Link = roused(link, t.on);
    keeping::lemma_edit_keeps(link, Edit::AckProgress(false));
    keeping::lemma_edit_keeps(
        link.edited(Edit::AckProgress(false)),
        Edit::Rc((link.n2 - 1) as u32),
    );
    if let Some(matched) = first_match(charts.page(state), ready, timers, t, 0) {
        let tr: TransitionSpec = degraded(matched, charts.page(state), ready);
        keeping::lemma_edit_keeps(ready, Edit::T1Expired(true));
        keeping::lemma_edit_keeps(ready, Edit::Extended(false));
        keeping::lemma_edit_keeps(ready.edited(Edit::T1Expired(true)), Edit::Extended(false));
        keeping::lemma_actions_keep(
            charts.subroutines,
            MAX_NESTING as nat,
            tr.actions@,
            tr.loops@,
            0,
            Machine::start(prepared(ready, tr, t.on), timers),
            t,
        );
    }
}

/// One step of the drain: the first payload of the queue pops off.
pub open spec fn popped_once(charts: Charts, d: Drive) -> Drive {
    let sent: Drive = dispatched(
        charts,
        d.state,
        d.link.unqueued(),
        d.timers,
        popped(d.link.i_frame_queue[0]),
    );
    Drive { out: d.out + sent.out, ..sent }
}

/// The queue drains: while a payload waits and an I frame may be sent, the first
/// one pops off.
pub open spec fn drained(charts: Charts, d: Drive) -> Drive
    decreases d.link.i_frame_queue.len(),
{
    if d.fault is Some || d.link.i_frame_queue.len() == 0 || !may_transmit(d.state, d.link) {
        d
    } else {
        proof {
            lemma_pop_shortens(charts, d);
        }
        drained(charts, popped_once(charts, d))
    }
}

/// A payload that pops off leaves the queue shorter.
pub proof fn lemma_pop_shortens(charts: Charts, d: Drive)
    requires
        d.link.i_frame_queue.len() > 0,
    ensures
        popped_once(charts, d).link.i_frame_queue.len() < d.link.i_frame_queue.len(),
{
    reveal(Link::with_queue);
    law_dispatch_keeps(
        charts,
        d.state,
        d.link.unqueued(),
        d.timers,
        popped(d.link.i_frame_queue[0]),
    );
}

/// What an event posted into a session does: it is dispatched, and then the
/// transmit queue drains.
pub open spec fn driven(
    charts: Charts,
    state: State,
    link: Link,
    timers: TimerSnapshot,
    t: Trigger,
) -> Drive {
    drained(charts, dispatched(charts, state, link, timers, t))
}

/// When a drive ends without a fault, nothing that could be sent is left waiting.
pub proof fn law_drain_is_complete(charts: Charts, d: Drive)
    ensures
        ({
            let end: Drive = drained(charts, d);
            end.fault is Some || end.link.i_frame_queue.len() == 0 || !may_transmit(
                end.state,
                end.link,
            )
        }),
    decreases d.link.i_frame_queue.len(),
{
    if d.fault is None && d.link.i_frame_queue.len() > 0 && may_transmit(d.state, d.link) {
        lemma_pop_shortens(charts, d);
        law_drain_is_complete(charts, popped_once(charts, d));
    }
}

/// While the window is full, the peer is busy or no connection stands, nothing leaves
/// the transmit queue.
pub proof fn law_a_blocked_queue_waits(charts: Charts, d: Drive)
    requires
        d.link.outstanding() >= (d.link.window() as u16) || d.link.peer_receiver_busy || !(d.state
            == State::Connected || d.state == State::TimerRecovery),
    ensures
        drained(charts, d) == d,
{
}

/// What a drive emitted stays emitted: the drain only adds to it.
pub proof fn law_drain_only_adds(charts: Charts, d: Drive)
    ensures
        d.out.is_prefix_of(drained(charts, d).out),
    decreases d.link.i_frame_queue.len(),
{
    if d.fault is None && d.link.i_frame_queue.len() > 0 && may_transmit(d.state, d.link) {
        lemma_pop_shortens(charts, d);
        law_drain_only_adds(charts, popped_once(charts, d));
    }
}

/// An event that no transition is keyed on is dropped.
pub proof fn law_unhandled_events_are_dropped(
    charts: Charts,
    state: State,
    link: Link,
    timers: TimerSnapshot,
    t: Trigger,
)
    requires
        forall|i: int|
            0 <= i < charts.page(state).len() ==> (#[trigger] charts.page(state)[i]).on != t.on,
    ensures
        dispatched(charts, state, link, timers, t) == at_rest(state, roused(link, t.on), timers),
{
    lemma_no_match(charts.page(state), roused(link, t.on), timers, t, 0);
}

proof fn lemma_no_match(
    page: Seq<TransitionSpec>,
    link: Link,
    timers: TimerSnapshot,
    t: Trigger,
    i: int,
)
    requires
        forall|j: int| 0 <= j < page.len() ==> (#[trigger] page[j]).on != t.on,
    ensures
        first_match(page, link, timers, t, i) is None,
    decreases page.len() - i,
{
    if 0 <= i < page.len() {
        lemma_no_match(page, link, timers, t, i + 1);
    }
}

/// A fault leaves the state and the timers as they were.
pub proof fn law_fault_rolls_back(
    charts: Charts,
    state: State,
    link: Link,
    timers: TimerSnapshot,
    t: Trigger,
)
    requires
        dispatched(charts, state, link, timers, t).fault is Some,
    ensures
        dispatched(charts, state, link, timers, t).state == state,
        dispatched(charts, state, link, timers, t).timers == timers,
{
}

// ─── The session ────────────────────────────────────────────────────────────

/// One connection: its state and its link.
#[derive(Debug, Clone)]
pub struct Session {
    /// The current state.
    pub state: State,
    /// The link.
    pub context: SessionContext,
}

impl Default for Session {
    fn default() -> (s: Session)
        ensures
            s.state == State::Disconnected,
            s.context@ == Link::fresh(),
    {
        Session::new()
    }
}

impl Session {
    /// A session in `Disconnected` with default link parameters.
    pub fn new() -> (s: Session)
        ensures
            s.state == State::Disconnected,
            s.context@ == Link::fresh(),
    {
        Session { state: State::Disconnected, context: SessionContext::new() }
    }

    /// A session in a given state with default link parameters.
    pub fn in_state(state: State) -> (s: Session)
        ensures
            s.state == state,
            s.context@ == Link::fresh(),
    {
        Session { state, context: SessionContext::new() }
    }

    /// Drives one event through the generated tables, then drains the transmit
    /// queue.
    pub fn post_event<T: TimerService, S: SessionSink>(
        &mut self,
        event: Event,
        timers: &mut T,
        sink: &mut S,
    ) -> (r: Result<(), Fault>)
        ensures
            ({
                let d: Drive = driven(
                    Charts::generated(),
                    old(self).state,
                    old(self).context@,
                    old(timers).slots(),
                    event@,
                );
                &&& final(self).state == d.state
                &&& final(self).context@ == d.link
                &&& final(timers).slots() == d.timers
                &&& signal::takes_all(*old(sink), d.out, *final(sink))
                &&& dispatch::fault_of(r) == d.fault
            }),
            drawn::drawn(Charts::generated()),
    {
        let tables = SdlTables::new();
        self.post_event_over(&tables, event, timers, sink)
    }

    /// Drives one event through the given tables, then drains the transmit queue.
    pub fn post_event_over<T: TimerService, S: SessionSink>(
        &mut self,
        tables: &SdlTables,
        event: Event,
        timers: &mut T,
        sink: &mut S,
    ) -> (r: Result<(), Fault>)
        ensures
            ({
                let d: Drive = driven(
                    tables@,
                    old(self).state,
                    old(self).context@,
                    old(timers).slots(),
                    event@,
                );
                &&& final(self).state == d.state
                &&& final(self).context@ == d.link
                &&& final(timers).slots() == d.timers
                &&& signal::takes_all(*old(sink), d.out, *final(sink))
                &&& dispatch::fault_of(r) == d.fault
            }),
    {
        let first = self.dispatch_event(tables, event, timers, sink);
        let ghost d0: Drive = dispatched(
            tables@,
            old(self).state,
            old(self).context@,
            old(timers).slots(),
            event@,
        );
        let ghost end: Drive = drained(tables@, d0);
        let mut r = first;
        let ghost mut d: Drive = d0;
        while r.is_ok() && self.can_drain()
            invariant
                end == drained(tables@, d0),
                end == drained(tables@, d),
                self.state == d.state,
                self.context@ == d.link,
                timers.slots() == d.timers,
                signal::takes_all(*old(sink), d.out, *sink),
                dispatch::fault_of(r) == d.fault,
            decreases self.context@.i_frame_queue.len(),
        {
            let ghost before: Drive = d;
            let ghost sink_before = *sink;
            proof {
                lemma_pop_shortens(tables@, d);
            }
            match self.context.dequeue() {
                Some(entry) => {
                    let ghost payload = entry@;
                    let popped_event = Event::IFramePopsOffQueue(entry.pid, entry.data);
                    assert(popped_event@ == popped(payload));
                    r = self.dispatch_event(tables, popped_event, timers, sink);
                    proof {
                        d = popped_once(tables@, before);
                        let sent: Drive = dispatched(
                            tables@,
                            before.state,
                            before.link.unqueued(),
                            before.timers,
                            popped(payload),
                        );
                        signal::law_takes_all_concatenates(
                            *old(sink),
                            before.out,
                            sink_before,
                            sent.out,
                            *sink,
                        );
                    }
                },
                None => {
                },
            }
        }
        r
    }

    /// Dispatches one event: the first transition that matches runs.
    fn dispatch_event<T: TimerService, S: SessionSink>(
        &mut self,
        tables: &SdlTables,
        event: Event,
        timers: &mut T,
        sink: &mut S,
    ) -> (r: Result<(), Fault>)
        ensures
            ({
                let d: Drive = dispatched(
                    tables@,
                    old(self).state,
                    old(self).context@,
                    old(timers).slots(),
                    event@,
                );
                &&& final(self).state == d.state
                &&& final(self).context@ == d.link
                &&& final(timers).slots() == d.timers
                &&& signal::takes_all(*old(sink), d.out, *final(sink))
                &&& dispatch::fault_of(r) == d.fault
            }),
    {
        let page = tables.transitions(self.state);
        self.rouse(&event);
        let matched = match find_match(page, &self.context, timers, &event) {
            Some(matched) => matched,
            None => {
                return Ok(());
            },
        };
        let snapshot = timers.capture();
        let tr = self.resolve_dm_degrade_match(matched, page);
        self.apply_pre_execution_quirks(&tr, &event);
        let ran = {
            let mut tx = Tx::over(&mut self.context, timers, sink, event, tables.subroutines);
            execute_actions(tr.actions, tr.loops, &mut tx)
        };
        if let Err(fault) = ran {
            timers.restore(snapshot);
            return Err(fault);
        }
        match self.resolve_next_state(&tr) {
            Some(next) => {
                self.state = next;
                Ok(())
            },
            None => {
                timers.restore(snapshot);
                Err(Fault::UnknownState)
            },
        }
    }

    /// A T1 expiry after progress keeps the retry counter below N2.
    fn rouse(&mut self, event: &Event)
        ensures
            final(self).state == old(self).state,
            final(self).context@ == roused(old(self).context@, event@.on),
    {
        proof {
            context::lemma_fields(self.context);
        }
        if matches!(event, Event::T1Expiry) && self.context.quirks.ack_progress_resets_rc
            && self.context.ack_progress {
            let rc: u32 = self.context.rc;
            let n2: u32 = self.context.n2;
            self.context.edit(Edit::AckProgress(false));
            if n2 > 0 && rc >= n2 {
                self.context.edit(Edit::Rc(n2 - 1));
            }
        }
    }

    /// The state that a transition leads to.
    fn resolve_next_state(&self, tr: &TransitionSpec) -> (r: Option<State>)
        ensures
            r == successor(self.context@, *tr),
    {
        proof {
            context::lemma_fields(self.context);
        }
        if self.context.quirks.mod128_connect_routes_to_v22 && self.context.is_extended
            && same_text(tr.from, "Disconnected") && matches!(tr.on, Ax25Event::DLCONNECTRequest)
            && same_text(tr.next, "AwaitingConnection") {
            return Some(State::AwaitingV22Connection);
        }
        State::from_name(tr.next)
    }

    /// The transition that stands in for a matched one.
    fn resolve_dm_degrade_match(
        &self,
        matched: TransitionSpec,
        page: &[TransitionSpec],
    ) -> (r: TransitionSpec)
        ensures
            r == degraded(matched, page@, self.context@),
    {
        proof {
            context::lemma_fields(self.context);
        }
        if self.context.quirks.dm_rejection_degrades_to_v20 && self.context.is_extended
            && matches!(matched.on, Ax25Event::DMReceived) && same_text(
            matched.from,
            "AwaitingV22Connection",
        ) {
            match find_on(page, Ax25Event::FRMRReceived) {
                Some(frmr) => frmr,
                None => matched,
            }
        } else {
            matched
        }
    }

    /// What takes effect before the actions of a transition run.
    fn apply_pre_execution_quirks(&mut self, tr: &TransitionSpec, event: &Event)
        ensures
            final(self).state == old(self).state,
            final(self).context@ == prepared(old(self).context@, *tr, event@.on),
    {
        if matches!(event, Event::T1Expiry) {
            self.context.edit(Edit::T1Expired(true));
        }
        proof {
            context::lemma_fields(self.context);
        }
        let refused_by_frmr = self.context.quirks.frmr_fallback_reestablishes_v20 && matches!(
            tr.on,
            Ax25Event::FRMRReceived
        );
        let refused_by_dm = self.context.quirks.dm_rejection_degrades_to_v20 && matches!(
            event,
            Event::DmReceived(_)
        );
        if self.context.is_extended && (refused_by_frmr || refused_by_dm) && same_text(
            tr.from,
            "AwaitingV22Connection",
        ) {
            self.context.edit(Edit::Extended(false));
        }
    }

    /// Whether a payload waits and an I frame may be sent now.
    fn can_drain(&self) -> (r: bool)
        ensures
            r == (self.context@.i_frame_queue.len() > 0 && may_transmit(
                self.state,
                self.context@,
            )),
    {
        !self.context.queue_is_empty() && self.can_transmit_i_frame()
    }

    /// Whether an I frame may be sent now.
    pub fn can_transmit_i_frame(&self) -> (r: bool)
        ensures
            r == may_transmit(self.state, self.context@),
    {
        proof {
            context::lemma_fields(self.context);
        }
        if !matches!(self.state, State::Connected | State::TimerRecovery) {
            return false;
        }
        if self.context.peer_receiver_busy {
            return false;
        }
        self.context.outstanding_count() < (self.context.effective_window() as u16)
    }
}

/// The first transition that is keyed on the event and whose guard holds.
fn find_match<T: TimerService>(
    page: &[TransitionSpec],
    ctx: &SessionContext,
    timers: &T,
    event: &Event,
) -> (r: Option<TransitionSpec>)
    ensures
        r == first_match(page@, ctx@, timers.slots(), event@, 0),
{
    let on = event.to_sdl();
    let mut i: usize = 0;
    while i < page.len()
        invariant
            on == event@.on,
            i <= page@.len(),
            first_match(page@, ctx@, timers.slots(), event@, 0) == first_match(
                page@,
                ctx@,
                timers.slots(),
                event@,
                i as int,
            ),
        decreases page@.len() - i,
    {
        if same_event(page[i].on, on) && eval_guard(page[i].guard, ctx, timers, event) {
            return Some(page[i]);
        }
        i = i + 1;
    }
    None
}

/// The first transition that is keyed on `on`.
fn find_on(page: &[TransitionSpec], on: Ax25Event) -> (r: Option<TransitionSpec>)
    ensures
        r == first_on(page@, on, 0),
{
    let mut i: usize = 0;
    while i < page.len()
        invariant
            i <= page@.len(),
            first_on(page@, on, 0) == first_on(page@, on, i as int),
        decreases page@.len() - i,
    {
        if same_event(page[i].on, on) {
            return Some(page[i]);
        }
        i = i + 1;
    }
    None
}

/// What one more event does to a session that has come as far as `d`.
#[verifier::opaque]
pub open spec fn driven_on(charts: Charts, d: Drive, t: Trigger) -> Drive {
    let next: Drive = driven(charts, d.state, d.link, d.timers, t);
    Drive { out: d.out + next.out, ..next }
}

/// What a run of events does: each is driven in turn, up to the first fault.
pub open spec fn driven_all(charts: Charts, d: Drive, events: Seq<Event>) -> Drive
    decreases events.len(),
{
    if events.len() == 0 || d.fault is Some {
        d
    } else {
        driven_all(charts, driven_on(charts, d, events[0]@), events.drop_first())
    }
}

/// A run of events from the one at `k` on is that event and the run behind it.
proof fn lemma_one_more_event(charts: Charts, d: Drive, events: Seq<Event>, k: int)
    requires
        0 <= k < events.len(),
        d.fault is None,
    ensures
        driven_all(charts, d, events.skip(k)) == driven_all(
            charts,
            driven_on(charts, d, events[k]@),
            events.skip(k + 1),
        ),
{
    assert(events.skip(k).drop_first() =~= events.skip(k + 1));
    assert(events.skip(k)[0] == events[k]);
}

/// Drives one more event of a run.
fn post_next<T: TimerService, S: SessionSink>(
    session: &mut Session,
    event: Event,
    timers: &mut T,
    sink: &mut S,
    Ghost(start): Ghost<S>,
    Ghost(d): Ghost<Drive>,
) -> (r: Result<(), Fault>)
    requires
        old(session).state == d.state,
        old(session).context@ == d.link,
        old(timers).slots() == d.timers,
        signal::takes_all(start, d.out, *old(sink)),
    ensures
        ({
            let after: Drive = driven_on(Charts::generated(), d, event@);
            &&& final(session).state == after.state
            &&& final(session).context@ == after.link
            &&& final(timers).slots() == after.timers
            &&& signal::takes_all(start, after.out, *final(sink))
            &&& dispatch::fault_of(r) == after.fault
        }),
{
    let ghost next: Drive = driven(Charts::generated(), d.state, d.link, d.timers, event@);
    let ghost before = *sink;
    let r = session.post_event(event, timers, sink);
    proof {
        reveal(driven_on);
        signal::law_takes_all_concatenates(start, d.out, before, next.out, *sink);
    }
    r
}

/// Drives a sequence of events, up to the first fault.
pub fn post_all<T: TimerService, S: SessionSink>(
    session: &mut Session,
    events: Vec<Event>,
    timers: &mut T,
    sink: &mut S,
) -> (r: Result<(), Fault>)
    ensures
        ({
            let d: Drive = driven_all(
                Charts::generated(),
                at_rest(old(session).state, old(session).context@, old(timers).slots()),
                events@,
            );
            &&& final(session).state == d.state
            &&& final(session).context@ == d.link
            &&& final(timers).slots() == d.timers
            &&& signal::takes_all(*old(sink), d.out, *final(sink))
            &&& dispatch::fault_of(r) == d.fault
        }),
{
    let ghost d0: Drive = at_rest(session.state, session.context@, timers.slots());
    let ghost all: Seq<Event> = events@;
    let ghost end: Drive = driven_all(Charts::generated(), d0, all);
    let ghost mut d: Drive = d0;
    assert(all.skip(0) =~= all);
    for event in it: events
        invariant
            it.seq() == all,
            end == driven_all(Charts::generated(), d0, all),
            end == driven_all(Charts::generated(), d, all.skip(it.index())),
            d0 == at_rest(old(session).state, old(session).context@, old(timers).slots()),
            d.fault is None,
            session.state == d.state,
            session.context@ == d.link,
            timers.slots() == d.timers,
            signal::takes_all(*old(sink), d.out, *sink),
    {
        let ghost posted = event@;
        let ghost before: Drive = d;
        let r = post_next(session, event, timers, sink, Ghost(*old(sink)), Ghost(d));
        proof {
            lemma_one_more_event(Charts::generated(), before, all, it.index());
            d = driven_on(Charts::generated(), before, posted);
        }
        if let Err(fault) = r {
            return Err(fault);
        }
    }
    Ok(())
}

} // verus!
