//! The sessions of a node: one for each peer, in a fixed number of slots.

use ax25sdl::Ax25Event;
use vstd::prelude::*;

use super::acknowledging;
use super::bridge;
use super::bridge::{SinkView, WireSink};
use super::capability::PeerDialPlan;
use super::carrier::CarrierSense;
use super::conduct;
use super::context;
use super::context::{Edit, Link};
use super::drawn;
use super::event::{Event, Trigger};
use super::mdl;
use super::mdl::{
    apply_negotiated, begin_pre_connect_xid, respond_pre_session_xid, revert_pre_connect_xid,
};
use super::session;
use super::session::{Drive, Session, State};
use super::signal::{DataLinkSignal, DataLinkSignalView, FrameSpec, FrameSpecView, Signal};
use super::tables::Charts;
use super::timer::{TimerService, TimerSnapshot};
use super::verbs::Fault;
use crate::ax25::callsign::{Callsign, CallsignView};
use crate::ax25::xid::info_field;
use crate::ax25::xid::XidParameters;

verus! {

/// The most times that the channel is granted after one event.
pub const MAX_GRANTS: u8 = 4;

/// An XID command that we sent before the connect, and that awaits its answer.
#[derive(Debug, Clone, Copy)]
pub struct XidProbe {
    /// What we offered.
    pub offered: XidParameters,
    /// The callsign that we dial as.
    pub local: Callsign,
}

/// What a probe holds.
pub struct ProbeView {
    pub offered: XidParameters,
    pub local: CallsignView,
}

impl View for XidProbe {
    type V = ProbeView;

    open spec fn view(&self) -> ProbeView {
        ProbeView { offered: self.offered, local: self.local@ }
    }
}

/// What an optional probe holds.
pub open spec fn probe_view(probe: Option<XidProbe>) -> Option<ProbeView> {
    match probe {
        Some(p) => Some(p@),
        None => None,
    }
}

/// One link: the peer, its session, and the sink of its session.
#[derive(Debug, Clone)]
pub struct Slot {
    /// The peer.
    pub peer: Callsign,
    /// The session.
    pub session: Session,
    /// What the session sends and signals.
    pub sink: WireSink,
    /// A probe that awaits its answer.
    pub xid_probe: Option<XidProbe>,
    /// What stopped the session at its last event, if anything did.
    pub fault: Option<Fault>,
}

/// What a slot holds.
pub struct SlotView {
    pub peer: CallsignView,
    pub state: State,
    pub link: Link,
    pub sink: SinkView,
    pub probe: Option<ProbeView>,
    pub fault: Option<Fault>,
}

impl View for Slot {
    type V = SlotView;

    open spec fn view(&self) -> SlotView {
        SlotView {
            peer: self.peer@,
            state: self.session.state,
            link: self.session.context@,
            sink: self.sink@,
            probe: probe_view(self.xid_probe),
            fault: self.fault,
        }
    }
}

// ─── What happens in one slot ───────────────────────────────────────────────

/// The event of a connect request.
pub open spec fn connect_request() -> Trigger {
    Trigger { on: Ax25Event::DLCONNECTRequest, frame: None, data: None }
}

/// The event of the channel being granted.
pub open spec fn seize_confirm() -> Trigger {
    Trigger { on: Ax25Event::LMSEIZEConfirm, frame: None, data: None }
}

/// The event is an XID response.
pub open spec fn is_xid_response(t: Trigger) -> bool {
    t.on == Ax25Event::XIDReceived && t.frame is Some && t.frame->0.responds()
}

/// The event is an XID command.
pub open spec fn is_xid_command(t: Trigger) -> bool {
    t.on == Ax25Event::XIDReceived && t.frame is Some && t.frame->0.is_command
}

impl SlotView {
    /// The slot with nothing left to hand out.
    #[verifier::opaque]
    pub open spec fn flushed(self) -> SlotView {
        SlotView { sink: SinkView { sent: Seq::empty(), ..self.sink }, ..self }
    }

    /// The slot whose sink counts as its link does.
    #[verifier::opaque]
    pub open spec fn aligned(self) -> SlotView {
        SlotView { sink: SinkView { extended: self.link.is_extended, ..self.sink }, ..self }
    }

    /// The slot after its session was driven.
    pub open spec fn after_drive(self, d: Drive) -> SlotView {
        SlotView {
            state: d.state,
            link: d.link,
            sink: self.sink.after_all(d.out),
            fault: d.fault,
            ..self
        }
    }

    /// The slot in which the awaited answer to our probe has been taken in.
    #[verifier::opaque]
    pub open spec fn probe_answered(self, info: Seq<u8>) -> SlotView {
        SlotView {
            link: mdl::settled_on(
                self.link,
                mdl::terms_of(self.probe->0.offered, mdl::offered_in(info)),
            ),
            probe: None,
            ..self
        }
    }

    /// The slot that has answered an XID command.
    #[verifier::opaque]
    pub open spec fn command_answered(self, info: Seq<u8>) -> SlotView {
        let link: Link = mdl::answered(mdl::seeded(self.link), mdl::offered_in(info));
        let counted: SlotView = SlotView { link, ..self }.aligned();
        SlotView {
            sink: SinkView {
                sent: counted.sink.sent.push(
                    counted.sink.encoded(
                        FrameSpecView::Xid {
                            is_command: false,
                            pf: true,
                            info: info_field::field(mdl::offer_of(link)),
                        },
                    ),
                ),
                ..counted.sink
            },
            ..counted
        }
    }

    /// The slot with a probe out.
    #[verifier::opaque]
    pub open spec fn probing(self, local: CallsignView) -> SlotView {
        let link: Link = mdl::seeded(self.link.edited(Edit::Extended(false)));
        let sink: SinkView = SinkView { extended: false, sent: Seq::empty(), ..self.sink };
        SlotView {
            link,
            sink: SinkView {
                sent: seq![
                    sink.encoded(
                        FrameSpecView::Xid {
                            is_command: true,
                            pf: true,
                            info: info_field::field(mdl::offer_of(link)),
                        },
                    ),
                ],
                ..sink
            },
            probe: Some(ProbeView { offered: mdl::offer_of(link), local }),
            ..self
        }
    }
}

/// A slot and the timers.
pub struct Desk {
    pub slot: SlotView,
    pub timers: TimerSnapshot,
}

/// What one event does to the session of a slot.
#[verifier::opaque]
pub open spec fn driven_once(charts: Charts, desk: Desk, t: Trigger) -> Desk {
    let d: Drive = session::driven(charts, desk.slot.state, desk.slot.link, desk.timers, t);
    Desk { slot: desk.slot.after_drive(d), timers: d.timers }
}

/// The channel is granted as often as the session asks for it, at most `n` times, while
/// it is clear.
pub open spec fn granted(charts: Charts, clear: bool, desk: Desk, n: nat) -> Desk
    decreases n,
{
    if n == 0 || !clear || !desk.slot.sink.seize_pending || desk.slot.fault is Some {
        desk
    } else {
        let given: SlotView = SlotView {
            sink: SinkView { seize_pending: false, ..desk.slot.sink },
            ..desk.slot
        };
        granted(
            charts,
            clear,
            driven_once(charts, Desk { slot: given, ..desk }, seize_confirm()),
            (n - 1) as nat,
        )
    }
}

/// What an event does in a slot, before what was sent is handed out.
///
/// The answer to our probe settles the link and becomes the connect request that it
/// held back. An XID command that comes before any link is answered. Any other event
/// drives the session, and the channel is granted while it is clear.
pub open spec fn exchanged(charts: Charts, clear: bool, desk: Desk, t: Trigger) -> Desk {
    let start: SlotView = desk.slot.flushed();
    if is_xid_response(t) && start.probe is Some {
        let ready: SlotView = start.probe_answered(t.frame->0.info).aligned();
        granted(
            charts,
            clear,
            driven_once(charts, Desk { slot: ready, ..desk }, connect_request()),
            MAX_GRANTS as nat,
        )
    } else if is_xid_command(t) && start.state == State::Disconnected
        && start.link.accept_incoming {
        Desk { slot: start.command_answered(t.frame->0.info), ..desk }
    } else {
        granted(
            charts,
            clear,
            driven_once(charts, Desk { slot: start.aligned(), ..desk }, t),
            MAX_GRANTS as nat,
        )
    }
}

/// While the channel is known to be busy it is never granted: the session keeps
/// waiting for it.
pub proof fn law_busy_channel_defers(charts: Charts, desk: Desk, n: nat)
    ensures
        granted(charts, false, desk, n) == desk,
{
}

/// The event drives the session: it is neither the awaited answer to our probe nor an
/// XID command that comes before any link.
pub open spec fn drives(slot: SlotView, t: Trigger) -> bool {
    &&& !(is_xid_response(t) && slot.probe is Some)
    &&& !(is_xid_command(t) && slot.state == State::Disconnected && slot.link.accept_incoming)
}

/// What an event that drives the session does in a slot, before the channel is granted.
pub open spec fn before_grant(charts: Charts, desk: Desk, t: Trigger) -> Desk {
    driven_once(charts, Desk { slot: desk.slot.flushed().aligned(), ..desk }, t)
}

/// What the session does once the channel is its own.
pub open spec fn on_grant(charts: Charts, desk: Desk) -> Drive {
    session::driven(charts, desk.slot.state, desk.slot.link, desk.timers, seize_confirm())
}

/// A session that waits for the channel gets it exactly when the channel is not known to
/// be busy.
///
/// On a busy channel nothing is done past the event itself: the session still waits, and
/// what it holds back, such as an acknowledgement, does not go out. On a clear one the
/// grant drives the session, every frame that the session then sends goes out behind
/// those of the event, and the wait is over unless the session asks anew. A wait that was
/// put off lasts through the next event, so it is decided again there.
pub proof fn law_the_channel_is_granted_exactly_when_clear(
    charts: Charts,
    clear: bool,
    desk: Desk,
    t: Trigger,
)
    requires
        drives(desk.slot, t),
    ensures
        ({
            let waiting: Desk = before_grant(charts, desk, t);
            let after: Desk = exchanged(charts, clear, desk, t);
            let reply: Drive = on_grant(charts, waiting);
            let frames: Seq<Seq<u8>> = waiting.slot.sink.frames(reply.out);
            &&& desk.slot.sink.seize_pending ==> waiting.slot.sink.seize_pending
            &&& !waiting.slot.sink.seize_pending || waiting.slot.fault is Some ==> after
                == waiting
            &&& waiting.slot.sink.seize_pending && waiting.slot.fault is None ==> {
                &&& !clear ==> after == waiting
                &&& clear ==> (waiting.slot.sink.sent + frames).is_prefix_of(
                    after.slot.sink.sent,
                )
                &&& clear ==> forall|spec: FrameSpecView| #[trigger]
                    reply.out.contains(Signal::Frame(spec)) ==> after.slot.sink.sent.contains(
                        waiting.slot.sink.encoded(spec),
                    )
                &&& !bridge::asks_for_channel(reply.out) ==> {
                    &&& after.slot.sink.seize_pending == !clear
                    &&& clear ==> {
                        &&& after.slot.sink.sent == waiting.slot.sink.sent + frames
                        &&& after.slot.state == reply.state
                        &&& after.slot.link == reply.link
                        &&& after.slot.fault == reply.fault
                        &&& after.timers == reply.timers
                    }
                }
            }
        }),
{
    let ready: SlotView = desk.slot.flushed().aligned();
    let waiting: Desk = before_grant(charts, desk, t);
    let reply: Drive = on_grant(charts, waiting);
    lemma_flushed(desk.slot);
    reveal(SlotView::aligned);
    assert(desk.slot.sink.seize_pending ==> waiting.slot.sink.seize_pending) by {
        reveal(driven_once);
        bridge::law_signals_are_taken_in_order(
            ready.sink,
            session::driven(charts, ready.state, ready.link, desk.timers, t).out,
        );
    }
    if clear && waiting.slot.sink.seize_pending && waiting.slot.fault is None {
        let given: SinkView = SinkView { seize_pending: false, ..waiting.slot.sink };
        let granted_once: Desk = driven_once(
            charts,
            Desk { slot: SlotView { sink: given, ..waiting.slot }, ..waiting },
            seize_confirm(),
        );
        lemma_same_frames(given, waiting.slot.sink, reply.out);
        bridge::law_signals_are_taken_in_order(given, reply.out);
        bridge::law_signals_are_taken_in_order(waiting.slot.sink, reply.out);
        assert(granted_once.slot == (SlotView { sink: given, ..waiting.slot }).after_drive(reply)
            && granted_once.timers == reply.timers) by {
            reveal(driven_once);
        }
        lemma_granted_keeps_sent(charts, clear, granted_once, (MAX_GRANTS - 1) as nat);
        let sent: Seq<Seq<u8>> = exchanged(charts, clear, desk, t).slot.sink.sent;
        let frames: Seq<Seq<u8>> = waiting.slot.sink.frames(reply.out);
        assert(sent == granted(charts, clear, granted_once, (MAX_GRANTS - 1) as nat).slot.sink.sent);
        assert forall|spec: FrameSpecView| #[trigger]
            reply.out.contains(Signal::Frame(spec)) implies sent.contains(
            waiting.slot.sink.encoded(spec),
        ) by {
            let k: int = choose|k: int|
                0 <= k < frames.len() && frames[k] == waiting.slot.sink.encoded(spec);
            assert((waiting.slot.sink.sent + frames)[waiting.slot.sink.sent.len() + k]
                == frames[k]);
            assert(sent[waiting.slot.sink.sent.len() + k] == frames[k]);
        }
    }
}

/// An acknowledgement that a link owes and waits to send goes out as an RR response with
/// N(R) = V(R), behind what the event itself sent, exactly when the channel is not known
/// to be busy: on a busy channel the event sends what it sends, and no more.
pub proof fn law_an_acknowledgement_waits_for_a_clear_channel(
    charts: Charts,
    clear: bool,
    desk: Desk,
    t: Trigger,
)
    requires
        drawn::drawn(charts),
        drives(desk.slot, t),
        before_grant(charts, desk, t).slot.state == State::Connected || before_grant(
            charts,
            desk,
            t,
        ).slot.state == State::TimerRecovery,
        before_grant(charts, desk, t).slot.link.acknowledge_pending,
        before_grant(charts, desk, t).slot.sink.seize_pending,
        before_grant(charts, desk, t).slot.fault is None,
    ensures
        ({
            let waiting: SlotView = before_grant(charts, desk, t).slot;
            let after: SlotView = exchanged(charts, clear, desk, t).slot;
            let before: int = waiting.sink.sent.len() as int;
            if clear {
                &&& after.sink.sent.len() > before
                &&& after.sink.sent.take(before) == waiting.sink.sent
                &&& after.sink.sent[before] == waiting.sink.encoded(
                    acknowledging::ready_response(waiting.link),
                )
            } else {
                &&& after.sink.seize_pending
                &&& after.sink.sent == waiting.sink.sent
            }
        }),
{
    let waiting: Desk = before_grant(charts, desk, t);
    let slot: SlotView = waiting.slot;
    law_the_channel_is_granted_exactly_when_clear(charts, clear, desk, t);
    if clear {
        let d: Drive = session::dispatched(
            charts,
            slot.state,
            slot.link,
            waiting.timers,
            seize_confirm(),
        );
        let reply: Drive = on_grant(charts, waiting);
        let rr: Signal = Signal::Frame(acknowledging::ready_response(slot.link));
        acknowledging::law_a_grant_acknowledges(
            charts,
            slot.state,
            slot.link,
            waiting.timers,
            seize_confirm(),
        );
        session::law_drain_only_adds(charts, d);
        assert(reply.out[0] == d.out[0]);
        assert(seq![rr].is_prefix_of(reply.out)) by {
            assert(seq![rr] =~= reply.out.subrange(0, 1));
        }
        lemma_frames_of_front(slot.sink, seq![rr], reply.out);
        lemma_one_frame(slot.sink, acknowledging::ready_response(slot.link));
        let front: Seq<Seq<u8>> = slot.sink.frames(seq![rr]);
        let frames: Seq<Seq<u8>> = slot.sink.frames(reply.out);
        assert(frames[0] == front[0]);
        let sent: Seq<Seq<u8>> = exchanged(charts, clear, desk, t).slot.sink.sent;
        let n: int = slot.sink.sent.len() as int;
        assert((slot.sink.sent + frames)[n] == frames[0]);
        assert(sent.subrange(0, n + frames.len()) == slot.sink.sent + frames);
        assert(sent.subrange(0, n + frames.len())[n] == sent[n]);
        assert(sent.take(n) =~= (slot.sink.sent + frames).take(n));
        assert((slot.sink.sent + frames).take(n) =~= slot.sink.sent);
    }
}

/// The frames of a run start with those of its front.
proof fn lemma_frames_of_front(sink: SinkView, front: Seq<Signal>, signals: Seq<Signal>)
    requires
        front.is_prefix_of(signals),
    ensures
        sink.frames(front).is_prefix_of(sink.frames(signals)),
    decreases signals.len(),
{
    if front.len() == signals.len() {
        assert(front =~= signals);
    } else {
        assert(front.is_prefix_of(signals.drop_last()));
        lemma_frames_of_front(sink, front, signals.drop_last());
        assert(sink.frames(signals.drop_last()).is_prefix_of(sink.frames(signals)));
    }
}

/// Whether the channel is awaited does not show in the frames.
proof fn lemma_same_frames(a: SinkView, b: SinkView, signals: Seq<Signal>)
    requires
        a == (SinkView { seize_pending: a.seize_pending, ..b }),
    ensures
        a.frames(signals) == b.frames(signals),
    decreases signals.len(),
{
    if signals.len() > 0 {
        lemma_same_frames(a, b, signals.drop_last());
        if let Signal::Frame(spec) = signals.last() {
            assert(a.encoded(spec) == b.encoded(spec));
        }
    }
}

/// What was sent before the channel is granted stays in front.
proof fn lemma_granted_keeps_sent(charts: Charts, clear: bool, desk: Desk, n: nat)
    ensures
        desk.slot.sink.sent.is_prefix_of(granted(charts, clear, desk, n).slot.sink.sent),
    decreases n,
{
    if !(n == 0 || !clear || !desk.slot.sink.seize_pending || desk.slot.fault is Some) {
        let given: SlotView = SlotView {
            sink: SinkView { seize_pending: false, ..desk.slot.sink },
            ..desk.slot
        };
        let next: Desk = driven_once(charts, Desk { slot: given, ..desk }, seize_confirm());
        reveal(driven_once);
        bridge::law_signals_are_taken_in_order(given.sink, on_grant(charts, desk).out);
        lemma_granted_keeps_sent(charts, clear, next, (n - 1) as nat);
    }
}

/// Answering an XID command is no connect: no state changes, no timer is touched, and
/// nothing is signalled to Layer 3. One frame is sent, and it is the answer.
pub proof fn law_answering_xid_is_no_connect(
    charts: Charts,
    clear: bool,
    desk: Desk,
    t: Trigger,
)
    requires
        is_xid_command(t),
        desk.slot.state == State::Disconnected,
        desk.slot.link.accept_incoming,
    ensures
        ({
            let after: Desk = exchanged(charts, clear, desk, t);
            &&& after.slot.state == State::Disconnected
            &&& after.timers == desk.timers
            &&& after.slot.sink.upward == desk.slot.sink.upward
            &&& after.slot.sink.sent.len() == 1
            &&& after.slot.sink.seize_pending == desk.slot.sink.seize_pending
        }),
{
    lemma_flushed(desk.slot);
    reveal(SlotView::command_answered);
    reveal(SlotView::aligned);
}

/// Handing out what was sent changes nothing else.
pub proof fn lemma_flushed(slot: SlotView)
    ensures
        slot.flushed().state == slot.state,
        slot.flushed().link == slot.link,
        slot.flushed().probe == slot.probe,
        slot.flushed().fault == slot.fault,
        slot.flushed().peer == slot.peer,
        slot.flushed().sink == (SinkView { sent: Seq::empty(), ..slot.sink }),
{
    reveal(SlotView::flushed);
}

/// Whether an event is an XID command or an XID response and, if so, whether it is the
/// command and what it says.
fn xid_received(event: &Event) -> (r: Option<(bool, Vec<u8>)>)
    ensures
        match r {
            Some((is_command, info)) => {
                &&& is_xid_command(event@) == is_command
                &&& is_xid_response(event@) == !is_command
                &&& event@.frame->0.info == info@
            },
            None => !is_xid_command(event@) && !is_xid_response(event@),
        },
{
    match event {
        Event::XidReceived(f) => {
            if f.is_command || f.is_response() {
                Some((f.is_command, context::copied(&f.info)))
            } else {
                None
            }
        },
        _ => None,
    }
}

impl Slot {
    /// Hands out what was sent.
    fn flush(&mut self) -> (r: Vec<Vec<u8>>)
        ensures
            bridge::octet_views(r@) == old(self)@.sink.sent,
            final(self)@ == old(self)@.flushed(),
    {
        let mut out: Vec<Vec<u8>> = Vec::new();
        std::mem::swap(&mut out, &mut self.sink.sent);
        proof {
            reveal(SlotView::flushed);
        }
        assert(self@.sink.sent =~= Seq::empty());
        out
    }

    /// Drives one event through the session.
    fn drive<T: TimerService>(&mut self, event: Event, timers: &mut T)
        ensures
            ({
                let after: Desk = driven_once(
                    Charts::generated(),
                    Desk { slot: old(self)@, timers: old(timers).slots() },
                    event@,
                );
                &&& final(self)@ == after.slot
                &&& final(timers).slots() == after.timers
            }),
            drawn::drawn(Charts::generated()),
    {
        let ghost d: Drive = session::driven(
            Charts::generated(),
            self@.state,
            self@.link,
            timers.slots(),
            event@,
        );
        let ghost before = self.sink;
        let r = self.session.post_event(event, timers, &mut self.sink);
        proof {
            reveal(driven_once);
            bridge::lemma_takes_all_view(before, d.out, self.sink);
        }
        self.fault = match r {
            Ok(_) => None,
            Err(fault) => Some(fault),
        };
    }

    /// Grants the channel while it is clear and the session asks for it.
    fn grant<T: TimerService>(&mut self, clear: bool, timers: &mut T)
        ensures
            ({
                let after: Desk = granted(
                    Charts::generated(),
                    clear,
                    Desk { slot: old(self)@, timers: old(timers).slots() },
                    MAX_GRANTS as nat,
                );
                &&& final(self)@ == after.slot
                &&& final(timers).slots() == after.timers
            }),
    {
        let ghost start: Desk = Desk { slot: self@, timers: timers.slots() };
        let mut left: u8 = MAX_GRANTS;
        while left > 0 && clear && self.sink.seize_pending && self.fault.is_none()
            invariant
                granted(Charts::generated(), clear, start, MAX_GRANTS as nat) == granted(
                    Charts::generated(),
                    clear,
                    Desk { slot: self@, timers: timers.slots() },
                    left as nat,
                ),
            decreases left,
        {
            self.sink.seize_pending = false;
            self.drive(Event::LmSeizeConfirm, timers);
            left = left - 1;
        }
    }

    /// Takes one event, and hands out what was sent for it.
    fn exchange<T: TimerService>(&mut self, clear: bool, event: Event, timers: &mut T) -> (r: Vec<
        Vec<u8>,
    >)
        ensures
            ({
                let after: Desk = exchanged(
                    Charts::generated(),
                    clear,
                    Desk { slot: old(self)@, timers: old(timers).slots() },
                    event@,
                );
                &&& final(self)@ == after.slot.flushed()
                &&& final(timers).slots() == after.timers
                &&& bridge::octet_views(r@) == after.slot.sink.sent
            }),
            drives(old(self)@, event@) ==> drawn::drawn(Charts::generated()),
    {
        let _ = self.flush();
        proof {
            lemma_flushed(old(self)@);
        }
        match xid_received(&event) {
            Some((is_command, info)) => {
                if !is_command && self.xid_probe.is_some() {
                    self.take_probe_answer(info.as_slice());
                    return self.take_event(clear, Event::DlConnectRequest, timers);
                }
                if is_command && self.session.state == State::Disconnected && self.accepts() {
                    self.answer_command(info.as_slice());
                    return self.flush();
                }
            },
            None => {},
        }
        self.take_event(clear, event, timers)
    }

    /// Settles the link on the answer to our probe.
    fn take_probe_answer(&mut self, info: &[u8])
        requires
            old(self)@.probe is Some,
        ensures
            final(self)@ == old(self)@.probe_answered(info@),
    {
        match self.xid_probe {
            Some(probe) => {
                let response = mdl::parse_or_silent(info);
                apply_negotiated(&mut self.session.context, &probe.offered, &response);
                self.xid_probe = None;
                proof {
                    reveal(SlotView::probe_answered);
                }
            },
            None => {},
        }
    }

    /// Answers an XID command.
    fn answer_command(&mut self, info: &[u8])
        ensures
            final(self)@ == old(self)@.command_answered(info@),
    {
        let answer = respond_pre_session_xid(&mut self.session.context, info);
        self.align();
        self.send(FrameSpec::Xid { is_command: false, pf: true, info: answer });
        proof {
            reveal(SlotView::command_answered);
            reveal(SlotView::aligned);
        }
    }

    /// Drives one event, grants the channel, and hands out what was sent.
    fn take_event<T: TimerService>(&mut self, clear: bool, event: Event, timers: &mut T) -> (r: Vec<
        Vec<u8>,
    >)
        ensures
            ({
                let after: Desk = granted(
                    Charts::generated(),
                    clear,
                    driven_once(
                        Charts::generated(),
                        Desk { slot: old(self)@.aligned(), timers: old(timers).slots() },
                        event@,
                    ),
                    MAX_GRANTS as nat,
                );
                &&& final(self)@ == after.slot.flushed()
                &&& final(timers).slots() == after.timers
                &&& bridge::octet_views(r@) == after.slot.sink.sent
            }),
            drawn::drawn(Charts::generated()),
    {
        self.align();
        self.drive(event, timers);
        self.grant(clear, timers);
        self.flush()
    }

    fn accepts(&self) -> (r: bool)
        ensures
            r == self@.link.accept_incoming,
    {
        proof {
            context::lemma_fields(self.session.context);
        }
        self.session.context.accept_incoming
    }

    fn align(&mut self)
        ensures
            final(self)@ == old(self)@.aligned(),
    {
        proof {
            context::lemma_fields(self.session.context);
            reveal(SlotView::aligned);
        }
        self.sink.extended = self.session.context.is_extended;
    }

    fn send(&mut self, spec: FrameSpec)
        ensures
            final(self)@ == (SlotView {
                sink: SinkView {
                    sent: old(self)@.sink.sent.push(old(self)@.sink.encoded(spec@)),
                    ..old(self)@.sink
                },
                ..old(self)@
            }),
    {
        let octets = self.sink.encode_spec(&spec);
        self.sink.sent.push(octets);
        assert(self@.sink.sent =~= old(self)@.sink.sent.push(octets@));
    }

    /// Sends a probe, and hands it out.
    fn probe(&mut self, local: Callsign) -> (r: Vec<Vec<u8>>)
        ensures
            final(self)@ == old(self)@.probing(local@).flushed(),
            bridge::octet_views(r@) == old(self)@.probing(local@).sink.sent,
    {
        let _ = self.flush();
        self.session.context.edit(Edit::Extended(false));
        let offered = begin_pre_connect_xid(&mut self.session.context);
        let info = info_field::encode(&offered);
        self.sink.extended = false;
        self.send(FrameSpec::Xid { is_command: true, pf: true, info });
        self.xid_probe = Some(XidProbe { offered, local });
        proof {
            reveal(SlotView::flushed);
            reveal(SlotView::probing);
        }
        assert(self@.sink.sent =~= old(self)@.probing(local@).sink.sent);
        self.flush()
    }
}

// ─── The slots of a node ────────────────────────────────────────────────────

/// What a place for a slot holds.
pub open spec fn place_view(place: Option<Slot>) -> Option<SlotView> {
    match place {
        Some(s) => Some(s@),
        None => None,
    }
}

/// What the places for slots hold.
pub open spec fn place_views(places: Seq<Option<Slot>>) -> Seq<Option<SlotView>> {
    places.map_values(|p: Option<Slot>| place_view(p))
}

/// Changing what one place holds changes what is seen of it, and of no other.
proof fn lemma_place_views(places: Seq<Option<Slot>>, i: int, place: Option<Slot>)
    requires
        0 <= i < places.len(),
    ensures
        place_views(places)[i] == place_view(places[i]),
        place_views(places.update(i, place)) == place_views(places).update(i, place_view(place)),
        places[i] == place ==> places.update(i, place) == places,
{
    assert(place_views(places.update(i, place)) =~= place_views(places).update(
        i,
        place_view(place),
    ));
    assert(places[i] == place ==> places.update(i, place) =~= places);
}

/// Puts `place` where the slot `i` was, and takes out what was there.
fn swap_place(places: &mut Vec<Option<Slot>>, i: usize, place: &mut Option<Slot>)
    requires
        i < old(places)@.len(),
    ensures
        final(places)@ == old(places)@.update(i as int, *old(place)),
        *final(place) == old(places)@[i as int],
    no_unwind
{
    std::mem::swap(&mut places[i], place);
}

/// The sessions of a node: at most `N` at a time.
pub struct SessionManager<const N: usize> {
    local: Callsign,
    prefer_extended_connect: bool,
    carrier: Option<Box<dyn CarrierSense>>,
    slots: Vec<Option<Slot>>,
}

/// What a manager holds: its callsign, its preference, whether it may find the channel
/// clear and whether it may find it busy, and its slots.
pub struct NodeView {
    pub local: CallsignView,
    pub prefer_extended_connect: bool,
    pub can_be_clear: bool,
    pub can_be_busy: bool,
    pub slots: Seq<Option<SlotView>>,
}

impl<const N: usize> View for SessionManager<N> {
    type V = NodeView;

    closed spec fn view(&self) -> NodeView {
        NodeView {
            local: self.local@,
            prefer_extended_connect: self.prefer_extended_connect,
            can_be_clear: match self.carrier {
                Some(source) => exists|busy: Option<bool>| #[trigger]
                    source.may_report(busy) && busy != Some(true),
                None => true,
            },
            can_be_busy: match self.carrier {
                Some(source) => source.may_report(Some(true)),
                None => false,
            },
            slots: place_views(self.slots@),
        }
    }
}

/// The first slot from index `i` on that serves a peer.
pub open spec fn slot_of(slots: Seq<Option<SlotView>>, peer: CallsignView, i: int) -> Option<int>
    decreases slots.len() - i,
{
    if i < 0 || i >= slots.len() {
        None
    } else if slots[i] is Some && slots[i]->0.peer == peer {
        Some(i)
    } else {
        slot_of(slots, peer, i + 1)
    }
}

/// The first empty slot from index `i` on.
pub open spec fn empty_slot(slots: Seq<Option<SlotView>>, i: int) -> Option<int>
    decreases slots.len() - i,
{
    if i < 0 || i >= slots.len() {
        None
    } else if slots[i] is None {
        Some(i)
    } else {
        empty_slot(slots, i + 1)
    }
}

/// The slot of a peer that was never heard of.
pub open spec fn fresh_slot(peer: CallsignView, local: CallsignView) -> SlotView {
    SlotView {
        peer,
        state: State::Disconnected,
        link: Link::fresh(),
        sink: SinkView {
            local,
            remote: peer,
            digipeaters: Seq::empty(),
            sent: Seq::empty(),
            upward: Seq::empty(),
            seize_pending: false,
            extended: false,
        },
        probe: None,
        fault: None,
    }
}

/// The slot of a peer, made if there is none and a slot is empty, and the slots with
/// it. `None` if every slot serves another peer.
pub open spec fn ensured(
    slots: Seq<Option<SlotView>>,
    peer: CallsignView,
    local: CallsignView,
) -> Option<(int, Seq<Option<SlotView>>)> {
    match slot_of(slots, peer, 0) {
        Some(i) => Some((i, slots)),
        None => match empty_slot(slots, 0) {
            Some(i) => Some((i, slots.update(i, Some(fresh_slot(peer, local))))),
            None => None,
        },
    }
}

/// How many slots of the first `n` are taken.
pub open spec fn taken(slots: Seq<Option<SlotView>>, n: int) -> nat
    decreases n,
{
    if n <= 0 {
        0
    } else {
        taken(slots, n - 1) + if slots[n - 1] is Some {
            1nat
        } else {
            0
        }
    }
}

/// A node, the timers, and what was sent.
pub struct Posted {
    pub node: NodeView,
    pub timers: TimerSnapshot,
    pub sent: Seq<Seq<u8>>,
}

/// A node, the timers and the frames that were handed out are what is expected.
pub open spec fn came_out(
    p: Posted,
    node: NodeView,
    timers: TimerSnapshot,
    sent: Seq<Vec<u8>>,
) -> bool {
    &&& node == p.node
    &&& timers == p.timers
    &&& bridge::octet_views(sent) == p.sent
}

impl NodeView {
    /// Nothing happens.
    pub open spec fn idle(self, timers: TimerSnapshot) -> Posted {
        Posted { node: self, timers, sent: Seq::empty() }
    }

    /// The node with one slot put in its place.
    pub open spec fn with_slot(self, i: int, slot: SlotView) -> NodeView {
        NodeView { slots: self.slots.update(i, Some(slot)), ..self }
    }

    /// The manager may find the channel so.
    pub open spec fn may_find(self, clear: bool) -> bool {
        if clear {
            self.can_be_clear
        } else {
            self.can_be_busy
        }
    }

    /// What an event from or for a peer does while the channel is clear, or is not. A
    /// node whose slots are all taken drops the event of a peer that it does not serve.
    pub open spec fn posted(
        self,
        clear: bool,
        local: CallsignView,
        peer: CallsignView,
        t: Trigger,
        timers: TimerSnapshot,
    ) -> Posted {
        match ensured(self.slots, peer, local) {
            None => self.idle(timers),
            Some((i, slots)) => {
                let after: Desk = exchanged(
                    Charts::generated(),
                    clear,
                    Desk { slot: slots[i]->0, timers },
                    t,
                );
                Posted {
                    node: NodeView { slots, ..self }.with_slot(i, after.slot.flushed()),
                    timers: after.timers,
                    sent: after.slot.sink.sent,
                }
            },
        }
    }

    /// What a dial with the given connect does.
    pub open spec fn dialled(
        self,
        clear: bool,
        local: CallsignView,
        peer: CallsignView,
        extended: bool,
        timers: TimerSnapshot,
    ) -> Posted {
        match ensured(self.slots, peer, local) {
            None => self.idle(timers),
            Some((i, slots)) => {
                let slot: SlotView = slots[i]->0;
                NodeView { slots, ..self }.with_slot(
                    i,
                    SlotView { link: slot.link.edited(Edit::Extended(extended)), ..slot },
                ).posted(clear, local, peer, connect_request(), timers)
            },
        }
    }

    /// What sending a probe does.
    pub open spec fn probed(
        self,
        local: CallsignView,
        peer: CallsignView,
        timers: TimerSnapshot,
    ) -> Posted {
        match ensured(self.slots, peer, local) {
            None => self.idle(timers),
            Some((i, slots)) => {
                let slot: SlotView = slots[i]->0.probing(local);
                Posted {
                    node: NodeView { slots, ..self }.with_slot(i, slot.flushed()),
                    timers,
                    sent: slot.sink.sent,
                }
            },
        }
    }

    /// What the end of the wait for an answer to a probe does.
    pub open spec fn probe_timed_out(
        self,
        clear: bool,
        peer: CallsignView,
        timers: TimerSnapshot,
    ) -> Posted {
        match slot_of(self.slots, peer, 0) {
            None => self.idle(timers),
            Some(i) => {
                let slot: SlotView = self.slots[i]->0;
                match slot.probe {
                    None => self.idle(timers),
                    Some(probe) => self.with_slot(
                        i,
                        SlotView {
                            link: slot.link.edited(Edit::SelectiveReject(false)),
                            probe: None,
                            ..slot
                        },
                    ).posted(clear, probe.local, peer, connect_request(), timers),
                }
            },
        }
    }

    /// The node once what the session of a peer signalled was taken.
    pub open spec fn relieved(self, peer: CallsignView) -> NodeView {
        match slot_of(self.slots, peer, 0) {
            Some(i) => {
                let slot: SlotView = self.slots[i]->0;
                self.with_slot(
                    i,
                    SlotView { sink: SinkView { upward: Seq::empty(), ..slot.sink }, ..slot },
                )
            },
            None => self,
        }
    }

    /// The slot of a peer may be freed: it is disconnected and has nothing left to send.
    pub open spec fn can_reap(self, peer: CallsignView) -> bool {
        self.served(peer) matches Some(slot) && slot.state == State::Disconnected
            && slot.link.i_frame_queue.len() == 0
    }

    /// The node whose slot of a peer was freed, where it may be.
    pub open spec fn reaped(self, peer: CallsignView) -> NodeView {
        if self.can_reap(peer) {
            NodeView {
                slots: self.slots.update(slot_of(self.slots, peer, 0)->0, None),
                ..self
            }
        } else {
            self
        }
    }

    /// The slot that an event of a peer finds: its own, or a fresh one. `None` if every
    /// slot serves another peer.
    pub open spec fn met(self, peer: CallsignView, local: CallsignView) -> Option<SlotView> {
        match ensured(self.slots, peer, local) {
            Some((i, slots)) => slots[i],
            None => None,
        }
    }

    /// The slot of a peer, if it is served.
    pub open spec fn served(self, peer: CallsignView) -> Option<SlotView> {
        match slot_of(self.slots, peer, 0) {
            Some(i) => self.slots[i],
            None => None,
        }
    }
}

/// No peer has two slots.
pub open spec fn distinct_peers(slots: Seq<Option<SlotView>>) -> bool {
    forall|i: int, j: int|
        0 <= i < j < slots.len() && (#[trigger] slots[i]) is Some && (#[trigger] slots[j]) is Some
            ==> slots[i]->0.peer != slots[j]->0.peer
}

proof fn lemma_slot_of(slots: Seq<Option<SlotView>>, peer: CallsignView, i: int)
    requires
        0 <= i,
    ensures
        match slot_of(slots, peer, i) {
            Some(k) => {
                &&& i <= k < slots.len()
                &&& slots[k] is Some
                &&& slots[k]->0.peer == peer
                &&& forall|j: int|
                    i <= j < k ==> !((#[trigger] slots[j]) is Some && slots[j]->0.peer == peer)
            },
            None => forall|j: int|
                i <= j < slots.len() ==> !((#[trigger] slots[j]) is Some && slots[j]->0.peer
                    == peer),
        },
    decreases slots.len() - i,
{
    if i < slots.len() && !(slots[i] is Some && slots[i]->0.peer == peer) {
        lemma_slot_of(slots, peer, i + 1);
    }
}

proof fn lemma_empty_slot(slots: Seq<Option<SlotView>>, i: int)
    requires
        0 <= i,
    ensures
        match empty_slot(slots, i) {
            Some(k) => i <= k < slots.len() && slots[k] is None,
            None => forall|j: int| i <= j < slots.len() ==> (#[trigger] slots[j]) is Some,
        },
    decreases slots.len() - i,
{
    if i < slots.len() && slots[i] is Some {
        lemma_empty_slot(slots, i + 1);
    }
}

/// Peers that are distinct stay so when one of them leaves.
proof fn lemma_left_out(slots: Seq<Option<SlotView>>, i: int)
    requires
        0 <= i < slots.len(),
        distinct_peers(slots),
    ensures
        distinct_peers(slots.update(i, None)),
{
    let after: Seq<Option<SlotView>> = slots.update(i, None);
    assert forall|a: int, b: int|
        0 <= a < b < after.len() && (#[trigger] after[a]) is Some && (
        #[trigger] after[b]) is Some implies after[a]->0.peer != after[b]->0.peer by {
        assert(after[a] == slots[a] && after[b] == slots[b]);
    }
}

/// The slot that was made for a peer is the one that is found for it.
proof fn lemma_ensured(slots: Seq<Option<SlotView>>, peer: CallsignView, local: CallsignView)
    ensures
        ensured(slots, peer, local) matches Some((i, after)) ==> {
            &&& 0 <= i < slots.len()
            &&& after.len() == slots.len()
            &&& after[i] is Some
            &&& after[i]->0.peer == peer
            &&& slot_of(after, peer, 0) == Some(i)
            &&& forall|j: int| 0 <= j < slots.len() && j != i ==> after[j] == slots[j]
            &&& distinct_peers(slots) ==> distinct_peers(after)
        },
{
    lemma_slot_of(slots, peer, 0);
    lemma_empty_slot(slots, 0);
    if let Some((i, after)) = ensured(slots, peer, local) {
        lemma_slot_of(after, peer, 0);
        assert(after[i] is Some && after[i]->0.peer == peer);
        let m: int = slot_of(after, peer, 0)->0;
        if m != i {
            assert(after[m] == slots[m]);
        }
        if distinct_peers(slots) {
            assert forall|a: int, b: int|
                0 <= a < b < after.len() && (#[trigger] after[a]) is Some && (
                #[trigger] after[b]) is Some implies after[a]->0.peer != after[b]->0.peer by {
                if a != i {
                    assert(after[a] == slots[a]);
                }
                if b != i {
                    assert(after[b] == slots[b]);
                }
            }
        }
    }
}

/// What is laid back into a place that was emptied is there.
proof fn lemma_laid_back(slots: Seq<Option<SlotView>>, i: int, place: Option<SlotView>)
    requires
        0 <= i < slots.len(),
    ensures
        slots.update(i, None).update(i, place) == slots.update(i, place),
        place == slots[i] ==> slots.update(i, place) == slots,
{
    assert(slots.update(i, None).update(i, place) =~= slots.update(i, place));
    assert(place == slots[i] ==> slots.update(i, place) =~= slots);
}

/// Sending a probe changes neither the peer nor the state, and dials without the
/// extended connect.
proof fn lemma_probing_keeps(slot: SlotView, local: CallsignView)
    ensures
        slot.probing(local).flushed().peer == slot.peer,
        slot.probing(local).flushed().state == slot.state,
        slot.probing(local).flushed().sink.seize_pending == slot.sink.seize_pending,
        slot.probing(local).flushed().probe is Some,
        !slot.probing(local).flushed().link.is_extended,
{
    lemma_flushed(slot.probing(local));
    reveal(SlotView::probing);
    reveal(Link::edited);
    reveal(Link::with_extended);
    reveal(Link::with_selective_reject);
}

/// A slot that still serves its peer is found where it was put.
proof fn lemma_put_back(slots: Seq<Option<SlotView>>, i: int, slot: SlotView)
    requires
        0 <= i < slots.len(),
        slots[i] is Some,
        slots[i]->0.peer == slot.peer,
        slot_of(slots, slot.peer, 0) == Some(i),
    ensures
        slot_of(slots.update(i, Some(slot)), slot.peer, 0) == Some(i),
        ensured(slots.update(i, Some(slot)), slot.peer, slot.peer) == Some(
            (i, slots.update(i, Some(slot))),
        ),
        distinct_peers(slots) ==> distinct_peers(slots.update(i, Some(slot))),
{
    let after: Seq<Option<SlotView>> = slots.update(i, Some(slot));
    lemma_slot_of(slots, slot.peer, 0);
    lemma_slot_of(after, slot.peer, 0);
    assert(after[i] is Some && after[i]->0.peer == slot.peer);
    let m: int = slot_of(after, slot.peer, 0)->0;
    if m != i {
        assert(after[m] == slots[m]);
    }
    if distinct_peers(slots) {
        assert forall|a: int, b: int|
            0 <= a < b < after.len() && (#[trigger] after[a]) is Some && (
            #[trigger] after[b]) is Some implies after[a]->0.peer != after[b]->0.peer by {
            assert(slots[a] is Some && slots[b] is Some);
        }
    }
}

proof fn lemma_granted_keeps_peer_and_probe(charts: Charts, clear: bool, desk: Desk, n: nat)
    ensures
        granted(charts, clear, desk, n).slot.peer == desk.slot.peer,
        granted(charts, clear, desk, n).slot.probe == desk.slot.probe,
    decreases n,
{
    reveal(driven_once);
    if !(n == 0 || !clear || !desk.slot.sink.seize_pending || desk.slot.fault is Some) {
        let given: SlotView = SlotView {
            sink: SinkView { seize_pending: false, ..desk.slot.sink },
            ..desk.slot
        };
        lemma_granted_keeps_peer_and_probe(
            charts,
            clear,
            driven_once(charts, Desk { slot: given, ..desk }, seize_confirm()),
            (n - 1) as nat,
        );
    }
}

/// An event changes the peer of no slot, and ends a probe exactly when it answers one.
pub proof fn lemma_exchanged_keeps_peer_and_probe(
    charts: Charts,
    clear: bool,
    desk: Desk,
    t: Trigger,
)
    ensures
        exchanged(charts, clear, desk, t).slot.flushed().peer == desk.slot.peer,
        exchanged(charts, clear, desk, t).slot.flushed().probe == if is_xid_response(t) {
            None
        } else {
            desk.slot.probe
        },
{
    let start: SlotView = desk.slot.flushed();
    lemma_flushed(desk.slot);
    lemma_flushed(exchanged(charts, clear, desk, t).slot);
    reveal(driven_once);
    reveal(SlotView::aligned);
    reveal(SlotView::probe_answered);
    reveal(SlotView::command_answered);
    if is_xid_response(t) && start.probe is Some {
        let ready: SlotView = start.probe_answered(t.frame->0.info).aligned();
        lemma_granted_keeps_peer_and_probe(
            charts,
            clear,
            driven_once(charts, Desk { slot: ready, ..desk }, connect_request()),
            MAX_GRANTS as nat,
        );
    } else {
        lemma_granted_keeps_peer_and_probe(
            charts,
            clear,
            driven_once(charts, Desk { slot: start.aligned(), ..desk }, t),
            MAX_GRANTS as nat,
        );
    }
}

/// The slot of a peer that is served is the one that its events find.
pub proof fn lemma_met(node: NodeView, peer: CallsignView, local: CallsignView)
    ensures
        node.served(peer) is Some ==> node.met(peer, local) == node.served(peer),
        node.met(peer, local) matches Some(slot) ==> slot.peer == peer,
{
    lemma_slot_of(node.slots, peer, 0);
    lemma_ensured(node.slots, peer, local);
}

/// A slot that was changed but still serves its peer is the one that its events find.
pub proof fn lemma_changed_slot_is_met(
    node: NodeView,
    peer: CallsignView,
    i: int,
    slot: SlotView,
    local: CallsignView,
)
    requires
        slot_of(node.slots, peer, 0) == Some(i),
        slot.peer == node.slots[i]->0.peer,
    ensures
        node.with_slot(i, slot).met(peer, local) == Some(slot),
{
    lemma_slot_of(node.slots, peer, 0);
    lemma_put_back(node.slots, i, slot);
}

/// An event of a peer is exchanged in the slot that it finds, and what the slot sends is
/// what goes out.
pub proof fn law_events_reach_the_slot_of_their_peer(
    node: NodeView,
    clear: bool,
    local: CallsignView,
    peer: CallsignView,
    t: Trigger,
    timers: TimerSnapshot,
)
    requires
        node.met(peer, local) is Some,
    ensures
        ({
            let desk: Desk = Desk { slot: node.met(peer, local)->0, timers };
            let after: Desk = exchanged(Charts::generated(), clear, desk, t);
            let p: Posted = node.posted(clear, local, peer, t, timers);
            &&& p.node.served(peer) == Some(after.slot.flushed())
            &&& p.timers == after.timers
            &&& p.sent == after.slot.sink.sent
        }),
{
    let desk: Desk = Desk { slot: node.met(peer, local)->0, timers };
    let after: Desk = exchanged(Charts::generated(), clear, desk, t);
    let (i, slots): (int, Seq<Option<SlotView>>) = ensured(node.slots, peer, local)->0;
    lemma_ensured(node.slots, peer, local);
    lemma_exchanged_keeps_peer_and_probe(Charts::generated(), clear, desk, t);
    lemma_put_back(slots, i, after.slot.flushed());
}

/// A node whose source can report nothing but a busy channel leaves a session that waits
/// for the channel waiting. A node whose source never reports a busy channel, because it
/// reports an idle one or does not know, or that has no source, grants it.
pub proof fn law_only_a_busy_report_defers(
    node: NodeView,
    clear: bool,
    local: CallsignView,
    peer: CallsignView,
    t: Trigger,
    timers: TimerSnapshot,
)
    requires
        node.may_find(clear),
        node.served(peer) is Some,
        drives(node.served(peer)->0, t),
    ensures
        ({
            let charts: Charts = Charts::generated();
            let desk: Desk = Desk { slot: node.served(peer)->0, timers };
            let waiting: Desk = before_grant(charts, desk, t);
            let reply: Drive = on_grant(charts, waiting);
            let p: Posted = node.posted(clear, local, peer, t, timers);
            let after: SlotView = p.node.served(peer)->0;
            waiting.slot.sink.seize_pending && waiting.slot.fault is None ==> {
                &&& !node.can_be_clear ==> {
                    &&& after.sink.seize_pending
                    &&& p.sent == waiting.slot.sink.sent
                }
                &&& !node.can_be_busy && !bridge::asks_for_channel(reply.out) ==> {
                    &&& !after.sink.seize_pending
                    &&& p.sent == waiting.slot.sink.sent + waiting.slot.sink.frames(reply.out)
                }
            }
        }),
{
    let desk: Desk = Desk { slot: node.served(peer)->0, timers };
    lemma_met(node, peer, local);
    law_events_reach_the_slot_of_their_peer(node, clear, local, peer, t, timers);
    law_the_channel_is_granted_exactly_when_clear(Charts::generated(), clear, desk, t);
    lemma_flushed(exchanged(Charts::generated(), clear, desk, t).slot);
}

/// A probe that nobody answers ends once: selective reject is taken back, the connect that
/// the probe held back is requested of the link without it, and no probe is pending any
/// more. A second timeout does nothing.
pub proof fn law_a_probe_times_out_once(
    node: NodeView,
    clear: bool,
    peer: CallsignView,
    timers: TimerSnapshot,
    clear_later: bool,
    timers_later: TimerSnapshot,
)
    requires
        node.served(peer) is Some,
        node.served(peer)->0.probe is Some,
    ensures
        ({
            let slot: SlotView = node.served(peer)->0;
            let reverted: SlotView = SlotView {
                link: slot.link.edited(Edit::SelectiveReject(false)),
                probe: None,
                ..slot
            };
            let connecting: Desk = exchanged(
                Charts::generated(),
                clear,
                Desk { slot: reverted, timers },
                connect_request(),
            );
            let p: Posted = node.probe_timed_out(clear, peer, timers);
            &&& !reverted.link.srej_enabled
            &&& reverted.link.implicit_reject
            &&& p.sent == connecting.slot.sink.sent
            &&& p.timers == connecting.timers
            &&& p.node.served(peer) == Some(connecting.slot.flushed())
            &&& p.node.served(peer)->0.probe is None
            &&& p.node.probe_timed_out(clear_later, peer, timers_later) == p.node.idle(
                timers_later,
            )
        }),
{
    let slot: SlotView = node.served(peer)->0;
    let reverted: SlotView = SlotView {
        link: slot.link.edited(Edit::SelectiveReject(false)),
        probe: None,
        ..slot
    };
    let local: CallsignView = slot.probe->0.local;
    lemma_slot_of(node.slots, peer, 0);
    let i: int = slot_of(node.slots, peer, 0)->0;
    let ready: NodeView = node.with_slot(i, reverted);
    lemma_put_back(node.slots, i, reverted);
    lemma_met(ready, peer, local);
    law_events_reach_the_slot_of_their_peer(ready, clear, local, peer, connect_request(), timers);
    lemma_exchanged_keeps_peer_and_probe(
        Charts::generated(),
        clear,
        Desk { slot: reverted, timers },
        connect_request(),
    );
    mdl::law_unanswered_probe_leaves_no_selective_reject(slot.link);
}

/// A frame on its own goes out behind what went out before.
proof fn lemma_one_frame(sink: SinkView, spec: FrameSpecView)
    ensures
        sink.frames(seq![Signal::Frame(spec)]) == seq![sink.encoded(spec)],
        sink.after_all(seq![Signal::Frame(spec)]) == (SinkView {
            sent: sink.sent.push(sink.encoded(spec)),
            ..sink
        }),
{
    let one: Seq<Signal> = seq![Signal::Frame(spec)];
    assert(one.drop_last() =~= Seq::<Signal>::empty());
    assert(sink.frames(Seq::<Signal>::empty()) == Seq::<Seq<u8>>::empty());
    assert(sink.after_all(Seq::<Signal>::empty()) == sink);
    assert(sink.frames(one) =~= seq![sink.encoded(spec)]);
}

/// At most the slot of `peer` differs: every other peer has the slot that it had, no peer
/// has two, and the number of slots is the same.
pub open spec fn isolates(node: NodeView, peer: CallsignView, after: NodeView) -> bool {
    &&& distinct_peers(after.slots)
    &&& after == NodeView { slots: after.slots, ..node }
    &&& after.slots.len() == node.slots.len()
    &&& forall|j: int|
        0 <= j < node.slots.len() && (#[trigger] node.slots[j]) is Some && node.slots[j]->0.peer
            != peer ==> after.slots[j] == node.slots[j]
    &&& forall|other: CallsignView|
        other != peer ==> #[trigger] after.served(other) == node.served(other)
}

/// A node that differs in one place, which was empty or held a peer and is empty or holds
/// it again, has left the others alone.
proof fn lemma_isolates(node: NodeView, peer: CallsignView, i: int, place: Option<SlotView>)
    requires
        0 <= i < node.slots.len(),
        node.slots[i] is Some ==> node.slots[i]->0.peer == peer,
        place is Some ==> place->0.peer == peer,
        distinct_peers(node.slots.update(i, place)),
    ensures
        isolates(node, peer, NodeView { slots: node.slots.update(i, place), ..node }),
{
    let after: NodeView = NodeView { slots: node.slots.update(i, place), ..node };
    assert forall|other: CallsignView| other != peer implies #[trigger] after.served(other)
        == node.served(other) by {
        lemma_slot_of(node.slots, other, 0);
        lemma_slot_of(after.slots, other, 0);
        if let Some(k) = slot_of(node.slots, other, 0) {
            assert(after.slots[k] == node.slots[k]);
            let m: int = slot_of(after.slots, other, 0)->0;
            assert(after.slots[m] == node.slots[m]);
        } else if let Some(m) = slot_of(after.slots, other, 0) {
            assert(after.slots[m] == node.slots[m]);
        }
    }
}

/// Leaving a peer alone twice leaves it alone.
proof fn lemma_isolates_again(a: NodeView, peer: CallsignView, b: NodeView, c: NodeView)
    requires
        isolates(a, peer, b),
        isolates(b, peer, c),
    ensures
        isolates(a, peer, c),
{
    assert forall|j: int|
        0 <= j < a.slots.len() && (#[trigger] a.slots[j]) is Some && a.slots[j]->0.peer
            != peer implies c.slots[j] == a.slots[j] by {
        assert(b.slots[j] == a.slots[j]);
    }
    assert forall|other: CallsignView| other != peer implies #[trigger] c.served(other)
        == a.served(other) by {
        assert(b.served(other) == a.served(other));
    }
}

/// Making room for a peer leaves the others alone, and what is then put into its slot does
/// too.
proof fn lemma_ensured_isolates(
    node: NodeView,
    peer: CallsignView,
    local: CallsignView,
    slot: SlotView,
)
    requires
        distinct_peers(node.slots),
        slot.peer == peer,
    ensures
        ensured(node.slots, peer, local) matches Some((i, slots)) ==> isolates(
            node,
            peer,
            NodeView { slots, ..node }.with_slot(i, slot),
        ),
{
    lemma_ensured(node.slots, peer, local);
    lemma_slot_of(node.slots, peer, 0);
    lemma_empty_slot(node.slots, 0);
    if let Some((i, slots)) = ensured(node.slots, peer, local) {
        lemma_put_back(slots, i, slot);
        assert(slots.update(i, Some(slot)) =~= node.slots.update(i, Some(slot)));
        lemma_isolates(node, peer, i, Some(slot));
    }
}

proof fn lemma_post_isolates(
    node: NodeView,
    clear: bool,
    local: CallsignView,
    peer: CallsignView,
    t: Trigger,
    timers: TimerSnapshot,
)
    requires
        distinct_peers(node.slots),
    ensures
        isolates(node, peer, node.posted(clear, local, peer, t, timers).node),
{
    lemma_ensured(node.slots, peer, local);
    if let Some((i, slots)) = ensured(node.slots, peer, local) {
        let desk: Desk = Desk { slot: slots[i]->0, timers };
        lemma_exchanged_keeps_peer_and_probe(Charts::generated(), clear, desk, t);
        lemma_ensured_isolates(
            node,
            peer,
            local,
            exchanged(Charts::generated(), clear, desk, t).slot.flushed(),
        );
    }
}

proof fn lemma_dial_isolates(
    node: NodeView,
    clear: bool,
    local: CallsignView,
    peer: CallsignView,
    extended: bool,
    timers: TimerSnapshot,
)
    requires
        distinct_peers(node.slots),
    ensures
        isolates(node, peer, node.dialled(clear, local, peer, extended, timers).node),
{
    lemma_ensured(node.slots, peer, local);
    if let Some((i, slots)) = ensured(node.slots, peer, local) {
        let slot: SlotView = slots[i]->0;
        let chosen: SlotView = SlotView {
            link: slot.link.edited(Edit::Extended(extended)),
            ..slot
        };
        let ready: NodeView = NodeView { slots, ..node }.with_slot(i, chosen);
        lemma_ensured_isolates(node, peer, local, chosen);
        lemma_post_isolates(ready, clear, local, peer, connect_request(), timers);
        lemma_isolates_again(
            node,
            peer,
            ready,
            ready.posted(clear, local, peer, connect_request(), timers).node,
        );
    }
}

proof fn lemma_probe_isolates(
    node: NodeView,
    local: CallsignView,
    peer: CallsignView,
    timers: TimerSnapshot,
)
    requires
        distinct_peers(node.slots),
    ensures
        isolates(node, peer, node.probed(local, peer, timers).node),
{
    lemma_ensured(node.slots, peer, local);
    if let Some((i, slots)) = ensured(node.slots, peer, local) {
        lemma_probing_keeps(slots[i]->0, local);
        lemma_ensured_isolates(node, peer, local, slots[i]->0.probing(local).flushed());
    }
}

proof fn lemma_timeout_isolates(
    node: NodeView,
    clear: bool,
    peer: CallsignView,
    timers: TimerSnapshot,
)
    requires
        distinct_peers(node.slots),
    ensures
        isolates(node, peer, node.probe_timed_out(clear, peer, timers).node),
{
    lemma_slot_of(node.slots, peer, 0);
    if let Some(i) = slot_of(node.slots, peer, 0) {
        let slot: SlotView = node.slots[i]->0;
        let reverted: SlotView = SlotView {
            link: slot.link.edited(Edit::SelectiveReject(false)),
            probe: None,
            ..slot
        };
        let ready: NodeView = node.with_slot(i, reverted);
        lemma_put_back(node.slots, i, reverted);
        lemma_isolates(node, peer, i, Some(reverted));
        if let Some(probe) = slot.probe {
            lemma_post_isolates(ready, clear, probe.local, peer, connect_request(), timers);
            lemma_isolates_again(
                node,
                peer,
                ready,
                ready.posted(clear, probe.local, peer, connect_request(), timers).node,
            );
        }
    }
}

proof fn lemma_relief_isolates(node: NodeView, peer: CallsignView)
    requires
        distinct_peers(node.slots),
    ensures
        isolates(node, peer, node.relieved(peer)),
        isolates(node, peer, node.reaped(peer)),
{
    lemma_slot_of(node.slots, peer, 0);
    if let Some(i) = slot_of(node.slots, peer, 0) {
        let slot: SlotView = node.slots[i]->0;
        let emptied: SlotView = SlotView {
            sink: SinkView { upward: Seq::empty(), ..slot.sink },
            ..slot
        };
        lemma_put_back(node.slots, i, emptied);
        lemma_isolates(node, peer, i, Some(emptied));
        lemma_left_out(node.slots, i);
        lemma_isolates(node, peer, i, None);
    }
}

/// Whatever is done for a peer touches the slot of that peer and no other: an event, a
/// dial, a probe, the end of the wait for its answer, taking what was signalled, and
/// freeing the slot. No peer ever gets a second slot, and their number does not change.
pub proof fn law_links_are_isolated(
    node: NodeView,
    clear: bool,
    local: CallsignView,
    peer: CallsignView,
    t: Trigger,
    extended: bool,
    timers: TimerSnapshot,
)
    requires
        distinct_peers(node.slots),
    ensures
        isolates(node, peer, node.posted(clear, local, peer, t, timers).node),
        isolates(node, peer, node.dialled(clear, local, peer, extended, timers).node),
        isolates(node, peer, node.probed(local, peer, timers).node),
        isolates(node, peer, node.probe_timed_out(clear, peer, timers).node),
        isolates(node, peer, node.relieved(peer)),
        isolates(node, peer, node.reaped(peer)),
{
    lemma_post_isolates(node, clear, local, peer, t, timers);
    lemma_dial_isolates(node, clear, local, peer, extended, timers);
    lemma_probe_isolates(node, local, peer, timers);
    lemma_timeout_isolates(node, clear, peer, timers);
    lemma_relief_isolates(node, peer);
}

/// A peer whose slot was freed is not served any more, and there is room for another.
pub proof fn law_a_reaped_peer_is_gone(node: NodeView, peer: CallsignView)
    requires
        distinct_peers(node.slots),
        node.can_reap(peer),
    ensures
        node.reaped(peer).served(peer) is None,
        taken(node.reaped(peer).slots, node.slots.len() as int) + 1 == taken(
            node.slots,
            node.slots.len() as int,
        ),
{
    let i: int = slot_of(node.slots, peer, 0)->0;
    let after: NodeView = node.reaped(peer);
    lemma_slot_of(node.slots, peer, 0);
    lemma_slot_of(after.slots, peer, 0);
    if let Some(m) = slot_of(after.slots, peer, 0) {
        assert(after.slots[m] == node.slots[m]);
        if m < i {
            assert(node.slots[m]->0.peer != node.slots[i]->0.peer);
        } else {
            assert(node.slots[i]->0.peer != node.slots[m]->0.peer);
        }
    }
    lemma_taken_without(node.slots, i, node.slots.len() as int);
}

proof fn lemma_taken_without(slots: Seq<Option<SlotView>>, i: int, n: int)
    requires
        0 <= i < slots.len(),
        0 <= n <= slots.len(),
        slots[i] is Some,
    ensures
        taken(slots.update(i, None), n) + if i < n {
            1nat
        } else {
            0
        } == taken(slots, n),
    decreases n,
{
    if n > 0 {
        lemma_taken_without(slots, i, n - 1);
    }
}

/// A node is full exactly when as many peers are served as there are slots.
pub proof fn law_a_node_is_full_when_every_slot_is_taken(slots: Seq<Option<SlotView>>, n: int)
    requires
        0 <= n <= slots.len(),
    ensures
        taken(slots, n) <= n,
        taken(slots, n) == n <==> forall|j: int| 0 <= j < n ==> (#[trigger] slots[j]) is Some,
    decreases n,
{
    if n > 0 {
        law_a_node_is_full_when_every_slot_is_taken(slots, n - 1);
        if taken(slots, n - 1) == n - 1 && slots[n - 1] is Some {
            assert forall|j: int| 0 <= j < n implies (#[trigger] slots[j]) is Some by {}
        }
        if forall|j: int| 0 <= j < n ==> (#[trigger] slots[j]) is Some {
            assert(slots[n - 1] is Some);
        }
    }
}

/// A node that is not full has a slot for every peer: the peer's own, or a fresh one.
pub proof fn law_a_node_with_room_takes_a_peer(
    node: NodeView,
    peer: CallsignView,
    local: CallsignView,
)
    requires
        taken(node.slots, node.slots.len() as int) < node.slots.len(),
    ensures
        node.met(peer, local) == match node.served(peer) {
            Some(slot) => Some(slot),
            None => Some(fresh_slot(peer, local)),
        },
{
    lemma_slot_of(node.slots, peer, 0);
    lemma_empty_slot(node.slots, 0);
    law_a_node_is_full_when_every_slot_is_taken(node.slots, node.slots.len() as int);
}

/// A node that is full does nothing for a peer that it does not serve.
pub proof fn law_full_node_refuses(
    node: NodeView,
    clear: bool,
    local: CallsignView,
    peer: CallsignView,
    t: Trigger,
    extended: bool,
    timers: TimerSnapshot,
)
    requires
        node.served(peer) is None,
        taken(node.slots, node.slots.len() as int) == node.slots.len(),
    ensures
        node.posted(clear, local, peer, t, timers) == node.idle(timers),
        node.dialled(clear, local, peer, extended, timers) == node.idle(timers),
        node.probed(local, peer, timers) == node.idle(timers),
{
    lemma_slot_of(node.slots, peer, 0);
    lemma_empty_slot(node.slots, 0);
    law_a_node_is_full_when_every_slot_is_taken(node.slots, node.slots.len() as int);
}

impl<const N: usize> SessionManager<N> {
    /// There are `N` slots, and no peer has two of them.
    #[verifier::type_invariant]
    pub open spec fn well_formed(self) -> bool {
        &&& self@.slots.len() == N
        &&& distinct_peers(self@.slots)
    }

    /// Takes the slot `i` out of its place.
    fn lift(&mut self, i: usize) -> (r: Option<Slot>)
        requires
            i < old(self).slots@.len(),
        ensures
            r == old(self).slots@[i as int],
            final(self).slots@ == old(self).slots@.update(i as int, None),
            final(self)@ == (NodeView {
                slots: old(self)@.slots.update(i as int, None),
                ..old(self)@
            }),
    {
        let mut place: Option<Slot> = None;
        proof {
            use_type_invariant(&*self);
            lemma_place_views(self.slots@, i as int, None);
            lemma_left_out(self@.slots, i as int);
        }
        swap_place(&mut self.slots, i, &mut place);
        place
    }

    /// Puts `place` where the slot `i` was.
    fn lay(&mut self, i: usize, place: Option<Slot>)
        requires
            i < old(self).slots@.len(),
            distinct_peers(old(self)@.slots.update(i as int, place_view(place))),
        ensures
            final(self).slots@ == old(self).slots@.update(i as int, place),
            final(self)@ == (NodeView {
                slots: old(self)@.slots.update(i as int, place_view(place)),
                ..old(self)@
            }),
    {
        let mut place: Option<Slot> = place;
        proof {
            use_type_invariant(&*self);
            lemma_place_views(self.slots@, i as int, place);
        }
        swap_place(&mut self.slots, i, &mut place);
    }

    /// A manager of a node with the callsign `local`, all slots empty. It dials the
    /// extended connect, and takes the channel to be clear.
    pub fn new(local: Callsign) -> (m: SessionManager<N>)
        ensures
            m@ == (NodeView {
                local: local@,
                prefer_extended_connect: true,
                can_be_clear: true,
                can_be_busy: false,
                slots: Seq::new(N as nat, |i: int| None::<SlotView>),
            }),
    {
        let mut slots: Vec<Option<Slot>> = Vec::new();
        let mut i: usize = 0;
        while i < N
            invariant
                i <= N,
                slots@.len() == i,
                forall|k: int| 0 <= k < i ==> (#[trigger] slots@[k]) is None,
            decreases N - i,
        {
            slots.push(None);
            i = i + 1;
        }
        assert(place_views(slots@) =~= Seq::new(N as nat, |i: int| None::<SlotView>));
        SessionManager { local, prefer_extended_connect: true, carrier: None, slots }
    }

    /// Asks `source` whether the channel is clear from now on.
    pub fn set_carrier_sense(&mut self, source: Box<dyn CarrierSense>)
        ensures
            final(self)@ == (NodeView {
                can_be_clear: exists|busy: Option<bool>| #[trigger]
                    source.may_report(busy) && busy != Some(true),
                can_be_busy: source.may_report(Some(true)),
                ..old(self)@
            }),
    {
        let wired = present(source);
        proof {
            use_type_invariant(&*self);
        }
        self.carrier = wired;
    }

    /// The manager that asks `source` whether the channel is clear.
    pub fn with_carrier_sense(self, source: Box<dyn CarrierSense>) -> (m: SessionManager<N>)
        ensures
            m@ == (NodeView {
                can_be_clear: exists|busy: Option<bool>| #[trigger]
                    source.may_report(busy) && busy != Some(true),
                can_be_busy: source.may_report(Some(true)),
                ..self@
            }),
    {
        let wired = present(source);
        proof {
            use_type_invariant(&self);
        }
        let mut m = self;
        m.carrier = wired;
        m
    }

    /// Takes the channel to be clear from now on.
    pub fn clear_carrier_sense(&mut self)
        ensures
            final(self)@ == (NodeView { can_be_clear: true, can_be_busy: false, ..old(self)@ }),
    {
        proof {
            use_type_invariant(&*self);
        }
        self.carrier = None;
    }

    /// Whether the channel is clear now.
    fn carrier_is_clear(&self) -> (r: bool)
        ensures
            self@.may_find(r),
    {
        match &self.carrier {
            Some(source) => source.is_clear(),
            None => true,
        }
    }

    /// The manager that dials the extended connect, or does not.
    pub fn with_prefer_extended_connect(self, prefer: bool) -> (m: SessionManager<N>)
        ensures
            m@ == (NodeView { prefer_extended_connect: prefer, ..self@ }),
    {
        proof {
            use_type_invariant(&self);
        }
        let mut m = self;
        m.prefer_extended_connect = prefer;
        m
    }

    /// Sets whether the extended connect is dialled.
    pub fn set_prefer_extended_connect(&mut self, prefer: bool)
        ensures
            final(self)@ == (NodeView { prefer_extended_connect: prefer, ..old(self)@ }),
    {
        proof {
            use_type_invariant(&*self);
        }
        self.prefer_extended_connect = prefer;
    }

    /// Whether the extended connect is dialled.
    pub fn prefer_extended_connect(&self) -> (r: bool)
        ensures
            r == self@.prefer_extended_connect,
    {
        self.prefer_extended_connect
    }

    /// The callsign of the node.
    pub fn local(&self) -> (c: Callsign)
        ensures
            c@ == self@.local,
    {
        self.local
    }

    /// How many peers are served.
    pub fn active(&self) -> (n: usize)
        ensures
            n == taken(self@.slots, self@.slots.len() as int),
            n <= N,
            n == N <==> forall|j: int|
                0 <= j < self@.slots.len() ==> (#[trigger] self@.slots[j]) is Some,
    {
        proof {
            use_type_invariant(self);
            law_a_node_is_full_when_every_slot_is_taken(self@.slots, self@.slots.len() as int);
        }
        let mut n: usize = 0;
        let mut i: usize = 0;
        while i < self.slots.len()
            invariant
                i <= self.slots@.len(),
                n <= i,
                n == taken(self@.slots, i as int),
            decreases self.slots@.len() - i,
        {
            assert(self@.slots[i as int] == place_view(self.slots@[i as int]));
            if self.slots[i].is_some() {
                n = n + 1;
            }
            i = i + 1;
        }
        n
    }

    fn index_of(&self, peer: &Callsign) -> (r: Option<usize>)
        ensures
            match r {
                Some(i) => slot_of(self@.slots, peer@, 0) == Some(i as int) && i
                    < self.slots@.len() && self.slots@[i as int] is Some,
                None => slot_of(self@.slots, peer@, 0) is None,
            },
            self@.slots.len() == self.slots@.len(),
    {
        let mut i: usize = 0;
        while i < self.slots.len()
            invariant
                i <= self.slots@.len(),
                slot_of(self@.slots, peer@, 0) == slot_of(self@.slots, peer@, i as int),
            decreases self.slots@.len() - i,
        {
            assert(self@.slots[i as int] == place_view(self.slots@[i as int]));
            match &self.slots[i] {
                Some(slot) => {
                    if slot.peer == *peer {
                        return Some(i);
                    }
                },
                None => {},
            }
            i = i + 1;
        }
        None
    }

    fn slot_for(&self, peer: &Callsign) -> (r: Option<&Slot>)
        ensures
            match r {
                Some(slot) => self@.served(peer@) == Some(slot@),
                None => self@.served(peer@) is None,
            },
    {
        match self.index_of(peer) {
            Some(i) => {
                assert(self@.slots[i as int] == place_view(self.slots@[i as int]));
                self.slots[i].as_ref()
            },
            None => None,
        }
    }

    /// The session of a peer, if it is served.
    pub fn session_for(&self, peer: &Callsign) -> (r: Option<&Session>)
        ensures
            match r {
                Some(s) => self@.served(peer@) matches Some(slot) && slot.state == s.state
                    && slot.link == s.context@,
                None => self@.served(peer@) is None,
            },
    {
        match self.slot_for(peer) {
            Some(slot) => Some(&slot.session),
            None => None,
        }
    }

    /// Whether the session of a peer waits for the channel.
    pub fn seize_pending(&self, peer: &Callsign) -> (r: bool)
        ensures
            r == (self@.served(peer@) matches Some(slot) && slot.sink.seize_pending),
    {
        match self.slot_for(peer) {
            Some(slot) => slot.sink.seize_pending,
            None => false,
        }
    }

    /// What stopped the session of a peer at its last event, if anything did.
    pub fn fault_of(&self, peer: &Callsign) -> (r: Option<Fault>)
        ensures
            r == match self@.served(peer@) {
                Some(slot) => slot.fault,
                None => None,
            },
    {
        match self.slot_for(peer) {
            Some(slot) => slot.fault,
            None => None,
        }
    }

    /// Finds the slot of a peer, or makes one.
    fn ensure_slot(&mut self, peer: Callsign, local: Callsign) -> (r: Option<usize>)
        ensures
            match r {
                Some(i) => {
                    &&& ensured(old(self)@.slots, peer@, local@) == Some(
                        (i as int, final(self)@.slots),
                    )
                    &&& i < final(self).slots@.len()
                    &&& final(self).slots@[i as int] is Some
                },
                None => ensured(old(self)@.slots, peer@, local@) is None && final(self)@.slots
                    == old(self)@.slots,
            },
            final(self)@ == (NodeView { slots: final(self)@.slots, ..old(self)@ }),
    {
        if let Some(i) = self.index_of(&peer) {
            return Some(i);
        }
        let mut i: usize = 0;
        while i < self.slots.len()
            invariant
                i <= self.slots@.len(),
                *self == *old(self),
                slot_of(self@.slots, peer@, 0) is None,
                empty_slot(self@.slots, 0) == empty_slot(self@.slots, i as int),
            decreases self.slots@.len() - i,
        {
            assert(self@.slots[i as int] == place_view(self.slots@[i as int]));
            if self.slots[i].is_none() {
                let slot = Slot {
                    peer,
                    session: Session::new(),
                    sink: WireSink::new(local, peer, Vec::new()),
                    xid_probe: None,
                    fault: None,
                };
                assert(slot@.sink.digipeaters =~= Seq::empty());
                assert(slot@ == fresh_slot(peer@, local@));
                proof {
                    use_type_invariant(&*self);
                    lemma_ensured(self@.slots, peer@, local@);
                }
                self.lay(i, Some(slot));
                return Some(i);
            }
            i = i + 1;
        }
        None
    }

    /// Takes an event from or for a peer, and hands out the frames that were sent. The
    /// peer gets a slot if it has none and one is empty; if none is, the event is
    /// dropped. A slot is freed by [`SessionManager::reap`] only. What the session asks
    /// the channel for goes out if the channel is found clear, and waits otherwise.
    pub fn post<T: TimerService>(
        &mut self,
        peer: Callsign,
        event: Event,
        timers: &mut T,
    ) -> (r: Vec<Vec<u8>>)
        ensures
            exists|clear: bool| #[trigger]
                old(self)@.may_find(clear) && ({
                    let p: Posted = old(self)@.posted(
                        clear,
                        old(self)@.local,
                        peer@,
                        event@,
                        old(timers).slots(),
                    );
                    &&& came_out(p, final(self)@, final(timers).slots(), r@)
                    &&& conduct::conducts_at(
                        old(self)@,
                        clear,
                        old(self)@.local,
                        peer@,
                        event@,
                        p,
                    )
                }),
    {
        let local = self.local;
        self.post_with_local(local, peer, event, timers)
    }

    /// [`SessionManager::post`], where a slot that is made uses the callsign `local`.
    pub fn post_with_local<T: TimerService>(
        &mut self,
        local: Callsign,
        peer: Callsign,
        event: Event,
        timers: &mut T,
    ) -> (r: Vec<Vec<u8>>)
        ensures
            exists|clear: bool| #[trigger]
                old(self)@.may_find(clear) && ({
                    let p: Posted = old(self)@.posted(
                        clear,
                        local@,
                        peer@,
                        event@,
                        old(timers).slots(),
                    );
                    &&& came_out(p, final(self)@, final(timers).slots(), r@)
                    &&& conduct::conducts_at(old(self)@, clear, local@, peer@, event@, p)
                }),
    {
        let clear: bool = self.carrier_is_clear();
        self.post_sensed(clear, local, peer, event, timers)
    }

    /// [`SessionManager::post_with_local`] while the channel is known to be clear, or
    /// not to be.
    pub fn post_sensed<T: TimerService>(
        &mut self,
        clear: bool,
        local: Callsign,
        peer: Callsign,
        event: Event,
        timers: &mut T,
    ) -> (r: Vec<Vec<u8>>)
        ensures
            ({
                let p: Posted = old(self)@.posted(
                    clear,
                    local@,
                    peer@,
                    event@,
                    old(timers).slots(),
                );
                &&& came_out(p, final(self)@, final(timers).slots(), r@)
                &&& conduct::conducts_at(old(self)@, clear, local@, peer@, event@, p)
            }),
    {
        let i: usize = match self.ensure_slot(peer, local) {
            Some(i) => i,
            None => {
                return no_frames();
            },
        };
        let ghost before = self@;
        assert(before.slots[i as int] == place_view(self.slots@[i as int]));
        proof {
            use_type_invariant(&*self);
            lemma_ensured(old(self)@.slots, peer@, local@);
        }
        match self.lift(i) {
            Some(mut slot) => {
                let ghost found = slot@;
                let sent = slot.exchange(clear, event, timers);
                proof {
                    lemma_exchanged_keeps_peer_and_probe(
                        Charts::generated(),
                        clear,
                        Desk { slot: found, timers: old(timers).slots() },
                        event@,
                    );
                    lemma_put_back(before.slots, i as int, slot@);
                    lemma_laid_back(before.slots, i as int, Some(slot@));
                }
                self.lay(i, Some(slot));
                proof {
                    if drives(found, event@) {
                        conduct::law_a_node_conducts_its_links(
                            old(self)@,
                            clear,
                            local@,
                            peer@,
                            event@,
                            old(timers).slots(),
                        );
                    } else {
                        law_events_reach_the_slot_of_their_peer(
                            old(self)@,
                            clear,
                            local@,
                            peer@,
                            event@,
                            old(timers).slots(),
                        );
                    }
                }
                sent
            },
            None => no_frames(),
        }
    }

    /// Dials a peer with the preferred connect.
    pub fn connect<T: TimerService>(&mut self, peer: Callsign, timers: &mut T) -> (r: Vec<Vec<u8>>)
        ensures
            exists|clear: bool| #[trigger]
                old(self)@.may_find(clear) && came_out(
                    old(self)@.dialled(
                        clear,
                        old(self)@.local,
                        peer@,
                        old(self)@.prefer_extended_connect,
                        old(timers).slots(),
                    ),
                    final(self)@,
                    final(timers).slots(),
                    r@,
                ),
    {
        let local = self.local;
        let extended: bool = self.prefer_extended_connect;
        self.connect_extended(local, peer, extended, timers)
    }

    /// Dials a peer from `local` with the extended or the plain connect. The choice is
    /// made before the connect request, so the session dials accordingly.
    pub fn connect_extended<T: TimerService>(
        &mut self,
        local: Callsign,
        peer: Callsign,
        extended: bool,
        timers: &mut T,
    ) -> (r: Vec<Vec<u8>>)
        ensures
            exists|clear: bool| #[trigger]
                old(self)@.may_find(clear) && came_out(
                    old(self)@.dialled(clear, local@, peer@, extended, old(timers).slots()),
                    final(self)@,
                    final(timers).slots(),
                    r@,
                ),
    {
        let clear: bool = self.carrier_is_clear();
        self.connect_sensed(clear, local, peer, extended, timers)
    }

    /// [`SessionManager::connect_extended`] while the channel is known to be clear, or
    /// not to be.
    pub fn connect_sensed<T: TimerService>(
        &mut self,
        clear: bool,
        local: Callsign,
        peer: Callsign,
        extended: bool,
        timers: &mut T,
    ) -> (r: Vec<Vec<u8>>)
        ensures
            came_out(
                old(self)@.dialled(clear, local@, peer@, extended, old(timers).slots()),
                final(self)@,
                final(timers).slots(),
                r@,
            ),
    {
        let i: usize = match self.ensure_slot(peer, local) {
            Some(i) => i,
            None => {
                return no_frames();
            },
        };
        let ghost before = self@;
        assert(before.slots[i as int] == place_view(self.slots@[i as int]));
        proof {
            use_type_invariant(&*self);
            lemma_ensured(old(self)@.slots, peer@, local@);
        }
        match self.lift(i) {
            Some(mut slot) => {
                slot.session.context.edit(Edit::Extended(extended));
                proof {
                    lemma_put_back(before.slots, i as int, slot@);
                    lemma_laid_back(before.slots, i as int, Some(slot@));
                }
                self.lay(i, Some(slot));
            },
            None => {},
        }
        self.post_sensed(clear, local, peer, Event::DlConnectRequest, timers)
    }

    /// Dials a peer as planned: with a probe first, or straight away.
    pub fn connect_planned<T: TimerService>(
        &mut self,
        local: Callsign,
        peer: Callsign,
        plan: PeerDialPlan,
        timers: &mut T,
    ) -> (r: Vec<Vec<u8>>)
        ensures
            if plan.pre_connect_xid && !plan.extended {
                came_out(
                    old(self)@.probed(local@, peer@, old(timers).slots()),
                    final(self)@,
                    final(timers).slots(),
                    r@,
                )
            } else {
                exists|clear: bool| #[trigger]
                    old(self)@.may_find(clear) && came_out(
                        old(self)@.dialled(
                            clear,
                            local@,
                            peer@,
                            plan.extended,
                            old(timers).slots(),
                        ),
                        final(self)@,
                        final(timers).slots(),
                        r@,
                    )
            },
    {
        if plan.pre_connect_xid && !plan.extended {
            self.begin_xid_probe(local, peer)
        } else {
            self.connect_extended(local, peer, plan.extended, timers)
        }
    }

    /// Sends an XID command that offers selective reject, and holds the connect back
    /// until it is answered or the wait for an answer ends.
    pub fn begin_xid_probe(&mut self, local: Callsign, peer: Callsign) -> (r: Vec<Vec<u8>>)
        ensures
            forall|timers: TimerSnapshot|
                came_out(
                    #[trigger] old(self)@.probed(local@, peer@, timers),
                    final(self)@,
                    timers,
                    r@,
                ),
            conduct::probes_at(old(self)@, local@, peer@, final(self)@),
    {
        let i: usize = match self.ensure_slot(peer, local) {
            Some(i) => i,
            None => {
                return no_frames();
            },
        };
        let ghost before = self@;
        assert(before.slots[i as int] == place_view(self.slots@[i as int]));
        proof {
            use_type_invariant(&*self);
            lemma_ensured(old(self)@.slots, peer@, local@);
        }
        match self.lift(i) {
            Some(mut slot) => {
                let ghost found = slot@;
                let sent = slot.probe(local);
                proof {
                    lemma_probing_keeps(found, local@);
                    lemma_put_back(before.slots, i as int, slot@);
                    lemma_laid_back(before.slots, i as int, Some(slot@));
                }
                self.lay(i, Some(slot));
                sent
            },
            None => no_frames(),
        }
    }

    /// Whether a probe to a peer awaits its answer.
    pub fn xid_probe_pending(&self, peer: &Callsign) -> (r: bool)
        ensures
            r == (self@.served(peer@) matches Some(slot) && slot.probe is Some),
    {
        match self.slot_for(peer) {
            Some(slot) => slot.xid_probe.is_some(),
            None => false,
        }
    }

    /// Ends the wait for an answer to a probe: selective reject is taken back, and the
    /// connect goes out. Does nothing if no probe awaits its answer.
    pub fn xid_probe_timeout<T: TimerService>(&mut self, peer: Callsign, timers: &mut T) -> (r: Vec<
        Vec<u8>,
    >)
        ensures
            exists|clear: bool| #[trigger]
                old(self)@.may_find(clear) && ({
                    let p: Posted = old(self)@.probe_timed_out(
                        clear,
                        peer@,
                        old(timers).slots(),
                    );
                    &&& came_out(p, final(self)@, final(timers).slots(), r@)
                    &&& conduct::gives_up_at(old(self)@, peer@, p)
                }),
    {
        let clear: bool = self.carrier_is_clear();
        self.xid_probe_timeout_sensed(clear, peer, timers)
    }

    /// [`SessionManager::xid_probe_timeout`] while the channel is known to be clear, or
    /// not to be.
    pub fn xid_probe_timeout_sensed<T: TimerService>(
        &mut self,
        clear: bool,
        peer: Callsign,
        timers: &mut T,
    ) -> (r: Vec<Vec<u8>>)
        ensures
            ({
                let p: Posted = old(self)@.probe_timed_out(clear, peer@, old(timers).slots());
                &&& came_out(p, final(self)@, final(timers).slots(), r@)
                &&& conduct::gives_up_at(old(self)@, peer@, p)
            }),
    {
        let i: usize = match self.index_of(&peer) {
            Some(i) => i,
            None => {
                return no_frames();
            },
        };
        let ghost before = self@;
        assert(before.slots[i as int] == place_view(self.slots@[i as int]));
        let mut local: Option<Callsign> = None;
        proof {
            use_type_invariant(&*self);
            lemma_slot_of(before.slots, peer@, 0);
        }
        match self.lift(i) {
            Some(mut slot) => {
                match slot.xid_probe {
                    Some(probe) => {
                        local = Some(probe.local);
                        slot.xid_probe = None;
                        revert_pre_connect_xid(&mut slot.session.context);
                    },
                    None => {},
                }
                proof {
                    lemma_put_back(before.slots, i as int, slot@);
                    lemma_laid_back(before.slots, i as int, Some(slot@));
                }
                self.lay(i, Some(slot));
            },
            None => {},
        }
        match local {
            Some(local) => {
                let ghost reverted = self@.slots[i as int]->0;
                let sent = self.post_sensed(clear, local, peer, Event::DlConnectRequest, timers);
                proof {
                    conduct::lemma_giving_up(
                        before,
                        clear,
                        peer@,
                        old(timers).slots(),
                        i as int,
                        reverted,
                    );
                }
                sent
            },
            None => {
                assert(self@.slots =~= before.slots);
                no_frames()
            },
        }
    }

    /// Hands out the signals that the session of a peer raised to Layer 3.
    pub fn take_upward(&mut self, peer: &Callsign) -> (r: Vec<DataLinkSignal>)
        ensures
            final(self)@ == old(self)@.relieved(peer@),
            match old(self)@.served(peer@) {
                Some(slot) => bridge::upward_views(r@) == slot.sink.upward,
                None => r@.len() == 0,
            },
    {
        let mut out: Vec<DataLinkSignal> = Vec::new();
        let i: usize = match self.index_of(peer) {
            Some(i) => i,
            None => {
                return out;
            },
        };
        let ghost before = self@;
        assert(before.slots[i as int] == place_view(self.slots@[i as int]));
        proof {
            use_type_invariant(&*self);
            lemma_slot_of(before.slots, peer@, 0);
        }
        match self.lift(i) {
            Some(mut slot) => {
                std::mem::swap(&mut out, &mut slot.sink.upward);
                assert(slot@.sink.upward =~= Seq::<DataLinkSignalView>::empty());
                proof {
                    lemma_put_back(before.slots, i as int, slot@);
                    lemma_laid_back(before.slots, i as int, Some(slot@));
                }
                self.lay(i, Some(slot));
            },
            None => {},
        }
        out
    }

    /// Frees the slot of a peer if its session is disconnected and has nothing left to
    /// send, and says whether it did. What the session signalled is to be taken first.
    pub fn reap(&mut self, peer: &Callsign) -> (r: bool)
        ensures
            r == old(self)@.can_reap(peer@),
            final(self)@ == old(self)@.reaped(peer@),
            r ==> final(self)@.served(peer@) is None,
    {
        match self.index_of(peer) {
            Some(i) => {
                assert(self@.slots[i as int] == place_view(self.slots@[i as int]));
                let done: bool = match &self.slots[i] {
                    Some(slot) => slot.session.state == State::Disconnected
                        && slot.session.context.queue_is_empty(),
                    None => false,
                };
                if done {
                    proof {
                        use_type_invariant(&*self);
                        law_a_reaped_peer_is_gone(self@, peer@);
                    }
                    let _ = self.lift(i);
                }
                done
            },
            None => false,
        }
    }
}

/// A value that is there.
fn present<A>(value: A) -> (r: Option<A>)
    ensures
        r == Some(value),
{
    Some(value)
}

fn no_frames() -> (r: Vec<Vec<u8>>)
    ensures
        r@.len() == 0,
        bridge::octet_views(r@) == Seq::<Seq<u8>>::empty(),
{
    let r: Vec<Vec<u8>> = Vec::new();
    assert(bridge::octet_views(r@) =~= Seq::empty());
    r
}

} // verus!
