//! What the generated tables make of the links of a node: the connect request, the call
//! that brings a link up, the acknowledgement that waits while the channel is busy, and the
//! probe that nobody answers.

use ax25sdl::Ax25Event;
use vstd::prelude::*;

use super::acknowledging;
use super::bridge;
use super::bridge::SinkView;
use super::context::{Edit, Link};
use super::drawn;
use super::establishing;
use super::event::Trigger;
use super::manager;
use super::manager::{Desk, NodeView, Posted, SlotView};
use super::mdl;
use super::receiving;
use super::session;
use super::session::{Drive, State};
use super::signal::{DataLinkSignalView, LinkMultiplexerSignal, Signal};
use super::tables::Charts;
use super::timer::TimerSnapshot;
use crate::ax25::callsign::CallsignView;

verus! {

/// The sink of a slot, counting as the link does.
pub open spec fn wire(slot: SlotView) -> SinkView {
    SinkView { extended: slot.link.is_extended, ..slot.sink }
}

/// The slot still serves the same stations and has no fault.
pub open spec fn carries_on(slot: SlotView, after: SlotView) -> bool {
    &&& after.state == State::Connected
    &&& after.fault is None
    &&& after.peer == slot.peer
    &&& after.probe == slot.probe
    &&& after.sink.local == slot.sink.local
    &&& after.sink.remote == slot.sink.remote
    &&& after.sink.digipeaters == slot.sink.digipeaters
    &&& after.link.i_frame_queue.len() == 0
    &&& after.link.stored_received_i_frames == slot.link.stored_received_i_frames
    &&& after.link.n1 == slot.link.n1
}

/// An owed acknowledgement has gone out as an RR response with N(R) = V(R) if the channel
/// is clear. If it is not, nothing has gone out, and the slot waits for the channel.
pub open spec fn acknowledges_if(
    clear: bool,
    slot: SlotView,
    after: SlotView,
    sent: Seq<Seq<u8>>,
) -> bool {
    &&& after.sink.seize_pending == !clear
    &&& after.link.acknowledge_pending == !clear
    &&& after.link.is_extended == slot.link.is_extended
    &&& after.link.own_receiver_busy == slot.link.own_receiver_busy
    &&& sent == if clear {
        seq![wire(slot).encoded(acknowledging::ready_response(after.link))]
    } else {
        Seq::empty()
    }
}

/// A SABM calls a slot that is down and accepts calls.
pub open spec fn is_called(slot: SlotView, t: Trigger) -> bool {
    &&& t.on == Ax25Event::SABMReceived
    &&& t.frame is Some
    &&& slot.state == State::Disconnected
    &&& slot.link.accept_incoming
    &&& !slot.sink.seize_pending
}

/// The call was answered by a UA and told to the user, and the link is up.
pub open spec fn has_accepted(
    slot: SlotView,
    t: Trigger,
    after: SlotView,
    sent: Seq<Seq<u8>>,
) -> bool {
    &&& carries_on(slot, after)
    &&& receiving::brought_up(slot.link, after.link)
    &&& !after.sink.seize_pending
    &&& after.sink.upward == slot.sink.upward.push(DataLinkSignalView::ConnectIndication)
    &&& sent == seq![wire(slot).encoded(receiving::ua(t.frame->0.poll_final))]
}

/// An I frame comes in turn to a slot that is up and has nothing to send.
pub open spec fn is_in_turn(slot: SlotView, t: Trigger) -> bool {
    &&& slot.state == State::Connected
    &&& slot.link.i_frame_queue.len() == 0
    &&& receiving::in_turn(slot.link, t)
}

/// The frame was delivered, V(R) has advanced, and it is acknowledged if the channel is
/// clear.
pub open spec fn has_received(
    clear: bool,
    slot: SlotView,
    t: Trigger,
    after: SlotView,
    sent: Seq<Seq<u8>>,
) -> bool {
    &&& carries_on(slot, after)
    &&& after.link.vr == slot.link.next_seq(slot.link.vr)
    &&& after.sink.upward == slot.sink.upward.push(
        DataLinkSignalView::DataIndication(t.frame->0.pid->0, t.frame->0.info),
    )
    &&& acknowledges_if(clear, slot, after, sent)
}

/// T2 expires on a slot that owes an acknowledgement and waits for the channel.
pub open spec fn is_reminded(slot: SlotView, t: Trigger) -> bool {
    &&& t.on == Ax25Event::T2Expiry
    &&& slot.state == State::Connected
    &&& slot.link.i_frame_queue.len() == 0
    &&& slot.link.acknowledge_pending
    &&& slot.sink.seize_pending
}

/// Nothing was delivered, and what is owed is acknowledged if the channel is clear.
pub open spec fn has_reminded(
    clear: bool,
    slot: SlotView,
    after: SlotView,
    sent: Seq<Seq<u8>>,
) -> bool {
    &&& carries_on(slot, after)
    &&& after.link.vr == slot.link.vr
    &&& after.sink.upward == slot.sink.upward
    &&& acknowledges_if(clear, slot, after, sent)
}

/// A modulo-8 slot that is down is to connect.
pub open spec fn is_dialling(slot: SlotView, t: Trigger) -> bool {
    &&& t == manager::connect_request()
    &&& slot.state == State::Disconnected
    &&& !slot.link.is_extended
    &&& !slot.sink.seize_pending
}

/// One SABM has gone out, and the connection is awaited under the same reject scheme.
pub open spec fn has_dialled(slot: SlotView, after: SlotView, sent: Seq<Seq<u8>>) -> bool {
    &&& after.state == State::AwaitingConnection
    &&& after.fault is None
    &&& after.peer == slot.peer
    &&& after.probe == slot.probe
    &&& !after.sink.seize_pending
    &&& !after.link.is_extended
    &&& after.link.srej_enabled == slot.link.srej_enabled
    &&& after.link.implicit_reject == slot.link.implicit_reject
    &&& sent == seq![wire(slot).encoded(establishing::sabm())]
}

/// A probe of a modulo-8 slot that is down awaits its answer.
pub open spec fn is_probing(slot: SlotView) -> bool {
    &&& slot.probe is Some
    &&& slot.state == State::Disconnected
    &&& !slot.link.is_extended
    &&& !slot.sink.seize_pending
}

/// The probe is given up: one SABM has gone out, and the connection is awaited without
/// selective reject.
pub open spec fn has_given_up(slot: SlotView, after: SlotView, sent: Seq<Seq<u8>>) -> bool {
    &&& after.state == State::AwaitingConnection
    &&& after.fault is None
    &&& after.peer == slot.peer
    &&& after.probe is None
    &&& !after.sink.seize_pending
    &&& !after.link.is_extended
    &&& !after.link.srej_enabled
    &&& after.link.implicit_reject
    &&& sent == seq![wire(slot).encoded(establishing::sabm())]
}

/// What an event does to a slot on the generated tables, as far as connects, calls and
/// acknowledgements go.
pub open spec fn conducts(
    clear: bool,
    slot: SlotView,
    t: Trigger,
    after: SlotView,
    sent: Seq<Seq<u8>>,
) -> bool {
    &&& is_dialling(slot, t) ==> has_dialled(slot, after, sent)
    &&& is_called(slot, t) ==> has_accepted(slot, t, after, sent)
    &&& is_in_turn(slot, t) ==> has_received(clear, slot, t, after, sent)
    &&& is_reminded(slot, t) ==> has_reminded(clear, slot, after, sent)
}

/// What an event does to the slot that it finds at a node.
pub open spec fn conducts_at(
    node: NodeView,
    clear: bool,
    local: CallsignView,
    peer: CallsignView,
    t: Trigger,
    p: Posted,
) -> bool {
    node.met(peer, local) is Some ==> {
        &&& p.node.served(peer) is Some
        &&& conducts(clear, node.met(peer, local)->0, t, p.node.served(peer)->0, p.sent)
    }
}

/// Sending a probe to a slot that is down and waits for no channel leaves it probing.
pub open spec fn probes_at(
    node: NodeView,
    local: CallsignView,
    peer: CallsignView,
    after: NodeView,
) -> bool {
    node.met(peer, local) is Some ==> {
        let slot: SlotView = node.met(peer, local)->0;
        &&& after.served(peer) is Some
        &&& slot.state == State::Disconnected && !slot.sink.seize_pending ==> is_probing(
            after.served(peer)->0,
        )
    }
}

/// What the end of the wait for an answer does to the slot of a peer.
pub open spec fn gives_up_at(node: NodeView, peer: CallsignView, p: Posted) -> bool {
    node.served(peer) is Some && is_probing(node.served(peer)->0) ==> {
        &&& p.node.served(peer) is Some
        &&& has_given_up(node.served(peer)->0, p.node.served(peer)->0, p.sent)
    }
}

/// The slot that an event starts from counts as its link does and has nothing to hand out.
proof fn lemma_ready(slot: SlotView)
    ensures
        slot.flushed().aligned() == (SlotView {
            sink: SinkView { sent: Seq::empty(), ..wire(slot) },
            ..slot
        }),
{
    manager::lemma_flushed(slot);
    reveal(SlotView::aligned);
}

/// What the sink of a slot makes of two signals.
proof fn lemma_two_signals(sink: SinkView, first: Signal, second: Signal)
    ensures
        sink.after_all(seq![first, second]) == sink.after(first).after(second),
        sink.frames(seq![first, second]) == sink.frames(seq![first]) + sink.frames(seq![second]),
{
    let both: Seq<Signal> = seq![first, second];
    let one: Seq<Signal> = seq![first];
    let other: Seq<Signal> = seq![second];
    assert(both.drop_last() =~= one);
    assert(one.drop_last() =~= Seq::<Signal>::empty());
    assert(other.drop_last() =~= Seq::<Signal>::empty());
    reveal_with_fuel(SinkView::after_all, 3);
    reveal_with_fuel(SinkView::frames, 3);
    assert(sink.frames(both) =~= sink.frames(one) + sink.frames(other));
}

/// What a slot that owes an acknowledgement does once the channel is its own.
proof fn lemma_settled(charts: Charts, waiting: Desk)
    requires
        drawn::drawn(charts),
        waiting.slot.state == State::Connected,
        waiting.slot.link.acknowledge_pending,
        waiting.slot.link.i_frame_queue.len() == 0,
    ensures
        ({
            let d: Drive = manager::on_grant(charts, waiting);
            let link: Link = waiting.slot.link;
            &&& d.fault is None
            &&& d.state == State::Connected
            &&& d.link == link.edited(Edit::AckPending(false))
            &&& d.timers == waiting.timers
            &&& d.out == seq![
                Signal::Frame(acknowledging::ready_response(link)),
                Signal::LinkMux(LinkMultiplexerSignal::ReleaseRequest),
            ]
            &&& !bridge::asks_for_channel(d.out)
            &&& waiting.slot.sink.frames(d.out) == seq![
                waiting.slot.sink.encoded(acknowledging::ready_response(link)),
            ]
        }),
{
    let link: Link = waiting.slot.link;
    let t: Trigger = manager::seize_confirm();
    let rr: Signal = Signal::Frame(acknowledging::ready_response(link));
    let release: Signal = Signal::LinkMux(LinkMultiplexerSignal::ReleaseRequest);
    acknowledging::law_a_grant_acknowledges(charts, State::Connected, link, waiting.timers, t);
    session::law_dispatch_keeps(charts, State::Connected, link, waiting.timers, t);
    lemma_two_signals(waiting.slot.sink, rr, release);
    reveal_with_fuel(SinkView::frames, 2);
    let one: Seq<Signal> = seq![rr];
    let other: Seq<Signal> = seq![release];
    assert(one.drop_last() =~= Seq::<Signal>::empty());
    assert(other.drop_last() =~= Seq::<Signal>::empty());
    assert(waiting.slot.sink.frames(seq![rr, release]) =~= seq![
        waiting.slot.sink.encoded(acknowledging::ready_response(link)),
    ]);
}

/// What becomes of an acknowledgement that an event leaves owed.
proof fn lemma_owed(charts: Charts, clear: bool, desk: Desk, t: Trigger)
    requires
        drawn::drawn(charts),
        manager::drives(desk.slot, t),
        ({
            let waiting: SlotView = manager::before_grant(charts, desk, t).slot;
            &&& waiting.state == State::Connected
            &&& waiting.fault is None
            &&& waiting.link.acknowledge_pending
            &&& waiting.link.i_frame_queue.len() == 0
            &&& waiting.sink.seize_pending
            &&& waiting.sink.sent == Seq::<Seq<u8>>::empty()
        }),
    ensures
        ({
            let waiting: SlotView = manager::before_grant(charts, desk, t).slot;
            let after: SlotView = manager::exchanged(charts, clear, desk, t).slot;
            &&& after.state == State::Connected
            &&& after.fault is None
            &&& after.link == if clear {
                waiting.link.edited(Edit::AckPending(false))
            } else {
                waiting.link
            }
            &&& after.sink == SinkView {
                sent: after.sink.sent,
                seize_pending: !clear,
                ..waiting.sink
            }
            &&& after.sink.sent == if clear {
                seq![waiting.sink.encoded(acknowledging::ready_response(waiting.link))]
            } else {
                Seq::empty()
            }
        }),
{
    let waiting: Desk = manager::before_grant(charts, desk, t);
    let reply: Drive = manager::on_grant(charts, waiting);
    let after: SlotView = manager::exchanged(charts, clear, desk, t).slot;
    lemma_settled(charts, waiting);
    manager::law_the_channel_is_granted_exactly_when_clear(charts, clear, desk, t);
    assert(Seq::<Seq<u8>>::empty() + waiting.slot.sink.frames(reply.out)
        =~= waiting.slot.sink.frames(reply.out));
    if clear {
        let given: SlotView = SlotView {
            sink: SinkView { seize_pending: false, ..waiting.slot.sink },
            ..waiting.slot
        };
        let rr: Signal = Signal::Frame(acknowledging::ready_response(waiting.slot.link));
        let release: Signal = Signal::LinkMux(LinkMultiplexerSignal::ReleaseRequest);
        lemma_two_signals(given.sink, rr, release);
        let once: Desk = manager::driven_once(
            charts,
            Desk { slot: given, ..waiting },
            manager::seize_confirm(),
        );
        assert(once.slot == given.after_drive(reply) && once.timers == reply.timers) by {
            reveal(manager::driven_once);
        }
        manager::lemma_flushed(desk.slot);
        assert(manager::granted(charts, clear, waiting, manager::MAX_GRANTS as nat)
            == manager::granted(charts, clear, once, (manager::MAX_GRANTS - 1) as nat));
        assert(manager::granted(charts, clear, once, (manager::MAX_GRANTS - 1) as nat) == once);
    }
}

/// Clearing what is owed changes nothing else of a link that is up.
proof fn lemma_paid(link: Link)
    ensures
        ({
            let after: Link = link.edited(Edit::AckPending(false));
            &&& after.vr == link.vr
            &&& !after.acknowledge_pending
            &&& after.is_extended == link.is_extended
            &&& after.own_receiver_busy == link.own_receiver_busy
            &&& after.i_frame_queue == link.i_frame_queue
            &&& after.stored_received_i_frames == link.stored_received_i_frames
            &&& after.n1 == link.n1
        }),
{
    reveal(Link::edited);
    reveal(Link::with_ack_pending);
}

/// An I frame that comes in turn is delivered at once. It is acknowledged by an RR response
/// with N(R) = V(R) if the channel is clear; if it is busy nothing goes out, and the slot
/// waits for the channel.
pub proof fn law_a_frame_in_turn_is_acknowledged_when_clear(
    charts: Charts,
    clear: bool,
    desk: Desk,
    t: Trigger,
)
    requires
        drawn::drawn(charts),
        is_in_turn(desk.slot, t),
    ensures
        ({
            let after: SlotView = manager::exchanged(charts, clear, desk, t).slot;
            has_received(clear, desk.slot, t, after, after.sink.sent)
        }),
{
    let ready: SlotView = desk.slot.flushed().aligned();
    let link: Link = desk.slot.link;
    let d: Drive = session::dispatched(charts, State::Connected, link, desk.timers, t);
    let seize: Signal = Signal::LinkMux(LinkMultiplexerSignal::SeizeRequest);
    lemma_ready(desk.slot);
    receiving::law_a_frame_in_turn_asks_for_the_channel(charts, link, desk.timers, t);
    lemma_two_signals(ready.sink, receiving::delivery(t), seize);
    let waiting: Desk = manager::before_grant(charts, desk, t);
    assert(waiting.slot == ready.after_drive(d) && waiting.timers == d.timers) by {
        reveal(manager::driven_once);
    }
    lemma_owed(charts, clear, desk, t);
    lemma_paid(waiting.slot.link);
    manager::lemma_exchanged_keeps_peer_and_probe(charts, clear, desk, t);
    manager::lemma_flushed(manager::exchanged(charts, clear, desk, t).slot);
}

/// When T2 expires on a slot that owes an acknowledgement and waits for the channel, the RR
/// response goes out and the wait ends if the channel is clear by then. If it is not, the
/// slot goes on waiting.
pub proof fn law_a_waiting_acknowledgement_goes_when_clear(
    charts: Charts,
    clear: bool,
    desk: Desk,
    t: Trigger,
)
    requires
        drawn::drawn(charts),
        is_reminded(desk.slot, t),
    ensures
        ({
            let after: SlotView = manager::exchanged(charts, clear, desk, t).slot;
            has_reminded(clear, desk.slot, after, after.sink.sent)
        }),
{
    let ready: SlotView = desk.slot.flushed().aligned();
    let link: Link = desk.slot.link;
    let d: Drive = session::dispatched(charts, State::Connected, link, desk.timers, t);
    lemma_ready(desk.slot);
    assert(d == session::at_rest(State::Connected, link, desk.timers)) by {
        reveal(drawn::drawn);
        drawn::lemma_match_is_keyed(charts.page(State::Connected), link, desk.timers, t, 0);
    }
    let waiting: Desk = manager::before_grant(charts, desk, t);
    assert(waiting.slot == ready.after_drive(d) && waiting.timers == d.timers) by {
        reveal(manager::driven_once);
    }
    lemma_owed(charts, clear, desk, t);
    lemma_paid(waiting.slot.link);
    manager::lemma_exchanged_keeps_peer_and_probe(charts, clear, desk, t);
    manager::lemma_flushed(manager::exchanged(charts, clear, desk, t).slot);
}

/// A SABM to a slot that is down and accepts calls is answered by a UA whose F bit is its P
/// bit, whatever the channel is, and brings the link up.
pub proof fn law_a_call_brings_the_link_up(charts: Charts, clear: bool, desk: Desk, t: Trigger)
    requires
        drawn::drawn(charts),
        is_called(desk.slot, t),
    ensures
        ({
            let after: SlotView = manager::exchanged(charts, clear, desk, t).slot;
            has_accepted(desk.slot, t, after, after.sink.sent)
        }),
{
    let ready: SlotView = desk.slot.flushed().aligned();
    let link: Link = desk.slot.link;
    let d: Drive = session::driven(charts, State::Disconnected, link, desk.timers, t);
    let ua: Signal = Signal::Frame(receiving::ua(t.frame->0.poll_final));
    let told: Signal = Signal::Upward(DataLinkSignalView::ConnectIndication);
    lemma_ready(desk.slot);
    receiving::law_a_call_is_accepted(charts, link, desk.timers, t);
    lemma_two_signals(ready.sink, ua, told);
    let called: Desk = manager::before_grant(charts, desk, t);
    assert(called.slot == ready.after_drive(d) && called.timers == d.timers) by {
        reveal(manager::driven_once);
    }
    manager::law_the_channel_is_granted_exactly_when_clear(charts, clear, desk, t);
    manager::lemma_exchanged_keeps_peer_and_probe(charts, clear, desk, t);
    manager::lemma_flushed(manager::exchanged(charts, clear, desk, t).slot);
    assert(called.slot.sink.sent =~= seq![wire(desk.slot).encoded(
        receiving::ua(t.frame->0.poll_final),
    )]);
}

/// A connect request of a modulo-8 link that is down sends one SABM and nothing else,
/// whatever the channel is: no channel is asked for. The reject scheme stays as it was.
pub proof fn law_a_connect_sends_one_sabm(charts: Charts, clear: bool, desk: Desk)
    requires
        drawn::drawn(charts),
        is_dialling(desk.slot, manager::connect_request()),
    ensures
        ({
            let after: SlotView = manager::exchanged(
                charts,
                clear,
                desk,
                manager::connect_request(),
            ).slot;
            has_dialled(desk.slot, after, after.sink.sent)
        }),
{
    let t: Trigger = manager::connect_request();
    let ready: SlotView = desk.slot.flushed().aligned();
    let link: Link = desk.slot.link;
    let d: Drive = session::driven(charts, State::Disconnected, link, desk.timers, t);
    let sabm: Signal = Signal::Frame(establishing::sabm());
    let one: Seq<Signal> = seq![sabm];
    lemma_ready(desk.slot);
    establishing::law_a_connect_request_sends_a_sabm(charts, link, desk.timers, t);
    let connecting: Desk = manager::before_grant(charts, desk, t);
    assert(connecting.slot == ready.after_drive(d) && connecting.timers == d.timers) by {
        reveal(manager::driven_once);
    }
    manager::law_the_channel_is_granted_exactly_when_clear(charts, clear, desk, t);
    manager::lemma_exchanged_keeps_peer_and_probe(charts, clear, desk, t);
    manager::lemma_flushed(manager::exchanged(charts, clear, desk, t).slot);
    assert(one.drop_last() =~= Seq::<Signal>::empty());
    reveal_with_fuel(SinkView::after_all, 2);
    assert(connecting.slot.sink.sent =~= seq![wire(desk.slot).encoded(establishing::sabm())]);
}

/// After a probe that nobody answers a modulo-8 link that is down connects: one SABM goes
/// out, the connection is awaited without selective reject, and no probe is pending. A
/// second timeout sends nothing and changes nothing.
pub proof fn law_an_unanswered_probe_connects(
    node: NodeView,
    clear: bool,
    peer: CallsignView,
    timers: TimerSnapshot,
    clear_later: bool,
    timers_later: TimerSnapshot,
)
    requires
        drawn::drawn(Charts::generated()),
        node.served(peer) is Some,
        is_probing(node.served(peer)->0),
    ensures
        ({
            let p: Posted = node.probe_timed_out(clear, peer, timers);
            &&& p.node.served(peer) is Some
            &&& has_given_up(node.served(peer)->0, p.node.served(peer)->0, p.sent)
            &&& p.node.probe_timed_out(clear_later, peer, timers_later) == p.node.idle(
                timers_later,
            )
        }),
{
    let charts: Charts = Charts::generated();
    let slot: SlotView = node.served(peer)->0;
    let reverted: SlotView = SlotView {
        link: slot.link.edited(Edit::SelectiveReject(false)),
        probe: None,
        ..slot
    };
    let desk: Desk = Desk { slot: reverted, timers };
    let t: Trigger = manager::connect_request();
    manager::law_a_probe_times_out_once(node, clear, peer, timers, clear_later, timers_later);
    assert(reverted.link.is_extended == slot.link.is_extended) by {
        reveal(Link::edited);
        reveal(Link::with_selective_reject);
    }
    law_a_connect_sends_one_sabm(charts, clear, desk);
    manager::lemma_flushed(manager::exchanged(charts, clear, desk, t).slot);
}

/// A source that reports a busy channel holds an acknowledgement back. A source that reports
/// an idle one, one that does not know, and a node without a source let it go.
pub proof fn law_only_a_busy_report_holds_an_acknowledgement_back(
    node: NodeView,
    clear: bool,
    local: CallsignView,
    peer: CallsignView,
    t: Trigger,
    timers: TimerSnapshot,
)
    requires
        drawn::drawn(Charts::generated()),
        node.may_find(clear),
        node.met(peer, local) is Some,
        is_in_turn(node.met(peer, local)->0, t) || is_reminded(node.met(peer, local)->0, t),
    ensures
        ({
            let p: Posted = node.posted(clear, local, peer, t, timers);
            let slot: SlotView = node.met(peer, local)->0;
            let after: SlotView = p.node.served(peer)->0;
            &&& !node.can_be_clear ==> after.sink.seize_pending && p.sent.len() == 0
            &&& !node.can_be_busy ==> !after.sink.seize_pending && p.sent == seq![
                wire(slot).encoded(acknowledging::ready_response(after.link)),
            ]
        }),
{
    law_a_node_conducts_its_links(node, clear, local, peer, t, timers);
}

/// Giving a probe up is a connect request of the link without selective reject.
pub proof fn lemma_giving_up(
    node: NodeView,
    clear: bool,
    peer: CallsignView,
    timers: TimerSnapshot,
    i: int,
    reverted: SlotView,
)
    requires
        manager::slot_of(node.slots, peer, 0) == Some(i),
        node.slots[i] is Some,
        node.slots[i]->0.probe is Some,
        reverted == (SlotView {
            link: node.slots[i]->0.link.edited(Edit::SelectiveReject(false)),
            probe: None,
            ..node.slots[i]->0
        }),
        conducts_at(
            node.with_slot(i, reverted),
            clear,
            node.slots[i]->0.probe->0.local,
            peer,
            manager::connect_request(),
            node.with_slot(i, reverted).posted(
                clear,
                node.slots[i]->0.probe->0.local,
                peer,
                manager::connect_request(),
                timers,
            ),
        ),
    ensures
        gives_up_at(node, peer, node.probe_timed_out(clear, peer, timers)),
{
    let slot: SlotView = node.slots[i]->0;
    let ready: NodeView = node.with_slot(i, reverted);
    manager::lemma_changed_slot_is_met(node, peer, i, reverted, slot.probe->0.local);
    mdl::law_unanswered_probe_leaves_no_selective_reject(slot.link);
    assert(reverted.link.is_extended == slot.link.is_extended) by {
        reveal(Link::edited);
        reveal(Link::with_selective_reject);
    }
}

/// What the generated tables do to connects, calls and acknowledgements at a node.
pub proof fn law_a_node_conducts_its_links(
    node: NodeView,
    clear: bool,
    local: CallsignView,
    peer: CallsignView,
    t: Trigger,
    timers: TimerSnapshot,
)
    requires
        drawn::drawn(Charts::generated()),
    ensures
        conducts_at(
            node,
            clear,
            local,
            peer,
            t,
            node.posted(clear, local, peer, t, timers),
        ),
{
    let charts: Charts = Charts::generated();
    if let Some(slot) = node.met(peer, local) {
        let desk: Desk = Desk { slot, timers };
        let after: SlotView = manager::exchanged(charts, clear, desk, t).slot;
        manager::law_events_reach_the_slot_of_their_peer(node, clear, local, peer, t, timers);
        manager::lemma_flushed(after);
        if is_dialling(slot, t) {
            law_a_connect_sends_one_sabm(charts, clear, desk);
        }
        if is_called(slot, t) {
            law_a_call_brings_the_link_up(charts, clear, desk, t);
        }
        if is_in_turn(slot, t) {
            law_a_frame_in_turn_is_acknowledged_when_clear(charts, clear, desk, t);
        }
        if is_reminded(slot, t) {
            law_a_waiting_acknowledgement_goes_when_clear(charts, clear, desk, t);
        }
    }
}

} // verus!
