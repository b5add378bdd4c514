use ax25_node_core::ax25::{Callsign, Frame};
use ax25_node_core::sdl::bridge::classify_incoming;
use ax25_node_core::sdl::capability::{PeerCapabilityCache, PeerDialPlan, PeerDialPolicy};
use ax25_node_core::sdl::carrier::{AlwaysClear, CarrierSense};
use ax25_node_core::sdl::event::{Event, FrameInfo};
use ax25_node_core::sdl::loop_exec::{LoopHost, Script};
use ax25_node_core::sdl::manager::SessionManager;
use ax25_node_core::sdl::session::State;
use ax25_node_core::sdl::timer::MockTimerService;
use ax25_node_core::sdl::{run_loop, LoopRange, MAX_ITERATIONS};
use std::cell::Cell;
use std::rc::Rc;

fn call(s: &str) -> Callsign {
    Callsign::parse(s).unwrap()
}

fn sabm() -> Event {
    Event::SabmReceived(FrameInfo { poll_final: true, is_command: true, ..Default::default() })
}

fn i_frame(ns: u8) -> Event {
    Event::IReceived(FrameInfo {
        ns,
        is_command: true,
        info: vec![ns],
        pid: Some(0xF0),
        ..Default::default()
    })
}

/// A channel that someone else occupies and leaves.
struct Shared(Rc<Cell<Option<bool>>>);

impl CarrierSense for Shared {
    fn channel_busy(&self) -> Option<bool> {
        self.0.get()
    }
}

#[test]
fn the_channel_is_looked_at_anew_for_each_event() {
    let channel = Rc::new(Cell::new(Some(true)));
    let mut node: SessionManager<2> =
        SessionManager::new(call("M0LTE-1")).with_carrier_sense(Box::new(Shared(channel.clone())));
    let mut t = MockTimerService::new();
    let peer = call("G7XYZ");
    node.post(peer, sabm(), &mut t);
    assert!(node.post(peer, i_frame(0), &mut t).is_empty());
    assert!(node.seize_pending(&peer));
    channel.set(Some(false));
    assert_eq!(node.post(peer, Event::T2Expiry, &mut t).len(), 1);
    assert!(!node.seize_pending(&peer));
    assert!(Shared(channel).is_clear() && AlwaysClear.is_clear());
}

#[test]
fn what_the_channel_is_decides_what_goes_out() {
    let mut node: SessionManager<2> = SessionManager::new(call("M0LTE-1"));
    let mut t = MockTimerService::new();
    let peer = call("G7XYZ");
    let local = call("M0LTE-1");
    node.post_sensed(true, local, peer, sabm(), &mut t);
    assert!(node.post_sensed(false, local, peer, i_frame(0), &mut t).is_empty());
    assert!(node.seize_pending(&peer));
    let sent = node.post_sensed(true, local, peer, i_frame(1), &mut t);
    assert_eq!(sent.len(), 1);
    assert_eq!(Frame::decode(&sent[0]).unwrap().control, 0x41);
}

#[test]
fn a_busy_channel_is_clear_once_its_source_is_gone() {
    let mut node: SessionManager<2> = SessionManager::new(call("M0LTE-1"));
    node.set_carrier_sense(Box::new(Shared(Rc::new(Cell::new(Some(true))))));
    let mut t = MockTimerService::new();
    let peer = call("G7XYZ");
    node.post(peer, sabm(), &mut t);
    node.post(peer, i_frame(0), &mut t);
    assert!(node.seize_pending(&peer));
    node.clear_carrier_sense();
    node.post(peer, Event::T2Expiry, &mut t);
    assert!(!node.seize_pending(&peer));
}

#[test]
fn an_event_touches_the_slot_of_its_peer_only() {
    let mut node: SessionManager<3> = SessionManager::new(call("M0LTE-1"));
    let mut t = MockTimerService::new();
    node.post(call("G7AAA"), sabm(), &mut t);
    node.post(call("G7BBB"), sabm(), &mut t);
    node.post(call("G7AAA"), i_frame(0), &mut t);
    node.post(call("G7AAA"), sabm(), &mut t);
    assert_eq!(node.active(), 2);
    assert_eq!(node.session_for(&call("G7BBB")).unwrap().context.vr, 0);
    node.post(call("G7AAA"), Event::DiscReceived(FrameInfo { is_command: true, ..Default::default() }), &mut t);
    assert_eq!(node.session_for(&call("G7BBB")).unwrap().state, State::Connected);
    assert!(node.reap(&call("G7AAA")));
    assert!(!node.reap(&call("G7BBB")));
    assert_eq!(node.active(), 1);
    assert_eq!(node.fault_of(&call("G7BBB")), None);
}

#[test]
fn a_full_node_does_nothing_for_a_stranger() {
    let mut node: SessionManager<1> = SessionManager::new(call("M0LTE-1"));
    let mut t = MockTimerService::new();
    node.post(call("G7AAA"), sabm(), &mut t);
    assert!(node.post(call("G7BBB"), sabm(), &mut t).is_empty());
    assert!(node.connect(call("G7BBB"), &mut t).is_empty());
    assert!(node.begin_xid_probe(call("M0LTE-1"), call("G7BBB")).is_empty());
    assert!(node.session_for(&call("G7BBB")).is_none());
}

#[test]
fn a_session_uses_the_callsign_that_it_was_dialled_from() {
    let mut node: SessionManager<2> = SessionManager::new(call("M0LTE-1"));
    let mut t = MockTimerService::new();
    let sent = node.connect_extended(call("M0LTE-7"), call("G7AAA"), true, &mut t);
    let f = Frame::decode(&sent[0]).unwrap();
    assert_eq!(f.source.callsign, call("M0LTE-7"));
    assert_eq!(f.control, 0x7F);
    assert_eq!(node.local(), call("M0LTE-1"));
    assert!(node.with_prefer_extended_connect(true).prefer_extended_connect());
}

#[test]
fn a_probe_that_is_not_pending_cannot_time_out() {
    let mut node: SessionManager<2> = SessionManager::new(call("M0LTE-1"));
    let mut t = MockTimerService::new();
    let peer = call("G7AAA");
    assert!(node.xid_probe_timeout(peer, &mut t).is_empty());
    node.begin_xid_probe(call("M0LTE-1"), peer);
    assert!(node.xid_probe_pending(&peer));
    let sent = node.xid_probe_timeout_sensed(true, peer, &mut t);
    assert_eq!(Frame::decode(&sent[0]).unwrap().control, 0x3F);
    assert!(!node.xid_probe_pending(&peer));
    assert!(node.xid_probe_timeout(peer, &mut t).is_empty());
}

#[test]
fn a_plan_does_one_thing_or_the_other() {
    let mut cache: PeerCapabilityCache<2> = PeerCapabilityCache::new();
    let peer = call("G7AAA");
    for (extended, took, xid, srej) in
        [(true, true, false, false), (true, false, false, false), (false, false, true, true)]
    {
        cache.record_outcome(0, peer, extended, took, xid, srej, 5);
        for policy in [PeerDialPolicy::Interlink, PeerDialPolicy::UserConnect] {
            let plan = cache.plan_dial(0, &peer, policy, 6);
            assert!(!(plan.extended && plan.pre_connect_xid));
        }
    }
    assert_eq!(
        cache.plan_dial(0, &peer, PeerDialPolicy::UserConnect, 6),
        PeerDialPlan { extended: false, pre_connect_xid: true }
    );
}

#[test]
fn neighbours_are_learned_looked_up_and_forgotten_apart() {
    let mut cache: PeerCapabilityCache<2> = PeerCapabilityCache::new();
    assert!(cache.is_empty());
    cache.record_outcome(0, call("G7AAA"), true, true, false, false, 10);
    cache.record_outcome(1, call("G7AAA"), false, false, true, false, 20);
    assert_eq!(cache.len(), 2);
    assert_eq!(cache.lookup(0, &call("G7AAA")).unwrap().supports_extended, Some(true));
    assert_eq!(cache.lookup(1, &call("G7AAA")).unwrap().supports_extended, None);
    // A third neighbour takes the place of the one that was dialled longest ago.
    cache.record_outcome(0, call("G7CCC"), true, false, false, false, 30);
    assert!(cache.lookup(0, &call("G7AAA")).is_none());
    assert_eq!(cache.lookup(1, &call("G7AAA")).unwrap().supports_srej_via_xid, Some(false));
    assert!(cache.forget(1, &call("G7AAA")));
    assert!(!cache.forget(1, &call("G7AAA")));
    assert_eq!(cache.iter().len(), 1);
    assert_eq!(cache.iter()[0].last_refused_ms, Some(30));
}

struct Endless(usize);

impl LoopHost for Endless {
    fn run_action(&mut self, _index: usize) {
        self.0 += 1;
    }
    fn predicate_holds(&mut self, _range: &LoopRange) -> bool {
        true
    }
}

#[test]
fn a_walk_stops_at_the_cap_and_goes_on_behind_the_loop() {
    let range = LoopRange { start: 1, length: 2, predicate: "p", test_at_end: false };
    let mut host = Endless(0);
    let n = run_loop(4, &[range], &mut host);
    assert_eq!(n, 2 + 2 * MAX_ITERATIONS);
    assert_eq!(host.0, n);
}

#[test]
fn a_script_notes_the_actions_of_a_walk() {
    let first = LoopRange { start: 1, length: 1, predicate: "p", test_at_end: false };
    let second = LoopRange { start: 2, length: 2, predicate: "q", test_at_end: true };
    let mut host = Script::new(vec![true, true, false, true]);
    assert_eq!(run_loop(5, &[first, second], &mut host), 8);
    assert_eq!(host.order, vec![0, 1, 1, 2, 3, 2, 3, 4]);
    assert_eq!(host.asked, 4);
}

#[test]
fn a_frame_that_is_marked_as_neither_answers_no_probe() {
    let (ours, theirs) = (call("M0LTE-1"), call("G7AAA"));
    let mut node: SessionManager<2> = SessionManager::new(ours);
    let mut peer: SessionManager<2> = SessionManager::new(theirs);
    let mut t = MockTimerService::new();
    node.begin_xid_probe(ours, theirs);
    let mut f = Frame::decode(&peer.begin_xid_probe(theirs, ours)[0]).unwrap();
    for (destination, source, answers) in
        [(false, false, false), (true, true, false), (false, true, true)]
    {
        f.destination.crh = destination;
        f.source.crh = source;
        let event = classify_incoming(&f).unwrap();
        match &event {
            Event::XidReceived(info) => {
                assert!(!info.is_command);
                assert_eq!(info.is_response(), answers);
            }
            _ => panic!("{event:?}"),
        }
        node.post(theirs, event, &mut t);
        assert_eq!(node.xid_probe_pending(&theirs), !answers);
    }
}
