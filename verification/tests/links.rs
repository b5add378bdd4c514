use ax25_node_core::ax25::{Callsign, Frame};
use ax25_node_core::sdl::bridge::classify_incoming;
use ax25_node_core::sdl::event::{Event, FrameInfo};
use ax25_node_core::sdl::manager::SessionManager;
use ax25_node_core::sdl::session::State;
use ax25_node_core::sdl::signal::DataLinkSignal;
use ax25_node_core::sdl::timer::MockTimerService;

fn call(s: &str) -> Callsign {
    Callsign::parse(s).unwrap()
}

fn command(poll_final: bool) -> FrameInfo {
    FrameInfo { poll_final, is_command: true, ..Default::default() }
}

fn frame_in_turn(ns: u8) -> Event {
    Event::IReceived(FrameInfo { ns, info: vec![7], pid: Some(0xF0), ..command(false) })
}

fn heard(octets: &[u8]) -> Event {
    classify_incoming(&Frame::decode(octets).unwrap()).unwrap()
}

fn acknowledged(out: &[Vec<u8>]) -> Option<u8> {
    match out {
        [one] => match heard(one) {
            Event::RrReceived(f) => {
                assert!(!f.is_command && !f.poll_final);
                Some(f.nr)
            }
            _ => panic!("only an RR was due"),
        },
        [] => None,
        _ => panic!("one frame at most was due"),
    }
}

#[test]
fn a_busy_channel_holds_the_acknowledgement_back_until_it_clears() {
    let (local, peer) = (call("M0LTE-1"), call("G7XYZ"));
    let mut node: SessionManager<2> = SessionManager::new(local);
    let mut t = MockTimerService::new();
    let up = node.post_sensed(false, local, peer, Event::SabmReceived(command(true)), &mut t);
    assert_eq!(up.len(), 1);
    assert!(matches!(heard(&up[0]), Event::UaReceived(f) if f.poll_final));
    assert!(!node.seize_pending(&peer));

    let out = node.post_sensed(false, local, peer, frame_in_turn(0), &mut t);
    assert_eq!(acknowledged(&out), None);
    assert!(node.seize_pending(&peer));
    let out = node.post_sensed(false, local, peer, Event::T2Expiry, &mut t);
    assert_eq!(acknowledged(&out), None);
    assert!(node.seize_pending(&peer));
    let out = node.post_sensed(true, local, peer, Event::T2Expiry, &mut t);
    assert_eq!(acknowledged(&out), Some(1));
    assert!(!node.seize_pending(&peer));

    let out = node.post_sensed(true, local, peer, frame_in_turn(1), &mut t);
    assert_eq!(acknowledged(&out), Some(2));
    assert!(!node.seize_pending(&peer));
    assert_eq!(
        node.take_upward(&peer),
        vec![
            DataLinkSignal::ConnectIndication,
            DataLinkSignal::DataIndication(0xF0, vec![7]),
            DataLinkSignal::DataIndication(0xF0, vec![7]),
        ]
    );
}

#[test]
fn a_probe_that_nobody_answers_connects_once() {
    let (local, peer) = (call("M0LTE-1"), call("G7XYZ"));
    let mut node: SessionManager<1> = SessionManager::new(local);
    let mut t = MockTimerService::new();
    assert_eq!(node.begin_xid_probe(local, peer).len(), 1);
    let out = node.xid_probe_timeout_sensed(false, peer, &mut t);
    assert_eq!(out.len(), 1);
    assert!(matches!(heard(&out[0]), Event::SabmReceived(f) if f.poll_final && f.is_command));
    assert!(!node.xid_probe_pending(&peer));
    let s = node.session_for(&peer).unwrap();
    assert_eq!(s.state, State::AwaitingConnection);
    assert!(!s.context.srej_enabled && s.context.implicit_reject && !s.context.is_extended);
    assert!(node.xid_probe_timeout_sensed(true, peer, &mut t).is_empty());
    assert_eq!(node.session_for(&peer).unwrap().state, State::AwaitingConnection);
}

#[test]
fn what_is_done_for_one_peer_leaves_another_alone() {
    let (local, peer, other) = (call("M0LTE-1"), call("G7AAA"), call("G7BBB"));
    let mut node: SessionManager<2> = SessionManager::new(local);
    let mut t = MockTimerService::new();
    node.post_sensed(false, local, other, Event::SabmReceived(command(true)), &mut t);
    node.post_sensed(false, local, other, frame_in_turn(0), &mut t);
    let untouched = |node: &SessionManager<2>| {
        let s = node.session_for(&other).unwrap();
        s.state == State::Connected && s.context.vr == 1 && node.seize_pending(&other)
    };
    node.begin_xid_probe(local, peer);
    assert!(untouched(&node));
    node.xid_probe_timeout(peer, &mut t);
    assert!(untouched(&node));
    node.connect_extended(local, peer, false, &mut t);
    assert!(untouched(&node));
    node.post(peer, Event::SabmReceived(command(true)), &mut t);
    node.post(peer, Event::DiscReceived(command(true)), &mut t);
    assert!(untouched(&node));
    node.take_upward(&peer);
    assert!(untouched(&node));
    node.post(peer, Event::DmReceived(FrameInfo { poll_final: true, ..Default::default() }), &mut t);
    assert!(node.reap(&peer));
    assert!(untouched(&node));
    assert_eq!(node.take_upward(&other).len(), 2);
}

#[test]
fn a_reaped_peer_is_gone_and_makes_room() {
    let (local, peer, other) = (call("M0LTE-1"), call("G7AAA"), call("G7BBB"));
    let mut node: SessionManager<1> = SessionManager::new(local);
    let mut t = MockTimerService::new();
    assert_eq!(node.active(), 0);
    node.post(peer, Event::DmReceived(command(false)), &mut t);
    assert_eq!(node.active(), 1);
    assert!(node.post(other, Event::SabmReceived(command(true)), &mut t).is_empty());
    assert!(node.begin_xid_probe(local, other).is_empty());
    assert!(node.connect(other, &mut t).is_empty());
    assert!(node.session_for(&other).is_none());
    assert!(node.reap(&peer));
    assert!(node.session_for(&peer).is_none());
    assert!(!node.reap(&peer));
    assert_eq!(node.active(), 0);
    assert_eq!(node.post(other, Event::SabmReceived(command(true)), &mut t).len(), 1);
    assert_eq!(node.active(), 1);
}
