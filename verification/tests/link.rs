use ax25_node_core::ax25::PID_NO_LAYER3;
use ax25_node_core::sdl::event::{Event, FrameInfo};
use ax25_node_core::sdl::quirks::Quirks;
use ax25_node_core::sdl::session::{Session, State};
use ax25_node_core::sdl::signal::{
    DataLinkSignal, FrameSpec, InternalSignal, LinkMultiplexerSignal, SessionSink, UnnumberedKind,
};
use ax25_node_core::sdl::timer::{
    next_t1_rc_backoff_ms, srt_iir_update, MockTimerService, TimerId, TimerService,
};
use ax25sdl::Ax25Event as Sdl;

#[derive(Debug, Default)]
struct Recorder {
    frames: Vec<FrameSpec>,
    upward: Vec<DataLinkSignal>,
    link_mux: Vec<LinkMultiplexerSignal>,
    internal: Vec<InternalSignal>,
}

impl SessionSink for Recorder {
    fn send_frame(&mut self, spec: FrameSpec) {
        self.frames.push(spec);
    }
    fn send_upward(&mut self, signal: DataLinkSignal) {
        self.upward.push(signal);
    }
    fn send_link_mux(&mut self, signal: LinkMultiplexerSignal) {
        self.link_mux.push(signal);
    }
    fn send_internal(&mut self, signal: InternalSignal) {
        self.internal.push(signal);
    }
}

impl Recorder {
    fn unnumbered(&self) -> Vec<UnnumberedKind> {
        self.frames
            .iter()
            .filter_map(|f| match f {
                FrameSpec::Unnumbered { kind, .. } => Some(*kind),
                _ => None,
            })
            .collect()
    }
    fn i_frames(&self) -> Vec<(u8, u8, Vec<u8>)> {
        self.frames
            .iter()
            .filter_map(|f| match f {
                FrameSpec::Information { ns, nr, info, .. } => Some((*ns, *nr, info.clone())),
                _ => None,
            })
            .collect()
    }
}

fn rx(poll_final: bool, is_command: bool) -> FrameInfo {
    FrameInfo {
        poll_final,
        is_command,
        ..Default::default()
    }
}

fn rx_i(ns: u8, nr: u8, poll_final: bool) -> FrameInfo {
    FrameInfo {
        ns,
        nr,
        poll_final,
        is_command: true,
        info: vec![0xAA, 0xBB],
        pid: Some(PID_NO_LAYER3),
        ..Default::default()
    }
}

fn rx_s(nr: u8, poll_final: bool, is_command: bool) -> FrameInfo {
    FrameInfo {
        nr,
        poll_final,
        is_command,
        ..Default::default()
    }
}

#[test]
fn event_maps_to_typed_sdl_event() {
    assert_eq!(Event::DlConnectRequest.to_sdl(), Sdl::DLCONNECTRequest);
    assert_eq!(
        Event::SabmReceived(rx(true, true)).to_sdl(),
        Sdl::SABMReceived
    );
    assert_eq!(Event::T1Expiry.to_sdl(), Sdl::T1Expiry);
    assert_eq!(
        Event::IFramePopsOffQueue(0xF0, vec![]).to_sdl(),
        Sdl::IFramePopsOffQueue
    );
}

#[test]
fn outbound_connect_sends_sabm_and_enters_awaiting_connection() {
    let mut s = Session::new();
    let mut t = MockTimerService::new();
    let mut r = Recorder::default();

    s.post_event(Event::DlConnectRequest, &mut t, &mut r).unwrap();

    assert_eq!(s.state, State::AwaitingConnection);
    assert_eq!(r.unnumbered(), vec![UnnumberedKind::Sabm]);
    assert!(s.context.layer3_initiated);
    assert!(t.is_running(TimerId::T1));
    assert_eq!(s.context.t1v_ms, 6000);
}

#[test]
fn connect_then_ua_confirms_and_enters_connected() {
    let mut s = Session::new();
    let mut t = MockTimerService::new();
    let mut r = Recorder::default();

    s.post_event(Event::DlConnectRequest, &mut t, &mut r).unwrap();
    r.upward.clear();
    s.post_event(Event::UaReceived(rx(true, false)), &mut t, &mut r).unwrap();

    assert_eq!(s.state, State::Connected);
    assert!(r.upward.contains(&DataLinkSignal::ConnectConfirm));
    assert_eq!((s.context.vs, s.context.va, s.context.vr), (0, 0, 0));
}

#[test]
fn inbound_sabm_accepted_sends_ua_and_connects() {
    let mut s = Session::new();
    let mut t = MockTimerService::new();
    let mut r = Recorder::default();

    s.post_event(Event::SabmReceived(rx(true, true)), &mut t, &mut r).unwrap();

    assert_eq!(s.state, State::Connected);
    assert_eq!(r.unnumbered(), vec![UnnumberedKind::Ua]);
    assert!(r.upward.contains(&DataLinkSignal::ConnectIndication));
    assert!(!s.context.is_extended);
}

#[test]
fn inbound_sabm_rejected_sends_dm_and_stays_disconnected() {
    let mut s = Session::new();
    s.context.accept_incoming = false;
    let mut t = MockTimerService::new();
    let mut r = Recorder::default();

    s.post_event(Event::SabmReceived(rx(true, true)), &mut t, &mut r).unwrap();

    assert_eq!(s.state, State::Disconnected);
    assert_eq!(r.unnumbered(), vec![UnnumberedKind::Dm]);
    assert!(r.upward.is_empty());
}

#[test]
fn inbound_sabme_accepted_connects_extended() {
    let mut s = Session::new();
    let mut t = MockTimerService::new();
    let mut r = Recorder::default();

    s.post_event(Event::SabmeReceived(rx(true, true)), &mut t, &mut r).unwrap();

    assert_eq!(s.state, State::Connected);
    assert_eq!(r.unnumbered(), vec![UnnumberedKind::Ua]);
    assert!(s.context.is_extended);
}

#[test]
fn disconnect_request_from_connected_sends_disc() {
    let mut s = connected_session();
    let mut t = MockTimerService::new();
    let mut r = Recorder::default();

    s.post_event(Event::DlDisconnectRequest, &mut t, &mut r).unwrap();

    assert_eq!(s.state, State::AwaitingRelease);
    assert_eq!(r.unnumbered(), vec![UnnumberedKind::Disc]);
}

#[test]
fn disconnect_then_ua_confirms_disconnect() {
    let mut s = connected_session();
    let mut t = MockTimerService::new();
    let mut r = Recorder::default();

    s.post_event(Event::DlDisconnectRequest, &mut t, &mut r).unwrap();
    r.upward.clear();
    s.post_event(Event::UaReceived(rx(true, false)), &mut t, &mut r).unwrap();

    assert_eq!(s.state, State::Disconnected);
    assert!(r.upward.contains(&DataLinkSignal::DisconnectConfirm));
}

#[test]
fn inbound_disc_when_connected_sends_ua_and_disconnects() {
    let mut s = connected_session();
    let mut t = MockTimerService::new();
    let mut r = Recorder::default();

    s.post_event(Event::DiscReceived(rx(true, true)), &mut t, &mut r).unwrap();

    assert_eq!(s.state, State::Disconnected);
    assert_eq!(r.unnumbered(), vec![UnnumberedKind::Ua]);
    assert!(r.upward.contains(&DataLinkSignal::DisconnectIndication));
}

#[test]
fn disconnected_ui_data_request_sends_ui() {
    let mut s = Session::new();
    let mut t = MockTimerService::new();
    let mut r = Recorder::default();

    s.post_event(
        Event::DlUnitDataRequest(PID_NO_LAYER3, vec![1, 2, 3]),
        &mut t,
        &mut r,
    ).unwrap();

    assert_eq!(s.state, State::Disconnected);
    assert!(matches!(
        r.frames.first(),
        Some(FrameSpec::Ui { info, .. }) if info == &vec![1, 2, 3]
    ));
}

#[test]
fn disconnected_disc_received_sends_dm() {
    let mut s = Session::new();
    let mut t = MockTimerService::new();
    let mut r = Recorder::default();

    s.post_event(Event::DiscReceived(rx(true, true)), &mut t, &mut r).unwrap();

    assert_eq!(s.state, State::Disconnected);
    assert_eq!(r.unnumbered(), vec![UnnumberedKind::Dm]);
}

#[test]
fn dl_data_request_when_connected_sends_i_frame_and_advances_vs() {
    let mut s = connected_session();
    let mut t = MockTimerService::new();
    let mut r = Recorder::default();

    s.post_event(
        Event::DlDataRequest(PID_NO_LAYER3, vec![0xDE, 0xAD]),
        &mut t,
        &mut r,
    ).unwrap();

    let i = s_first_i(&r);
    assert_eq!(i.0, 0);
    assert_eq!(i.2, vec![0xDE, 0xAD]);
    assert_eq!(s.context.vs, 1);
    assert!(s.context.sent_i_frames.contains_key(&0));
    assert_eq!(s.state, State::Connected);
}

#[test]
fn window_full_buffers_i_frames_until_acked() {
    let mut s = connected_session();
    s.context.k = 2;
    let mut t = MockTimerService::new();
    let mut r = Recorder::default();

    for n in 0..3u8 {
        s.post_event(
            Event::DlDataRequest(PID_NO_LAYER3, vec![n]),
            &mut t,
            &mut r,
        ).unwrap();
    }
    assert_eq!(r.i_frames().len(), 2);
    assert_eq!(s.context.vs, 2);
    assert_eq!(s.context.i_frame_queue.len(), 1);

    s.post_event(Event::RrReceived(rx_s(2, false, false)), &mut t, &mut r).unwrap();
    assert_eq!(s.context.va, 2);
    assert_eq!(r.i_frames().len(), 3);
    assert_eq!(s.context.i_frame_queue.len(), 0);
}

#[test]
fn inbound_in_sequence_i_frame_delivers_data_and_advances_vr() {
    let mut s = connected_session();
    let mut t = MockTimerService::new();
    let mut r = Recorder::default();

    s.post_event(Event::IReceived(rx_i(0, 0, false)), &mut t, &mut r).unwrap();

    assert!(r
        .upward
        .iter()
        .any(|u| matches!(u, DataLinkSignal::DataIndication(_, _))));
    assert_eq!(s.context.vr, 1);
}

#[test]
fn peer_rnr_sets_busy_and_blocks_drain() {
    let mut s = connected_session();
    let mut t = MockTimerService::new();
    let mut r = Recorder::default();

    s.post_event(Event::RnrReceived(rx_s(0, false, false)), &mut t, &mut r).unwrap();
    assert!(s.context.peer_receiver_busy);

    s.post_event(
        Event::DlDataRequest(PID_NO_LAYER3, vec![9]),
        &mut t,
        &mut r,
    ).unwrap();
    assert_eq!(r.i_frames().len(), 0);
    assert_eq!(s.context.i_frame_queue.len(), 1);
}

#[test]
fn srt_iir_update_is_integer_and_karn_skips_timeout_sample() {
    assert_eq!(srt_iir_update(4000, 6000, 2000, true), 4000);

    assert_eq!(srt_iir_update(4000, 6000, 0, true), 4000);

    assert_eq!(srt_iir_update(4000, 6000, 0, false), 4250);
}

#[test]
fn next_t1_rc_backoff_is_integer() {
    assert_eq!(next_t1_rc_backoff_ms(3, 3000), 6750);
}

#[test]
fn t1v_assign_2x_srt_uses_integer_doubling() {
    let mut s = Session::new();
    let mut t = MockTimerService::new();
    let mut r = Recorder::default();
    s.context.srt_ms = 2500;
    s.post_event(Event::DlConnectRequest, &mut t, &mut r).unwrap();
    assert_eq!(s.context.srt_ms, 3000);
    assert_eq!(s.context.t1v_ms, 6000);
}

#[test]
fn extended_connect_routes_to_v22_with_quirk_on() {
    let mut s = Session::new();
    s.context.is_extended = true;
    let mut t = MockTimerService::new();
    let mut r = Recorder::default();

    s.post_event(Event::DlConnectRequest, &mut t, &mut r).unwrap();

    assert_eq!(s.state, State::AwaitingV22Connection);
    assert_eq!(r.unnumbered(), vec![UnnumberedKind::Sabme]);
}

#[test]
fn extended_connect_stays_mod8_route_with_quirk_off() {
    let mut s = Session::new();
    s.context.is_extended = true;
    s.context.quirks = Quirks::strictly_faithful();
    let mut t = MockTimerService::new();
    let mut r = Recorder::default();

    s.post_event(Event::DlConnectRequest, &mut t, &mut r).unwrap();

    assert_eq!(s.state, State::AwaitingConnection);
}

#[test]
fn extended_dm_refusal_degrades_to_v20_with_quirk_on() {
    let mut s = Session::new();
    s.context.is_extended = true;
    let mut t = MockTimerService::new();
    let mut r = Recorder::default();

    s.post_event(Event::DlConnectRequest, &mut t, &mut r).unwrap();
    assert_eq!(s.state, State::AwaitingV22Connection);
    assert_eq!(r.unnumbered(), vec![UnnumberedKind::Sabme]);
    r.frames.clear();

    s.post_event(Event::DmReceived(rx(true, false)), &mut t, &mut r).unwrap();

    assert_eq!(s.state, State::AwaitingConnection);
    assert!(!s.context.is_extended);
    assert_eq!(r.unnumbered(), vec![UnnumberedKind::Sabm]);
}

#[test]
fn extended_dm_refusal_tears_down_with_quirk_off() {
    let mut s = Session::new();
    s.context.is_extended = true;
    s.context.layer3_initiated = true;
    s.context.quirks = Quirks::strictly_faithful();
    s.state = State::AwaitingV22Connection;
    let mut t = MockTimerService::new();
    let mut r = Recorder::default();

    s.post_event(Event::DmReceived(rx(true, false)), &mut t, &mut r).unwrap();

    assert_eq!(s.state, State::Disconnected);
    assert!(s.context.is_extended);
    assert!(r.unnumbered().is_empty());
}

#[test]
fn ack_progress_resets_rc_survives_working_link_with_quirk_on() {
    let mut s = Session::in_state(State::TimerRecovery);
    s.context.reset_state();
    s.context.n2 = 2;
    s.context.k = 7;
    s.context.vs = 2;
    let mut t = MockTimerService::new();
    let mut r = Recorder::default();

    s.post_event(Event::RrReceived(rx_s(1, false, false)), &mut t, &mut r).unwrap();
    assert_eq!(s.context.va, 1);
    assert_eq!(s.state, State::TimerRecovery);

    s.context.rc = s.context.n2;
    r.upward.clear();

    s.post_event(Event::T1Expiry, &mut t, &mut r).unwrap();
    assert_eq!(s.state, State::TimerRecovery);
    assert!(!r.upward.contains(&DataLinkSignal::DisconnectIndication));
}

#[test]
fn rc_ratchets_and_kills_working_link_with_quirk_off() {
    let mut s = Session::in_state(State::TimerRecovery);
    s.context.reset_state();
    s.context.quirks = Quirks::strictly_faithful();
    s.context.n2 = 2;
    s.context.k = 7;
    s.context.vs = 2;
    let mut t = MockTimerService::new();
    let mut r = Recorder::default();

    s.post_event(Event::RrReceived(rx_s(1, false, false)), &mut t, &mut r).unwrap();
    assert_eq!(s.context.va, 1);
    s.context.rc = s.context.n2;
    r.upward.clear();

    s.post_event(Event::T1Expiry, &mut t, &mut r).unwrap();
    assert_eq!(s.state, State::Disconnected);
    assert!(r.upward.contains(&DataLinkSignal::DisconnectIndication));
}

#[test]
fn srej_window_clamped_to_half_modulus_with_quirk_on() {
    let mut s = connected_session();
    s.context.k = 7;
    s.context.srej_enabled = true;
    let mut t = MockTimerService::new();
    let mut r = Recorder::default();

    for n in 0..7u8 {
        s.post_event(
            Event::DlDataRequest(PID_NO_LAYER3, vec![n]),
            &mut t,
            &mut r,
        ).unwrap();
    }

    assert_eq!(s.context.effective_window(), 4);
    assert_eq!(r.i_frames().len(), 4);
    assert_eq!(s.context.vs, 4);
    assert_eq!(s.context.i_frame_queue.len(), 3);
}

#[test]
fn srej_window_uncapped_with_quirk_off() {
    let mut s = connected_session();
    s.context.k = 7;
    s.context.srej_enabled = true;
    s.context.quirks = Quirks::strictly_faithful();
    let mut t = MockTimerService::new();
    let mut r = Recorder::default();

    for n in 0..7u8 {
        s.post_event(
            Event::DlDataRequest(PID_NO_LAYER3, vec![n]),
            &mut t,
            &mut r,
        ).unwrap();
    }

    assert_eq!(s.context.effective_window(), 7);
    assert_eq!(r.i_frames().len(), 7);
    assert_eq!(s.context.vs, 7);
    assert_eq!(s.context.i_frame_queue.len(), 0);
}

#[test]
fn go_back_n_window_not_capped_even_with_quirk_on() {
    let mut s = connected_session();
    s.context.k = 7;
    s.context.srej_enabled = false;
    assert!(s.context.quirks.clamp_srej_window_to_half_modulus);
    assert_eq!(s.context.effective_window(), 7);
}

#[test]
fn unhandled_event_leaves_state_unchanged() {
    let mut s = Session::new();
    let mut t = MockTimerService::new();
    let mut r = Recorder::default();

    s.post_event(Event::T1Expiry, &mut t, &mut r).unwrap();
    assert_eq!(s.state, State::Disconnected);
    assert!(r.frames.is_empty());
}

#[test]
fn disconnected_ua_received_raises_dl_error_cd() {
    let mut s = Session::new();
    let mut t = MockTimerService::new();
    let mut r = Recorder::default();

    s.post_event(Event::UaReceived(rx(true, false)), &mut t, &mut r).unwrap();
    assert_eq!(s.state, State::Disconnected);
    assert_eq!(r.upward, vec![DataLinkSignal::ErrorIndication("C_D")]);
}

fn connected_session() -> Session {
    let mut s = Session::in_state(State::Connected);
    s.context.reset_state();
    s
}

fn s_first_i(r: &Recorder) -> (u8, u8, Vec<u8>) {
    r.i_frames()
        .into_iter()
        .next()
        .expect("expected an I-frame")
}
