use ax25_node_core::kiss::{encode_into, Command, FEND, FESC, TFEND, TFESC};
use ax25_node_core::radio::tait::transparent::{
    airtime_us, slip_on_air_len, ExitStep, ModemError, TaitTransparentTransport,
    TransparentOptions, ESCAPE_GUARD_US, MAX_AX25_BODY, SLIP_PORT,
};

#[derive(Debug, Clone, Copy, PartialEq, Eq)]
struct PortError;

struct MemPort {
    written: Vec<u8>,
}

impl MemPort {
    fn new() -> Self {
        MemPort { written: Vec::new() }
    }

    fn write(&mut self, octets: &[u8]) {
        self.written.extend_from_slice(octets);
    }

    fn take_written(&mut self) -> Vec<u8> {
        std::mem::take(&mut self.written)
    }
}

type Transport = TaitTransparentTransport<MemPort>;

fn transport() -> Transport {
    TaitTransparentTransport::new(MemPort::new(), TransparentOptions::default())
}

fn enter(t: &mut Transport) {
    let octets = t.enter();
    t.stream_mut().write(&octets);
}

fn send(t: &mut Transport, ax25: &[u8]) -> Result<u64, ModemError<PortError>> {
    let (octets, air) = t.send(ax25)?;
    t.stream_mut().write(&octets);
    Ok(air)
}

#[test]
fn enter_writes_ccdi_t_command_with_cr() {
    let mut t = transport();
    enter(&mut t);
    assert_eq!(t.stream_mut().take_written(), b"t02+0CF\r");
}

#[test]
fn enter_selects_thsd_modem_when_requested() {
    let mut t = TaitTransparentTransport::new(
        MemPort::new(),
        TransparentOptions {
            thsd: true,
            ..TransparentOptions::default()
        },
    );
    enter(&mut t);
    assert_eq!(t.stream_mut().take_written(), b"t02+HB7\r");
}

#[test]
fn send_slip_frames_the_ax25_body_and_reports_airtime() {
    let mut t = transport();
    let air = send(&mut t, &[0x01, 0x02, 0x03]).unwrap();
    assert_eq!(t.stream_mut().take_written(), &[FEND, 0x00, 0x01, 0x02, 0x03, FEND]);
    assert_eq!(air, 20_000);
}

#[test]
fn send_airtime_accounts_for_slip_escaping() {
    let mut t = transport();
    let air = send(&mut t, &[FEND, FESC]).unwrap();
    let written = t.stream_mut().take_written();
    assert_eq!(written.len(), 7);
    assert_eq!(written, [FEND, 0x00, FESC, TFEND, FESC, TFESC, FEND]);
    assert_eq!(air, 7 * 8 * 1_000_000 / 2400);
}

#[test]
fn read_frame_decodes_a_slip_frame_with_airtime_only_metadata() {
    let mut t = transport();
    t.receive(&[FEND, 0x00, 0xDE, 0xAD, FEND]);
    let (frame, meta) = t.read_frame().unwrap();
    assert_eq!(frame.command, Command::Data);
    assert_eq!(frame.payload, vec![0xDE, 0xAD]);
    assert_eq!(meta.estimated_airtime_us, Some(airtime_us(5, 2400)));
    assert_eq!(meta.rssi_dbm_tenths, None);
    assert_eq!(meta.noise_floor_dbm_tenths, None);
    assert_eq!(meta.carrier_rise_at_us, None);
}

#[test]
fn send_then_receive_round_trips_through_two_transports_over_ffsk() {
    let mut a = transport();
    let mut b = transport();
    let body = vec![0xA8, 0x8A, FEND, FESC, 0x03, 0xF0, b'h', b'i'];
    send(&mut a, &body).unwrap();
    let wire = a.stream_mut().take_written();
    for chunk in wire.chunks(3) {
        b.receive(chunk);
    }
    let (frame, _meta) = b.read_frame().unwrap();
    assert_eq!(frame.payload, body);
}

#[test]
fn exit_runs_escape_burst_between_two_guard_delays() {
    let mut t = transport();
    let mut guard_calls = 0u32;
    for step in t.exit() {
        match step {
            ExitStep::Guard(us) => {
                assert_eq!(us, ESCAPE_GUARD_US);
                guard_calls += 1;
            }
            ExitStep::Write(octets) => t.stream_mut().write(&octets),
        }
    }
    assert_eq!(t.stream_mut().take_written(), b"+++");
    assert_eq!(guard_calls, 2);
}

#[test]
fn read_frame_returns_none_on_empty_pipe() {
    let mut t = transport();
    assert!(t.read_frame().is_none());
}

#[test]
fn slip_on_air_len_matches_the_real_encoder() {
    for payload in [
        &[0x01u8, 0x02][..],
        &[FEND, FESC, 0x00][..],
        &[FEND, FEND, FEND][..],
    ] {
        let mut buf = [0u8; 64];
        let n = encode_into(&mut buf, SLIP_PORT, Command::Data, payload).unwrap();
        assert_eq!(slip_on_air_len(payload), n, "payload {payload:?}");
    }
}

#[test]
fn a_packet_that_is_too_long_is_refused() {
    let t = transport();
    let long = vec![0u8; MAX_AX25_BODY + 1];
    assert_eq!(t.send::<PortError>(&long), Err(ModemError::TooLarge));
    assert!(t.send::<PortError>(&long[..MAX_AX25_BODY]).is_ok());
}

#[test]
fn only_packets_are_handed_out() {
    let mut t = transport();
    t.receive(&[0x55, FEND, 0x01, 0x19, FEND, FEND, 0x00, FEND, 0x00, 0x42, FEND]);
    let (frame, _) = t.read_frame().unwrap();
    assert_eq!(frame.payload, vec![0x42]);
    assert!(t.read_frame().is_none());
}

#[test]
fn an_escape_that_stands_for_nothing_is_passed_over() {
    let mut t = transport();
    t.receive(&[FEND, 0x00, 0x01, FESC, 0x41, 0x02, FEND]);
    let (frame, _) = t.read_frame().unwrap();
    assert_eq!(frame.payload, vec![0x01, 0x02]);
}

#[test]
fn rate_zero_gives_no_airtime() {
    assert_eq!(airtime_us(100, 0), 0);
}
