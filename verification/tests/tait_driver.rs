use ax25_node_core::radio::tait::ccdi::CcdiFrame;
use ax25_node_core::radio::tait::driver::{
    build_go_to_channel, build_progress_messages, build_query_cctm, build_transmitter, level_from,
    RadioEvent, TaitCcdiRadio, TaitError, TransactStep, Transaction, Wanted,
};

#[derive(Debug, Clone, Copy, PartialEq, Eq)]
struct PortError;

struct MemPort {
    inbox: Vec<u8>,
    written: Vec<u8>,
}

impl MemPort {
    fn new() -> Self {
        MemPort { inbox: Vec::new(), written: Vec::new() }
    }

    fn feed(&mut self, octets: &[u8]) {
        self.inbox.extend_from_slice(octets);
    }

    fn read(&mut self) -> Vec<u8> {
        std::mem::take(&mut self.inbox)
    }

    fn write(&mut self, octets: &[u8]) {
        self.written.extend_from_slice(octets);
    }

    fn take_written(&mut self) -> Vec<u8> {
        std::mem::take(&mut self.written)
    }
}

type Radio = TaitCcdiRadio<MemPort>;

fn radio_primed(reply: &[u8]) -> Radio {
    let mut port = MemPort::new();
    port.feed(reply);
    TaitCcdiRadio::new(port)
}

fn finish<M: Wanted>(
    radio: &mut Radio,
    start: (Vec<u8>, Transaction<M>),
) -> Result<Option<M::Value>, TaitError<PortError>> {
    let (octets, mut transaction) = start;
    radio.stream_mut().write(&octets);
    loop {
        let chunk = radio.stream_mut().read();
        match radio.receive(transaction, &chunk) {
            TransactStep::Done(r) => return r,
            TransactStep::More(t) => transaction = t,
        }
    }
}

fn read_rssi_tenths(radio: &mut Radio) -> Result<i16, TaitError<PortError>> {
    let start = radio.read_rssi_tenths();
    level_from(finish(radio, start))
}

fn read_averaged_rssi_tenths(radio: &mut Radio) -> Result<i16, TaitError<PortError>> {
    let start = radio.read_averaged_rssi_tenths();
    level_from(finish(radio, start))
}

fn set_transmitter(radio: &mut Radio, transmit: bool) -> Result<(), TaitError<PortError>> {
    let start = radio.set_transmitter(transmit);
    let ended = finish(radio, start);
    radio.transmitter_set(transmit, ended)
}

fn set_progress_messages(radio: &mut Radio, enable: bool) -> Result<(), TaitError<PortError>> {
    let start = radio.set_progress_messages(enable);
    finish(radio, start)?;
    Ok(())
}

fn go_to_channel(
    radio: &mut Radio,
    channel: u16,
    zone: Option<u8>,
) -> Result<(), TaitError<PortError>> {
    let start = radio.go_to_channel(channel, zone)?;
    finish(radio, start)?;
    Ok(())
}

#[test]
fn command_builders_produce_strict_wire_bytes() {
    assert_eq!(build_query_cctm(b"064").encode_to_bytes(), b"q0450645C\r");
    assert_eq!(build_transmitter(true).encode_to_bytes(), b"f0291CE\r");
    assert_eq!(build_transmitter(false).encode_to_bytes(), b"f0290CF\r");
    assert_eq!(build_progress_messages(true).encode_to_bytes(), b"f03041A2\r");
    assert_eq!(
        build_go_to_channel(5, None).unwrap().encode(),
        CcdiFrame::new(b'g', b"5").unwrap().encode()
    );
    assert_eq!(
        build_go_to_channel(5, Some(1)).unwrap().encode(),
        CcdiFrame::new(b'g', b"010005").unwrap().encode()
    );
    assert_eq!(
        build_go_to_channel(100, None).unwrap().encode(),
        CcdiFrame::new(b'g', b"100").unwrap().encode()
    );
    assert!(build_go_to_channel(10000, None).is_none());
}

#[test]
fn read_rssi_round_trips_request_and_response() {
    let mut radio = radio_primed(b"j07064-456C9\r.");
    let rssi = read_rssi_tenths(&mut radio).unwrap();
    assert_eq!(rssi, -456);
    assert_eq!(radio.stream_mut().take_written(), b"q0450645C\r");
}

#[test]
fn read_averaged_rssi_uses_query_063() {
    let mut radio = radio_primed(b"j07063-500D4\r.");
    let rssi = read_averaged_rssi_tenths(&mut radio).unwrap();
    assert_eq!(rssi, -500);
    assert_eq!(radio.stream_mut().take_written(), b"q0450635D\r");
}

#[test]
fn set_transmitter_completes_on_prompt_and_tracks_state() {
    let mut radio = radio_primed(b".");
    set_transmitter(&mut radio, true).unwrap();
    assert!(radio.transmitter_keyed());
    assert_eq!(radio.stream_mut().take_written(), b"f0291CE\r");

    radio.stream_mut().feed(b".");
    set_transmitter(&mut radio, false).unwrap();
    assert!(!radio.transmitter_keyed());
    assert_eq!(radio.stream_mut().take_written(), b"f0290CF\r");
}

#[test]
fn go_to_channel_sends_and_acknowledges() {
    let mut radio = radio_primed(b".");
    go_to_channel(&mut radio, 7, None).unwrap();
    assert_eq!(
        radio.stream_mut().take_written(),
        CcdiFrame::new(b'g', b"7").unwrap().encode_to_bytes()
    );
}

#[test]
fn rejected_command_surfaces_ccdi_error() {
    let mut radio = radio_primed(b".e03001A7\r.");
    let err = set_transmitter(&mut radio, true).unwrap_err();
    assert_eq!(err, TaitError::Ccdi { category: b'0', error_number: 0x01 });
    assert!(!radio.transmitter_keyed());
}

#[test]
fn unsolicited_progress_is_demuxed_out_of_a_response() {
    let mut radio = radio_primed(b"p0205C9\rj07064-456C9\r.");
    let rssi = read_rssi_tenths(&mut radio).unwrap();
    assert_eq!(rssi, -456);
    assert_eq!(radio.channel_busy(), Some(true));
    assert_eq!(radio.drain_events(), vec![RadioEvent::CarrierSense(true)]);
}

#[test]
fn carrier_and_ptt_and_sdm_edges_map_to_events() {
    let mut radio = radio_primed(b"p0206C8\rp0207C7\rp031D187\r.");
    set_progress_messages(&mut radio, true).unwrap();
    assert_eq!(radio.channel_busy(), Some(false));
    assert_eq!(
        radio.drain_events(),
        vec![
            RadioEvent::CarrierSense(false),
            RadioEvent::Transmitter(true),
            RadioEvent::SdmDeliveryReceipt(true),
        ]
    );
}

#[test]
fn drained_input_without_response_is_no_response() {
    let mut radio = radio_primed(b"");
    assert_eq!(read_rssi_tenths(&mut radio), Err(TaitError::NoResponse));
}

#[test]
fn response_chunked_across_reads_reassembles() {
    let mut radio = radio_primed(b"j07064-999");
    radio.stream_mut().feed(b"BD\r.");
    let rssi = read_rssi_tenths(&mut radio).unwrap();
    assert_eq!(rssi, -999);
}

#[test]
fn an_answer_may_come_in_several_reads() {
    let mut radio = radio_primed(b"");
    let (_, transaction) = radio.read_rssi_tenths();
    let transaction = match radio.receive::<_, PortError>(transaction, b"p0205C9\rj0706") {
        TransactStep::More(t) => t,
        TransactStep::Done(_) => panic!("the answer has not come"),
    };
    match radio.receive::<_, PortError>(transaction, b"4-456C9\r") {
        TransactStep::Done(r) => assert_eq!(level_from(r), Ok(-456)),
        TransactStep::More(_) => panic!("the answer has come"),
    }
    assert_eq!(radio.channel_busy(), Some(true));
}

#[test]
fn an_answer_that_is_no_level_is_no_response() {
    let wire = CcdiFrame::new(b'j', b"064abc").unwrap().encode_to_bytes();
    let mut radio = radio_primed(&wire);
    assert_eq!(read_rssi_tenths(&mut radio), Err(TaitError::NoResponse));
}

#[test]
fn a_channel_out_of_range_is_invalid_and_writes_nothing() {
    let mut radio = radio_primed(b".");
    assert_eq!(go_to_channel(&mut radio, 10000, None), Err(TaitError::Invalid));
    assert!(radio.stream_mut().take_written().is_empty());
}

#[test]
fn a_zone_is_written_in_its_last_two_digits() {
    assert_eq!(build_go_to_channel(42, Some(99)).unwrap().params(), b"990042");
    assert_eq!(build_go_to_channel(42, Some(100)).unwrap().params(), b"000042");
    let mut radio = radio_primed(b".");
    assert_eq!(go_to_channel(&mut radio, 42, Some(207)), Ok(()));
    let wire = CcdiFrame::new(b'g', b"070042").unwrap().encode_to_bytes();
    assert_eq!(radio.stream_mut().take_written(), wire);
}
