use ax25_node_core::radio::tait::ccdi::CcdiFrame;
use ax25_node_core::radio::tait::driver::{
    TaitCcdiRadio, TaitError, TransactStep, Transaction, Wanted,
};
use ax25_node_core::tune::sdm_link::{
    SeenSequences, SendStep, DEDUPE_WINDOW, EXTENDED_PAYLOAD_BUDGET,
};
use ax25_node_core::tune::{
    SdmLinkError, SdmTuningLink, SdmTuningLinkOptions, TuningTelegram, TuningVerb,
};

#[derive(Debug, Clone, Copy, PartialEq, Eq)]
struct PortError;

trait Port {
    fn read(&mut self) -> Vec<u8>;
    fn write(&mut self, octets: &[u8]);
}

struct MemStream {
    inbox: Vec<u8>,
    written: Vec<u8>,
}

impl MemStream {
    fn new() -> Self {
        MemStream { inbox: Vec::new(), written: Vec::new() }
    }

    fn feed(&mut self, octets: &[u8]) {
        self.inbox.extend_from_slice(octets);
    }

    fn take_written(&mut self) -> Vec<u8> {
        std::mem::take(&mut self.written)
    }
}

impl Port for MemStream {
    fn read(&mut self) -> Vec<u8> {
        std::mem::take(&mut self.inbox)
    }

    fn write(&mut self, octets: &[u8]) {
        self.written.extend_from_slice(octets);
    }
}

struct ScriptStream {
    reads: Vec<Vec<u8>>,
    idx: usize,
    written: Vec<u8>,
}

impl ScriptStream {
    fn new(reads: Vec<Vec<u8>>) -> Self {
        ScriptStream { reads, idx: 0, written: Vec::new() }
    }

    fn take_written(&mut self) -> Vec<u8> {
        std::mem::take(&mut self.written)
    }
}

impl Port for ScriptStream {
    fn read(&mut self) -> Vec<u8> {
        if self.idx >= self.reads.len() {
            return Vec::new();
        }
        self.idx += 1;
        self.reads[self.idx - 1].clone()
    }

    fn write(&mut self, octets: &[u8]) {
        self.written.extend_from_slice(octets);
    }
}

trait Pause {
    fn delay_ms(&mut self, ms: u32);
}

struct NullDelay;

impl Pause for NullDelay {
    fn delay_ms(&mut self, _ms: u32) {}
}

#[derive(Default)]
struct CountingDelay {
    calls: u32,
}

impl Pause for CountingDelay {
    fn delay_ms(&mut self, ms: u32) {
        assert_eq!(ms, 2_000);
        self.calls += 1;
    }
}

fn finish<S: Port, M: Wanted>(
    radio: &mut TaitCcdiRadio<S>,
    start: (Vec<u8>, Transaction<M>),
) -> Result<Option<M::Value>, TaitError<PortError>> {
    let (octets, mut transaction) = start;
    radio.stream_mut().write(&octets);
    loop {
        let chunk = radio.stream_mut().read();
        match radio.receive(transaction, &chunk) {
            TransactStep::Done(r) => return r,
            TransactStep::More(t) => transaction = t,
        }
    }
}

fn send<S: Port, D: Pause>(
    link: &mut SdmTuningLink<S, D>,
    telegram: TuningTelegram<'_>,
) -> Result<(), SdmLinkError<PortError>> {
    let mut sending = link.send(telegram)?;
    loop {
        let outcome = match link.attempt(&sending) {
            Ok(start) => finish(link.radio_mut(), start).map(|_| ()),
            Err(e) => Err(e),
        };
        match link.after_attempt(sending, outcome) {
            SendStep::Done(r) => return r,
            SendStep::Retry { sending: again, backoff_ms } => {
                link.delay_mut().delay_ms(backoff_ms);
                sending = again;
            }
        }
    }
}

fn receive<S: Port, D>(
    link: &mut SdmTuningLink<S, D>,
) -> Result<Option<(i32, TuningVerb, String)>, SdmLinkError<PortError>> {
    let start = link.poll_receive();
    let ended = finish(link.radio_mut(), start);
    let heard = match &ended {
        Ok(data) => Ok(data.as_deref()),
        Err(e) => Err(*e),
    };
    let telegram = link.polled(heard)?;
    Ok(telegram.map(|t| (t.sequence, t.verb, t.args.to_string())))
}

fn link_over(
    stream: MemStream,
    options: SdmTuningLinkOptions,
) -> SdmTuningLink<MemStream, NullDelay> {
    SdmTuningLink::new(TaitCcdiRadio::new(stream), NullDelay, *b"12345678", options)
}

fn feed_sdm<D>(link: &mut SdmTuningLink<MemStream, D>, data: &[u8]) {
    let frame = CcdiFrame::new(b's', data).unwrap().encode_to_bytes();
    link.radio_mut().stream_mut().feed(&frame);
}

#[test]
fn send_transmits_the_compact_telegram_and_returns_ok() {
    let mut stream = MemStream::new();
    stream.feed(b".");
    let mut link = link_over(stream, SdmTuningLinkOptions::default());
    let telegram = TuningTelegram::new(7, TuningVerb::BurstRequest, "5");
    send(&mut link, telegram).unwrap();
    let expected = CcdiFrame::new(b'a', b"0520012345678V1|7|RQ|5")
        .unwrap()
        .encode_to_bytes();
    assert_eq!(link.radio_mut().stream_mut().take_written(), expected.as_slice());
}

#[test]
fn receipt_tolerant_default_returns_ok_without_a_delivery_receipt() {
    let options = SdmTuningLinkOptions::default();
    assert!(!options.wait_for_delivery_receipt);
    let mut stream = MemStream::new();
    stream.feed(b".");
    let mut link = link_over(stream, options);
    let telegram = TuningTelegram::new(1, TuningVerb::Hello, "meter");
    assert_eq!(send(&mut link, telegram), Ok(()));
}

#[test]
fn retries_on_a_radio_reject_then_succeeds() {
    let reject = CcdiFrame::new(b'e', b"006").unwrap().encode_to_bytes();
    let stream = ScriptStream::new(vec![reject, vec![b'.']]);
    let mut link = SdmTuningLink::new(
        TaitCcdiRadio::new(stream),
        CountingDelay::default(),
        *b"12345678",
        SdmTuningLinkOptions::default(),
    );
    let telegram = TuningTelegram::new(3, TuningVerb::BurstRequest, "5");
    assert_eq!(send(&mut link, telegram), Ok(()));

    let one = CcdiFrame::new(b'a', b"0520012345678V1|3|RQ|5")
        .unwrap()
        .encode_to_bytes();
    let mut two = one.clone();
    two.extend_from_slice(&one);
    assert_eq!(link.radio_mut().stream_mut().take_written(), two.as_slice());
    assert_eq!(link.delay().calls, 1);
}

#[test]
fn exhausts_attempts_on_a_persistent_reject() {
    let reject = CcdiFrame::new(b'e', b"006").unwrap().encode_to_bytes();
    let stream = ScriptStream::new(vec![reject.clone(), reject.clone(), reject]);
    let mut link = SdmTuningLink::new(
        TaitCcdiRadio::new(stream),
        NullDelay,
        *b"12345678",
        SdmTuningLinkOptions::default(),
    );
    let telegram = TuningTelegram::new(3, TuningVerb::BurstRequest, "5");
    match send(&mut link, telegram) {
        Err(SdmLinkError::NotAccepted {
            attempts: 3,
            last: TaitError::Ccdi { .. },
        }) => {}
        other => panic!("expected NotAccepted after 3 rejects, got {other:?}"),
    }
}

#[test]
fn poll_receive_delivers_and_dedupes_on_sequence() {
    let mut link = link_over(MemStream::new(), SdmTuningLinkOptions::default());

    feed_sdm(&mut link, b"V1|5|HI|x");
    assert_eq!(
        receive(&mut link).unwrap().map(|t| t.0),
        Some(5)
    );
    feed_sdm(&mut link, b"V1|5|HI|x");
    assert_eq!(receive(&mut link).unwrap(), None);
    feed_sdm(&mut link, b"V1|6|AD|OK");
    let got = receive(&mut link).unwrap().unwrap();
    assert_eq!(got.0, 6);
    assert_eq!(got.1, TuningVerb::Advice);
    assert_eq!(got.2, "OK");
}

#[test]
fn poll_receive_ignores_non_telegram_sdm_and_empty_buffer() {
    let mut link = link_over(MemStream::new(), SdmTuningLinkOptions::default());
    feed_sdm(&mut link, b"not-a-telegram");
    assert_eq!(receive(&mut link).unwrap(), None);
    feed_sdm(&mut link, b"");
    assert_eq!(receive(&mut link).unwrap(), None);
}

#[test]
fn wait_for_delivery_receipt_accepts_on_a_positive_receipt() {
    let mut stream = MemStream::new();
    stream.feed(b"p031D187\r.");
    let options = SdmTuningLinkOptions {
        wait_for_delivery_receipt: true,
        ..Default::default()
    };
    let mut link = link_over(stream, options);
    let telegram = TuningTelegram::new(9, TuningVerb::Bye, "");
    assert_eq!(send(&mut link, telegram), Ok(()));
}

#[test]
fn wait_for_delivery_receipt_errors_without_a_receipt() {
    let stream = ScriptStream::new(vec![vec![b'.'], vec![b'.'], vec![b'.']]);
    let options = SdmTuningLinkOptions {
        wait_for_delivery_receipt: true,
        ..Default::default()
    };
    let mut link = SdmTuningLink::new(
        TaitCcdiRadio::new(stream),
        NullDelay,
        *b"12345678",
        options,
    );
    let telegram = TuningTelegram::new(9, TuningVerb::Bye, "");
    assert_eq!(
        send(&mut link, telegram),
        Err(SdmLinkError::NotAcknowledged { attempts: 3 })
    );
}

#[test]
fn over_budget_telegram_is_rejected_before_sending() {
    let mut link = link_over(MemStream::new(), SdmTuningLinkOptions::default());
    let telegram = TuningTelegram::new(
        1,
        TuningVerb::Status,
        "STATUS-FIELD-THAT-IS-DEFINITELY-WAY-TOO-LONG",
    );
    match send(&mut link, telegram) {
        Err(SdmLinkError::OverBudget { budget: 32, .. }) => {}
        other => panic!("expected OverBudget, got {other:?}"),
    }
    assert!(link.radio_mut().stream_mut().take_written().is_empty());
}

#[test]
fn extended_mode_raises_the_budget_and_uses_sfi_04() {
    let mut stream = MemStream::new();
    stream.feed(b".");
    let mut link =
        link_over(stream, SdmTuningLinkOptions::default()).with_extended_sdm(true);
    assert_eq!(link.max_payload(), EXTENDED_PAYLOAD_BUDGET);
    let args = "STATUS-FIELD-OVER-THIRTY-TWO-CHARACTERS";
    let telegram = TuningTelegram::new(2, TuningVerb::Status, args);
    send(&mut link, telegram).unwrap();
    let written = link.radio_mut().stream_mut().take_written();
    assert_eq!(&written[3..8], b"05204");
}

#[test]
fn options_defaults_mirror_the_c_sharp_record() {
    let o = SdmTuningLinkOptions::default();
    assert_eq!(o.max_attempts, 3);
    assert_eq!(o.retry_backoff_ms, 2_000);
    assert_eq!(o.receipt_timeout_ms, 10_000);
    assert_eq!(o.channel_clear_timeout_ms, 30_000);
    assert_eq!(o.channel_clear_poll_interval_ms, 100);
    assert_eq!(o.receive_poll_interval_ms, 1_500);
    assert_eq!(o.post_receive_guard_ms, 2_000);
    assert!(!o.wait_for_delivery_receipt);
}

#[test]
fn seen_sequences_ring_evicts_the_oldest_after_the_window_fills() {
    let mut seen = SeenSequences::new();
    for s in 0..DEDUPE_WINDOW as i32 {
        assert!(seen.mark(s), "first sight of {s} should be new");
    }
    assert!(!seen.mark(10));
    assert!(seen.mark(100));
    assert!(seen.mark(0));
    assert!(!seen.mark(63));
}
