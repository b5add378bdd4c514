//! Commands to a radio, and its answers.
//!
//! A command is written to the port and then a transaction takes what the port reads,
//! piece by piece, until it is over: the answer that was wanted has come, the radio has
//! given its prompt, or it has refused. Whatever the radio reports of its own accord
//! meanwhile is kept apart as events.

use vstd::prelude::*;

use super::ccdi::decoder;
use super::ccdi::decoder::{CcdiEvent, CcdiEventView, LineDecoder, LineView};
use super::ccdi::frame;
use super::ccdi::frame::{frame_with, CcdiFrame, CcdiView};
use super::ccdi::message;
use super::ccdi::message::{CcdiMessage, CcdiProgressType, MessageView};
use crate::bytes;
use crate::numbers;
use crate::numbers::append_digits;

verus! {

/// The characters that a short message carries.
pub const PAYLOAD_BUDGET: usize = 32;

/// The characters that an extended short message carries.
pub const EXTENDED_PAYLOAD_BUDGET: usize = 128;

/// The characters of the identity that a short message is sent to.
pub const IDENTITY_LEN: usize = 8;

/// What a radio reports of its own accord.
#[derive(Debug, Clone, Copy, PartialEq, Eq, Structural)]
pub enum RadioEvent {
    /// The channel became busy, or idle.
    CarrierSense(bool),
    /// The transmitter was keyed, or released.
    Transmitter(bool),
    /// A short message was acknowledged over the air, or was not.
    SdmDeliveryReceipt(bool),
    /// Any other report of progress.
    Progress(CcdiProgressType),
}

/// Why a transaction failed.
#[derive(Debug, Clone, Copy, PartialEq, Eq)]
pub enum TaitError<E> {
    /// The port failed.
    Io(E),
    /// The radio refused.
    Ccdi {
        /// `0` for a command that was refused, `1` for a fault.
        category: u8,
        /// The number of the error.
        error_number: u8,
    },
    /// The port had no more to read before the answer came.
    NoResponse,
    /// A value to be sent is out of range.
    Invalid,
}

/// The answer that a transaction waits for.
pub trait Wanted {
    /// What is taken out of the answer.
    type Value;

    /// This message is the answer.
    spec fn wants(&self, m: MessageView) -> bool;

    /// This is what is taken out of the answer.
    spec fn yields(&self, m: MessageView, v: Self::Value) -> bool;

    /// Takes what is wanted out of a message, if it is the answer.
    fn pick(&self, m: &CcdiMessage) -> (r: Option<Self::Value>)
        ensures
            r is Some == self.wants(m@),
            r matches Some(v) ==> self.yields(m@, v),
    ;
}

/// No answer is waited for but the prompt.
#[derive(Debug, Clone, Copy)]
pub struct Acknowledged {}

impl Wanted for Acknowledged {
    type Value = ();

    open spec fn wants(&self, m: MessageView) -> bool {
        false
    }

    open spec fn yields(&self, m: MessageView, v: ()) -> bool {
        true
    }

    fn pick(&self, m: &CcdiMessage) -> (r: Option<()>) {
        None
    }
}

/// The answer to the query with this number, a signal level.
#[derive(Debug, Clone, Copy)]
pub struct LevelReply {
    /// The number of the query.
    pub cctm: u16,
}

impl Wanted for LevelReply {
    type Value = Option<i16>;

    open spec fn wants(&self, m: MessageView) -> bool {
        m matches MessageView::QueryResult { cctm_command, .. } && cctm_command == self.cctm
    }

    open spec fn yields(&self, m: MessageView, v: Option<i16>) -> bool {
        match v {
            Some(level) => message::level_of(m) == Some(level as int),
            None => message::level_of(m) is None,
        }
    }

    fn pick(&self, m: &CcdiMessage) -> (r: Option<Option<i16>>) {
        match m {
            CcdiMessage::QueryResult { cctm_command, .. } => if *cctm_command == self.cctm {
                Some(m.query_rssi_tenths())
            } else {
                None
            },
            _ => None,
        }
    }
}

/// The short message that the radio has buffered.
#[derive(Debug, Clone, Copy)]
pub struct SdmReply {}

impl Wanted for SdmReply {
    type Value = Vec<u8>;

    open spec fn wants(&self, m: MessageView) -> bool {
        m is Sdm
    }

    open spec fn yields(&self, m: MessageView, v: Vec<u8>) -> bool {
        m == MessageView::Sdm(v@)
    }

    fn pick(&self, m: &CcdiMessage) -> (r: Option<Vec<u8>>) {
        match m {
            CcdiMessage::Sdm(data) => {
                let mut v: Vec<u8> = Vec::new();
                bytes::append(&mut v, data);
                assert(v@ =~= data@);
                Some(v)
            },
            _ => None,
        }
    }
}

/// A transaction that is going on.
pub struct Transaction<M: Wanted> {
    wanted: M,
    complete_on_prompt: bool,
    result: Option<M::Value>,
    matched: Ghost<Option<MessageView>>,
}

impl<M: Wanted> Transaction<M> {
    /// The answer that is waited for.
    pub closed spec fn wanted(self) -> M {
        self.wanted
    }

    /// The prompt ends the transaction.
    pub closed spec fn on_prompt(self) -> bool {
        self.complete_on_prompt
    }

    /// The answer, once it has come.
    pub closed spec fn matched(self) -> Option<MessageView> {
        self.matched@
    }

    /// What is kept was taken out of the answer.
    #[verifier::type_invariant]
    spec fn valid(self) -> bool {
        gives(self.wanted, self.matched@, self.result)
    }

    /// A transaction that waits for an answer and has nothing yet.
    pub open spec fn awaits(self, wanted: M, on_prompt: bool) -> bool {
        &&& self.wanted() == wanted
        &&& self.on_prompt() == on_prompt
        &&& self.matched() is None
    }

    /// A transaction that waits for an answer. `complete_on_prompt` says whether the
    /// prompt ends it.
    pub fn new(wanted: M, complete_on_prompt: bool) -> (t: Transaction<M>)
        ensures
            t.awaits(wanted, complete_on_prompt),
    {
        Transaction { wanted, complete_on_prompt, result: None, matched: Ghost(None) }
    }
}

/// `v` is what was taken out of the answer, if one came.
pub open spec fn gives<M: Wanted>(
    wanted: M,
    matched: Option<MessageView>,
    v: Option<M::Value>,
) -> bool {
    match matched {
        Some(m) => v matches Some(x) && wanted.wants(m) && wanted.yields(m, x),
        None => v is None,
    }
}

/// How a transaction ended.
pub enum Ended {
    Refused { category: u8, error_number: u8 },
    Answered,
}

/// How far a transaction has come: whether the channel is busy, what was reported, the
/// answer, whether there was a prompt, and how it ended.
pub struct Run {
    pub busy: Option<bool>,
    pub events: Seq<RadioEvent>,
    pub matched: Option<MessageView>,
    pub prompted: bool,
    pub ended: Option<Ended>,
}

/// The event that a report of progress is.
pub open spec fn reported(ptype: CcdiProgressType, para: Seq<u8>) -> RadioEvent {
    match ptype {
        CcdiProgressType::ReceiverBusy => RadioEvent::CarrierSense(true),
        CcdiProgressType::ReceiverNotBusy => RadioEvent::CarrierSense(false),
        CcdiProgressType::PttActivated => RadioEvent::Transmitter(true),
        CcdiProgressType::PttDeactivated => RadioEvent::Transmitter(false),
        CcdiProgressType::SdmAutoAcknowledge => RadioEvent::SdmDeliveryReceipt(
            para.len() > 0 && para[0] == 0x31,
        ),
        other => RadioEvent::Progress(other),
    }
}

/// Whether the channel is busy after an event.
pub open spec fn busy_after(busy: Option<bool>, e: RadioEvent) -> Option<bool> {
    match e {
        RadioEvent::CarrierSense(b) => Some(b),
        _ => busy,
    }
}

impl Run {
    /// After a message that nobody waited for: a report of progress is an event, and
    /// nothing else is anything.
    pub open spec fn routed(self, m: MessageView) -> Run {
        match m {
            MessageView::Progress { ptype, para } => Run {
                busy: busy_after(self.busy, reported(ptype, para)),
                events: self.events.push(reported(ptype, para)),
                ..self
            },
            _ => self,
        }
    }

    /// After a message. An error ends the transaction; so does the answer, unless the
    /// prompt must come.
    pub open spec fn told<M: Wanted>(self, wanted: M, on_prompt: bool, m: MessageView) -> Run {
        match m {
            MessageView::Error { category, error_number } => Run {
                ended: Some(Ended::Refused { category, error_number }),
                ..self
            },
            _ => if self.matched is None && wanted.wants(m) {
                Run {
                    matched: Some(m),
                    ended: if on_prompt {
                        None
                    } else {
                        Some(Ended::Answered)
                    },
                    ..self
                }
            } else {
                self.routed(m)
            },
        }
    }

    /// After a line or a prompt. Noise is passed over, and so is everything once the
    /// transaction has ended.
    pub open spec fn stepped<M: Wanted>(self, wanted: M, on_prompt: bool, e: CcdiEventView) -> Run {
        if self.ended is Some {
            self
        } else {
            match e {
                CcdiEventView::Prompt => Run { prompted: self.prompted || on_prompt, ..self },
                CcdiEventView::Line(line) => match frame::frame_in(line) {
                    Some(f) => self.told(wanted, on_prompt, message::message_of(f.ident, f.params)),
                    None => self,
                },
            }
        }
    }

    /// After a run of lines and prompts.
    pub open spec fn ran<M: Wanted>(
        self,
        wanted: M,
        on_prompt: bool,
        events: Seq<CcdiEventView>,
    ) -> Run
        decreases events.len(),
    {
        if events.len() == 0 {
            self
        } else {
            self.ran(wanted, on_prompt, events.drop_last()).stepped(
                wanted,
                on_prompt,
                events.last(),
            )
        }
    }

    /// The transaction is over with what one read brought.
    pub open spec fn is_over(self) -> bool {
        self.ended is Some || self.prompted
    }
}

/// A radio over the serial port `S`.
pub struct TaitCcdiRadio<S> {
    stream: S,
    decoder: LineDecoder,
    channel_busy: Option<bool>,
    we_keyed: bool,
    events: Vec<RadioEvent>,
}

/// What is known of a radio.
pub struct RadioView {
    pub line: LineView,
    pub busy: Option<bool>,
    pub keyed: bool,
    pub events: Seq<RadioEvent>,
}

impl<S> View for TaitCcdiRadio<S> {
    type V = RadioView;

    closed spec fn view(&self) -> RadioView {
        RadioView {
            line: self.decoder@,
            busy: self.channel_busy,
            keyed: self.we_keyed,
            events: self.events@,
        }
    }
}

impl RadioView {
    /// The transaction at the start of a read.
    pub open spec fn run(self, matched: Option<MessageView>) -> Run {
        Run {
            busy: self.busy,
            events: self.events,
            matched,
            prompted: false,
            ended: None,
        }
    }

    /// How far a transaction has come when a read has brought octets.
    pub open spec fn read<M: Wanted>(self, t: Transaction<M>, octets: Seq<u8>) -> Run {
        self.run(t.matched()).ran(t.wanted(), t.on_prompt(), self.line.events(octets))
    }

    /// The radio when a read has brought octets.
    pub open spec fn after_read<M: Wanted>(self, t: Transaction<M>, octets: Seq<u8>) -> RadioView {
        RadioView {
            line: self.line.after_all(octets),
            busy: self.read(t, octets).busy,
            events: self.read(t, octets).events,
            ..self
        }
    }
}

/// What to do next in a transaction.
pub enum TransactStep<M: Wanted, E> {
    /// It is over.
    Done(Result<Option<M::Value>, TaitError<E>>),
    /// More must be read.
    More(Transaction<M>),
}

impl<S> TaitCcdiRadio<S> {
    /// A radio of which nothing is known.
    pub fn new(stream: S) -> (r: TaitCcdiRadio<S>)
        ensures
            r@ == (RadioView {
                line: LineView::fresh(),
                busy: None,
                keyed: false,
                events: Seq::empty(),
            }),
            r.port() == stream,
    {
        let r = TaitCcdiRadio {
            stream,
            decoder: LineDecoder::new(),
            channel_busy: None,
            we_keyed: false,
            events: Vec::new(),
        };
        assert(r@.events =~= Seq::<RadioEvent>::empty());
        r
    }

    /// The serial port.
    pub closed spec fn port(&self) -> S {
        self.stream
    }

    /// The serial port.
    pub fn stream(&self) -> (r: &S)
        ensures
            *r == self.port(),
    {
        &self.stream
    }

    /// The serial port.
    pub fn stream_mut(&mut self) -> (r: &mut S)
        ensures
            *r == old(self).port(),
            final(self).port() == *final(r),
            final(self)@ == old(self)@,
    {
        &mut self.stream
    }

    /// Whether the channel is busy, once the radio has said so.
    pub fn channel_busy(&self) -> (r: Option<bool>)
        ensures
            r == self@.busy,
    {
        self.channel_busy
    }

    /// Whether the transmitter was last keyed from here.
    pub fn transmitter_keyed(&self) -> (r: bool)
        ensures
            r == self@.keyed,
    {
        self.we_keyed
    }

    /// Takes how the transaction of [`Self::set_transmitter`] ended. The transmitter
    /// counts as keyed or released only if the radio did as it was told.
    pub fn transmitter_set<E>(
        &mut self,
        transmit: bool,
        ended: Result<Option<()>, TaitError<E>>,
    ) -> (r: Result<(), TaitError<E>>)
        ensures
            match ended {
                Ok(_) => {
                    &&& r is Ok
                    &&& final(self)@ == (RadioView { keyed: transmit, ..old(self)@ })
                },
                Err(e) => r == Err::<(), TaitError<E>>(e) && final(self)@ == old(self)@,
            },
            final(self).port() == old(self).port(),
    {
        match ended {
            Ok(_) => {
                self.we_keyed = transmit;
                Ok(())
            },
            Err(e) => Err(e),
        }
    }

    /// Takes the events that have been reported.
    pub fn drain_events(&mut self) -> (r: Vec<RadioEvent>)
        ensures
            r@ == old(self)@.events,
            final(self)@ == (RadioView { events: Seq::empty(), ..old(self)@ }),
            final(self).port() == old(self).port(),
    {
        let mut out: Vec<RadioEvent> = Vec::new();
        std::mem::swap(&mut out, &mut self.events);
        assert(self@.events =~= Seq::<RadioEvent>::empty());
        out
    }

    /// Starts a transaction: what to write, and the transaction that takes what the
    /// port then reads. `complete_on_prompt` says whether the prompt ends it. Any part of
    /// a line that came before is forgotten.
    pub fn transact<M: Wanted>(
        &mut self,
        command: &CcdiFrame,
        wanted: M,
        complete_on_prompt: bool,
    ) -> (r: (Vec<u8>, Transaction<M>))
        ensures
            r.0@ == command@.sent(),
            r.1.awaits(wanted, complete_on_prompt),
            final(self)@ == (RadioView { line: LineView::fresh(), ..old(self)@ }),
            final(self).port() == old(self).port(),
    {
        self.decoder.reset();
        (command.encode_to_bytes(), Transaction::new(wanted, complete_on_prompt))
    }

    /// Starts reading the signal level at this moment: what to write, and the
    /// transaction that brings the level in tenths of a dBm.
    pub fn read_rssi_tenths(&mut self) -> (r: (Vec<u8>, Transaction<LevelReply>))
        ensures
            r.0@ == query(seq![0x30u8, 0x36, 0x34]).sent(),
            r.1.awaits(LevelReply { cctm: 64 }, false),
            final(self)@ == (RadioView { line: LineView::fresh(), ..old(self)@ }),
            final(self).port() == old(self).port(),
    {
        let number: [u8; 3] = [0x30, 0x36, 0x34];
        assert(number@ =~= seq![0x30u8, 0x36, 0x34]);
        self.transact(&build_query_cctm(&number), LevelReply { cctm: 64 }, false)
    }

    /// Starts reading the signal level as the radio averages it: what to write, and the
    /// transaction that brings the level in tenths of a dBm.
    pub fn read_averaged_rssi_tenths(&mut self) -> (r: (Vec<u8>, Transaction<LevelReply>))
        ensures
            r.0@ == query(seq![0x30u8, 0x36, 0x33]).sent(),
            r.1.awaits(LevelReply { cctm: 63 }, false),
            final(self)@ == (RadioView { line: LineView::fresh(), ..old(self)@ }),
            final(self).port() == old(self).port(),
    {
        let number: [u8; 3] = [0x30, 0x36, 0x33];
        assert(number@ =~= seq![0x30u8, 0x36, 0x33]);
        self.transact(&build_query_cctm(&number), LevelReply { cctm: 63 }, false)
    }

    /// Starts keying or releasing the transmitter: what to write, and the transaction
    /// that the prompt ends. [`Self::transmitter_set`] takes how it ended.
    pub fn set_transmitter(&mut self, transmit: bool) -> (r: (Vec<u8>, Transaction<Acknowledged>))
        ensures
            r.0@ == keying(transmit).sent(),
            r.1.awaits(Acknowledged {  }, true),
            final(self)@ == (RadioView { line: LineView::fresh(), ..old(self)@ }),
            final(self).port() == old(self).port(),
    {
        self.transact(&build_transmitter(transmit), Acknowledged {  }, true)
    }

    /// Starts turning the reports of progress on or off: what to write, and the
    /// transaction that the prompt ends.
    pub fn set_progress_messages(&mut self, enable: bool) -> (r: (
        Vec<u8>,
        Transaction<Acknowledged>,
    ))
        ensures
            r.0@ == reporting(enable).sent(),
            r.1.awaits(Acknowledged {  }, true),
            final(self)@ == (RadioView { line: LineView::fresh(), ..old(self)@ }),
            final(self).port() == old(self).port(),
    {
        self.transact(&build_progress_messages(enable), Acknowledged {  }, true)
    }

    /// Starts going to a channel, in a zone if one is given: what to write, and the
    /// transaction that the prompt ends. A channel above 9999 is out of range.
    pub fn go_to_channel<E>(&mut self, channel: u16, zone: Option<u8>) -> (r: Result<
        (Vec<u8>, Transaction<Acknowledged>),
        TaitError<E>,
    >)
        ensures
            match r {
                Ok(t) => {
                    &&& tunable(channel)
                    &&& t.0@ == tuning(channel, zone).sent()
                    &&& t.1.awaits(Acknowledged {  }, true)
                    &&& final(self)@ == (RadioView { line: LineView::fresh(), ..old(self)@ })
                },
                Err(e) => {
                    &&& !tunable(channel)
                    &&& e == TaitError::<E>::Invalid
                    &&& final(self)@ == old(self)@
                },
            },
            final(self).port() == old(self).port(),
    {
        match build_go_to_channel(channel, zone) {
            Some(f) => Ok(self.transact(&f, Acknowledged {  }, true)),
            None => Err(TaitError::Invalid),
        }
    }

    /// Starts sending a short message to the radio with an identity: what to write, and
    /// the transaction that the prompt ends. A message that is too long is out of range.
    pub fn send_sdm<E>(&mut self, id: &[u8; 8], data: &[u8], extended: bool) -> (r: Result<
        (Vec<u8>, Transaction<Acknowledged>),
        TaitError<E>,
    >)
        ensures
            match r {
                Ok(t) => {
                    &&& data@.len() <= sdm_budget(extended)
                    &&& t.0@ == sdm(id@, data@, extended).sent()
                    &&& t.1.awaits(Acknowledged {  }, true)
                    &&& final(self)@ == (RadioView { line: LineView::fresh(), ..old(self)@ })
                },
                Err(e) => {
                    &&& data@.len() > sdm_budget(extended)
                    &&& e == TaitError::<E>::Invalid
                    &&& final(self)@ == old(self)@
                },
            },
            final(self).port() == old(self).port(),
    {
        match build_sdm(id, data, extended) {
            Some(f) => Ok(self.transact(&f, Acknowledged {  }, true)),
            None => Err(TaitError::Invalid),
        }
    }

    /// Starts reading the short message that the radio has buffered: what to write, and
    /// the transaction that brings it, empty if there is none.
    pub fn read_buffered_sdm(&mut self) -> (r: (Vec<u8>, Transaction<SdmReply>))
        ensures
            r.0@ == buffered().sent(),
            r.1.awaits(SdmReply {  }, false),
            final(self)@ == (RadioView { line: LineView::fresh(), ..old(self)@ }),
            final(self).port() == old(self).port(),
    {
        let params: [u8; 1] = [0x31];
        assert(params@ =~= seq![0x31u8]);
        self.transact(&frame_with(0x71, params.as_slice()), SdmReply {  }, false)
    }

    /// Takes what one read brought. A read that brings nothing ends the transaction.
    pub fn receive<M: Wanted, E>(
        &mut self,
        transaction: Transaction<M>,
        octets: &[u8],
    ) -> (r: TransactStep<M, E>)
        ensures
            final(self).port() == old(self).port(),
            octets@.len() == 0 ==> {
                &&& final(self)@ == old(self)@
                &&& match r {
                    TransactStep::Done(Ok(v)) => transaction.matched() is Some && gives(
                        transaction.wanted(),
                        transaction.matched(),
                        v,
                    ),
                    TransactStep::Done(Err(e)) => transaction.matched() is None && e == TaitError::<
                        E,
                    >::NoResponse,
                    TransactStep::More(_) => false,
                }
            },
            octets@.len() > 0 ==> {
                let run: Run = old(self)@.read(transaction, octets@);
                &&& final(self)@ == old(self)@.after_read(transaction, octets@)
                &&& match r {
                    TransactStep::Done(Ok(v)) => {
                        &&& run.is_over()
                        &&& run.ended is None || run.ended == Some(Ended::Answered)
                        &&& gives(transaction.wanted(), run.matched, v)
                    },
                    TransactStep::Done(Err(e)) => {
                        e matches TaitError::Ccdi { category, error_number } && run.ended == Some(
                            Ended::Refused { category, error_number },
                        )
                    },
                    TransactStep::More(t) => {
                        &&& !run.is_over()
                        &&& t.wanted() == transaction.wanted()
                        &&& t.on_prompt() == transaction.on_prompt()
                        &&& t.matched() == run.matched
                    },
                }
            },
    {
        let mut t = transaction;
        proof {
            use_type_invariant(&t);
        }
        if octets.len() == 0 {
            return match t.result {
                Some(v) => TransactStep::Done(Ok(Some(v))),
                None => TransactStep::Done(Err(TaitError::NoResponse)),
            };
        }
        let ghost before = self@;
        let events = self.decoder.push(octets);
        let ghost all: Seq<CcdiEventView> = before.line.events(octets@);
        let ghost start: Run = before.run(transaction.matched());
        let mut prompted: bool = false;
        let mut i: usize = 0;
        assert(all.take(0) =~= Seq::<CcdiEventView>::empty());
        while i < events.len()
            invariant
                i <= events@.len(),
                decoder::event_views(events@) == all,
                t.wanted() == transaction.wanted(),
                t.on_prompt() == transaction.on_prompt(),
                self.port() == old(self).port(),
                self@.line == before.line.after_all(octets@),
                self@.keyed == before.keyed,
                start.ran(t.wanted(), t.on_prompt(), all.take(i as int)) == (Run {
                    busy: self@.busy,
                    events: self@.events,
                    matched: t.matched(),
                    prompted,
                    ended: None,
                }),
                before == old(self)@,
                start == before.run(transaction.matched()),
                all == before.line.events(octets@),
                octets@.len() > 0,
            decreases events@.len() - i,
        {
            proof {
                use_type_invariant(&t);
            }
            let ghost now: Run = start.ran(t.wanted(), t.on_prompt(), all.take(i as int));
            let ghost next: Run = start.ran(t.wanted(), t.on_prompt(), all.take(i + 1));
            proof {
                assert(all.take(i + 1).drop_last() =~= all.take(i as int));
                assert(all.take(i + 1).last() == events@[i as int]@);
                assert(next == now.stepped(t.wanted(), t.on_prompt(), events@[i as int]@));
            }
            match &events[i] {
                CcdiEvent::Prompt => {
                    prompted = prompted || t.complete_on_prompt;
                },
                CcdiEvent::Line(line) => match CcdiFrame::try_parse(line.as_slice()) {
                    Some(f) => {
                        let m = CcdiMessage::decode(&f);
                        match m {
                            CcdiMessage::Error { category, error_number } => {
                                proof {
                                    lemma_ended_stays(
                                        start,
                                        t.wanted(),
                                        t.on_prompt(),
                                        all,
                                        i + 1,
                                    );
                                }
                                return TransactStep::Done(
                                    Err(TaitError::Ccdi { category, error_number }),
                                );
                            },
                            _ => {},
                        }
                        let waiting: bool = match t.result {
                            Some(_) => false,
                            None => true,
                        };
                        let picked = if waiting {
                            t.wanted.pick(&m)
                        } else {
                            None
                        };
                        match picked {
                            Some(v) => {
                                t = Transaction {
                                    wanted: t.wanted,
                                    complete_on_prompt: t.complete_on_prompt,
                                    result: Some(v),
                                    matched: Ghost(Some(m@)),
                                };
                                if !t.complete_on_prompt {
                                    proof {
                                        lemma_ended_stays(
                                            start,
                                            t.wanted(),
                                            t.on_prompt(),
                                            all,
                                            i + 1,
                                        );
                                    }
                                    return TransactStep::Done(Ok(t.result));
                                }
                            },
                            None => {
                                self.route_unsolicited(&m);
                            },
                        }
                    },
                    None => {},
                },
            }
            i = i + 1;
        }
        proof {
            use_type_invariant(&t);
        }
        assert(all.take(i as int) =~= all);
        if prompted {
            TransactStep::Done(Ok(t.result))
        } else {
            TransactStep::More(t)
        }
    }

    /// Keeps what the radio reports of its own accord.
    fn route_unsolicited(&mut self, m: &CcdiMessage)
        ensures
            ({
                let before: Run = old(self)@.run(None);
                &&& final(self)@ == (RadioView {
                    busy: before.routed(m@).busy,
                    events: before.routed(m@).events,
                    ..old(self)@
                })
            }),
            final(self).port() == old(self).port(),
    {
        match m {
            CcdiMessage::Progress { ptype, para } => {
                let e: RadioEvent = match *ptype {
                    CcdiProgressType::ReceiverBusy => RadioEvent::CarrierSense(true),
                    CcdiProgressType::ReceiverNotBusy => RadioEvent::CarrierSense(false),
                    CcdiProgressType::PttActivated => RadioEvent::Transmitter(true),
                    CcdiProgressType::PttDeactivated => RadioEvent::Transmitter(false),
                    CcdiProgressType::SdmAutoAcknowledge => RadioEvent::SdmDeliveryReceipt(
                        para.len() > 0 && para[0] == 0x31,
                    ),
                    other => RadioEvent::Progress(other),
                };
                match e {
                    RadioEvent::CarrierSense(b) => {
                        self.channel_busy = Some(b);
                    },
                    _ => {},
                }
                self.events.push(e);
            },
            _ => {},
        }
    }
}

/// Once a transaction has ended, nothing more changes it.
proof fn lemma_ended_stays<M: Wanted>(
    start: Run,
    wanted: M,
    on_prompt: bool,
    events: Seq<CcdiEventView>,
    i: int,
)
    requires
        0 <= i <= events.len(),
        start.ran(wanted, on_prompt, events.take(i)).ended is Some,
    ensures
        start.ran(wanted, on_prompt, events) == start.ran(wanted, on_prompt, events.take(i)),
    decreases events.len() - i,
{
    if i < events.len() {
        assert(events.take(i + 1).drop_last() =~= events.take(i));
        lemma_ended_stays(start, wanted, on_prompt, events, i + 1);
    } else {
        assert(events.take(i) =~= events);
    }
}

/// The query with a number of three digits: `q`, `5` and the number.
pub open spec fn query(number: Seq<u8>) -> CcdiView {
    CcdiView { ident: 0x71, params: seq![0x35u8] + number }
}

/// The query for the short message that the radio has buffered: `q` and `1`.
pub open spec fn buffered() -> CcdiView {
    CcdiView { ident: 0x71, params: seq![0x31u8] }
}

/// The command that keys or releases the transmitter: `f` and `91` or `90`.
pub open spec fn keying(transmit: bool) -> CcdiView {
    CcdiView {
        ident: 0x66,
        params: seq![
            0x39u8,
            if transmit {
                0x31
            } else {
                0x30
            },
        ],
    }
}

/// The command that turns the reports of progress on or off: `f` and `041` or `040`.
pub open spec fn reporting(enable: bool) -> CcdiView {
    CcdiView {
        ident: 0x66,
        params: seq![
            0x30u8,
            0x34,
            if enable {
                0x31
            } else {
                0x30
            },
        ],
    }
}

/// Of the commands that switch something, the last octet says whether it is switched on:
/// it is the digit 1 or 0, and nothing else of the command depends on it. The two switches
/// are told apart by what stands before it.
pub proof fn law_the_last_digit_switches(on: bool, other: bool)
    ensures
        keying(on).params.last() == 0x30 + if on {
            1int
        } else {
            0
        },
        reporting(on).params.last() == 0x30 + if on {
            1int
        } else {
            0
        },
        keying(on).params.drop_last() == seq![0x39u8],
        reporting(on).params.drop_last() == seq![0x30u8, 0x34],
        keying(on) == keying(other) <==> on == other,
        reporting(on) == reporting(other) <==> on == other,
{
    assert(keying(on).params.drop_last() =~= seq![0x39u8]);
    assert(reporting(on).params.drop_last() =~= seq![0x30u8, 0x34]);
    if on != other {
        assert(keying(on).params.last() != keying(other).params.last());
        assert(reporting(on).params.last() != reporting(other).params.last());
    }
}

/// A short message carries the identity that it is for and what was to be sent, as they
/// are: the identity in eight octets, and behind it the whole message.
pub proof fn law_a_short_message_is_carried_whole(id: Seq<u8>, data: Seq<u8>, extended: bool)
    requires
        id.len() == 8,
    ensures
        sdm(id, data, extended).params.len() == 13 + data.len(),
        sdm(id, data, extended).params.subrange(5, 13) == id,
        sdm(id, data, extended).params.skip(13) == data,
        sdm(id, data, true).params.take(5) != sdm(id, data, false).params.take(5),
{
    let whole: Seq<u8> = sdm(id, data, extended).params;
    assert(whole.subrange(5, 13) =~= id);
    assert(whole.skip(13) =~= data);
    assert(sdm(id, data, true).params.take(5)[4] == 0x34);
    assert(sdm(id, data, false).params.take(5)[4] == 0x30);
}

/// The last digits of a number, so many of them.
pub open spec fn padded(n: nat, width: nat) -> Seq<u8>
    decreases width,
{
    if width == 0 {
        Seq::empty()
    } else {
        padded(n / 10, (width - 1) as nat).push((0x30 + n % 10) as u8)
    }
}

/// The channel has at most four digits.
pub open spec fn tunable(channel: u16) -> bool {
    channel <= 9999
}

/// The command that goes to a channel: `g` and the number of the channel, or the last two
/// digits of the zone and four of the channel.
pub open spec fn tuning(channel: u16, zone: Option<u8>) -> CcdiView {
    CcdiView {
        ident: 0x67,
        params: match zone {
            Some(z) => padded(z as nat, 2) + padded(channel as nat, 4),
            None => numbers::digits_of(channel as nat),
        },
    }
}

/// The characters that a short message carries.
pub open spec fn sdm_budget(extended: bool) -> nat {
    if extended {
        EXTENDED_PAYLOAD_BUDGET as nat
    } else {
        PAYLOAD_BUDGET as nat
    }
}

/// The command that sends a short message: `a`, `052`, `00` or `04`, the identity and
/// the message.
pub open spec fn sdm(id: Seq<u8>, data: Seq<u8>, extended: bool) -> CcdiView {
    CcdiView {
        ident: 0x61,
        params: seq![
            0x30u8,
            0x35,
            0x32,
            0x30,
            if extended {
                0x34
            } else {
                0x30
            },
        ] + id + data,
    }
}

/// The query with a number of three digits.
pub fn build_query_cctm(cctm: &[u8; 3]) -> (f: CcdiFrame)
    ensures
        f@ == query(cctm@),
{
    let params: [u8; 4] = [0x35, cctm[0], cctm[1], cctm[2]];
    assert(params@ =~= query(cctm@).params);
    frame_with(0x71, params.as_slice())
}

/// The command that keys or releases the transmitter.
pub fn build_transmitter(transmit: bool) -> (f: CcdiFrame)
    ensures
        f@ == keying(transmit),
{
    let last: u8 = if transmit {
        0x31
    } else {
        0x30
    };
    let params: [u8; 2] = [0x39, last];
    assert(params@ =~= keying(transmit).params);
    frame_with(0x66, params.as_slice())
}

/// The command that turns the reports of progress on or off.
pub fn build_progress_messages(enable: bool) -> (f: CcdiFrame)
    ensures
        f@ == reporting(enable),
{
    let last: u8 = if enable {
        0x31
    } else {
        0x30
    };
    let params: [u8; 3] = [0x30, 0x34, last];
    assert(params@ =~= reporting(enable).params);
    frame_with(0x66, params.as_slice())
}

/// Appends the last digits of a number, so many of them.
fn append_padded(out: &mut Vec<u8>, n: u32, width: usize)
    ensures
        final(out)@ == old(out)@ + padded(n as nat, width as nat),
    decreases width,
{
    if width > 0 {
        append_padded(out, n / 10, width - 1);
        out.push(0x30 + (n % 10) as u8);
    }
    assert(out@ =~= old(out)@ + padded(n as nat, width as nat));
}

/// How many digits `padded` gives, and which.
proof fn lemma_padded(n: nat, width: nat)
    ensures
        padded(n, width).len() == width,
        numbers::all_digits(padded(n, width)),
        numbers::decimal(padded(n, width)) == n % vstd::arithmetic::power::pow(10, width) as nat,
        vstd::arithmetic::power::pow(10, width) > 0,
    decreases width,
{
    vstd::arithmetic::power::lemma_pow_positive(10, width);
    if width == 0 {
        vstd::arithmetic::power::lemma_pow0(10);
        assert(n % 1 == 0);
    } else {
        let w: nat = (width - 1) as nat;
        let p: int = vstd::arithmetic::power::pow(10, w);
        lemma_padded(n / 10, w);
        assert(padded(n, width).drop_last() =~= padded(n / 10, w));
        assert(vstd::arithmetic::power::pow(10, width) == 10 * p) by {
            reveal(vstd::arithmetic::power::pow);
        }
        vstd::arithmetic::div_mod::lemma_breakdown(n as int, 10, p);
        assert(padded(n, width).last() == 0x30 + n % 10);
    }
}

/// A zone and a channel are read back from the six digits that they are written in, the
/// zone as far as two digits go.
pub proof fn law_zones_and_channels_are_told_apart(channel: u16, zone: u8)
    requires
        tunable(channel),
    ensures
        tuning(channel, Some(zone)).params.len() == 6,
        numbers::all_digits(tuning(channel, Some(zone)).params),
        numbers::decimal(tuning(channel, Some(zone)).params.take(2)) == zone % 100,
        numbers::decimal(tuning(channel, Some(zone)).params.skip(2)) == channel,
{
    let z: Seq<u8> = padded(zone as nat, 2);
    let c: Seq<u8> = padded(channel as nat, 4);
    lemma_padded(zone as nat, 2);
    lemma_padded(channel as nat, 4);
    assert(vstd::arithmetic::power::pow(10, 2) == 100 && vstd::arithmetic::power::pow(10, 4)
        == 10000) by {
        reveal_with_fuel(vstd::arithmetic::power::pow, 5);
    }
    vstd::arithmetic::div_mod::lemma_small_mod(
        channel as nat,
        vstd::arithmetic::power::pow(10, 4) as nat,
    );
    let p: Seq<u8> = tuning(channel, Some(zone)).params;
    assert(p.take(2) =~= z);
    assert(p.skip(2) =~= c);
    assert forall|i: int| 0 <= i < p.len() implies numbers::is_digit(#[trigger] p[i]) by {
        if i < 2 {
            assert(numbers::is_digit(z[i]));
        } else {
            assert(numbers::is_digit(c[i - 2]));
        }
    }
}

/// The digits of a number are not many.
proof fn lemma_few_digits(n: nat)
    requires
        n <= 9999,
    ensures
        numbers::digits_of(n).len() <= 4,
{
    reveal_with_fuel(numbers::digits_of, 4);
}

/// The command that goes to a channel. `None` if the channel is above 9999.
pub fn build_go_to_channel(channel: u16, zone: Option<u8>) -> (r: Option<CcdiFrame>)
    ensures
        match r {
            Some(f) => tunable(channel) && f@ == tuning(channel, zone),
            None => !tunable(channel),
        },
{
    if channel > 9999 {
        return None;
    }
    let mut params: Vec<u8> = Vec::new();
    match zone {
        Some(z) => {
            append_padded(&mut params, z as u32, 2);
            append_padded(&mut params, channel as u32, 4);
            proof {
                lemma_padded(z as nat, 2);
                lemma_padded(channel as nat, 4);
            }
        },
        None => {
            append_digits(&mut params, channel as u64);
            proof {
                lemma_few_digits(channel as nat);
            }
        },
    }
    assert(params@ =~= tuning(channel, zone).params);
    Some(frame_with(0x67, params.as_slice()))
}

/// The command that sends a short message. `None` if the message is too long.
pub fn build_sdm(id: &[u8; 8], data: &[u8], extended: bool) -> (r: Option<CcdiFrame>)
    ensures
        match r {
            Some(f) => data@.len() <= sdm_budget(extended) && f@ == sdm(id@, data@, extended),
            None => data@.len() > sdm_budget(extended),
        },
{
    let budget: usize = if extended {
        EXTENDED_PAYLOAD_BUDGET
    } else {
        PAYLOAD_BUDGET
    };
    if data.len() > budget {
        return None;
    }
    let mut params: Vec<u8> = Vec::new();
    params.push(0x30);
    params.push(0x35);
    params.push(0x32);
    params.push(0x30);
    params.push(
        if extended {
            0x34
        } else {
            0x30
        },
    );
    bytes::append(&mut params, id.as_slice());
    bytes::append(&mut params, data);
    assert(params@ =~= sdm(id@, data@, extended).params);
    Some(frame_with(0x61, params.as_slice()))
}

/// The signal level that a transaction brought. An answer that holds no level is none.
pub fn level_from<E>(r: Result<Option<Option<i16>>, TaitError<E>>) -> (v: Result<i16, TaitError<E>>)
    ensures
        v == match r {
            Ok(Some(Some(level))) => Ok::<i16, TaitError<E>>(level),
            Ok(_) => Err(TaitError::NoResponse),
            Err(e) => Err(e),
        },
{
    match r {
        Ok(Some(Some(level))) => Ok(level),
        Ok(Some(None)) => Err(TaitError::NoResponse),
        Ok(None) => Err(TaitError::NoResponse),
        Err(e) => Err(e),
    }
}

/// Taking lines and prompts in two runs is taking them in one.
pub proof fn law_runs_compose<M: Wanted>(
    start: Run,
    wanted: M,
    on_prompt: bool,
    a: Seq<CcdiEventView>,
    b: Seq<CcdiEventView>,
)
    ensures
        start.ran(wanted, on_prompt, a + b) == start.ran(wanted, on_prompt, a).ran(
            wanted,
            on_prompt,
            b,
        ),
    decreases b.len(),
{
    if b.len() == 0 {
        assert(a + b =~= a);
    } else {
        law_runs_compose(start, wanted, on_prompt, a, b.drop_last());
        assert((a + b).drop_last() =~= a + b.drop_last());
        assert((a + b).last() == b.last());
    }
}

/// A transaction that the prompt does not end may have its answer cut into reads in any
/// way: two reads bring what one would.
pub proof fn law_answers_may_be_cut<M: Wanted>(
    radio: RadioView,
    t: Transaction<M>,
    u: Transaction<M>,
    a: Seq<u8>,
    b: Seq<u8>,
)
    requires
        !t.on_prompt(),
        !radio.read(t, a).is_over(),
        u.wanted() == t.wanted(),
        !u.on_prompt(),
        u.matched() == radio.read(t, a).matched,
    ensures
        radio.after_read(t, a).read(u, b) == radio.read(t, a + b),
        radio.after_read(t, a).after_read(u, b) == radio.after_read(t, a + b),
{
    decoder::law_chunks_do_not_matter(radio.line, a, b);
    law_runs_compose(
        radio.run(t.matched()),
        t.wanted(),
        false,
        radio.line.events(a),
        radio.line.after_all(a).events(b),
    );
}

/// An error fails a command whose prompt comes in the same read, whichever comes first.
pub proof fn law_errors_beat_prompts<M: Wanted>(
    start: Run,
    wanted: M,
    events: Seq<CcdiEventView>,
    k: int,
)
    requires
        start.ended is None,
        0 <= k < events.len(),
        is_error(events[k]),
    ensures
        start.ran(wanted, true, events).ended is Some,
        start.ran(wanted, true, events).ended->0 is Refused,
    decreases events.len(),
{
    lemma_only_errors_end(start, wanted, events.take(k));
    let before: Run = start.ran(wanted, true, events.take(k));
    assert(events.take(k + 1).drop_last() =~= events.take(k));
    assert(events.take(k + 1).last() == events[k]);
    lemma_ended_stays(start, wanted, true, events, k + 1);
}

/// A line that holds an error.
pub open spec fn is_error(e: CcdiEventView) -> bool {
    e matches CcdiEventView::Line(line) && (frame::frame_in(line) matches Some(f)
        && message::message_of(f.ident, f.params) is Error)
}

proof fn lemma_only_errors_end<M: Wanted>(start: Run, wanted: M, events: Seq<CcdiEventView>)
    requires
        start.ended is None,
    ensures
        start.ran(wanted, true, events).ended matches Some(e) ==> e is Refused,
    decreases events.len(),
{
    if events.len() > 0 {
        lemma_only_errors_end(start, wanted, events.drop_last());
    }
}

/// What the radio reports of its own accord is never taken for the level that is waited
/// for: it is an event.
pub proof fn law_reports_are_kept_apart(
    run: Run,
    cctm: u16,
    on_prompt: bool,
    ptype: CcdiProgressType,
    para: Seq<u8>,
)
    ensures
        ({
            let m: MessageView = MessageView::Progress { ptype, para };
            let after: Run = run.told(LevelReply { cctm }, on_prompt, m);
            &&& after.matched == run.matched
            &&& after.ended == run.ended
            &&& after.events == run.events.push(reported(ptype, para))
        }),
{
}

/// The octets of a report of progress: `p`, the number of the report in two hexadecimal
/// digits, and what goes with it.
pub open spec fn report_line(high: u8, low: u8, para: Seq<u8>) -> Seq<u8> {
    CcdiView { ident: 0x70, params: seq![high, low] + para }.sent()
}

/// The octets can stand in a report of progress.
pub open spec fn can_report(para: Seq<u8>) -> bool {
    &&& para.len() <= 250
    &&& forall|i: int| 0 <= i < para.len() ==> decoder::is_plain(#[trigger] para[i])
}

/// The transaction waits for no report of progress.
pub open spec fn passes_reports<M: Wanted>(t: Transaction<M>) -> bool {
    forall|m: MessageView| m is Progress ==> !#[trigger] t.wanted().wants(m)
}

/// No transaction of a radio waits for a report of progress.
pub proof fn law_no_command_waits_for_a_report(
    a: Transaction<Acknowledged>,
    b: Transaction<LevelReply>,
    c: Transaction<SdmReply>,
)
    ensures
        passes_reports(a),
        passes_reports(b),
        passes_reports(c),
{
}

/// The line of a report comes out of the port whole and is read as the report.
proof fn lemma_report_line(high: u8, low: u8, para: Seq<u8>)
    requires
        can_report(para),
        super::ccdi::hex_value(high) is Some,
        super::ccdi::hex_value(low) is Some,
    ensures
        ({
            let f: CcdiView = CcdiView { ident: 0x70, params: seq![high, low] + para };
            &&& LineView::fresh().events(report_line(high, low, para)) == seq![
                CcdiEventView::Line(f.line()),
            ]
            &&& LineView::fresh().after_all(report_line(high, low, para)) == LineView::fresh()
            &&& frame::frame_in(f.line()) == Some(f)
            &&& message::message_of(f.ident, f.params) == (MessageView::Progress {
                ptype: CcdiProgressType::numbered(
                    (super::ccdi::hex_value(high)->0 * 16 + super::ccdi::hex_value(low)->0) as u8,
                ),
                para,
            })
        }),
{
    let f: CcdiView = CcdiView { ident: 0x70, params: seq![high, low] + para };
    let line: Seq<u8> = f.line();
    frame::law_frame_round_trip(f);
    assert forall|i: int| 0 <= i < line.len() implies decoder::is_plain(#[trigger] line[i]) by {
        if 5 <= i < line.len() - 2 {
            assert(line[i] == para[i - 5]);
        }
    }
    decoder::law_lines_come_out_whole(line);
    decoder::law_carriage_return_resynchronises(LineView::fresh(), line);
    assert(f.params.take(2) =~= seq![high, low]);
    assert(f.params.skip(2) =~= para);
}

/// A report that is read makes one event.
proof fn lemma_report_is_one_event<M: Wanted>(
    radio: RadioView,
    t: Transaction<M>,
    high: u8,
    low: u8,
    para: Seq<u8>,
)
    requires
        radio.line == LineView::fresh(),
        passes_reports(t),
        can_report(para),
        super::ccdi::hex_value(high) is Some,
        super::ccdi::hex_value(low) is Some,
    ensures
        ({
            let e: RadioEvent = reported(
                CcdiProgressType::numbered(
                    (super::ccdi::hex_value(high)->0 * 16 + super::ccdi::hex_value(low)->0) as u8,
                ),
                para,
            );
            let after: RadioView = radio.after_read(t, report_line(high, low, para));
            &&& after.events == radio.events.push(e)
            &&& after.busy == busy_after(radio.busy, e)
            &&& after.keyed == radio.keyed
            &&& after.line == LineView::fresh()
        }),
{
    let f: CcdiView = CcdiView { ident: 0x70, params: seq![high, low] + para };
    let one: Seq<CcdiEventView> = seq![CcdiEventView::Line(f.line())];
    lemma_report_line(high, low, para);
    assert(one.drop_last() =~= Seq::<CcdiEventView>::empty());
    reveal_with_fuel(Run::ran, 2);
}

/// What the radio reports of its own accord is kept as what it is, one event for each
/// report: that the transmitter was keyed (07) or released (08), that the channel became
/// busy (05) or idle (06), that a short message was received (1D, with a 1) or was not. An
/// idle or busy channel is known from then on; the other reports say nothing of it.
pub proof fn law_reports_are_kept_as_what_they_are<M: Wanted>(
    radio: RadioView,
    t: Transaction<M>,
    para: Seq<u8>,
)
    requires
        radio.line == LineView::fresh(),
        passes_reports(t),
        can_report(para),
    ensures
        ({
            let keyed: RadioView = radio.after_read(t, report_line(0x30, 0x37, para));
            let released: RadioView = radio.after_read(t, report_line(0x30, 0x38, para));
            let busy: RadioView = radio.after_read(t, report_line(0x30, 0x35, para));
            let idle: RadioView = radio.after_read(t, report_line(0x30, 0x36, para));
            let received: RadioView = radio.after_read(t, report_line(0x31, 0x44, para));
            &&& keyed.events == radio.events.push(RadioEvent::Transmitter(true))
            &&& keyed.busy == radio.busy
            &&& released.events == radio.events.push(RadioEvent::Transmitter(false))
            &&& released.busy == radio.busy
            &&& busy.events == radio.events.push(RadioEvent::CarrierSense(true))
            &&& busy.busy == Some(true)
            &&& idle.events == radio.events.push(RadioEvent::CarrierSense(false))
            &&& idle.busy == Some(false)
            &&& received.events == radio.events.push(
                RadioEvent::SdmDeliveryReceipt(para.len() > 0 && para[0] == 0x31),
            )
            &&& received.busy == radio.busy
        }),
{
    lemma_report_is_one_event(radio, t, 0x30, 0x37, para);
    lemma_report_is_one_event(radio, t, 0x30, 0x38, para);
    lemma_report_is_one_event(radio, t, 0x30, 0x35, para);
    lemma_report_is_one_event(radio, t, 0x30, 0x36, para);
    lemma_report_is_one_event(radio, t, 0x31, 0x44, para);
}

/// A transmitter that is keyed and released in turn is reported so, in that order.
pub proof fn law_keying_and_releasing_alternate<M: Wanted>(
    radio: RadioView,
    t: Transaction<M>,
    later: Transaction<M>,
    para: Seq<u8>,
)
    requires
        radio.line == LineView::fresh(),
        passes_reports(t),
        passes_reports(later),
        can_report(para),
    ensures
        ({
            let keyed: RadioView = radio.after_read(t, report_line(0x30, 0x37, para));
            let released: RadioView = keyed.after_read(later, report_line(0x30, 0x38, para));
            &&& keyed.line == LineView::fresh()
            &&& released.events == radio.events + seq![
                RadioEvent::Transmitter(true),
                RadioEvent::Transmitter(false),
            ]
        }),
{
    let keyed: RadioView = radio.after_read(t, report_line(0x30, 0x37, para));
    lemma_report_is_one_event(radio, t, 0x30, 0x37, para);
    lemma_report_is_one_event(keyed, later, 0x30, 0x38, para);
    assert(radio.events.push(RadioEvent::Transmitter(true)).push(RadioEvent::Transmitter(false))
        =~= radio.events + seq![RadioEvent::Transmitter(true), RadioEvent::Transmitter(false)]);
}

} // verus!
