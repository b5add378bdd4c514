//! Telegrams over the short messages of a radio.
//!
//! A telegram is sent in its short form and is sent again where the radio refuses it. By
//! default it counts as sent as soon as the radio has taken it: the receipt that comes
//! over the air is not dependable when both stations talk, though the message itself
//! arrives. Repetitions are known by the number of the telegram, and are dropped.
//!
//! Sending goes in steps. [`SdmTuningLink::send`] starts it; each step gives the command
//! to hand to the radio, and takes how that went; between two steps there is a pause.

use vstd::prelude::*;

use super::telegram;
use super::telegram::{TelegramView, TuningTelegram};
use crate::radio::tait::ccdi::decoder::LineView;
use crate::radio::tait::driver;
use crate::radio::tait::driver::{
    Acknowledged,
    RadioEvent,
    RadioView,
    SdmReply,
    TaitCcdiRadio,
    TaitError,
    Transaction,
};
use crate::text::text_of;

pub use crate::radio::tait::driver::{EXTENDED_PAYLOAD_BUDGET, IDENTITY_LEN, PAYLOAD_BUDGET};

verus! {

/// How many telegrams are remembered.
pub const DEDUPE_WINDOW: usize = 64;

/// The longest line whose length is told.
pub const ENC_LEN: usize = 256;

/// How telegrams are sent.
#[derive(Debug, Clone, Copy, PartialEq, Eq, Structural)]
pub struct SdmTuningLinkOptions {
    /// How often a telegram is sent at most.
    pub max_attempts: u8,
    /// The pause before a telegram is sent again.
    pub retry_backoff_ms: u32,
    /// How long the receipt may take.
    pub receipt_timeout_ms: u32,
    /// How long the channel may stay busy before sending.
    pub channel_clear_timeout_ms: u32,
    /// How often the channel is looked at meanwhile.
    pub channel_clear_poll_interval_ms: u32,
    /// How often the radio is asked for a message.
    pub receive_poll_interval_ms: u32,
    /// The pause between receiving and sending.
    pub post_receive_guard_ms: u32,
    /// Whether only the receipt counts.
    pub wait_for_delivery_receipt: bool,
}

impl SdmTuningLinkOptions {
    /// The preset: three times, two seconds apart, without the receipt.
    pub open spec fn preset() -> SdmTuningLinkOptions {
        SdmTuningLinkOptions {
            max_attempts: 3,
            retry_backoff_ms: 2_000,
            receipt_timeout_ms: 10_000,
            channel_clear_timeout_ms: 30_000,
            channel_clear_poll_interval_ms: 100,
            receive_poll_interval_ms: 1_500,
            post_receive_guard_ms: 2_000,
            wait_for_delivery_receipt: false,
        }
    }

    /// How often a telegram is sent at most: once at least.
    pub open spec fn attempts(self) -> u8 {
        if self.max_attempts == 0 {
            1
        } else {
            self.max_attempts
        }
    }
}

impl Default for SdmTuningLinkOptions {
    fn default() -> (r: SdmTuningLinkOptions)
        ensures
            r == SdmTuningLinkOptions::preset(),
    {
        SdmTuningLinkOptions {
            max_attempts: 3,
            retry_backoff_ms: 2_000,
            receipt_timeout_ms: 10_000,
            channel_clear_timeout_ms: 30_000,
            channel_clear_poll_interval_ms: 100,
            receive_poll_interval_ms: 1_500,
            post_receive_guard_ms: 2_000,
            wait_for_delivery_receipt: false,
        }
    }
}

/// Why a telegram was not sent or received.
#[derive(Debug, Clone, Copy, PartialEq, Eq)]
pub enum SdmLinkError<E> {
    /// The telegram does not fit a short message.
    OverBudget {
        /// The length of the telegram, or one more than any that is told.
        len: usize,
        /// The length that fits.
        budget: usize,
    },
    /// The radio refused the telegram each time.
    NotAccepted {
        /// How often it was sent.
        attempts: u8,
        /// Why the radio refused it last.
        last: TaitError<E>,
    },
    /// The radio took the telegram, and no receipt came.
    NotAcknowledged {
        /// How often it was sent.
        attempts: u8,
    },
    /// The radio failed in a way that sending again does not mend.
    Radio(TaitError<E>),
}

/// The numbers of the last telegrams, each once, the oldest first.
#[derive(Debug)]
pub struct SeenSequences {
    seen: Vec<i32>,
}

impl View for SeenSequences {
    type V = Seq<i32>;

    closed spec fn view(&self) -> Seq<i32> {
        self.seen@
    }
}

/// The numbers after one more, if it is new: the oldest is gone if they were too many.
pub open spec fn marked(seen: Seq<i32>, n: i32) -> Seq<i32> {
    if seen.contains(n) {
        seen
    } else if seen.len() >= DEDUPE_WINDOW {
        seen.drop_first().push(n)
    } else {
        seen.push(n)
    }
}

/// The numbers after some more.
pub open spec fn marked_all(seen: Seq<i32>, ns: Seq<i32>) -> Seq<i32>
    decreases ns.len(),
{
    if ns.len() == 0 {
        seen
    } else {
        marked(marked_all(seen, ns.drop_last()), ns.last())
    }
}

/// No number is there twice, and there are not too many.
pub open spec fn is_window(seen: Seq<i32>) -> bool {
    &&& seen.no_duplicates()
    &&& seen.len() <= DEDUPE_WINDOW
}

/// Marking keeps each number once and the numbers few, and a number that was just marked
/// is known.
pub proof fn law_marking_remembers(seen: Seq<i32>, n: i32)
    requires
        is_window(seen),
    ensures
        is_window(marked(seen, n)),
        marked(seen, n).contains(n),
        marked(marked(seen, n), n) == marked(seen, n),
{
    let after: Seq<i32> = marked(seen, n);
    if !seen.contains(n) {
        assert(after[after.len() - 1] == n);
        if seen.len() >= DEDUPE_WINDOW {
            assert forall|i: int, j: int|
                0 <= i < after.len() && 0 <= j < after.len() && i != j implies after[i]
                != after[j] by {
                if i < after.len() - 1 {
                    assert(after[i] == seen[i + 1]);
                }
                if j < after.len() - 1 {
                    assert(after[j] == seen[j + 1]);
                }
            }
        } else {
            assert forall|i: int, j: int|
                0 <= i < after.len() && 0 <= j < after.len() && i != j implies after[i]
                != after[j] by {
                if i < after.len() - 1 {
                    assert(after[i] == seen[i]);
                }
                if j < after.len() - 1 {
                    assert(after[j] == seen[j]);
                }
            }
        }
    }
}

/// A number is remembered until as many others as fit have come after it.
pub proof fn law_a_number_is_remembered(seen: Seq<i32>, n: i32, others: Seq<i32>)
    requires
        is_window(seen),
        others.len() < DEDUPE_WINDOW,
        !seen.contains(n),
    ensures
        marked_all(marked(seen, n), others).contains(n),
{
    law_marking_remembers(seen, n);
    let after: Seq<i32> = marked(seen, n);
    assert(after[after.len() - 1] == n);
    lemma_place_moves(after, after.len() - 1, n, others);
}

/// Each mark moves a number one place towards the front at most.
proof fn lemma_place_moves(seen: Seq<i32>, at: int, n: i32, others: Seq<i32>)
    requires
        is_window(seen),
        0 <= at < seen.len(),
        seen[at] == n,
        seen.len() - 1 - at + others.len() < DEDUPE_WINDOW,
    ensures
        is_window(marked_all(seen, others)),
        exists|k: int|
            0 <= k < marked_all(seen, others).len() && #[trigger] marked_all(seen, others)[k] == n
                && marked_all(seen, others).len() - 1 - k <= seen.len() - 1 - at + others.len(),
    decreases others.len(),
{
    if others.len() == 0 {
        assert(marked_all(seen, others)[at] == n);
    } else {
        lemma_place_moves(seen, at, n, others.drop_last());
        let before: Seq<i32> = marked_all(seen, others.drop_last());
        let k: int = choose|k: int|
            0 <= k < before.len() && #[trigger] before[k] == n && before.len() - 1 - k <= seen.len()
                - 1 - at + others.len() - 1;
        let m: i32 = others.last();
        law_marking_remembers(before, m);
        let after: Seq<i32> = marked(before, m);
        if before.contains(m) {
            assert(after[k] == n);
        } else if before.len() >= DEDUPE_WINDOW {
            assert(after[k - 1] == n);
        } else {
            assert(after[k] == n);
        }
    }
}

impl SeenSequences {
    /// Nothing is remembered.
    pub fn new() -> (s: SeenSequences)
        ensures
            s@ == Seq::<i32>::empty(),
            is_window(s@),
    {
        let s = SeenSequences { seen: Vec::new() };
        assert(s@ =~= Seq::<i32>::empty());
        s
    }

    /// Whether a number is remembered.
    fn contains(&self, n: i32) -> (r: bool)
        ensures
            r == self@.contains(n),
    {
        let mut i: usize = 0;
        while i < self.seen.len()
            invariant
                i <= self.seen@.len(),
                forall|j: int| 0 <= j < i ==> #[trigger] self.seen@[j] != n,
            decreases self.seen@.len() - i,
        {
            if self.seen[i] == n {
                assert(self.seen@[i as int] == n);
                return true;
            }
            i = i + 1;
        }
        false
    }

    /// Remembers a number. Tells whether it is new.
    pub fn mark(&mut self, n: i32) -> (r: bool)
        ensures
            r == !old(self)@.contains(n),
            final(self)@ == marked(old(self)@, n),
            final(self)@.contains(n),
    {
        if self.contains(n) {
            return false;
        }
        if self.seen.len() >= DEDUPE_WINDOW {
            self.seen.remove(0);
            assert(self.seen@ =~= old(self)@.drop_first());
        }
        self.seen.push(n);
        assert(self@[self@.len() - 1] == n);
        true
    }
}

/// A link to one station over the radio on serial port `S`, with `D` for the pauses.
pub struct SdmTuningLink<S, D> {
    radio: TaitCcdiRadio<S>,
    delay: D,
    peer_id: [u8; 8],
    options: SdmTuningLinkOptions,
    extended: bool,
    seen: SeenSequences,
}

/// What a link holds.
pub struct LinkView {
    pub radio: RadioView,
    pub peer_id: Seq<u8>,
    pub options: SdmTuningLinkOptions,
    pub extended: bool,
    pub seen: Seq<i32>,
}

impl<S, D> View for SdmTuningLink<S, D> {
    type V = LinkView;

    closed spec fn view(&self) -> LinkView {
        LinkView {
            radio: self.radio@,
            peer_id: self.peer_id@,
            options: self.options,
            extended: self.extended,
            seen: self.seen@,
        }
    }
}

impl LinkView {
    /// The length that fits a message.
    pub open spec fn budget(self) -> nat {
        driver::sdm_budget(self.extended)
    }

    /// A receipt came.
    pub open spec fn receipted(self) -> bool {
        self.radio.events.contains(RadioEvent::SdmDeliveryReceipt(true))
    }

    /// The link once a command has been started: any part of a line that came before is
    /// forgotten.
    pub open spec fn afresh(self) -> LinkView {
        LinkView { radio: RadioView { line: LineView::fresh(), ..self.radio }, ..self }
    }

    /// The link once the events of the radio have been looked through.
    pub open spec fn looked(self) -> LinkView {
        LinkView { radio: RadioView { events: Seq::empty(), ..self.radio }, ..self }
    }
}

/// A telegram that is being sent: how often it has been, why the radio refused it last,
/// and whether a receipt was missing.
pub struct Sending<E> {
    line: Vec<u8>,
    sent: u8,
    last: Option<TaitError<E>>,
    receipt_missing: bool,
}

/// A telegram that is being sent.
pub struct SendingView<E> {
    pub line: Seq<u8>,
    pub sent: u8,
    pub last: Option<TaitError<E>>,
    pub receipt_missing: bool,
}

impl<E> View for Sending<E> {
    type V = SendingView<E>;

    closed spec fn view(&self) -> SendingView<E> {
        SendingView {
            line: self.line@,
            sent: self.sent,
            last: self.last,
            receipt_missing: self.receipt_missing,
        }
    }
}

/// What to do next with a telegram that is being sent.
pub enum SendStep<E> {
    /// It is over.
    Done(Result<(), SdmLinkError<E>>),
    /// Pause for so many milliseconds, and then send it again.
    Retry {
        /// The telegram.
        sending: Sending<E>,
        /// The pause.
        backoff_ms: u32,
    },
}

impl<E> SendingView<E> {
    /// How it ends if it is not sent again: without a receipt if the radio ever took it,
    /// and refused if the radio refused it each time.
    pub open spec fn failure(self, attempts: u8) -> SdmLinkError<E> {
        if self.receipt_missing {
            SdmLinkError::NotAcknowledged { attempts }
        } else {
            SdmLinkError::NotAccepted {
                attempts,
                last: match self.last {
                    Some(last) => last,
                    None => TaitError::NoResponse,
                },
            }
        }
    }

    /// After it was sent once more, and went so.
    pub open spec fn after(self, outcome: Result<(), TaitError<E>>) -> SendingView<E> {
        let counted: SendingView<E> = SendingView { sent: (self.sent + 1) as u8, ..self };
        match outcome {
            Ok(_) => SendingView { receipt_missing: true, ..counted },
            Err(e) => SendingView { last: Some(e), ..counted },
        }
    }
}

impl<S, D> SdmTuningLink<S, D> {
    /// The radio.
    pub closed spec fn the_radio(&self) -> TaitCcdiRadio<S> {
        self.radio
    }

    /// What pauses.
    pub closed spec fn the_delay(&self) -> D {
        self.delay
    }

    /// A link to the station with an identity.
    pub fn new(
        radio: TaitCcdiRadio<S>,
        delay: D,
        peer_id: [u8; 8],
        options: SdmTuningLinkOptions,
    ) -> (l: SdmTuningLink<S, D>)
        ensures
            l@ == (LinkView {
                radio: radio@,
                peer_id: peer_id@,
                options,
                extended: false,
                seen: Seq::empty(),
            }),
            l.the_radio() == radio,
            l.the_delay() == delay,
    {
        SdmTuningLink {
            radio,
            delay,
            peer_id,
            options,
            extended: false,
            seen: SeenSequences::new(),
        }
    }

    /// The link, with extended messages or without.
    #[must_use]
    pub fn with_extended_sdm(self, extended: bool) -> (l: SdmTuningLink<S, D>)
        ensures
            l@ == (LinkView { extended, ..self@ }),
            l.the_radio() == self.the_radio(),
            l.the_delay() == self.the_delay(),
    {
        let mut l = self;
        l.extended = extended;
        l
    }

    /// The length that fits a message.
    pub fn max_payload(&self) -> (n: usize)
        ensures
            n == self@.budget(),
    {
        if self.extended {
            EXTENDED_PAYLOAD_BUDGET
        } else {
            PAYLOAD_BUDGET
        }
    }

    /// The radio.
    pub fn radio(&self) -> (r: &TaitCcdiRadio<S>)
        ensures
            *r == self.the_radio(),
            r@ == self@.radio,
    {
        &self.radio
    }

    /// The radio.
    pub fn radio_mut(&mut self) -> (r: &mut TaitCcdiRadio<S>)
        ensures
            *r == old(self).the_radio(),
            r@ == old(self)@.radio,
            final(self).the_radio() == *final(r),
            final(self)@ == (LinkView { radio: final(r)@, ..old(self)@ }),
            final(self).the_delay() == old(self).the_delay(),
    {
        &mut self.radio
    }

    /// What pauses.
    pub fn delay(&self) -> (r: &D)
        ensures
            *r == self.the_delay(),
    {
        &self.delay
    }

    /// What pauses.
    pub fn delay_mut(&mut self) -> (r: &mut D)
        ensures
            *r == old(self).the_delay(),
            final(self).the_delay() == *final(r),
            final(self)@ == old(self)@,
            final(self).the_radio() == old(self).the_radio(),
    {
        &mut self.delay
    }

    /// How telegrams are sent.
    pub fn options(&self) -> (r: &SdmTuningLinkOptions)
        ensures
            *r == self@.options,
    {
        &self.options
    }

    /// Starts sending a telegram. One whose short line does not fit a message is not
    /// sent at all.
    pub fn send<E>(&self, telegram: TuningTelegram<'_>) -> (r: Result<Sending<E>, SdmLinkError<E>>)
        ensures
            match r {
                Ok(s) => {
                    &&& telegram@.short_line().len() <= self@.budget()
                    &&& s@ == (SendingView::<E> {
                        line: telegram@.short_line(),
                        sent: 0,
                        last: None,
                        receipt_missing: false,
                    })
                },
                Err(e) => {
                    &&& telegram@.short_line().len() > self@.budget()
                    &&& e == SdmLinkError::<E>::OverBudget {
                        len: if telegram@.short_line().len() > ENC_LEN {
                            (ENC_LEN + 1) as usize
                        } else {
                            telegram@.short_line().len() as usize
                        },
                        budget: self@.budget() as usize,
                    }
                },
            },
    {
        let line = telegram.compact_octets();
        let budget: usize = self.max_payload();
        if line.len() > budget {
            let len: usize = if line.len() > ENC_LEN {
                ENC_LEN + 1
            } else {
                line.len()
            };
            return Err(SdmLinkError::OverBudget { len, budget });
        }
        Ok(Sending { line, sent: 0, last: None, receipt_missing: false })
    }

    /// The command that sends the telegram once: what to write, and the transaction that
    /// the radio's prompt ends.
    pub fn attempt<E>(&mut self, sending: &Sending<E>) -> (r: Result<
        (Vec<u8>, Transaction<Acknowledged>),
        TaitError<E>,
    >)
        ensures
            match r {
                Ok(t) => {
                    &&& sending@.line.len() <= old(self)@.budget()
                    &&& t.0@ == driver::sdm(
                        old(self)@.peer_id,
                        sending@.line,
                        old(self)@.extended,
                    ).sent()
                    &&& t.1.awaits(Acknowledged {  }, true)
                    &&& final(self)@ == old(self)@.afresh()
                    &&& final(self)@.radio.line.valid()
                },
                Err(e) => {
                    &&& sending@.line.len() > old(self)@.budget()
                    &&& e == TaitError::<E>::Invalid
                    &&& final(self)@ == old(self)@
                },
            },
            final(self).the_radio().port() == old(self).the_radio().port(),
            final(self).the_delay() == old(self).the_delay(),
    {
        let peer: [u8; 8] = self.peer_id;
        let extended: bool = self.extended;
        self.radio.send_sdm(&peer, sending.line.as_slice(), extended)
    }

    /// Takes how sending the telegram once went: whether the radio took it or why it did
    /// not. What is out of range is not sent again; what the radio refused is, and so is
    /// what it took without a receipt where only the receipt counts.
    pub fn after_attempt<E>(
        &mut self,
        sending: Sending<E>,
        outcome: Result<(), TaitError<E>>,
    ) -> (r: SendStep<E>)
        requires
            sending@.sent < old(self)@.options.attempts(),
        ensures
            final(self)@ == if outcome is Ok && old(self)@.options.wait_for_delivery_receipt {
                old(self)@.looked()
            } else {
                old(self)@
            },
            final(self).the_radio().port() == old(self).the_radio().port(),
            final(self).the_delay() == old(self).the_delay(),
            ends(old(self)@, sending@, outcome, r),
    {
        let max: u8 = if self.options.max_attempts == 0 {
            1
        } else {
            self.options.max_attempts
        };
        let mut s = sending;
        s.sent = s.sent + 1;
        match outcome {
            Ok(_) => {
                if !self.options.wait_for_delivery_receipt {
                    return SendStep::Done(Ok(()));
                }
                if self.receipt_acknowledged() {
                    return SendStep::Done(Ok(()));
                }
                s.receipt_missing = true;
            },
            Err(TaitError::Invalid) => {
                return SendStep::Done(Err(SdmLinkError::Radio(TaitError::Invalid)));
            },
            Err(e) => {
                s.last = Some(e);
            },
        }
        if s.sent < max {
            SendStep::Retry { sending: s, backoff_ms: self.options.retry_backoff_ms }
        } else {
            SendStep::Done(
                Err(
                    if s.receipt_missing {
                        SdmLinkError::NotAcknowledged { attempts: max }
                    } else {
                        SdmLinkError::NotAccepted {
                            attempts: max,
                            last: match s.last {
                                Some(last) => last,
                                None => TaitError::NoResponse,
                            },
                        }
                    },
                ),
            )
        }
    }

    /// Whether a receipt came. Takes the events of the radio.
    fn receipt_acknowledged(&mut self) -> (r: bool)
        ensures
            r == old(self)@.receipted(),
            final(self)@ == old(self)@.looked(),
            final(self).the_radio().port() == old(self).the_radio().port(),
            final(self).the_delay() == old(self).the_delay(),
    {
        let events = self.radio.drain_events();
        let mut i: usize = 0;
        while i < events.len()
            invariant
                i <= events@.len(),
                events@ == old(self)@.radio.events,
                forall|j: int|
                    0 <= j < i ==> #[trigger] events@[j] != RadioEvent::SdmDeliveryReceipt(true),
                self@ == old(self)@.looked(),
                self.the_radio().port() == old(self).the_radio().port(),
                self.the_delay() == old(self).the_delay(),
            decreases events@.len() - i,
        {
            match events[i] {
                RadioEvent::SdmDeliveryReceipt(true) => {
                    assert(events@[i as int] == RadioEvent::SdmDeliveryReceipt(true));
                    return true;
                },
                _ => {},
            }
            i = i + 1;
        }
        false
    }

    /// Starts asking the radio for a message: what to write, and the transaction that
    /// brings it.
    pub fn poll_receive(&mut self) -> (r: (Vec<u8>, Transaction<SdmReply>))
        ensures
            r.0@ == driver::buffered().sent(),
            r.1.awaits(SdmReply {  }, false),
            final(self)@ == old(self)@.afresh(),
            final(self)@.radio.line.valid(),
            final(self).the_radio().port() == old(self).the_radio().port(),
            final(self).the_delay() == old(self).the_delay(),
    {
        self.radio.read_buffered_sdm()
    }

    /// Takes a message that the radio had. The telegram is handed out if the message is
    /// one and its number is new.
    pub fn received<'a>(&mut self, data: &'a [u8]) -> (r: Option<TuningTelegram<'a>>)
        ensures
            takes_in(old(self)@, data@, r, final(self)@),
            final(self).the_radio() == old(self).the_radio(),
            final(self).the_delay() == old(self).the_delay(),
    {
        match text_of(data) {
            Some(s) => match TuningTelegram::try_parse(s) {
                Some(t) => if self.seen.mark(t.sequence) {
                    Some(t)
                } else {
                    None
                },
                None => None,
            },
            None => None,
        }
    }

    /// Takes how the transaction of [`Self::poll_receive`] ended: with a message, without
    /// one, or not at all.
    pub fn polled<'a, E>(&mut self, ended: Result<Option<&'a [u8]>, TaitError<E>>) -> (r: Result<
        Option<TuningTelegram<'a>>,
        SdmLinkError<E>,
    >)
        ensures
            match ended {
                Ok(Some(data)) => r matches Ok(t) && takes_in(
                    old(self)@,
                    data@,
                    t,
                    final(self)@,
                ),
                Ok(None) => r matches Ok(None) && final(self)@ == old(self)@,
                Err(e) => r matches Err(f) && f == SdmLinkError::Radio(e) && final(self)@ == old(
                    self,
                )@,
            },
            final(self).the_radio() == old(self).the_radio(),
            final(self).the_delay() == old(self).the_delay(),
    {
        match ended {
            Ok(Some(data)) => Ok(self.received(data)),
            Ok(None) => Ok(None),
            Err(e) => Err(SdmLinkError::Radio(e)),
        }
    }
}

/// What a link makes of a message: the telegram, if the message is one and its number is
/// new, and the link that remembers the number.
pub open spec fn takes_in(
    before: LinkView,
    data: Seq<u8>,
    handed_out: Option<TuningTelegram<'_>>,
    after: LinkView,
) -> bool {
    match telegram_of(data) {
        Some(t) => {
            &&& after == (LinkView { seen: marked(before.seen, t.sequence), ..before })
            &&& if before.seen.contains(t.sequence) {
                handed_out is None
            } else {
                handed_out matches Some(u) && u@ == t
            }
        },
        None => handed_out is None && after == before,
    }
}

/// The telegram that a message is, if it is one.
pub open spec fn telegram_of(data: Seq<u8>) -> Option<TelegramView> {
    if vstd::utf8::valid_utf8(data) {
        telegram::telegram_in(data)
    } else {
        None
    }
}

/// How sending a telegram once ends.
pub open spec fn ends<E>(
    link: LinkView,
    s: SendingView<E>,
    outcome: Result<(), TaitError<E>>,
    r: SendStep<E>,
) -> bool {
    let max: u8 = link.options.attempts();
    let after: SendingView<E> = s.after(outcome);
    if outcome is Ok && (!link.options.wait_for_delivery_receipt || link.receipted()) {
        r == SendStep::<E>::Done(Ok(()))
    } else if outcome == Err::<(), TaitError<E>>(TaitError::Invalid) {
        r == SendStep::Done(Err(SdmLinkError::<E>::Radio(TaitError::Invalid)))
    } else if after.sent < max {
        r matches SendStep::Retry { sending, backoff_ms } && sending@ == after && backoff_ms
            == link.options.retry_backoff_ms
    } else {
        r == SendStep::<E>::Done(Err(after.failure(max)))
    }
}

/// By default a telegram that the radio takes is sent, receipt or not.
pub proof fn law_taken_is_sent<E>(link: LinkView, s: SendingView<E>, r: SendStep<E>)
    requires
        !link.options.wait_for_delivery_receipt,
        ends(link, s, Ok(()), r),
    ensures
        r == SendStep::<E>::Done(Ok(())),
{
}

/// A telegram is sent as often as may be and no more: it is sent again only if it was
/// sent less often than that, and one sent again has been sent once more.
pub proof fn law_attempts_are_counted<E>(
    link: LinkView,
    s: SendingView<E>,
    outcome: Result<(), TaitError<E>>,
    r: SendStep<E>,
)
    requires
        s.sent < link.options.attempts(),
        ends(link, s, outcome, r),
    ensures
        r matches SendStep::Retry { sending, .. } ==> sending@.sent == s.sent + 1
            && sending@.sent < link.options.attempts() && sending@.line == s.line,
{
}

/// A telegram that is refused each time is refused in the end, with the last reason.
pub proof fn law_refusals_are_reported<E>(
    link: LinkView,
    s: SendingView<E>,
    e: TaitError<E>,
    r: SendStep<E>,
)
    requires
        s.sent + 1 == link.options.attempts(),
        !s.receipt_missing,
        e != TaitError::<E>::Invalid,
        ends(link, s, Err(e), r),
    ensures
        r == SendStep::<E>::Done(
            Err(SdmLinkError::NotAccepted { attempts: link.options.attempts(), last: e }),
        ),
{
}

/// A telegram that the radio took at least once, and for which no receipt came, is
/// reported as not acknowledged, whatever happened to it at other times.
pub proof fn law_missing_receipts_are_reported<E>(
    link: LinkView,
    s: SendingView<E>,
    outcome: Result<(), TaitError<E>>,
    r: SendStep<E>,
)
    requires
        s.sent + 1 == link.options.attempts(),
        link.options.wait_for_delivery_receipt,
        s.receipt_missing || outcome is Ok,
        outcome is Ok ==> !link.receipted(),
        outcome != Err::<(), TaitError<E>>(TaitError::Invalid),
        ends(link, s, outcome, r),
    ensures
        r == SendStep::<E>::Done(
            Err(SdmLinkError::NotAcknowledged { attempts: link.options.attempts() }),
        ),
{
}

/// A telegram sent over a link arrives as it was, but for what its short line leaves out,
/// unless its number has been seen.
pub proof fn law_sent_telegrams_arrive(t: TelegramView)
    requires
        t.sequence >= 0,
        t.report() is None,
        vstd::utf8::valid_utf8(t.args),
    ensures
        telegram_of(t.short_line()) == Some(t),
{
    telegram::law_line_round_trip(t);
    telegram::lemma_line_is_utf8(t);
}

} // verus!
