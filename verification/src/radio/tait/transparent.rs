//! Packets over the radio's own modem.
//!
//! In transparent mode the serial port is a pipe for octets through the radio's modem.
//! Packets go through it in KISS frames. There is no control channel meanwhile, so all
//! that is known of a received frame is how long it was on the air.
//!
//! The mode is entered by a CCDI command, and left by three escape characters between
//! two pauses. A radio that is programmed to ignore the escape is left only by turning
//! it off.

use vstd::prelude::*;

use super::super::RadioMetadata;
use super::ccdi::frame::{frame_with, CcdiView};
use super::ccdi::CcdiFrame;
use crate::kiss;
use crate::kiss::{encode, Command, Decoder, DecoderView, Frame, KissView, FEND, FESC};

verus! {

/// The pause before and after the escape characters.
pub const ESCAPE_GUARD_US: u64 = 2_100_000;

/// The rate of the radio's modem.
pub const DEFAULT_FFSK_BAUD: u32 = 2400;

/// The port of the frames.
pub const SLIP_PORT: u8 = 0;

/// The longest packet that is sent.
pub const MAX_AX25_BODY: usize = 512;

/// How the mode is entered and left.
#[derive(Debug, Clone, Copy, PartialEq, Eq, Structural)]
pub struct TransparentOptions {
    /// The escape character.
    pub escape_char: u8,
    /// The rate of the modem.
    pub ffsk_baud: u32,
    /// Whether the faster modem is used.
    pub thsd: bool,
}

impl TransparentOptions {
    /// The preset: `+`, 2400 bits a second, the plain modem.
    pub open spec fn preset() -> TransparentOptions {
        TransparentOptions { escape_char: 0x2B, ffsk_baud: DEFAULT_FFSK_BAUD, thsd: false }
    }
}

impl Default for TransparentOptions {
    fn default() -> (r: TransparentOptions)
        ensures
            r == TransparentOptions::preset(),
    {
        TransparentOptions { escape_char: 0x2B, ffsk_baud: DEFAULT_FFSK_BAUD, thsd: false }
    }
}

/// Why a packet was not sent or received.
#[derive(Debug, Clone, Copy, PartialEq, Eq)]
pub enum ModemError<E> {
    /// The port failed.
    Io(E),
    /// The packet is too long.
    TooLarge,
}

/// One step of leaving the mode.
#[derive(Debug, Clone, Copy, PartialEq, Eq)]
pub enum ExitStep {
    /// Pause for so many microseconds.
    Guard(u64),
    /// Write these octets.
    Write([u8; 3]),
}

/// How long octets are on the air, in microseconds. 0 at rate 0.
pub open spec fn airtime(octets: nat, baud: u32) -> int {
    if baud == 0 {
        0
    } else {
        (octets * 8_000_000) as int / baud as int
    }
}

/// The octets of the frame that carries a payload.
pub open spec fn framed_len(payload: Seq<u8>) -> nat {
    3 + payload.len() + kiss::special(payload)
}

/// A packet: a frame of data that is not empty.
pub open spec fn is_packet(f: KissView) -> bool {
    f.command == Command::Data && f.payload.len() > 0
}

/// The packets among frames.
pub open spec fn packets(frames: Seq<KissView>) -> Seq<KissView>
    decreases frames.len(),
{
    if frames.len() == 0 {
        Seq::empty()
    } else if is_packet(frames.last()) {
        packets(frames.drop_last()).push(frames.last())
    } else {
        packets(frames.drop_last())
    }
}

/// A pipe through the radio's modem, over the serial port `S`.
#[derive(Debug)]
pub struct TaitTransparentTransport<S> {
    stream: S,
    decoder: Decoder,
    pending: Vec<Frame>,
    options: TransparentOptions,
}

/// What a pipe holds: the octets so far, and the packets that have not been handed out.
pub struct TransportView {
    pub options: TransparentOptions,
    pub decoder: DecoderView,
    pub pending: Seq<KissView>,
}

impl<S> View for TaitTransparentTransport<S> {
    type V = TransportView;

    closed spec fn view(&self) -> TransportView {
        TransportView {
            options: self.options,
            decoder: self.decoder@,
            pending: kiss::frame_views(self.pending@),
        }
    }
}

impl TransportView {
    /// The command that enters the mode.
    pub open spec fn entry(self) -> CcdiView {
        CcdiView {
            ident: 0x74,
            params: seq![
                self.options.escape_char,
                if self.options.thsd {
                    0x48
                } else {
                    0x30
                },
            ],
        }
    }

    /// The pipe after octets came.
    pub open spec fn received(self, octets: Seq<u8>) -> TransportView {
        TransportView {
            decoder: self.decoder.after_all(octets),
            pending: self.pending + packets(self.decoder.frames(octets)),
            ..self
        }
    }

    /// What is known of a packet.
    pub open spec fn known_of(self, f: KissView) -> RadioMetadata {
        RadioMetadata {
            estimated_airtime_us: Some(
                airtime(framed_len(f.payload), self.options.ffsk_baud) as u64,
            ),
            ..RadioMetadata::blank()
        }
    }
}

/// The frame that carries a packet.
pub open spec fn carrier(ax25: Seq<u8>) -> KissView {
    KissView { port: SLIP_PORT, command: Command::Data, payload: ax25 }
}

/// A frame is as long as is reckoned.
pub proof fn law_framed_len_is_exact(ax25: Seq<u8>)
    ensures
        carrier(ax25).sent().len() == framed_len(ax25),
{
    let body: Seq<u8> = carrier(ax25).body();
    let first: Seq<u8> = seq![0u8];
    let none: Seq<u8> = Seq::empty();
    assert(body =~= first + ax25);
    kiss::lemma_escaped_concat(first, ax25);
    kiss::lemma_escaped_len(ax25);
    assert(first.drop_last() =~= none);
    assert(kiss::escaped(none) =~= none);
    assert(kiss::escaped(first) =~= first);
}

/// A packet that is not empty arrives as it was sent, whatever the receiver had before,
/// and the receiver reckons the airtime that the sender did.
pub proof fn law_packets_arrive(to: TransportView, ax25: Seq<u8>)
    requires
        ax25.len() > 0,
    ensures
        to.received(carrier(ax25).sent()).pending.last() == carrier(ax25),
        to.received(carrier(ax25).sent()).pending.len() > 0,
        to.known_of(carrier(ax25)).estimated_airtime_us == Some(
            airtime(carrier(ax25).sent().len(), to.options.ffsk_baud) as u64,
        ),
{
    kiss::law_frame_round_trip(to.decoder, carrier(ax25));
    law_framed_len_is_exact(ax25);
    let frames: Seq<KissView> = to.decoder.frames(carrier(ax25).sent());
    assert(frames.last() == carrier(ax25));
    assert(packets(frames).last() == carrier(ax25));
}

/// A pipe that has heard nothing hands out just the packet that was sent.
pub proof fn law_a_first_packet_arrives_alone(to: TransportView, ax25: Seq<u8>)
    requires
        ax25.len() > 0,
        to.decoder == DecoderView::fresh() || to.decoder == DecoderView::started(),
        to.pending.len() == 0,
    ensures
        to.received(carrier(ax25).sent()).pending == seq![carrier(ax25)],
{
    kiss::law_frame_round_trip(to.decoder, carrier(ax25));
    let one: Seq<KissView> = seq![carrier(ax25)];
    assert(one.drop_last() =~= Seq::<KissView>::empty());
    assert(packets(Seq::<KissView>::empty()) =~= Seq::<KissView>::empty());
    assert(to.received(carrier(ax25).sent()).pending =~= one);
}

/// How the pipe is cut into pieces makes no difference.
pub proof fn law_pieces_do_not_matter(to: TransportView, a: Seq<u8>, b: Seq<u8>)
    ensures
        to.received(a + b) == to.received(a).received(b),
{
    kiss::law_chunks_do_not_matter(to.decoder, a, b);
    lemma_packets_concat(to.decoder.frames(a), to.decoder.after_all(a).frames(b));
    assert(to.received(a + b).pending =~= to.received(a).received(b).pending);
}

proof fn lemma_packets_concat(a: Seq<KissView>, b: Seq<KissView>)
    ensures
        packets(a + b) == packets(a) + packets(b),
    decreases b.len(),
{
    if b.len() == 0 {
        assert(a + b =~= a);
        assert(packets(a) + packets(b) =~= packets(a));
    } else {
        lemma_packets_concat(a, b.drop_last());
        assert((a + b).drop_last() =~= a + b.drop_last());
        assert(packets(a + b) =~= packets(a) + packets(b));
    }
}

impl<S> TaitTransparentTransport<S> {
    /// A pipe over a serial port. The mode is not entered by this.
    pub fn new(stream: S, options: TransparentOptions) -> (t: TaitTransparentTransport<S>)
        ensures
            t@ == (TransportView {
                options,
                decoder: DecoderView::fresh(),
                pending: Seq::empty(),
            }),
            t.port() == stream,
    {
        let t = TaitTransparentTransport {
            stream,
            decoder: Decoder::new(),
            pending: Vec::new(),
            options,
        };
        assert(t@.pending =~= Seq::<KissView>::empty());
        t
    }

    /// The serial port.
    pub closed spec fn port(&self) -> S {
        self.stream
    }

    /// The serial port.
    pub fn stream(&self) -> (r: &S)
        ensures
            *r == self.port(),
    {
        &self.stream
    }

    /// The serial port.
    pub fn stream_mut(&mut self) -> (r: &mut S)
        ensures
            *r == old(self).port(),
            final(self).port() == *final(r),
            final(self)@ == old(self)@,
    {
        &mut self.stream
    }

    /// The command that enters the mode.
    pub fn enter_frame(&self) -> (r: CcdiFrame)
        ensures
            r@ == self@.entry(),
    {
        let modem: u8 = if self.options.thsd {
            0x48
        } else {
            0x30
        };
        let params: [u8; 2] = [self.options.escape_char, modem];
        assert(params@ =~= self@.entry().params);
        frame_with(0x74, params.as_slice())
    }

    /// What is sent to enter the mode.
    pub fn enter(&self) -> (r: Vec<u8>)
        ensures
            r@ == self@.entry().sent(),
    {
        self.enter_frame().encode_to_bytes()
    }

    /// What is sent, between two pauses of [`ESCAPE_GUARD_US`], to leave the mode.
    pub fn escape_bytes(&self) -> (r: [u8; 3])
        ensures
            r@ == seq![
                self@.options.escape_char,
                self@.options.escape_char,
                self@.options.escape_char,
            ],
    {
        let c: u8 = self.options.escape_char;
        let r: [u8; 3] = [c, c, c];
        assert(r@ =~= seq![c, c, c]);
        r
    }

    /// How the mode is left: a pause, the escape characters, and a pause.
    pub fn exit(&self) -> (r: [ExitStep; 3])
        ensures
            r@[0] == ExitStep::Guard(ESCAPE_GUARD_US),
            r@[1] matches ExitStep::Write(octets) && octets@ == seq![
                self@.options.escape_char,
                self@.options.escape_char,
                self@.options.escape_char,
            ],
            r@[2] == ExitStep::Guard(ESCAPE_GUARD_US),
    {
        [
            ExitStep::Guard(ESCAPE_GUARD_US),
            ExitStep::Write(self.escape_bytes()),
            ExitStep::Guard(ESCAPE_GUARD_US),
        ]
    }

    /// What is sent for a packet, and how long it is on the air.
    pub fn send<E>(&self, ax25: &[u8]) -> (r: Result<(Vec<u8>, u64), ModemError<E>>)
        ensures
            match r {
                Ok(sent) => {
                    &&& ax25@.len() <= MAX_AX25_BODY
                    &&& sent.0@ == carrier(ax25@).sent()
                    &&& sent.1 == airtime(carrier(ax25@).sent().len(), self@.options.ffsk_baud)
                },
                Err(e) => ax25@.len() > MAX_AX25_BODY && e == ModemError::<E>::TooLarge,
            },
    {
        if ax25.len() > MAX_AX25_BODY {
            return Err(ModemError::TooLarge);
        }
        let octets = encode(SLIP_PORT, Command::Data, ax25);
        proof {
            law_framed_len_is_exact(ax25@);
            kiss::lemma_escaped_len(ax25@);
            lemma_airtime_fits(octets@.len(), self@.options.ffsk_baud);
        }
        let air: u64 = airtime_us(octets.len(), self.options.ffsk_baud);
        Ok((octets, air))
    }

    /// Takes octets from the port.
    pub fn receive(&mut self, octets: &[u8])
        ensures
            final(self)@ == old(self)@.received(octets@),
            final(self).port() == old(self).port(),
    {
        let frames = self.decoder.push(octets);
        self.keep_packets(frames);
    }

    /// Keeps the packets among frames.
    fn keep_packets(&mut self, frames: Vec<Frame>)
        ensures
            final(self)@ == (TransportView {
                pending: old(self)@.pending + packets(kiss::frame_views(frames@)),
                ..old(self)@
            }),
            final(self).port() == old(self).port(),
    {
        let mut left = frames;
        let ghost all = kiss::frame_views(frames@);
        let ghost was = self@;
        assert(all.take(0) =~= Seq::<KissView>::empty());
        assert(kiss::frame_views(left@) =~= all.skip(0));
        assert(was.pending + packets(all.take(0)) =~= was.pending);
        while left.len() > 0
            invariant
                left@.len() <= all.len(),
                kiss::frame_views(left@) == all.skip(all.len() - left@.len()),
                self@ == (TransportView {
                    pending: was.pending + packets(all.take(all.len() - left@.len())),
                    ..was
                }),
                self.port() == old(self).port(),
            decreases left@.len(),
        {
            let ghost k: int = all.len() - left@.len();
            let ghost held = kiss::frame_views(left@);
            let ghost pending = kiss::frame_views(self.pending@);
            let f = left.remove(0);
            proof {
                assert(held[0] == f@);
                assert(kiss::frame_views(left@) =~= held.skip(1));
                assert(all.skip(k).skip(1) =~= all.skip(k + 1));
                assert(all.take(k + 1).drop_last() =~= all.take(k));
                assert(all.take(k + 1).last() == f@);
            }
            if is_data(&f) {
                self.pending.push(f);
                assert(kiss::frame_views(self.pending@) =~= pending.push(f@));
            }
            assert(self@.pending =~= was.pending + packets(all.take(k + 1)));
        }
        assert(all.take(all.len() as int) =~= all);
    }

    /// The next packet, and how long it was on the air. `None` if more must be received
    /// first.
    pub fn read_frame(&mut self) -> (r: Option<(Frame, RadioMetadata)>)
        ensures
            match r {
                Some((f, m)) => {
                    &&& old(self)@.pending.len() > 0
                    &&& f@ == old(self)@.pending[0]
                    &&& m == old(self)@.known_of(f@)
                    &&& final(self)@ == (TransportView {
                        pending: old(self)@.pending.drop_first(),
                        ..old(self)@
                    })
                },
                None => old(self)@.pending.len() == 0 && final(self)@ == old(self)@,
            },
            final(self).port() == old(self).port(),
    {
        if self.pending.len() == 0 {
            return None;
        }
        let ghost before = self.pending@;
        let frame = self.pending.remove(0);
        assert(kiss::frame_views(self.pending@) =~= kiss::frame_views(before).drop_first());
        assert(frame@ == kiss::frame_views(before)[0]);
        let mut known = RadioMetadata::default();
        known.estimated_airtime_us = Some(
            airtime_of(count_framed(frame.payload.as_slice()), self.options.ffsk_baud),
        );
        Some((frame, known))
    }
}

/// Whether a frame is a packet.
fn is_data(f: &Frame) -> (r: bool)
    ensures
        r == is_packet(f@),
{
    f.command == Command::Data && f.payload.len() > 0
}

/// The octets of the frame that carries a payload.
fn count_framed(payload: &[u8]) -> (n: u128)
    ensures
        n == framed_len(payload@),
        n <= 3 + 2 * usize::MAX,
{
    let mut n: u128 = 3;
    let mut i: usize = 0;
    assert(payload@.take(0) =~= Seq::<u8>::empty());
    while i < payload.len()
        invariant
            i <= payload@.len(),
            n == framed_len(payload@.take(i as int)),
            n <= 3 + 2 * i,
        decreases payload@.len() - i,
    {
        let b: u8 = payload[i];
        proof {
            assert(payload@.take(i + 1).drop_last() =~= payload@.take(i as int));
            assert(payload@.take(i + 1).last() == b);
        }
        n = n + if b == FEND || b == FESC {
            2
        } else {
            1
        };
        i = i + 1;
    }
    assert(payload@.take(i as int) =~= payload@);
    n
}

/// The octets of the frame that carries a payload.
pub fn slip_on_air_len(payload: &[u8]) -> (n: usize)
    requires
        3 + 2 * payload@.len() <= usize::MAX,
    ensures
        n == framed_len(payload@),
{
    proof {
        kiss::lemma_escaped_len(payload@);
    }
    count_framed(payload) as usize
}

/// How long octets are on the air. What does not fit 64 bits is cut off.
fn airtime_of(octets: u128, baud: u32) -> (r: u64)
    requires
        octets <= 0x4_0000_0000_0000_0000,
    ensures
        r == airtime(octets as nat, baud) as u64,
{
    if baud == 0 {
        return 0;
    }
    let us: u128 = octets * 8_000_000 / baud as u128;
    #[verifier::truncate]
    (us as u64)
}

/// How long octets are on the air, in microseconds. 0 at rate 0. What does not fit 64
/// bits is cut off.
pub fn airtime_us(on_air_bytes: usize, ffsk_baud: u32) -> (r: u64)
    ensures
        r == airtime(on_air_bytes as nat, ffsk_baud) as u64,
{
    airtime_of(on_air_bytes as u128, ffsk_baud)
}

proof fn lemma_airtime_fits(octets: nat, baud: u32)
    requires
        octets <= 0x1_0000_0000,
    ensures
        0 <= airtime(octets, baud) <= u64::MAX,
{
    if baud != 0 {
        let bits: int = (octets * 8_000_000) as int;
        assert(0 <= bits / baud as int <= bits) by (nonlinear_arith)
            requires
                0 <= bits,
                baud >= 1,
        ;
    }
}

} // verus!
