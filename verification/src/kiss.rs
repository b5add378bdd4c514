//! KISS framing: frames between delimiters in a stream of octets.
//!
//! A frame is a delimiter, a command octet, a payload and a delimiter. A delimiter or an
//! escape within the frame is written as an escape and a stand-in.

use vstd::prelude::*;
use vstd::slice::slice_subrange;

use crate::bytes;

verus! {

/// The delimiter.
pub const FEND: u8 = 0xC0;

/// The escape.
pub const FESC: u8 = 0xDB;

/// What stands for a delimiter behind an escape.
pub const TFEND: u8 = 0xDC;

/// What stands for an escape behind an escape.
pub const TFESC: u8 = 0xDD;

/// What a frame is.
#[derive(Debug, Clone, Copy, PartialEq, Eq, Structural)]
pub enum Command {
    /// A packet.
    Data,
    /// Anything else, with its number.
    Other(u8),
}

impl Command {
    /// The number of a command.
    pub open spec fn number(self) -> int {
        match self {
            Command::Data => 0,
            Command::Other(n) => n as int,
        }
    }

    /// The number is one of its own, in four bits.
    pub open spec fn valid(self) -> bool {
        self matches Command::Other(n) ==> 0 < n < 16
    }
}

/// The command with a number.
pub open spec fn numbered(n: int) -> Command {
    if n == 0 {
        Command::Data
    } else {
        Command::Other(n as u8)
    }
}

/// A frame.
#[derive(Debug, Clone, PartialEq, Eq)]
pub struct Frame {
    /// The port of the modem.
    pub port: u8,
    /// What the frame is.
    pub command: Command,
    /// The payload.
    pub payload: Vec<u8>,
}

/// What a frame holds.
pub struct KissView {
    pub port: u8,
    pub command: Command,
    pub payload: Seq<u8>,
}

impl View for Frame {
    type V = KissView;

    open spec fn view(&self) -> KissView {
        KissView { port: self.port, command: self.command, payload: self.payload@ }
    }
}

/// What a run of frames holds.
pub open spec fn frame_views(v: Seq<Frame>) -> Seq<KissView> {
    v.map_values(|f: Frame| f@)
}

/// An octet as it is written within a frame.
pub open spec fn escape(b: u8) -> Seq<u8> {
    if b == FEND {
        seq![FESC, TFEND]
    } else if b == FESC {
        seq![FESC, TFESC]
    } else {
        seq![b]
    }
}

/// Octets as they are written within a frame.
pub open spec fn escaped(s: Seq<u8>) -> Seq<u8>
    decreases s.len(),
{
    if s.len() == 0 {
        Seq::empty()
    } else {
        escaped(s.drop_last()) + escape(s.last())
    }
}

impl KissView {
    /// The port and the command fit the command octet.
    pub open spec fn valid(self) -> bool {
        self.port < 16 && self.command.valid()
    }

    /// The command octet and the payload.
    pub open spec fn body(self) -> Seq<u8> {
        seq![(self.port * 16 + self.command.number()) as u8] + self.payload
    }

    /// The frame as it is sent.
    pub open spec fn sent(self) -> Seq<u8> {
        seq![FEND] + escaped(self.body()) + seq![FEND]
    }
}

/// The frame with a body.
pub open spec fn frame_of(body: Seq<u8>) -> KissView {
    KissView {
        port: (body[0] / 16) as u8,
        command: numbered((body[0] % 16) as int),
        payload: body.skip(1),
    }
}

/// What stands between delimiters so far.
#[derive(Debug)]
pub struct Decoder {
    open: bool,
    escaping: bool,
    body: Vec<u8>,
}

/// What stands between delimiters so far: whether there has been one, whether an escape
/// came last, and the octets.
pub struct DecoderView {
    pub open: bool,
    pub escaping: bool,
    pub body: Seq<u8>,
}

impl View for Decoder {
    type V = DecoderView;

    closed spec fn view(&self) -> DecoderView {
        DecoderView { open: self.open, escaping: self.escaping, body: self.body@ }
    }
}

impl DecoderView {
    /// Nothing so far.
    pub open spec fn fresh() -> DecoderView {
        DecoderView { open: false, escaping: false, body: Seq::empty() }
    }

    /// Behind a delimiter.
    pub open spec fn started() -> DecoderView {
        DecoderView { open: true, escaping: false, body: Seq::empty() }
    }

    /// The decoder after one octet. What comes before the first delimiter is passed
    /// over, and so is what no escape stands for.
    pub open spec fn after(self, c: u8) -> DecoderView {
        if c == FEND {
            DecoderView::started()
        } else if !self.open {
            self
        } else if self.escaping {
            DecoderView {
                escaping: false,
                body: if c == TFEND {
                    self.body.push(FEND)
                } else if c == TFESC {
                    self.body.push(FESC)
                } else {
                    self.body
                },
                ..self
            }
        } else if c == FESC {
            DecoderView { escaping: true, ..self }
        } else {
            DecoderView { body: self.body.push(c), ..self }
        }
    }

    /// The frame that one octet completes, if it does.
    pub open spec fn completes(self, c: u8) -> Option<KissView> {
        if c == FEND && self.open && self.body.len() > 0 {
            Some(frame_of(self.body))
        } else {
            None
        }
    }

    /// The decoder after a run of octets.
    pub open spec fn after_all(self, octets: Seq<u8>) -> DecoderView
        decreases octets.len(),
    {
        if octets.len() == 0 {
            self
        } else {
            self.after_all(octets.drop_last()).after(octets.last())
        }
    }

    /// The frames that a run of octets completes.
    pub open spec fn frames(self, octets: Seq<u8>) -> Seq<KissView>
        decreases octets.len(),
    {
        if octets.len() == 0 {
            Seq::empty()
        } else {
            let before: Seq<KissView> = self.frames(octets.drop_last());
            match self.after_all(octets.drop_last()).completes(octets.last()) {
                Some(f) => before.push(f),
                None => before,
            }
        }
    }
}

/// How the stream is cut into pieces makes no difference.
pub proof fn law_chunks_do_not_matter(d: DecoderView, a: Seq<u8>, b: Seq<u8>)
    ensures
        d.after_all(a + b) == d.after_all(a).after_all(b),
        d.frames(a + b) == d.frames(a) + d.after_all(a).frames(b),
    decreases b.len(),
{
    if b.len() == 0 {
        assert(a + b =~= a);
        assert(d.frames(a) + d.after_all(a).frames(b) =~= d.frames(a));
    } else {
        law_chunks_do_not_matter(d, a, b.drop_last());
        assert((a + b).drop_last() =~= a + b.drop_last());
        assert((a + b).last() == b.last());
        let f: Option<KissView> = d.after_all(a + b.drop_last()).completes(b.last());
        if f is Some {
            assert((d.frames(a) + d.after_all(a).frames(b.drop_last())).push(f->0) =~= d.frames(a)
                + d.after_all(a).frames(b.drop_last()).push(f->0));
        }
    }
}

/// One octet of a run.
proof fn lemma_one(d: DecoderView, c: u8)
    ensures
        d.after_all(seq![c]) == d.after(c),
        d.frames(seq![c]) == (match d.completes(c) {
            Some(f) => seq![f],
            None => Seq::<KissView>::empty(),
        }),
{
    assert(seq![c].drop_last() =~= Seq::<u8>::empty());
    assert(d.after_all(Seq::<u8>::empty()) == d);
    assert(d.frames(Seq::<u8>::empty()) == Seq::<KissView>::empty());
    if d.completes(c) is Some {
        assert(Seq::<KissView>::empty().push(d.completes(c)->0) =~= seq![d.completes(c)->0]);
    }
}

/// Escaped octets are read back, and complete nothing.
proof fn lemma_escaped_reads_back(before: Seq<u8>, s: Seq<u8>)
    ensures
        ({
            let d: DecoderView = DecoderView { open: true, escaping: false, body: before };
            &&& d.after_all(escaped(s)) == (DecoderView { body: before + s, ..d })
            &&& d.frames(escaped(s)) == Seq::<KissView>::empty()
        }),
    decreases s.len(),
{
    let d: DecoderView = DecoderView { open: true, escaping: false, body: before };
    if s.len() == 0 {
        assert(before + s =~= before);
    } else {
        let front: Seq<u8> = s.drop_last();
        let b: u8 = s.last();
        let mid: DecoderView = DecoderView { body: before + front, ..d };
        lemma_escaped_reads_back(before, front);
        law_chunks_do_not_matter(d, escaped(front), escape(b));
        assert((before + front).push(b) =~= before + s);
        if b == FEND || b == FESC {
            let stand: u8 = if b == FEND {
                TFEND
            } else {
                TFESC
            };
            assert(escape(b) =~= seq![FESC] + seq![stand]);
            lemma_one(mid, FESC);
            lemma_one(mid.after(FESC), stand);
            law_chunks_do_not_matter(mid, seq![FESC], seq![stand]);
        } else {
            assert(escape(b) =~= seq![b]);
            lemma_one(mid, b);
        }
        assert(d.frames(escaped(s)) =~= Seq::<KissView>::empty());
    }
}

/// A frame comes out of the stream as it was sent. Whatever stood before the frame comes
/// out first, and the next frame may start with the same delimiter.
pub proof fn law_frame_round_trip(d: DecoderView, f: KissView)
    requires
        f.valid(),
    ensures
        d.frames(f.sent()) == (match d.completes(FEND) {
            Some(g) => seq![g, f],
            None => seq![f],
        }),
        d.after_all(f.sent()) == DecoderView::started(),
{
    let start: DecoderView = DecoderView::started();
    let none: Seq<u8> = Seq::empty();
    let body: Seq<u8> = f.body();
    lemma_one(d, FEND);
    lemma_escaped_reads_back(none, body);
    assert(none + body =~= body);
    let full: DecoderView = DecoderView { body, ..start };
    lemma_one(full, FEND);
    law_chunks_do_not_matter(d, seq![FEND], escaped(body));
    law_chunks_do_not_matter(d, seq![FEND] + escaped(body), seq![FEND]);
    assert(body.skip(1) =~= f.payload);
    assert(frame_of(body) == f);
    assert(d.frames(f.sent()) =~= match d.completes(FEND) {
        Some(g) => seq![g, f],
        None => seq![f],
    });
}

/// A frame holds no delimiter but the two at its ends.
pub proof fn law_delimiters_stand_at_the_ends(f: KissView)
    ensures
        forall|i: int| 0 < i < f.sent().len() - 1 ==> #[trigger] f.sent()[i] != FEND,
{
    lemma_escaped_is_free(f.body());
    assert forall|i: int| 0 < i < f.sent().len() - 1 implies #[trigger] f.sent()[i] != FEND by {
        assert(escaped(f.body())[i - 1] != FEND);
    }
}

proof fn lemma_escaped_is_free(s: Seq<u8>)
    ensures
        forall|i: int| 0 <= i < escaped(s).len() ==> #[trigger] escaped(s)[i] != FEND,
    decreases s.len(),
{
    if s.len() > 0 {
        let front: Seq<u8> = escaped(s.drop_last());
        lemma_escaped_is_free(s.drop_last());
        assert forall|i: int| 0 <= i < escaped(s).len() implies #[trigger] escaped(s)[i]
            != FEND by {
            if i < front.len() {
                assert(front[i] != FEND);
            } else {
                assert(escaped(s)[i] == escape(s.last())[i - front.len()]);
            }
        }
    }
}

/// The octets that must be escaped.
pub open spec fn special(s: Seq<u8>) -> nat
    decreases s.len(),
{
    if s.len() == 0 {
        0
    } else {
        special(s.drop_last()) + if s.last() == FEND || s.last() == FESC {
            1nat
        } else {
            0nat
        }
    }
}

/// Escaping adds one octet for each that must be escaped.
pub proof fn lemma_escaped_len(s: Seq<u8>)
    ensures
        escaped(s).len() == s.len() + special(s),
        special(s) <= s.len(),
    decreases s.len(),
{
    if s.len() > 0 {
        lemma_escaped_len(s.drop_last());
    }
}

/// Escaping a run is escaping its pieces.
pub proof fn lemma_escaped_concat(a: Seq<u8>, b: Seq<u8>)
    ensures
        escaped(a + b) == escaped(a) + escaped(b),
    decreases b.len(),
{
    if b.len() == 0 {
        assert(a + b =~= a);
        assert(escaped(a) + escaped(b) =~= escaped(a));
    } else {
        lemma_escaped_concat(a, b.drop_last());
        assert((a + b).drop_last() =~= a + b.drop_last());
        assert(escaped(a + b) =~= escaped(a) + escaped(b));
    }
}

/// Appends an octet as it is written within a frame.
fn append_escaped(out: &mut Vec<u8>, b: u8)
    ensures
        final(out)@ == old(out)@ + escape(b),
{
    if b == FEND {
        out.push(FESC);
        out.push(TFEND);
    } else if b == FESC {
        out.push(FESC);
        out.push(TFESC);
    } else {
        out.push(b);
    }
    assert(out@ =~= old(out)@ + escape(b));
}

/// A frame as it is sent.
pub fn encode(port: u8, command: Command, payload: &[u8]) -> (r: Vec<u8>)
    requires
        port < 16,
        command.valid(),
    ensures
        r@ == (KissView { port, command, payload: payload@ }).sent(),
{
    let number: u8 = match command {
        Command::Data => 0,
        Command::Other(n) => n,
    };
    let first: u8 = port * 16 + number;
    let ghost f: KissView = KissView { port, command, payload: payload@ };
    let mut out: Vec<u8> = Vec::new();
    out.push(FEND);
    append_escaped(&mut out, first);
    let mut i: usize = 0;
    proof {
        let none: Seq<u8> = Seq::empty();
        assert(seq![first].drop_last() =~= none);
        assert(escaped(none) =~= none);
        assert(seq![first] + payload@.take(0) =~= seq![first]);
        assert(out@ =~= seq![FEND] + escaped(seq![first] + payload@.take(0)));
    }
    while i < payload.len()
        invariant
            i <= payload@.len(),
            out@ == seq![FEND] + escaped(seq![first] + payload@.take(i as int)),
        decreases payload@.len() - i,
    {
        append_escaped(&mut out, payload[i]);
        proof {
            let now: Seq<u8> = seq![first] + payload@.take(i + 1);
            assert(now.drop_last() =~= seq![first] + payload@.take(i as int));
            assert(now.last() == payload@[i as int]);
            assert(out@ =~= seq![FEND] + escaped(now));
        }
        i = i + 1;
    }
    out.push(FEND);
    assert(payload@.take(i as int) =~= payload@);
    assert(out@ =~= f.sent());
    out
}

/// Writes a frame over the front of `dst`. `None` if `dst` is too short.
pub fn encode_into(dst: &mut [u8], port: u8, command: Command, payload: &[u8]) -> (r: Option<usize>)
    requires
        port < 16,
        command.valid(),
    ensures
        bytes::written(
            old(dst)@,
            final(dst)@,
            (KissView { port, command, payload: payload@ }).sent(),
            r is Some,
        ),
        r matches Some(n) ==> n == (KissView { port, command, payload: payload@ }).sent().len(),
{
    bytes::put_front(dst, encode(port, command, payload).as_slice())
}

impl Default for Decoder {
    fn default() -> (d: Decoder)
        ensures
            d@ == DecoderView::fresh(),
    {
        Decoder::new()
    }
}

impl Decoder {
    /// A decoder with nothing so far.
    pub fn new() -> (d: Decoder)
        ensures
            d@ == DecoderView::fresh(),
    {
        let d = Decoder { open: false, escaping: false, body: Vec::new() };
        assert(d@.body =~= Seq::<u8>::empty());
        d
    }

    /// Takes octets as they come, and hands out the frames that they complete.
    pub fn push(&mut self, octets: &[u8]) -> (r: Vec<Frame>)
        ensures
            frame_views(r@) == old(self)@.frames(octets@),
            final(self)@ == old(self)@.after_all(octets@),
    {
        let mut out: Vec<Frame> = Vec::new();
        let mut i: usize = 0;
        assert(frame_views(out@) =~= Seq::<KissView>::empty());
        assert(octets@.take(0) =~= Seq::<u8>::empty());
        while i < octets.len()
            invariant
                i <= octets@.len(),
                self@ == old(self)@.after_all(octets@.take(i as int)),
                frame_views(out@) == old(self)@.frames(octets@.take(i as int)),
            decreases octets@.len() - i,
        {
            let c: u8 = octets[i];
            let ghost before = self@;
            let ghost said = frame_views(out@);
            proof {
                assert(octets@.take(i + 1).drop_last() =~= octets@.take(i as int));
                assert(octets@.take(i + 1).last() == c);
            }
            match self.step(c) {
                Some(f) => {
                    out.push(f);
                    assert(frame_views(out@) =~= said.push(f@));
                },
                None => {},
            }
            i = i + 1;
        }
        assert(octets@.take(i as int) =~= octets@);
        out
    }

    /// Takes one octet.
    fn step(&mut self, c: u8) -> (r: Option<Frame>)
        ensures
            final(self)@ == old(self)@.after(c),
            match r {
                Some(f) => old(self)@.completes(c) == Some(f@),
                None => old(self)@.completes(c) is None,
            },
    {
        if c == FEND {
            let mut body: Vec<u8> = Vec::new();
            std::mem::swap(&mut body, &mut self.body);
            let was_open: bool = self.open;
            self.open = true;
            self.escaping = false;
            assert(self@.body =~= Seq::<u8>::empty());
            if was_open && body.len() > 0 {
                let mut payload: Vec<u8> = Vec::new();
                let first: u8 = body[0];
                bytes::append(&mut payload, slice_subrange(body.as_slice(), 1, body.len()));
                assert(payload@ =~= body@.skip(1));
                let number: u8 = first % 16;
                let command = if number == 0 {
                    Command::Data
                } else {
                    Command::Other(number)
                };
                Some(Frame { port: first / 16, command, payload })
            } else {
                None
            }
        } else {
            if !self.open {
            } else if self.escaping {
                self.escaping = false;
                if c == TFEND {
                    self.body.push(FEND);
                } else if c == TFESC {
                    self.body.push(FESC);
                }
            } else if c == FESC {
                self.escaping = true;
            } else {
                self.body.push(c);
            }
            None
        }
    }
}

} // verus!
