//! The lines of the tuning protocol: `V1|<sequence>|<verb>|<args>`.
//!
//! The separator in front of the arguments is left out where there are none. A
//! measurement has a shorter form for links that carry only short messages, which drops
//! the level of the audio where the line would be too long with it.

use vstd::prelude::*;
use vstd::string::StringSliceAdditionalSpecFns;

use super::meter_report;
use super::meter_report::{MeterReport, BAR};
use super::parse_nonneg_i32;
use crate::fields;
use crate::fields::split;
use crate::numbers;
use crate::pieces;
use crate::pieces::Pieces;
use crate::text;
use crate::text::{same_bytes, string_of};

verus! {

/// The mark that every line starts with.
pub const VERSION_PREFIX: &'static str = "V1";

/// The characters that a short message carries.
pub const SDM_CHARACTER_BUDGET: usize = 32;

/// What a telegram is for.
#[derive(Debug, Clone, Copy, PartialEq, Eq, Structural)]
pub enum TuningVerb {
    /// The handshake, and that the next burst can come.
    Hello,
    /// A burst of so many frames is asked for.
    BurstRequest,
    /// What was measured: a meter report.
    Measurement,
    /// What to do about the level.
    Advice,
    /// The session is over.
    Bye,
    /// The mode is agreed on.
    ModeCoordination,
    /// The other station's status is asked for.
    Hail,
    /// The status of a station.
    Status,
    /// The lead-in of a transmission is shortened.
    TxDelay,
}

/// Every verb, in the order of their declaration.
pub fn all_verbs() -> (r: [TuningVerb; 9])
    ensures
        r@ == seq![
            TuningVerb::Hello,
            TuningVerb::BurstRequest,
            TuningVerb::Measurement,
            TuningVerb::Advice,
            TuningVerb::Bye,
            TuningVerb::ModeCoordination,
            TuningVerb::Hail,
            TuningVerb::Status,
            TuningVerb::TxDelay,
        ],
        forall|v: TuningVerb| #[trigger] r@.contains(v),
{
    let r = [
        TuningVerb::Hello,
        TuningVerb::BurstRequest,
        TuningVerb::Measurement,
        TuningVerb::Advice,
        TuningVerb::Bye,
        TuningVerb::ModeCoordination,
        TuningVerb::Hail,
        TuningVerb::Status,
        TuningVerb::TxDelay,
    ];
    assert forall|v: TuningVerb| #[trigger] r@.contains(v) by {
        match v {
            TuningVerb::Hello => assert(r@[0] == v),
            TuningVerb::BurstRequest => assert(r@[1] == v),
            TuningVerb::Measurement => assert(r@[2] == v),
            TuningVerb::Advice => assert(r@[3] == v),
            TuningVerb::Bye => assert(r@[4] == v),
            TuningVerb::ModeCoordination => assert(r@[5] == v),
            TuningVerb::Hail => assert(r@[6] == v),
            TuningVerb::Status => assert(r@[7] == v),
            TuningVerb::TxDelay => assert(r@[8] == v),
        }
    }
    r
}

/// The token of a verb.
pub open spec fn token(verb: TuningVerb) -> Seq<u8> {
    match verb {
        TuningVerb::Hello => seq![0x48u8, 0x49],
        TuningVerb::BurstRequest => seq![0x52u8, 0x51],
        TuningVerb::Measurement => seq![0x4Du8, 0x53],
        TuningVerb::Advice => seq![0x41u8, 0x44],
        TuningVerb::Bye => seq![0x42u8, 0x59],
        TuningVerb::ModeCoordination => seq![0x4Du8, 0x4F, 0x44, 0x45],
        TuningVerb::Hail => seq![0x48u8, 0x41, 0x49, 0x4C],
        TuningVerb::Status => seq![0x53u8, 0x54, 0x41, 0x54],
        TuningVerb::TxDelay => seq![0x54u8, 0x58, 0x44],
    }
}

/// The verb with a token.
pub open spec fn verb_in(s: Seq<u8>) -> Option<TuningVerb> {
    if s == token(TuningVerb::Hello) {
        Some(TuningVerb::Hello)
    } else if s == token(TuningVerb::BurstRequest) {
        Some(TuningVerb::BurstRequest)
    } else if s == token(TuningVerb::Measurement) {
        Some(TuningVerb::Measurement)
    } else if s == token(TuningVerb::Advice) {
        Some(TuningVerb::Advice)
    } else if s == token(TuningVerb::Bye) {
        Some(TuningVerb::Bye)
    } else if s == token(TuningVerb::ModeCoordination) {
        Some(TuningVerb::ModeCoordination)
    } else if s == token(TuningVerb::Hail) {
        Some(TuningVerb::Hail)
    } else if s == token(TuningVerb::Status) {
        Some(TuningVerb::Status)
    } else if s == token(TuningVerb::TxDelay) {
        Some(TuningVerb::TxDelay)
    } else {
        None
    }
}

/// Tokens are told apart: a verb is read back from its token.
pub proof fn law_tokens_round_trip(verb: TuningVerb)
    ensures
        verb_in(token(verb)) == Some(verb),
{
    let hello: Seq<u8> = token(TuningVerb::Hello);
    let burstrequest: Seq<u8> = token(TuningVerb::BurstRequest);
    let measurement: Seq<u8> = token(TuningVerb::Measurement);
    let advice: Seq<u8> = token(TuningVerb::Advice);
    let bye: Seq<u8> = token(TuningVerb::Bye);
    let modecoordination: Seq<u8> = token(TuningVerb::ModeCoordination);
    let hail: Seq<u8> = token(TuningVerb::Hail);
    let status: Seq<u8> = token(TuningVerb::Status);
    let txdelay: Seq<u8> = token(TuningVerb::TxDelay);
    let t: Seq<u8> = token(verb);
    assert(hello[0] == 0x48 && hello[1] == 0x49 && hello.len() == 2);
    assert(burstrequest[0] == 0x52 && burstrequest[1] == 0x51 && burstrequest.len() == 2);
    assert(measurement[0] == 0x4D && measurement[1] == 0x53 && measurement.len() == 2);
    assert(advice[0] == 0x41 && advice[1] == 0x44 && advice.len() == 2);
    assert(bye[0] == 0x42 && bye[1] == 0x59 && bye.len() == 2);
    assert(modecoordination[0] == 0x4D && modecoordination[1] == 0x4F && modecoordination.len() == 4);
    assert(hail[0] == 0x48 && hail[1] == 0x41 && hail.len() == 4);
    assert(status[0] == 0x53 && status[1] == 0x54 && status.len() == 4);
    assert(txdelay[0] == 0x54 && txdelay[1] == 0x58 && txdelay.len() == 3);
    assert(t == token(verb));
}

/// A telegram. The arguments are borrowed from what was read.
#[derive(Debug, Clone, Copy, PartialEq, Eq)]
pub struct TuningTelegram<'a> {
    /// The number of the telegram, by which the receiver knows a repetition.
    pub sequence: i32,
    /// What the telegram is for.
    pub verb: TuningVerb,
    /// The arguments.
    pub args: &'a str,
}

/// What a telegram says.
pub struct TelegramView {
    pub sequence: i32,
    pub verb: TuningVerb,
    pub args: Seq<u8>,
}

impl<'a> View for TuningTelegram<'a> {
    type V = TelegramView;

    open spec fn view(&self) -> TelegramView {
        TelegramView { sequence: self.sequence, verb: self.verb, args: self.args.spec_bytes() }
    }
}

/// `V1`
pub open spec fn version() -> Seq<u8> {
    seq![0x56u8, 0x31]
}

impl TelegramView {
    /// The line without the arguments.
    pub open spec fn head(self) -> Seq<u8> {
        version() + seq![BAR] + numbers::signed_digits_of(self.sequence as int) + seq![BAR]
            + token(self.verb)
    }

    /// The line.
    pub open spec fn line(self) -> Seq<u8> {
        if self.args.len() == 0 {
            self.head()
        } else {
            self.head() + seq![BAR] + self.args
        }
    }

    /// The pieces of the line without the arguments.
    pub open spec fn head_pieces(self) -> Seq<Seq<u8>> {
        seq![version(), seq![BAR]] + pieces::signed_pieces(self.sequence as int) + seq![
            seq![BAR],
            token(self.verb),
        ]
    }

    /// The pieces of the line.
    pub open spec fn line_pieces(self) -> Seq<Seq<u8>> {
        if self.args.len() == 0 {
            self.head_pieces()
        } else {
            self.head_pieces() + seq![seq![BAR], self.args]
        }
    }

    /// The report of a measurement, if the arguments are one.
    pub open spec fn report(self) -> Option<MeterReport> {
        if self.verb == TuningVerb::Measurement {
            meter_report::report_in(self.args)
        } else {
            None
        }
    }

    /// The report as the short line carries it.
    pub open spec fn fitted(self, r: MeterReport) -> MeterReport {
        if self.head().len() + 1 + r.short_form().len() > SDM_CHARACTER_BUDGET
            && r.audio_level_db_tenths is Some {
            r.quiet()
        } else {
            r
        }
    }

    /// The short line.
    pub open spec fn short_line(self) -> Seq<u8> {
        match self.report() {
            Some(r) => self.head() + seq![BAR] + self.fitted(r).short_form(),
            None => self.line(),
        }
    }

    /// The pieces of the short line.
    pub open spec fn short_pieces(self) -> Seq<Seq<u8>> {
        match self.report() {
            Some(r) => self.head_pieces() + seq![seq![BAR]] + self.fitted(r).short_pieces(),
            None => self.line_pieces(),
        }
    }
}

/// The telegram that a line writes.
pub open spec fn telegram_in(s: Seq<u8>) -> Option<TelegramView> {
    if fields::head(s, BAR) != version() {
        None
    } else {
        match fields::tail(s, BAR) {
            Some(t) => match (
                numbers::number_in(fields::head(t, BAR), 0x7FFF_FFFF),
                fields::tail(t, BAR),
            ) {
                (Some(n), Some(u)) => match verb_in(fields::head(u, BAR)) {
                    Some(verb) => Some(
                        TelegramView {
                            sequence: n as i32,
                            verb,
                            args: match fields::tail(u, BAR) {
                                Some(a) => a,
                                None => Seq::empty(),
                            },
                        },
                    ),
                    None => None,
                },
                _ => None,
            },
            None => None,
        }
    }
}

/// The pieces of the head make the head.
proof fn lemma_head_pieces(t: TelegramView)
    ensures
        pieces::whole(t.head_pieces()) == t.head(),
{
    let none: Seq<Seq<u8>> = Seq::empty();
    let bar: Seq<u8> = seq![BAR];
    let number: Seq<Seq<u8>> = pieces::signed_pieces(t.sequence as int);
    let front: Seq<Seq<u8>> = seq![version(), bar];
    let name: Seq<Seq<u8>> = seq![bar, token(t.verb)];
    pieces::lemma_signed_pieces(t.sequence as int);
    pieces::lemma_whole_of_one(none, version());
    pieces::lemma_whole_of_one(none.push(version()), bar);
    assert(none.push(version()).push(bar) =~= front);
    assert(none.push(version()) =~= seq![version()]);
    pieces::lemma_whole_of_one(none, bar);
    pieces::lemma_whole_of_one(none.push(bar), token(t.verb));
    assert(none.push(bar).push(token(t.verb)) =~= name);
    assert(none.push(bar) =~= seq![bar]);
    pieces::lemma_whole_of_both(front, number);
    pieces::lemma_whole_of_both(front + number, name);
    assert(pieces::whole(t.head_pieces()) =~= t.head());
}

/// The pieces of the line make the line.
pub proof fn lemma_line_pieces(t: TelegramView)
    ensures
        pieces::whole(t.line_pieces()) == t.line(),
{
    let none: Seq<Seq<u8>> = Seq::empty();
    let bar: Seq<u8> = seq![BAR];
    lemma_head_pieces(t);
    if t.args.len() > 0 {
        pieces::lemma_whole_of_one(none, bar);
        pieces::lemma_whole_of_one(none.push(bar), t.args);
        assert(none.push(bar).push(t.args) =~= seq![bar, t.args]);
        assert(none.push(bar) =~= seq![bar]);
        pieces::lemma_whole_of_both(t.head_pieces(), seq![bar, t.args]);
        assert(pieces::whole(t.line_pieces()) =~= t.line());
    }
}

/// The pieces of the short line make the short line.
pub proof fn lemma_short_line_pieces(t: TelegramView)
    ensures
        pieces::whole(t.short_pieces()) == t.short_line(),
{
    lemma_line_pieces(t);
    lemma_head_pieces(t);
    if let Some(r) = t.report() {
        let bar: Seq<u8> = seq![BAR];
        let head: Seq<Seq<u8>> = t.head_pieces() + seq![bar];
        pieces::lemma_whole_of_one(t.head_pieces(), bar);
        assert(head =~= t.head_pieces().push(bar));
        meter_report::lemma_short_pieces(t.fitted(r));
        pieces::lemma_whole_of_both(head, t.fitted(r).short_pieces());
    }
}

/// The octets of the mark.
proof fn lemma_version()
    ensures
        VERSION_PREFIX.spec_bytes() == version(),
{
    reveal_strlit("V1");
    assert(VERSION_PREFIX@ =~= text::chars_of(version()));
    text::lemma_ascii_text(VERSION_PREFIX, version());
}

/// A token is ASCII without the separator.
proof fn lemma_token_is_plain(verb: TuningVerb)
    ensures
        meter_report::is_plain(token(verb)),
{
}

proof fn lemma_head_is_ascii(t: TelegramView)
    ensures
        forall|i: int| 0 <= i < t.head().len() ==> #[trigger] t.head()[i] < 128,
{
    let d: Seq<u8> = numbers::signed_digits_of(t.sequence as int);
    numbers::lemma_signed_octets(t.sequence as int);
    lemma_token_is_plain(t.verb);
    assert forall|i: int| 0 <= i < t.head().len() implies #[trigger] t.head()[i] < 128 by {
        if 3 <= i < 3 + d.len() {
            assert(numbers::is_digit(d[i - 3]) || d[i - 3] == 0x2D);
        } else if i > 3 + d.len() {
            assert(token(t.verb)[i - 4 - d.len()] < 128);
        }
    }
}

/// A telegram whose number is not negative is read back from its line, whatever its
/// arguments hold.
pub proof fn law_line_round_trip(t: TelegramView)
    requires
        t.sequence >= 0,
    ensures
        telegram_in(t.line()) == Some(t),
{
    let d: Seq<u8> = numbers::digits_of(t.sequence as nat);
    numbers::law_digits_round_trip(t.sequence as nat);
    lemma_token_is_plain(t.verb);
    law_tokens_round_trip(t.verb);
    assert(fields::is_free_of(d, BAR)) by {
        assert forall|i: int| 0 <= i < d.len() implies #[trigger] d[i] != BAR by {
            assert(numbers::is_digit(d[i]));
        }
    }
    assert(fields::is_free_of(token(t.verb), BAR)) by {
        assert forall|i: int| 0 <= i < token(t.verb).len() implies #[trigger] token(t.verb)[i]
            != BAR by {
            assert(token(t.verb)[i] < 128 && token(t.verb)[i] != BAR);
        }
    }
    let last: Seq<u8> = if t.args.len() == 0 {
        token(t.verb)
    } else {
        token(t.verb).push(BAR) + t.args
    };
    let middle: Seq<u8> = d.push(BAR) + last;
    assert(t.line() =~= version().push(BAR) + middle);
    assert(fields::is_free_of(version(), BAR));
    fields::lemma_head_and_tail(version(), BAR, middle);
    fields::lemma_head_and_tail(d, BAR, last);
    if t.args.len() == 0 {
        fields::lemma_no_tail(token(t.verb), BAR);
        assert(t.args =~= Seq::<u8>::empty());
    } else {
        fields::lemma_head_and_tail(token(t.verb), BAR, t.args);
    }
}

/// The short line of a measurement holds the same report, but for the level of the
/// audio where the line would be too long with it.
pub proof fn law_short_line_keeps_the_report(t: TelegramView)
    requires
        t.sequence >= 0,
        t.report() is Some,
    ensures
        telegram_in(t.short_line()) matches Some(u) && u.sequence == t.sequence && u.verb == t.verb
            && u.report() == Some(t.fitted(t.report()->0)),
{
    let r: MeterReport = t.fitted(t.report()->0);
    meter_report::lemma_read_counts_are_not_negative(t.args);
    meter_report::law_short_form_round_trip(r);
    let u: TelegramView = TelegramView { args: r.short_form(), ..t };
    meter_report::lemma_short_form_is_not_empty(r);
    law_line_round_trip(u);
    assert(u.line() =~= t.short_line());
}

/// The short line of a measurement fits a short message if it can without the level of
/// the audio.
pub proof fn law_short_line_fits(t: TelegramView)
    requires
        t.report() is Some,
        t.head().len() + 1 + t.report()->0.quiet().short_form().len() <= SDM_CHARACTER_BUDGET,
    ensures
        t.short_line().len() <= SDM_CHARACTER_BUDGET,
{
    let r: MeterReport = t.report()->0;
    assert(r.audio_level_db_tenths is None ==> r.quiet() == r);
}

/// The short line of anything but a measurement is the line.
pub proof fn law_other_verbs_have_one_line(t: TelegramView)
    requires
        t.verb != TuningVerb::Measurement,
    ensures
        t.short_line() == t.line(),
{
}

impl<'a> TuningTelegram<'a> {
    /// A telegram.
    pub fn new(sequence: i32, verb: TuningVerb, args: &'a str) -> (t: TuningTelegram<'a>)
        ensures
            t@ == (TelegramView { sequence, verb, args: args.spec_bytes() }),
            t.args == args,
    {
        TuningTelegram { sequence, verb, args }
    }

    /// The token of a verb.
    pub fn verb_to_wire(verb: TuningVerb) -> (r: &'static str)
        ensures
            r.spec_bytes() == token(verb),
    {
        let r = match verb {
            TuningVerb::Hello => "HI",
            TuningVerb::BurstRequest => "RQ",
            TuningVerb::Measurement => "MS",
            TuningVerb::Advice => "AD",
            TuningVerb::Bye => "BY",
            TuningVerb::ModeCoordination => "MODE",
            TuningVerb::Hail => "HAIL",
            TuningVerb::Status => "STAT",
            TuningVerb::TxDelay => "TXD",
        };
        proof {
            reveal_strlit("HI");
            reveal_strlit("RQ");
            reveal_strlit("MS");
            reveal_strlit("AD");
            reveal_strlit("BY");
            reveal_strlit("MODE");
            reveal_strlit("HAIL");
            reveal_strlit("STAT");
            reveal_strlit("TXD");
            lemma_token_is_plain(verb);
            assert(r@ =~= text::chars_of(token(verb)));
            text::lemma_ascii_text(r, token(verb));
        }
        r
    }

    /// The verb with a token, if there is one.
    pub fn wire_to_verb(wire: &str) -> (r: Option<TuningVerb>)
        ensures
            r == verb_in(wire.spec_bytes()),
    {
        verb_of(wire.as_bytes())
    }

    /// The pieces of the line without the arguments.
    fn head_in_pieces(&self) -> (r: Pieces)
        ensures
            r@ == self@.head_pieces(),
    {
        let bar: [u8; 1] = [BAR];
        proof {
            lemma_version();
            assert(bar@ =~= seq![BAR]);
        }
        let mut out = Pieces::new();
        out.push(VERSION_PREFIX.as_bytes());
        out.push(bar.as_slice());
        out.push_signed(self.sequence as i64);
        out.push(bar.as_slice());
        out.push(TuningTelegram::verb_to_wire(self.verb).as_bytes());
        assert(out@ =~= self@.head_pieces());
        out
    }

    /// The pieces of the line.
    fn line_in_pieces(&self) -> (r: Pieces)
        ensures
            r@ == self@.line_pieces(),
    {
        let bar: [u8; 1] = [BAR];
        assert(bar@ =~= seq![BAR]);
        let mut out = self.head_in_pieces();
        let args = self.args.as_bytes();
        if args.len() > 0 {
            out.push(bar.as_slice());
            out.push(args);
            assert(out@ =~= self@.line_pieces());
        }
        out
    }

    /// The pieces of the short line.
    fn short_in_pieces(&self) -> (r: Pieces)
        ensures
            r@ == self@.short_pieces(),
    {
        if self.verb == TuningVerb::Measurement {
            match MeterReport::try_parse(self.args) {
                Some(report) => {
                    let bar: [u8; 1] = [BAR];
                    assert(bar@ =~= seq![BAR]);
                    let mut out = self.head_in_pieces();
                    let mut fitted = report;
                    proof {
                        lemma_head_pieces(self@);
                    }
                    let head: usize = out.text().len();
                    let args: usize = report.compact_octets().len();
                    if head > SDM_CHARACTER_BUDGET || args >= SDM_CHARACTER_BUDGET || head + 1
                        + args > SDM_CHARACTER_BUDGET {
                        match report.audio_level_db_tenths {
                            Some(_) => {
                                fitted = report.without_audio_level();
                            },
                            None => {},
                        }
                    }
                    out.push(bar.as_slice());
                    out.extend(&fitted.compact_pieces());
                    assert(out@ =~= self@.short_pieces());
                    return out;
                },
                None => {},
            }
        }
        self.line_in_pieces()
    }

    /// The line.
    fn line_octets(&self) -> (r: Vec<u8>)
        ensures
            r@ == self@.line(),
    {
        proof {
            lemma_line_pieces(self@);
        }
        self.line_in_pieces().text()
    }

    /// The short line.
    pub fn compact_octets(&self) -> (r: Vec<u8>)
        ensures
            r@ == self@.short_line(),
    {
        proof {
            lemma_short_line_pieces(self@);
        }
        self.short_in_pieces().text()
    }

    /// Writes the line over the front of `buf`, piece by piece. `None` if `buf` is too
    /// short: the pieces that fit have been written by then.
    pub fn encode_into(&self, buf: &mut [u8]) -> (r: Option<usize>)
        ensures
            pieces::went_in(old(buf)@, final(buf)@, self@.line_pieces(), r),
            pieces::whole(self@.line_pieces()) == self@.line(),
    {
        proof {
            lemma_line_pieces(self@);
        }
        self.line_in_pieces().put(buf)
    }

    /// Writes the short line over the front of `buf`, piece by piece. `None` if `buf` is
    /// too short: the pieces that fit have been written by then.
    pub fn encode_compact_into(&self, buf: &mut [u8]) -> (r: Option<usize>)
        ensures
            pieces::went_in(old(buf)@, final(buf)@, self@.short_pieces(), r),
            pieces::whole(self@.short_pieces()) == self@.short_line(),
    {
        proof {
            lemma_short_line_pieces(self@);
        }
        self.short_in_pieces().put(buf)
    }

    /// The line.
    pub fn encode(&self) -> (r: String)
        ensures
            vstd::utf8::encode_utf8(r@) == self@.line(),
    {
        let v = self.line_octets();
        proof {
            lemma_lines_are_utf8(*self);
        }
        string_of(v.as_slice())
    }

    /// The short line.
    pub fn encode_compact(&self) -> (r: String)
        ensures
            vstd::utf8::encode_utf8(r@) == self@.short_line(),
    {
        let v = self.compact_octets();
        proof {
            lemma_lines_are_utf8(*self);
        }
        string_of(v.as_slice())
    }

    /// Reads a line, short or not. `None` if it does not start with the mark, has fewer
    /// than three fields, has no number, or has an unknown verb.
    pub fn try_parse(text: &'a str) -> (r: Option<TuningTelegram<'a>>)
        ensures
            match r {
                Some(t) => telegram_in(text.spec_bytes()) == Some(t@),
                None => telegram_in(text.spec_bytes()) is None,
            },
    {
        let s = text.as_bytes();
        let (mark, behind) = split(s, BAR);
        if !is_version(mark) {
            return None;
        }
        let t = match behind {
            Some(t) => t,
            None => {
                return None;
            },
        };
        let (number, behind) = split(t, BAR);
        let sequence: i32 = match parse_nonneg_i32(number) {
            Some(n) => n,
            None => {
                return None;
            },
        };
        let u = match behind {
            Some(u) => u,
            None => {
                return None;
            },
        };
        let (word, behind) = split(u, BAR);
        let verb = match verb_of(word) {
            Some(verb) => verb,
            None => {
                return None;
            },
        };
        let from: usize = match behind {
            Some(a) => s.len() - a.len(),
            None => s.len(),
        };
        proof {
            fields::lemma_tail_is_the_end(s@, BAR);
            fields::lemma_tail_is_the_end(t@, BAR);
            if behind is Some {
                let a: Seq<u8> = behind->0@;
                fields::lemma_tail_is_the_end(u@, BAR);
                assert(a =~= s@.skip(from as int));
                assert(s@[from - 1] == BAR);
            }
            lemma_args_are_utf8(text, from as int);
        }
        let (_, args) = text.split_at(from);
        proof {
            let args_octets: Seq<u8> = match behind {
                Some(a) => a@,
                None => Seq::empty(),
            };
            assert(args.spec_bytes() =~= args_octets);
        }
        Some(TuningTelegram { sequence, verb, args })
    }
}

/// Where the arguments of a line start is where a character does.
proof fn lemma_args_are_utf8(text: &str, from: int)
    requires
        0 <= from <= text.spec_bytes().len(),
        from == text.spec_bytes().len() || from > 0 && text.spec_bytes()[from - 1] == BAR,
    ensures
        vstd::utf8::is_char_boundary(text.spec_bytes(), from),
{
    let s: Seq<u8> = text.spec_bytes();
    vstd::utf8::encode_utf8_valid_utf8(text@);
    if from == s.len() {
        vstd::utf8::is_char_boundary_start_end_of_seq(s);
    } else {
        text::lemma_rest_is_utf8(s, from - 1);
        let rest: Seq<u8> = s.skip(from);
        vstd::utf8::is_char_boundary_iff_is_leading_byte(rest, 0);
        assert(rest[0] == s[from]);
        assert(vstd::utf8::is_char_boundary(rest, 0));
        vstd::utf8::is_char_boundary_iff_is_leading_byte(s, from);
    }
}

/// A line whose arguments are well-formed UTF-8 is.
pub proof fn lemma_line_is_utf8(t: TelegramView)
    requires
        vstd::utf8::valid_utf8(t.args),
    ensures
        vstd::utf8::valid_utf8(t.line()),
{
    lemma_head_is_ascii(t);
    text::lemma_ascii_is_utf8(t.head());
    text::lemma_ascii_and_utf8(t.head() + seq![BAR], t.args);
}

/// Both lines are well-formed UTF-8.
proof fn lemma_lines_are_utf8(t: TuningTelegram)
    ensures
        vstd::utf8::valid_utf8(t@.line()),
        vstd::utf8::valid_utf8(t@.short_line()),
{
    vstd::utf8::encode_utf8_valid_utf8(t.args@);
    lemma_line_is_utf8(t@);
    lemma_head_is_ascii(t@);
    let bar: Seq<u8> = t@.head() + seq![BAR];
    if t@.report() is Some {
        let r: MeterReport = t@.fitted(t@.report()->0);
        meter_report::lemma_forms_are_ascii(r);
        text::lemma_ascii_is_utf8(r.short_form());
        text::lemma_ascii_and_utf8(bar, r.short_form());
    }
}

/// Whether octets are the mark.
fn is_version(s: &[u8]) -> (r: bool)
    ensures
        r == (s@ == version()),
{
    proof {
        lemma_version();
    }
    same_bytes(s, VERSION_PREFIX.as_bytes())
}

/// The verb with a token, if there is one.
fn verb_of(s: &[u8]) -> (r: Option<TuningVerb>)
    ensures
        r == verb_in(s@),
{
    if is_token(s, TuningVerb::Hello) {
        Some(TuningVerb::Hello)
    } else if is_token(s, TuningVerb::BurstRequest) {
        Some(TuningVerb::BurstRequest)
    } else if is_token(s, TuningVerb::Measurement) {
        Some(TuningVerb::Measurement)
    } else if is_token(s, TuningVerb::Advice) {
        Some(TuningVerb::Advice)
    } else if is_token(s, TuningVerb::Bye) {
        Some(TuningVerb::Bye)
    } else if is_token(s, TuningVerb::ModeCoordination) {
        Some(TuningVerb::ModeCoordination)
    } else if is_token(s, TuningVerb::Hail) {
        Some(TuningVerb::Hail)
    } else if is_token(s, TuningVerb::Status) {
        Some(TuningVerb::Status)
    } else if is_token(s, TuningVerb::TxDelay) {
        Some(TuningVerb::TxDelay)
    } else {
        None
    }
}

/// Whether octets are the token of a verb.
fn is_token(s: &[u8], verb: TuningVerb) -> (r: bool)
    ensures
        r == (s@ == token(verb)),
{
    same_bytes(s, TuningTelegram::verb_to_wire(verb).as_bytes())
}

} // verus!
