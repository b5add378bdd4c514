//! What the measuring station found in one burst.
//!
//! A report is written in two forms. The long form is
//! `dec/n|fec:<n>|clip:<n>|rssi:<dBm>|lvl:<dB>`, with `na` for what is not known. The
//! short form is `dec/n|f<n>|c<n>|r<dBm>|l<dB>`, without what is not known.

use vstd::prelude::*;
use vstd::slice::slice_subrange;
use vstd::string::StringSliceAdditionalSpecFns;

use super::parse_nonneg_i32;
use crate::bytes;
use crate::fields;
use crate::fields::split;
use crate::numbers;
use crate::numbers::{parse_long, parse_number};
use crate::pieces;
use crate::pieces::Pieces;
use crate::text;
use crate::text::{same_bytes, string_of};

verus! {

/// One burst as the measuring station received it.
#[derive(Debug, Clone, Copy, PartialEq, Eq, Structural)]
pub struct MeterReport {
    /// How many frames were decoded.
    pub decoded_frames: i32,
    /// How many frames were asked for.
    pub requested_frames: i32,
    /// How many octets the error correction repaired.
    pub fec_corrected_bytes_delta: Option<i64>,
    /// How many samples were lost: above 0, the audio was too loud.
    pub lost_adc_samples_delta: Option<i64>,
    /// The median signal level.
    pub rssi_dbm_tenths: Option<i16>,
    /// The level of the received audio.
    pub audio_level_db_tenths: Option<i16>,
}

/// `|`, which separates the parts of a report.
pub const BAR: u8 = 0x7C;

/// `/`, which separates the two counts.
pub const SLASH: u8 = 0x2F;

/// `.`, which separates the decimal.
pub const DOT: u8 = 0x2E;

/// `na`: not known.
pub open spec fn not_known() -> Seq<u8> {
    seq![0x6Eu8, 0x61]
}

/// `fec:`
pub open spec fn fec_key() -> Seq<u8> {
    seq![0x66u8, 0x65, 0x63, 0x3A]
}

/// `clip:`
pub open spec fn clip_key() -> Seq<u8> {
    seq![0x63u8, 0x6C, 0x69, 0x70, 0x3A]
}

/// `rssi:`
pub open spec fn rssi_key() -> Seq<u8> {
    seq![0x72u8, 0x73, 0x73, 0x69, 0x3A]
}

/// `lvl:`
pub open spec fn level_key() -> Seq<u8> {
    seq![0x6Cu8, 0x76, 0x6C, 0x3A]
}

/// A level with one decimal.
pub open spec fn level_text(tenths: int) -> Seq<u8> {
    let m: nat = if tenths < 0 {
        (-tenths) as nat
    } else {
        tenths as nat
    };
    let sign: Seq<u8> = if tenths < 0 {
        seq![0x2Du8]
    } else {
        Seq::empty()
    };
    sign + numbers::digits_of(m / 10) + seq![DOT, (0x30 + m % 10) as u8]
}

/// A count, or that it is not known.
pub open spec fn count_or_not(v: Option<i64>) -> Seq<u8> {
    match v {
        Some(n) => numbers::signed_digits_of(n as int),
        None => not_known(),
    }
}

/// A level, or that it is not known.
pub open spec fn level_or_not(v: Option<i16>) -> Seq<u8> {
    match v {
        Some(n) => level_text(n as int),
        None => not_known(),
    }
}

/// The pieces of a level.
pub open spec fn level_pieces(tenths: int) -> Seq<Seq<u8>> {
    let m: nat = if tenths < 0 {
        (-tenths) as nat
    } else {
        tenths as nat
    };
    let sign: Seq<Seq<u8>> = if tenths < 0 {
        seq![seq![0x2Du8]]
    } else {
        Seq::empty()
    };
    sign + seq![numbers::digits_of(m / 10), seq![DOT], seq![(0x30 + m % 10) as u8]]
}

/// The pieces of a count, or that it is not known.
pub open spec fn count_pieces(v: Option<i64>) -> Seq<Seq<u8>> {
    match v {
        Some(n) => pieces::signed_pieces(n as int),
        None => seq![not_known()],
    }
}

/// The pieces of a level, or that it is not known.
pub open spec fn level_or_not_pieces(v: Option<i16>) -> Seq<Seq<u8>> {
    match v {
        Some(n) => level_pieces(n as int),
        None => seq![not_known()],
    }
}

/// The pieces of a part: the separator and the key are one, and the value follows.
pub open spec fn marked(key: Seq<u8>, value: Seq<Seq<u8>>) -> Seq<Seq<u8>> {
    seq![seq![BAR] + key] + value
}

/// The pieces of a part of the short form, if it is known.
pub open spec fn known_count_pieces(letter: u8, v: Option<i64>) -> Seq<Seq<u8>> {
    match v {
        Some(n) => marked(seq![letter], pieces::signed_pieces(n as int)),
        None => Seq::empty(),
    }
}

/// The pieces of a part of the short form, if it is known.
pub open spec fn known_level_pieces(letter: u8, v: Option<i16>) -> Seq<Seq<u8>> {
    match v {
        Some(n) => marked(seq![letter], level_pieces(n as int)),
        None => Seq::empty(),
    }
}

/// Parts, each with the separator in front of it.
pub open spec fn joined(parts: Seq<Seq<u8>>) -> Seq<u8>
    decreases parts.len(),
{
    if parts.len() == 0 {
        Seq::empty()
    } else {
        joined(parts.drop_last()) + seq![BAR] + parts.last()
    }
}

/// A part of the short form, if it is known.
pub open spec fn known_count(letter: u8, v: Option<i64>) -> Seq<Seq<u8>> {
    match v {
        Some(n) => seq![seq![letter] + numbers::signed_digits_of(n as int)],
        None => Seq::empty(),
    }
}

/// A part of the short form, if it is known.
pub open spec fn known_level(letter: u8, v: Option<i16>) -> Seq<Seq<u8>> {
    match v {
        Some(n) => seq![seq![letter] + level_text(n as int)],
        None => Seq::empty(),
    }
}

/// The signed level in tenths that a text writes. Digits behind the first decimal round
/// its magnitude to the nearest tenth, by the second decimal alone.
pub open spec fn level_in(s: Seq<u8>) -> Option<int> {
    let minus: bool = s.len() > 0 && s[0] == 0x2D;
    let plus: bool = s.len() > 0 && s[0] == 0x2B;
    let rest: Seq<u8> = if minus || plus {
        s.skip(1)
    } else {
        s
    };
    let whole: Seq<u8> = fields::head(rest, DOT);
    let decimals: Seq<u8> = match fields::tail(rest, DOT) {
        Some(t) => t,
        None => Seq::empty(),
    };
    if whole.len() + decimals.len() == 0 || !numbers::all_digits(whole) || !numbers::all_digits(
        decimals,
    ) {
        None
    } else {
        let tenth: int = if decimals.len() > 0 {
            decimals[0] - 0x30
        } else {
            0
        };
        let up: int = if decimals.len() > 1 && decimals[1] >= 0x35 {
            1
        } else {
            0
        };
        let m: int = numbers::decimal(whole) * 10 + tenth + up;
        let v: int = if minus {
            -m
        } else {
            m
        };
        if i16::MIN <= v <= i16::MAX {
            Some(v)
        } else {
            None
        }
    }
}

/// The count that a text writes, if it writes one.
pub open spec fn count_read(s: Seq<u8>) -> Option<i64> {
    match numbers::long_in(s) {
        Some(n) => Some(n as i64),
        None => None,
    }
}

/// The level that a text writes, if it writes one.
pub open spec fn level_read(s: Seq<u8>) -> Option<i16> {
    match level_in(s) {
        Some(n) => Some(n as i16),
        None => None,
    }
}

/// What stands behind the key of a part: the long key or else the letter.
pub open spec fn value_of(part: Seq<u8>, key: Seq<u8>, letter: u8) -> Option<Seq<u8>> {
    if part.len() >= key.len() && part.take(key.len() as int) == key {
        Some(part.skip(key.len() as int))
    } else if part.len() > 0 && part[0] == letter {
        Some(part.skip(1))
    } else {
        None
    }
}

impl MeterReport {
    /// The two counts, with nothing else known.
    pub open spec fn counted(decoded: int, requested: int) -> MeterReport {
        MeterReport {
            decoded_frames: decoded as i32,
            requested_frames: requested as i32,
            fec_corrected_bytes_delta: None,
            lost_adc_samples_delta: None,
            rssi_dbm_tenths: None,
            audio_level_db_tenths: None,
        }
    }

    /// The text of the two counts.
    pub open spec fn counts(self) -> Seq<u8> {
        numbers::signed_digits_of(self.decoded_frames as int) + seq![SLASH]
            + numbers::signed_digits_of(self.requested_frames as int)
    }

    /// The parts of the long form.
    pub open spec fn long_parts(self) -> Seq<Seq<u8>> {
        seq![
            fec_key() + count_or_not(self.fec_corrected_bytes_delta),
            clip_key() + count_or_not(self.lost_adc_samples_delta),
            rssi_key() + level_or_not(self.rssi_dbm_tenths),
            level_key() + level_or_not(self.audio_level_db_tenths),
        ]
    }

    /// The parts of the short form.
    pub open spec fn short_parts(self) -> Seq<Seq<u8>> {
        known_count(0x66, self.fec_corrected_bytes_delta) + known_count(
            0x63,
            self.lost_adc_samples_delta,
        ) + known_level(0x72, self.rssi_dbm_tenths) + known_level(0x6C, self.audio_level_db_tenths)
    }

    /// The long form.
    pub open spec fn long_form(self) -> Seq<u8> {
        self.counts() + joined(self.long_parts())
    }

    /// The short form.
    pub open spec fn short_form(self) -> Seq<u8> {
        self.counts() + joined(self.short_parts())
    }

    /// The pieces of the two counts.
    pub open spec fn counts_pieces(self) -> Seq<Seq<u8>> {
        pieces::signed_pieces(self.decoded_frames as int) + seq![seq![SLASH]]
            + pieces::signed_pieces(self.requested_frames as int)
    }

    /// The pieces of the long form.
    pub open spec fn long_pieces(self) -> Seq<Seq<u8>> {
        self.counts_pieces() + marked(fec_key(), count_pieces(self.fec_corrected_bytes_delta))
            + marked(clip_key(), count_pieces(self.lost_adc_samples_delta)) + marked(
            rssi_key(),
            level_or_not_pieces(self.rssi_dbm_tenths),
        ) + marked(level_key(), level_or_not_pieces(self.audio_level_db_tenths))
    }

    /// The pieces of the short form.
    pub open spec fn short_pieces(self) -> Seq<Seq<u8>> {
        self.counts_pieces() + known_count_pieces(0x66, self.fec_corrected_bytes_delta)
            + known_count_pieces(0x63, self.lost_adc_samples_delta) + known_level_pieces(
            0x72,
            self.rssi_dbm_tenths,
        ) + known_level_pieces(0x6C, self.audio_level_db_tenths)
    }

    /// The report without the level of the audio.
    pub open spec fn quiet(self) -> MeterReport {
        MeterReport { audio_level_db_tenths: None, ..self }
    }

    /// The report with what one part says. `None` if the part has no known key.
    pub open spec fn with_part(self, part: Seq<u8>) -> Option<MeterReport> {
        match value_of(part, fec_key(), 0x66) {
            Some(v) => Some(MeterReport { fec_corrected_bytes_delta: count_read(v), ..self }),
            None => match value_of(part, clip_key(), 0x63) {
                Some(v) => Some(MeterReport { lost_adc_samples_delta: count_read(v), ..self }),
                None => match value_of(part, rssi_key(), 0x72) {
                    Some(v) => Some(MeterReport { rssi_dbm_tenths: level_read(v), ..self }),
                    None => match value_of(part, level_key(), 0x6C) {
                        Some(v) => Some(
                            MeterReport { audio_level_db_tenths: level_read(v), ..self },
                        ),
                        None => None,
                    },
                },
            },
        }
    }

    /// The report with what the parts of a text say. `None` if one has no known key.
    pub open spec fn with_rest(self, rest: Option<Seq<u8>>) -> Option<MeterReport>
        decreases
                match rest {
                    Some(t) => t.len() + 1,
                    None => 0,
                },
    {
        match rest {
            None => Some(self),
            Some(t) => {
                proof {
                    fields::lemma_found(t, BAR, 0);
                }
                match self.with_part(fields::head(t, BAR)) {
                    Some(r) => r.with_rest(fields::tail(t, BAR)),
                    None => None,
                }
            },
        }
    }
}

/// The two counts that a text writes.
pub open spec fn counts_in(s: Seq<u8>) -> Option<(nat, nat)> {
    match fields::tail(s, SLASH) {
        Some(t) => match (
            numbers::number_in(fields::head(s, SLASH), 0x7FFF_FFFF),
            numbers::number_in(t, 0x7FFF_FFFF),
        ) {
            (Some(d), Some(n)) => Some((d, n)),
            _ => None,
        },
        None => None,
    }
}

/// The report that a text writes, in either form.
pub open spec fn report_in(s: Seq<u8>) -> Option<MeterReport> {
    match counts_in(fields::head(s, BAR)) {
        Some((d, n)) => MeterReport::counted(d as int, n as int).with_rest(fields::tail(s, BAR)),
        None => None,
    }
}

/// Whether `s` begins with `key`.
fn begins_with(s: &[u8], key: &[u8]) -> (r: bool)
    ensures
        r == (s@.len() >= key@.len() && s@.take(key@.len() as int) == key@),
{
    if s.len() < key.len() {
        return false;
    }
    let front = slice_subrange(s, 0, key.len());
    assert(front@ =~= s@.take(key@.len() as int));
    same_bytes(front, key)
}

/// What stands behind the key of a part: the long key or else the letter.
fn try_field<'a>(part: &'a [u8], key: &[u8], letter: u8) -> (r: Option<&'a [u8]>)
    ensures
        match r {
            Some(v) => value_of(part@, key@, letter) == Some(v@),
            None => value_of(part@, key@, letter) is None,
        },
{
    if begins_with(part, key) {
        let v = slice_subrange(part, key.len(), part.len());
        assert(v@ =~= part@.skip(key@.len() as int));
        Some(v)
    } else if part.len() > 0 && part[0] == letter {
        let v = slice_subrange(part, 1, part.len());
        assert(v@ =~= part@.skip(1));
        Some(v)
    } else {
        None
    }
}

/// Whether every octet is a digit.
fn digits_only(s: &[u8]) -> (r: bool)
    ensures
        r == numbers::all_digits(s@),
{
    let mut i: usize = 0;
    while i < s.len()
        invariant
            i <= s@.len(),
            forall|j: int| 0 <= j < i ==> numbers::is_digit(#[trigger] s@[j]),
        decreases s@.len() - i,
    {
        if s[i] < 0x30 || s[i] > 0x39 {
            assert(!numbers::is_digit(s@[i as int]));
            return false;
        }
        i = i + 1;
    }
    true
}

/// The level in tenths that a text writes, with a sign and decimals where it has them.
/// Digits behind the first decimal round to the nearest tenth, away from 0 at a half.
/// `None` if there is no digit, if anything else stands there, or if 16 bits are too
/// few.
pub fn parse_db_tenths(text: &str) -> (r: Option<i16>)
    ensures
        match r {
            Some(v) => level_in(text.spec_bytes()) == Some(v as int),
            None => level_in(text.spec_bytes()) is None,
        },
{
    level_of(text.as_bytes())
}

/// The level in tenths that octets write.
fn level_of(s: &[u8]) -> (r: Option<i16>)
    ensures
        match r {
            Some(v) => level_in(s@) == Some(v as int),
            None => level_in(s@) is None,
        },
{
    let minus: bool = s.len() > 0 && s[0] == 0x2D;
    let signed: bool = minus || s.len() > 0 && s[0] == 0x2B;
    let rest = if signed {
        slice_subrange(s, 1, s.len())
    } else {
        s
    };
    assert(signed ==> rest@ =~= s@.skip(1));
    let (whole, behind) = split(rest, DOT);
    let no_decimals: [u8; 0] = [];
    let decimals: &[u8] = match behind {
        Some(t) => t,
        None => no_decimals.as_slice(),
    };
    assert(behind is None ==> decimals@ =~= Seq::<u8>::empty());
    if whole.len() == 0 && decimals.len() == 0 {
        return None;
    }
    if !digits_only(whole) || !digits_only(decimals) {
        return None;
    }
    proof {
        if decimals@.len() > 0 {
            assert(numbers::is_digit(decimals@[0]));
        }
        assert(whole@.len() == 0 ==> numbers::decimal(whole@) == 0);
    }
    let units: u64 = if whole.len() == 0 {
        0
    } else {
        match parse_number(whole, 4000) {
            Some(v) => v,
            None => {
                return None;
            },
        }
    };
    let mut m: i32 = units as i32 * 10;
    if decimals.len() > 0 {
        m = m + (decimals[0] - 0x30) as i32;
    }
    if decimals.len() > 1 && decimals[1] >= 0x35 {
        m = m + 1;
    }
    let v: i32 = if minus {
        -m
    } else {
        m
    };
    if -32768 <= v && v <= 32767 {
        Some(v as i16)
    } else {
        None
    }
}

/// Adds a level with one decimal.
fn push_level(out: &mut Pieces, tenths: i16)
    ensures
        final(out)@ == old(out)@ + level_pieces(tenths as int),
{
    let m: u64 = if tenths < 0 {
        let sign: [u8; 1] = [0x2D];
        assert(sign@ =~= seq![0x2Du8]);
        out.push(sign.as_slice());
        (-(tenths as i32)) as u64
    } else {
        tenths as u64
    };
    let dot: [u8; 1] = [DOT];
    let tenth: [u8; 1] = [0x30 + (m % 10) as u8];
    out.push_digits(m / 10);
    out.push(dot.as_slice());
    out.push(tenth.as_slice());
    proof {
        assert(dot@ =~= seq![DOT]);
        assert(tenth@ =~= seq![(0x30 + m % 10) as u8]);
        assert(out@ =~= old(out)@ + level_pieces(tenths as int));
    }
}

/// Adds that something is not known.
fn push_unknown(out: &mut Pieces)
    ensures
        final(out)@ == old(out)@.push(not_known()),
{
    let na: [u8; 2] = [0x6E, 0x61];
    assert(na@ =~= not_known());
    out.push(na.as_slice());
}

/// Adds the separator and a key.
fn push_key(out: &mut Pieces, key: &[u8])
    ensures
        final(out)@ == old(out)@.push(seq![BAR] + key@),
{
    let mut mark: Vec<u8> = Vec::new();
    mark.push(BAR);
    bytes::append(&mut mark, key);
    assert(mark@ =~= seq![BAR] + key@);
    out.push(mark.as_slice());
}

/// Adds a part of the long form.
fn push_long_count(out: &mut Pieces, key: &[u8], v: Option<i64>)
    ensures
        final(out)@ == old(out)@ + marked(key@, count_pieces(v)),
{
    push_key(out, key);
    match v {
        Some(n) => out.push_signed(n),
        None => push_unknown(out),
    }
    assert(out@ =~= old(out)@ + marked(key@, count_pieces(v)));
}

/// Adds a part of the long form.
fn push_long_level(out: &mut Pieces, key: &[u8], v: Option<i16>)
    ensures
        final(out)@ == old(out)@ + marked(key@, level_or_not_pieces(v)),
{
    push_key(out, key);
    match v {
        Some(n) => push_level(out, n),
        None => push_unknown(out),
    }
    assert(out@ =~= old(out)@ + marked(key@, level_or_not_pieces(v)));
}

/// Adds a part of the short form, if it is known.
fn push_short_count(out: &mut Pieces, letter: u8, v: Option<i64>)
    ensures
        final(out)@ == old(out)@ + known_count_pieces(letter, v),
{
    if let Some(n) = v {
        let key: [u8; 1] = [letter];
        assert(key@ =~= seq![letter]);
        push_key(out, key.as_slice());
        out.push_signed(n);
    }
    assert(out@ =~= old(out)@ + known_count_pieces(letter, v));
}

/// Adds a part of the short form, if it is known.
fn push_short_level(out: &mut Pieces, letter: u8, v: Option<i16>)
    ensures
        final(out)@ == old(out)@ + known_level_pieces(letter, v),
{
    if let Some(n) = v {
        let key: [u8; 1] = [letter];
        assert(key@ =~= seq![letter]);
        push_key(out, key.as_slice());
        push_level(out, n);
    }
    assert(out@ =~= old(out)@ + known_level_pieces(letter, v));
}

/// One more part behind others.
proof fn lemma_joined_push(parts: Seq<Seq<u8>>, part: Seq<u8>)
    ensures
        joined(parts.push(part)) == joined(parts) + seq![BAR] + part,
{
    assert(parts.push(part).drop_last() =~= parts);
}

/// The pieces of a level make the level.
proof fn lemma_level_pieces(tenths: int)
    ensures
        pieces::whole(level_pieces(tenths)) == level_text(tenths),
{
    let m: nat = if tenths < 0 {
        (-tenths) as nat
    } else {
        tenths as nat
    };
    let none: Seq<Seq<u8>> = Seq::empty();
    let sign: Seq<Seq<u8>> = if tenths < 0 {
        none.push(seq![0x2Du8])
    } else {
        none
    };
    let digits: Seq<u8> = numbers::digits_of(m / 10);
    let tenth: Seq<u8> = seq![(0x30 + m % 10) as u8];
    pieces::lemma_whole_of_one(none, seq![0x2Du8]);
    pieces::lemma_whole_of_one(sign, digits);
    pieces::lemma_whole_of_one(sign.push(digits), seq![DOT]);
    pieces::lemma_whole_of_one(sign.push(digits).push(seq![DOT]), tenth);
    assert(level_pieces(tenths) =~= sign.push(digits).push(seq![DOT]).push(tenth));
    assert(pieces::whole(level_pieces(tenths)) =~= level_text(tenths));
}

/// The pieces of a value make the value.
proof fn lemma_value_pieces(count: Option<i64>, level: Option<i16>)
    ensures
        pieces::whole(count_pieces(count)) == count_or_not(count),
        pieces::whole(level_or_not_pieces(level)) == level_or_not(level),
{
    pieces::lemma_whole_of_one(Seq::empty(), not_known());
    if let Some(n) = count {
        pieces::lemma_signed_pieces(n as int);
    }
    if let Some(n) = level {
        lemma_level_pieces(n as int);
    }
}

/// The pieces of one more part make one more part.
proof fn lemma_marked(
    front: Seq<Seq<u8>>,
    counts: Seq<u8>,
    parts: Seq<Seq<u8>>,
    key: Seq<u8>,
    value: Seq<Seq<u8>>,
)
    requires
        pieces::whole(front) == counts + joined(parts),
    ensures
        pieces::whole(front + marked(key, value)) == counts + joined(
            parts.push(key + pieces::whole(value)),
        ),
{
    let mark: Seq<u8> = seq![BAR] + key;
    let text: Seq<u8> = pieces::whole(value);
    pieces::lemma_whole_of_both(front, marked(key, value));
    pieces::lemma_whole_of_both(seq![mark], value);
    pieces::lemma_whole_of_one(Seq::empty(), mark);
    lemma_joined_push(parts, key + text);
    assert(counts + joined(parts) + (mark + text) =~= counts + (joined(parts) + seq![BAR] + (key
        + text)));
}

/// The pieces of the two counts make the counts.
proof fn lemma_counts_pieces(r: MeterReport)
    ensures
        pieces::whole(r.counts_pieces()) == r.counts() + joined(Seq::empty()),
{
    let decoded: Seq<Seq<u8>> = pieces::signed_pieces(r.decoded_frames as int);
    let requested: Seq<Seq<u8>> = pieces::signed_pieces(r.requested_frames as int);
    pieces::lemma_signed_pieces(r.decoded_frames as int);
    pieces::lemma_signed_pieces(r.requested_frames as int);
    pieces::lemma_whole_of_one(decoded, seq![SLASH]);
    assert(decoded + seq![seq![SLASH]] =~= decoded.push(seq![SLASH]));
    pieces::lemma_whole_of_both(decoded + seq![seq![SLASH]], requested);
    assert(r.counts() + joined(Seq::empty()) =~= r.counts());
}

/// The pieces of the long form make the long form.
pub proof fn lemma_long_pieces(r: MeterReport)
    ensures
        pieces::whole(r.long_pieces()) == r.long_form(),
{
    let counts: Seq<u8> = r.counts();
    let none: Seq<Seq<u8>> = Seq::empty();
    let fec: Seq<Seq<u8>> = count_pieces(r.fec_corrected_bytes_delta);
    let clip: Seq<Seq<u8>> = count_pieces(r.lost_adc_samples_delta);
    let rssi: Seq<Seq<u8>> = level_or_not_pieces(r.rssi_dbm_tenths);
    let level: Seq<Seq<u8>> = level_or_not_pieces(r.audio_level_db_tenths);
    let all: Seq<Seq<u8>> = r.long_parts();
    let a: Seq<Seq<u8>> = r.counts_pieces() + marked(fec_key(), fec);
    let b: Seq<Seq<u8>> = a + marked(clip_key(), clip);
    let c: Seq<Seq<u8>> = b + marked(rssi_key(), rssi);
    lemma_value_pieces(r.fec_corrected_bytes_delta, r.rssi_dbm_tenths);
    lemma_value_pieces(r.lost_adc_samples_delta, r.audio_level_db_tenths);
    lemma_counts_pieces(r);
    lemma_marked(r.counts_pieces(), counts, none, fec_key(), fec);
    lemma_marked(a, counts, none.push(all[0]), clip_key(), clip);
    lemma_marked(b, counts, none.push(all[0]).push(all[1]), rssi_key(), rssi);
    lemma_marked(c, counts, none.push(all[0]).push(all[1]).push(all[2]), level_key(), level);
    assert(none.push(all[0]).push(all[1]).push(all[2]).push(all[3]) =~= all);
}

/// The pieces of one more part of the short form, if it is known, make one more part.
proof fn lemma_known_count(
    front: Seq<Seq<u8>>,
    counts: Seq<u8>,
    parts: Seq<Seq<u8>>,
    letter: u8,
    v: Option<i64>,
)
    requires
        pieces::whole(front) == counts + joined(parts),
    ensures
        pieces::whole(front + known_count_pieces(letter, v)) == counts + joined(
            parts + known_count(letter, v),
        ),
{
    match v {
        Some(n) => {
            let part: Seq<u8> = seq![letter] + numbers::signed_digits_of(n as int);
            pieces::lemma_signed_pieces(n as int);
            lemma_marked(front, counts, parts, seq![letter], pieces::signed_pieces(n as int));
            assert(parts + known_count(letter, v) =~= parts.push(part));
        },
        None => {
            assert(front + known_count_pieces(letter, v) =~= front);
            assert(parts + known_count(letter, v) =~= parts);
        },
    }
}

/// The pieces of one more part of the short form, if it is known, make one more part.
proof fn lemma_known_level(
    front: Seq<Seq<u8>>,
    counts: Seq<u8>,
    parts: Seq<Seq<u8>>,
    letter: u8,
    v: Option<i16>,
)
    requires
        pieces::whole(front) == counts + joined(parts),
    ensures
        pieces::whole(front + known_level_pieces(letter, v)) == counts + joined(
            parts + known_level(letter, v),
        ),
{
    match v {
        Some(n) => {
            let part: Seq<u8> = seq![letter] + level_text(n as int);
            lemma_level_pieces(n as int);
            lemma_marked(front, counts, parts, seq![letter], level_pieces(n as int));
            assert(parts + known_level(letter, v) =~= parts.push(part));
        },
        None => {
            assert(front + known_level_pieces(letter, v) =~= front);
            assert(parts + known_level(letter, v) =~= parts);
        },
    }
}

/// The pieces of the short form make the short form.
pub proof fn lemma_short_pieces(r: MeterReport)
    ensures
        pieces::whole(r.short_pieces()) == r.short_form(),
{
    let counts: Seq<u8> = r.counts();
    let none: Seq<Seq<u8>> = Seq::empty();
    let fec: Option<i64> = r.fec_corrected_bytes_delta;
    let clip: Option<i64> = r.lost_adc_samples_delta;
    let rssi: Option<i16> = r.rssi_dbm_tenths;
    let level: Option<i16> = r.audio_level_db_tenths;
    let a: Seq<Seq<u8>> = r.counts_pieces() + known_count_pieces(0x66, fec);
    let b: Seq<Seq<u8>> = a + known_count_pieces(0x63, clip);
    let c: Seq<Seq<u8>> = b + known_level_pieces(0x72, rssi);
    let one: Seq<Seq<u8>> = none + known_count(0x66, fec);
    let two: Seq<Seq<u8>> = one + known_count(0x63, clip);
    let three: Seq<Seq<u8>> = two + known_level(0x72, rssi);
    lemma_counts_pieces(r);
    lemma_known_count(r.counts_pieces(), counts, none, 0x66, fec);
    lemma_known_count(a, counts, one, 0x63, clip);
    lemma_known_level(b, counts, two, 0x72, rssi);
    lemma_known_level(c, counts, three, 0x6C, level);
    assert(three + known_level(0x6C, level) =~= r.short_parts());
}

impl MeterReport {
    /// A report.
    pub fn new(
        decoded_frames: i32,
        requested_frames: i32,
        fec_corrected_bytes_delta: Option<i64>,
        lost_adc_samples_delta: Option<i64>,
        rssi_dbm_tenths: Option<i16>,
        audio_level_db_tenths: Option<i16>,
    ) -> (r: MeterReport)
        ensures
            r == (MeterReport {
                decoded_frames,
                requested_frames,
                fec_corrected_bytes_delta,
                lost_adc_samples_delta,
                rssi_dbm_tenths,
                audio_level_db_tenths,
            }),
    {
        MeterReport {
            decoded_frames,
            requested_frames,
            fec_corrected_bytes_delta,
            lost_adc_samples_delta,
            rssi_dbm_tenths,
            audio_level_db_tenths,
        }
    }

    /// How many of a thousand frames were decoded, 0 if none were asked for. What does
    /// not fit 32 bits is cut off.
    pub fn decode_rate_permille(&self) -> (r: u32)
        ensures
            r == if self.requested_frames > 0 && self.decoded_frames > 0 {
                (self.decoded_frames as int * 1000 / self.requested_frames as int) as u32
            } else {
                0
            },
    {
        if self.requested_frames > 0 && self.decoded_frames > 0 {
            let rate: u64 = self.decoded_frames as u64 * 1000 / self.requested_frames as u64;
            #[verifier::truncate]
            (rate as u32)
        } else {
            0
        }
    }

    /// The report without the level of the audio.
    pub fn without_audio_level(&self) -> (r: MeterReport)
        ensures
            r == self.quiet(),
    {
        MeterReport {
            decoded_frames: self.decoded_frames,
            requested_frames: self.requested_frames,
            fec_corrected_bytes_delta: self.fec_corrected_bytes_delta,
            lost_adc_samples_delta: self.lost_adc_samples_delta,
            rssi_dbm_tenths: self.rssi_dbm_tenths,
            audio_level_db_tenths: None,
        }
    }

    /// The pieces of the two counts.
    fn counts_in_pieces(&self) -> (r: Pieces)
        ensures
            r@ == self.counts_pieces(),
    {
        let slash: [u8; 1] = [SLASH];
        assert(slash@ =~= seq![SLASH]);
        let mut out = Pieces::new();
        out.push_signed(self.decoded_frames as i64);
        out.push(slash.as_slice());
        out.push_signed(self.requested_frames as i64);
        assert(out@ =~= self.counts_pieces());
        out
    }

    /// The pieces of the long form.
    fn args_pieces(&self) -> (r: Pieces)
        ensures
            r@ == self.long_pieces(),
    {
        let fec: [u8; 4] = [0x66, 0x65, 0x63, 0x3A];
        let clip: [u8; 5] = [0x63, 0x6C, 0x69, 0x70, 0x3A];
        let rssi: [u8; 5] = [0x72, 0x73, 0x73, 0x69, 0x3A];
        let level: [u8; 4] = [0x6C, 0x76, 0x6C, 0x3A];
        proof {
            assert(fec@ =~= fec_key());
            assert(clip@ =~= clip_key());
            assert(rssi@ =~= rssi_key());
            assert(level@ =~= level_key());
        }
        let mut out = self.counts_in_pieces();
        push_long_count(&mut out, fec.as_slice(), self.fec_corrected_bytes_delta);
        push_long_count(&mut out, clip.as_slice(), self.lost_adc_samples_delta);
        push_long_level(&mut out, rssi.as_slice(), self.rssi_dbm_tenths);
        push_long_level(&mut out, level.as_slice(), self.audio_level_db_tenths);
        out
    }

    /// The pieces of the short form.
    pub fn compact_pieces(&self) -> (r: Pieces)
        ensures
            r@ == self.short_pieces(),
    {
        let mut out = self.counts_in_pieces();
        push_short_count(&mut out, 0x66, self.fec_corrected_bytes_delta);
        push_short_count(&mut out, 0x63, self.lost_adc_samples_delta);
        push_short_level(&mut out, 0x72, self.rssi_dbm_tenths);
        push_short_level(&mut out, 0x6C, self.audio_level_db_tenths);
        out
    }

    /// The long form.
    fn args_octets(&self) -> (r: Vec<u8>)
        ensures
            r@ == self.long_form(),
    {
        proof {
            lemma_long_pieces(*self);
        }
        self.args_pieces().text()
    }

    /// The short form.
    pub fn compact_octets(&self) -> (r: Vec<u8>)
        ensures
            r@ == self.short_form(),
    {
        proof {
            lemma_short_pieces(*self);
        }
        self.compact_pieces().text()
    }

    /// Writes the long form over the front of `buf`, piece by piece. `None` if `buf` is
    /// too short: the pieces that fit have been written by then.
    pub fn to_args_into(&self, buf: &mut [u8]) -> (r: Option<usize>)
        ensures
            pieces::went_in(old(buf)@, final(buf)@, self.long_pieces(), r),
            pieces::whole(self.long_pieces()) == self.long_form(),
    {
        proof {
            lemma_long_pieces(*self);
        }
        self.args_pieces().put(buf)
    }

    /// Writes the short form over the front of `buf`, piece by piece. `None` if `buf` is
    /// too short: the pieces that fit have been written by then.
    pub fn to_compact_args_into(&self, buf: &mut [u8]) -> (r: Option<usize>)
        ensures
            pieces::went_in(old(buf)@, final(buf)@, self.short_pieces(), r),
            pieces::whole(self.short_pieces()) == self.short_form(),
    {
        proof {
            lemma_short_pieces(*self);
        }
        self.compact_pieces().put(buf)
    }

    /// The long form.
    pub fn to_args(&self) -> (r: String)
        ensures
            vstd::utf8::encode_utf8(r@) == self.long_form(),
    {
        let v = self.args_octets();
        proof {
            lemma_forms_are_ascii(*self);
            text::lemma_ascii_is_utf8(v@);
        }
        string_of(v.as_slice())
    }

    /// The short form.
    pub fn to_compact_args(&self) -> (r: String)
        ensures
            vstd::utf8::encode_utf8(r@) == self.short_form(),
    {
        let v = self.compact_octets();
        proof {
            lemma_forms_are_ascii(*self);
            text::lemma_ascii_is_utf8(v@);
        }
        string_of(v.as_slice())
    }

    /// Reads a report in either form. What is missing is not known. `None` if the counts
    /// are not two numbers or a part has no known key.
    pub fn try_parse(args: &str) -> (r: Option<MeterReport>)
        ensures
            r == report_in(args.spec_bytes()),
    {
        MeterReport::from_octets(args.as_bytes())
    }

    /// Reads a report in either form.
    fn from_octets(s: &[u8]) -> (r: Option<MeterReport>)
        ensures
            r == report_in(s@),
    {
        let (counts, behind) = split(s, BAR);
        let (decoded, requested) = match split(counts, SLASH) {
            (d, Some(n)) => match (parse_nonneg_i32(d), parse_nonneg_i32(n)) {
                (Some(d), Some(n)) => (d, n),
                _ => {
                    return None;
                },
            },
            _ => {
                return None;
            },
        };
        let mut report = MeterReport::new(decoded, requested, None, None, None, None);
        let mut rest = behind;
        let ghost start: MeterReport = report;
        let ghost all: Option<Seq<u8>> = fields::tail(s@, BAR);
        loop
            invariant
                start.with_rest(all) == report_in(s@),
                report.with_rest(
                    match rest {
                        Some(t) => Some(t@),
                        None => None,
                    },
                ) == start.with_rest(all),
            decreases
                    match rest {
                        Some(t) => t@.len() + 1,
                        None => 0,
                    },
        {
            match rest {
                None => {
                    return Some(report);
                },
                Some(t) => {
                    let (part, more) = split(t, BAR);
                    match report.read_part(part) {
                        Some(r) => {
                            report = r;
                        },
                        None => {
                            return None;
                        },
                    }
                    rest = more;
                },
            }
        }
    }

    /// The report with what one part says.
    fn read_part(&self, part: &[u8]) -> (r: Option<MeterReport>)
        ensures
            r == self.with_part(part@),
    {
        let fec: [u8; 4] = [0x66, 0x65, 0x63, 0x3A];
        let clip: [u8; 5] = [0x63, 0x6C, 0x69, 0x70, 0x3A];
        let rssi: [u8; 5] = [0x72, 0x73, 0x73, 0x69, 0x3A];
        let level: [u8; 4] = [0x6C, 0x76, 0x6C, 0x3A];
        proof {
            assert(fec@ =~= fec_key());
            assert(clip@ =~= clip_key());
            assert(rssi@ =~= rssi_key());
            assert(level@ =~= level_key());
        }
        let mut report: MeterReport = *self;
        match try_field(part, fec.as_slice(), 0x66) {
            Some(v) => {
                report.fec_corrected_bytes_delta = parse_long(v);
                return Some(report);
            },
            None => {},
        }
        match try_field(part, clip.as_slice(), 0x63) {
            Some(v) => {
                report.lost_adc_samples_delta = parse_long(v);
                return Some(report);
            },
            None => {},
        }
        match try_field(part, rssi.as_slice(), 0x72) {
            Some(v) => {
                report.rssi_dbm_tenths = level_of(v);
                return Some(report);
            },
            None => {},
        }
        match try_field(part, level.as_slice(), 0x6C) {
            Some(v) => {
                report.audio_level_db_tenths = level_of(v);
                Some(report)
            },
            None => None,
        }
    }
}

/// Every octet is below 128, and none is the separator.
pub open spec fn is_plain(s: Seq<u8>) -> bool {
    forall|i: int| 0 <= i < s.len() ==> (#[trigger] s[i] < 128 && s[i] != BAR)
}

proof fn lemma_number_texts_are_plain(n: int)
    ensures
        is_plain(numbers::signed_digits_of(n)),
        is_plain(level_text(n)),
        numbers::signed_digits_of(n).len() > 0,
        level_text(n).len() > 0,
        numbers::is_digit(numbers::signed_digits_of(n)[0]) || numbers::signed_digits_of(n)[0]
            == 0x2D,
        numbers::is_digit(level_text(n)[0]) || level_text(n)[0] == 0x2D,
{
    numbers::lemma_signed_octets(n);
    let m: nat = if n < 0 {
        (-n) as nat
    } else {
        n as nat
    };
    let d: Seq<u8> = numbers::digits_of(m / 10);
    numbers::law_digits_round_trip(m / 10);
    let sign: int = if n < 0 {
        1
    } else {
        0
    };
    let t: Seq<u8> = level_text(n);
    assert(t.len() == sign + d.len() + 2);
    assert forall|i: int| 0 <= i < t.len() implies (#[trigger] t[i] < 128 && t[i] != BAR) by {
        if sign <= i < sign + d.len() {
            assert(numbers::is_digit(d[i - sign]));
        }
    }
    if n >= 0 {
        assert(t[0] == d[0]);
        assert(numbers::is_digit(d[0]));
    }
    assert forall|i: int| 0 <= i < numbers::signed_digits_of(n).len() implies (
    #[trigger] numbers::signed_digits_of(n)[i] < 128 && numbers::signed_digits_of(n)[i]
        != BAR) by {
        assert(numbers::is_digit(numbers::signed_digits_of(n)[i]) || numbers::signed_digits_of(
            n,
        )[i] == 0x2D);
    }
    assert(numbers::is_digit(numbers::signed_digits_of(n)[0]) || numbers::signed_digits_of(n)[0]
        == 0x2D);
}

proof fn lemma_joined_is_ascii(parts: Seq<Seq<u8>>)
    requires
        forall|k: int| 0 <= k < parts.len() ==> is_plain(#[trigger] parts[k]),
    ensures
        forall|i: int| 0 <= i < joined(parts).len() ==> #[trigger] joined(parts)[i] < 128,
    decreases parts.len(),
{
    if parts.len() > 0 {
        let front: Seq<Seq<u8>> = parts.drop_last();
        assert forall|k: int| 0 <= k < front.len() implies is_plain(#[trigger] front[k]) by {
            assert(is_plain(parts[k]));
        }
        lemma_joined_is_ascii(front);
        let last: Seq<u8> = parts.last();
        assert(is_plain(parts[parts.len() - 1]));
        assert forall|i: int| 0 <= i < joined(parts).len() implies #[trigger] joined(parts)[i]
            < 128 by {
            let n: int = joined(front).len() as int;
            if i < n {
                assert(joined(front)[i] < 128);
            } else if i > n {
                assert(last[i - n - 1] < 128);
            }
        }
    }
}

/// The parts of either form are plain.
proof fn lemma_parts_are_plain(r: MeterReport)
    ensures
        forall|k: int| 0 <= k < r.long_parts().len() ==> is_plain(#[trigger] r.long_parts()[k]),
        forall|k: int| 0 <= k < r.short_parts().len() ==> is_plain(#[trigger] r.short_parts()[k]),
{
    if r.fec_corrected_bytes_delta is Some {
        lemma_number_texts_are_plain(r.fec_corrected_bytes_delta->0 as int);
    }
    if r.lost_adc_samples_delta is Some {
        lemma_number_texts_are_plain(r.lost_adc_samples_delta->0 as int);
    }
    if r.rssi_dbm_tenths is Some {
        lemma_number_texts_are_plain(r.rssi_dbm_tenths->0 as int);
    }
    if r.audio_level_db_tenths is Some {
        lemma_number_texts_are_plain(r.audio_level_db_tenths->0 as int);
    }
    assert(is_plain(not_known()));
    lemma_joins_plain(fec_key(), count_or_not(r.fec_corrected_bytes_delta));
    lemma_joins_plain(clip_key(), count_or_not(r.lost_adc_samples_delta));
    lemma_joins_plain(rssi_key(), level_or_not(r.rssi_dbm_tenths));
    lemma_joins_plain(level_key(), level_or_not(r.audio_level_db_tenths));
    assert forall|k: int| 0 <= k < r.long_parts().len() implies is_plain(
        #[trigger] r.long_parts()[k],
    ) by {
        assert(k == 0 || k == 1 || k == 2 || k == 3);
    }
    let a: Seq<Seq<u8>> = known_count(0x66, r.fec_corrected_bytes_delta);
    let b: Seq<Seq<u8>> = known_count(0x63, r.lost_adc_samples_delta);
    let c: Seq<Seq<u8>> = known_level(0x72, r.rssi_dbm_tenths);
    let d: Seq<Seq<u8>> = known_level(0x6C, r.audio_level_db_tenths);
    assert(a.len() > 0 ==> is_plain(a[0])) by {
        if a.len() > 0 {
            lemma_joins_plain(seq![0x66u8], count_or_not(r.fec_corrected_bytes_delta));
        }
    }
    assert(b.len() > 0 ==> is_plain(b[0])) by {
        if b.len() > 0 {
            lemma_joins_plain(seq![0x63u8], count_or_not(r.lost_adc_samples_delta));
        }
    }
    assert(c.len() > 0 ==> is_plain(c[0])) by {
        if c.len() > 0 {
            lemma_joins_plain(seq![0x72u8], level_or_not(r.rssi_dbm_tenths));
        }
    }
    assert(d.len() > 0 ==> is_plain(d[0])) by {
        if d.len() > 0 {
            lemma_joins_plain(seq![0x6Cu8], level_or_not(r.audio_level_db_tenths));
        }
    }
    assert forall|k: int| 0 <= k < r.short_parts().len() implies is_plain(
        #[trigger] r.short_parts()[k],
    ) by {
        let p: Seq<u8> = (a + b + c + d)[k];
        assert(p == a[0] && a.len() > 0 || p == b[0] && b.len() > 0 || p == c[0] && c.len() > 0
            || p == d[0] && d.len() > 0);
    }
}

proof fn lemma_joins_plain(a: Seq<u8>, b: Seq<u8>)
    requires
        is_plain(a),
        is_plain(b),
    ensures
        is_plain(a + b),
{
    assert forall|i: int| 0 <= i < (a + b).len() implies (#[trigger] (a + b)[i] < 128 && (a + b)[i]
        != BAR) by {
        if i < a.len() {
            assert(a[i] < 128);
        } else {
            assert(b[i - a.len()] < 128);
        }
    }
}

proof fn lemma_counts_are_plain(r: MeterReport)
    ensures
        is_plain(r.counts()),
{
    lemma_number_texts_are_plain(r.decoded_frames as int);
    lemma_number_texts_are_plain(r.requested_frames as int);
    lemma_joins_plain(numbers::signed_digits_of(r.decoded_frames as int), seq![SLASH]);
    lemma_joins_plain(
        numbers::signed_digits_of(r.decoded_frames as int) + seq![SLASH],
        numbers::signed_digits_of(r.requested_frames as int),
    );
}

/// Both forms are ASCII.
pub proof fn lemma_forms_are_ascii(r: MeterReport)
    ensures
        forall|i: int| 0 <= i < r.long_form().len() ==> #[trigger] r.long_form()[i] < 128,
        forall|i: int| 0 <= i < r.short_form().len() ==> #[trigger] r.short_form()[i] < 128,
{
    lemma_counts_are_plain(r);
    lemma_parts_are_plain(r);
    lemma_joined_is_ascii(r.long_parts());
    lemma_joined_is_ascii(r.short_parts());
    let n: int = r.counts().len() as int;
    assert forall|i: int| 0 <= i < r.long_form().len() implies #[trigger] r.long_form()[i]
        < 128 by {
        if i < n {
            assert(r.counts()[i] < 128);
        } else {
            assert(joined(r.long_parts())[i - n] < 128);
        }
    }
    assert forall|i: int| 0 <= i < r.short_form().len() implies #[trigger] r.short_form()[i]
        < 128 by {
        if i < n {
            assert(r.counts()[i] < 128);
        } else {
            assert(joined(r.short_parts())[i - n] < 128);
        }
    }
}

proof fn lemma_joined_front(parts: Seq<Seq<u8>>)
    requires
        parts.len() > 0,
    ensures
        joined(parts) == seq![BAR] + parts[0] + joined(parts.drop_first()),
    decreases parts.len(),
{
    if parts.len() == 1 {
        assert(parts.drop_last() =~= Seq::<Seq<u8>>::empty());
        assert(parts.drop_first() =~= Seq::<Seq<u8>>::empty());
        assert(joined(parts) =~= seq![BAR] + parts[0] + joined(parts.drop_first()));
    } else {
        let front: Seq<Seq<u8>> = parts.drop_last();
        lemma_joined_front(front);
        assert(parts.drop_first().drop_last() =~= front.drop_first());
        assert(parts.drop_first().last() == parts.last());
        assert(joined(parts) =~= seq![BAR] + parts[0] + joined(parts.drop_first()));
    }
}

/// The report with what each of some parts says.
spec fn reads(r: MeterReport, parts: Seq<Seq<u8>>) -> Option<MeterReport>
    decreases parts.len(),
{
    if parts.len() == 0 {
        Some(r)
    } else {
        match r.with_part(parts[0]) {
            Some(next) => reads(next, parts.drop_first()),
            None => None,
        }
    }
}

proof fn lemma_reads_joined(r: MeterReport, field: Seq<u8>, parts: Seq<Seq<u8>>)
    requires
        is_plain(field),
        forall|k: int| 0 <= k < parts.len() ==> is_plain(#[trigger] parts[k]),
    ensures
        fields::head(field + joined(parts), BAR) == field,
        r.with_rest(fields::tail(field + joined(parts), BAR)) == reads(r, parts),
    decreases parts.len(),
{
    assert(fields::is_free_of(field, BAR));
    if parts.len() == 0 {
        assert(field + joined(parts) =~= field);
        fields::lemma_no_tail(field, BAR);
    } else {
        let rest: Seq<Seq<u8>> = parts.drop_first();
        let t: Seq<u8> = parts[0] + joined(rest);
        lemma_joined_front(parts);
        assert(field + joined(parts) =~= field.push(BAR) + t);
        fields::lemma_head_and_tail(field, BAR, t);
        assert(is_plain(parts[0]));
        assert forall|k: int| 0 <= k < rest.len() implies is_plain(#[trigger] rest[k]) by {
            assert(is_plain(parts[k + 1]));
        }
        lemma_reads_joined(r, parts[0], rest);
        let next: Option<MeterReport> = r.with_part(parts[0]);
        if next is Some {
            lemma_reads_joined(next->0, parts[0], rest);
        }
    }
}

/// A level is read back from the text that it is written as.
pub proof fn law_level_round_trip(tenths: i16)
    ensures
        level_in(level_text(tenths as int)) == Some(tenths as int),
{
    let n: int = tenths as int;
    let m: nat = if n < 0 {
        (-n) as nat
    } else {
        n as nat
    };
    let d: Seq<u8> = numbers::digits_of(m / 10);
    let tenth: Seq<u8> = seq![(0x30 + m % 10) as u8];
    numbers::law_digits_round_trip(m / 10);
    let t: Seq<u8> = level_text(n);
    let rest: Seq<u8> = d.push(DOT) + tenth;
    if n < 0 {
        assert(t.skip(1) =~= rest);
    } else {
        assert(t =~= rest);
        assert(numbers::is_digit(d[0]));
        assert(t[0] == d[0]);
    }
    assert(fields::is_free_of(d, DOT)) by {
        assert forall|i: int| 0 <= i < d.len() implies #[trigger] d[i] != DOT by {
            assert(numbers::is_digit(d[i]));
        }
    }
    fields::lemma_head_and_tail(d, DOT, tenth);
}

proof fn lemma_unknown_reads_as_unknown()
    ensures
        count_read(not_known()) is None,
        level_read(not_known()) is None,
{
    let s: Seq<u8> = not_known();
    assert(!numbers::is_digit(s[0]));
    assert(fields::is_free_of(s, DOT));
    fields::lemma_no_tail(s, DOT);
}

proof fn lemma_values_read_back(fec: Option<i64>, level: Option<i16>)
    ensures
        count_read(count_or_not(fec)) == fec,
        level_read(level_or_not(level)) == level,
{
    lemma_unknown_reads_as_unknown();
    if fec is Some {
        numbers::law_signed_round_trip(fec->0 as int, i64::MIN as int, i64::MAX as int);
    }
    if level is Some {
        law_level_round_trip(level->0);
    }
}

/// A part of the long form is read by its key.
proof fn lemma_long_part(r: MeterReport, v: Seq<u8>)
    ensures
        r.with_part(fec_key() + v) == Some(
            MeterReport { fec_corrected_bytes_delta: count_read(v), ..r },
        ),
        r.with_part(clip_key() + v) == Some(
            MeterReport { lost_adc_samples_delta: count_read(v), ..r },
        ),
        r.with_part(rssi_key() + v) == Some(MeterReport { rssi_dbm_tenths: level_read(v), ..r }),
        r.with_part(level_key() + v) == Some(
            MeterReport { audio_level_db_tenths: level_read(v), ..r },
        ),
{
    let a: Seq<u8> = fec_key() + v;
    let b: Seq<u8> = clip_key() + v;
    let c: Seq<u8> = rssi_key() + v;
    let d: Seq<u8> = level_key() + v;
    assert(a.take(4) =~= fec_key() && a.skip(4) =~= v);
    assert(b.take(5) =~= clip_key() && b.skip(5) =~= v);
    assert(c.take(5) =~= rssi_key() && c.skip(5) =~= v);
    assert(d.take(4) =~= level_key() && d.skip(4) =~= v);
    assert(b[0] == 0x63 && c[0] == 0x72 && d[0] == 0x6C);
    assert(b.take(4)[0] == 0x63 && c.take(4)[0] == 0x72 && d.take(4)[0] == 0x6C);
    assert(c.take(5)[0] == 0x72);
    assert(d.len() >= 5 ==> d.take(5)[0] == 0x6C);
    assert(fec_key()[0] == 0x66 && clip_key()[0] == 0x63 && rssi_key()[0] == 0x72);
}

/// A part of the short form is read by its letter.
proof fn lemma_short_part(r: MeterReport, v: Seq<u8>)
    requires
        v.len() > 0,
        numbers::is_digit(v[0]) || v[0] == 0x2D,
    ensures
        r.with_part(seq![0x66u8] + v) == Some(
            MeterReport { fec_corrected_bytes_delta: count_read(v), ..r },
        ),
        r.with_part(seq![0x63u8] + v) == Some(
            MeterReport { lost_adc_samples_delta: count_read(v), ..r },
        ),
        r.with_part(seq![0x72u8] + v) == Some(MeterReport { rssi_dbm_tenths: level_read(v), ..r }),
        r.with_part(seq![0x6Cu8] + v) == Some(
            MeterReport { audio_level_db_tenths: level_read(v), ..r },
        ),
{
    lemma_no_long_key(seq![0x66u8] + v);
    lemma_no_long_key(seq![0x63u8] + v);
    lemma_no_long_key(seq![0x72u8] + v);
    lemma_no_long_key(seq![0x6Cu8] + v);
    assert((seq![0x66u8] + v).skip(1) =~= v);
    assert((seq![0x63u8] + v).skip(1) =~= v);
    assert((seq![0x72u8] + v).skip(1) =~= v);
    assert((seq![0x6Cu8] + v).skip(1) =~= v);
}

proof fn lemma_no_long_key(p: Seq<u8>)
    requires
        p.len() > 1,
        numbers::is_digit(p[1]) || p[1] == 0x2D,
    ensures
        p.len() >= 4 ==> p.take(4) != fec_key() && p.take(4) != level_key(),
        p.len() >= 5 ==> p.take(5) != clip_key() && p.take(5) != rssi_key(),
{
    assert(fec_key()[1] == 0x65 && clip_key()[1] == 0x6C && rssi_key()[1] == 0x73
        && level_key()[1] == 0x76);
    if p.len() >= 4 {
        assert(p.take(4)[1] == p[1]);
    }
    if p.len() >= 5 {
        assert(p.take(5)[1] == p[1]);
    }
}

/// The counts of a report that has no negative one are read back.
proof fn lemma_counts_read_back(r: MeterReport)
    requires
        r.decoded_frames >= 0,
        r.requested_frames >= 0,
    ensures
        counts_in(r.counts()) == Some((r.decoded_frames as nat, r.requested_frames as nat)),
{
    let d: Seq<u8> = numbers::digits_of(r.decoded_frames as nat);
    let n: Seq<u8> = numbers::digits_of(r.requested_frames as nat);
    numbers::law_digits_round_trip(r.decoded_frames as nat);
    numbers::law_digits_round_trip(r.requested_frames as nat);
    assert(r.counts() =~= d.push(SLASH) + n);
    assert(fields::is_free_of(d, SLASH)) by {
        assert forall|i: int| 0 <= i < d.len() implies #[trigger] d[i] != SLASH by {
            assert(numbers::is_digit(d[i]));
        }
    }
    fields::lemma_head_and_tail(d, SLASH, n);
}

/// Reading an optional part in front of others.
proof fn lemma_reads_first(r: MeterReport, one: Seq<Seq<u8>>, rest: Seq<Seq<u8>>)
    requires
        one.len() <= 1,
    ensures
        one.len() == 0 ==> reads(r, one + rest) == reads(r, rest),
        one.len() == 1 ==> reads(r, one + rest) == (match r.with_part(one[0]) {
            Some(next) => reads(next, rest),
            None => None,
        }),
{
    if one.len() == 0 {
        assert(one + rest =~= rest);
    } else {
        assert((one + rest).drop_first() =~= rest);
    }
}

/// The parts of the long form are read back.
proof fn lemma_long_parts_read_back(r: MeterReport, start: MeterReport)
    requires
        start.decoded_frames == r.decoded_frames,
        start.requested_frames == r.requested_frames,
    ensures
        reads(start, r.long_parts()) == Some(r),
{
    let fec: Seq<u8> = count_or_not(r.fec_corrected_bytes_delta);
    let clip: Seq<u8> = count_or_not(r.lost_adc_samples_delta);
    let rssi: Seq<u8> = level_or_not(r.rssi_dbm_tenths);
    let level: Seq<u8> = level_or_not(r.audio_level_db_tenths);
    lemma_values_read_back(r.fec_corrected_bytes_delta, r.rssi_dbm_tenths);
    lemma_values_read_back(r.lost_adc_samples_delta, r.audio_level_db_tenths);
    let r1: MeterReport = MeterReport {
        fec_corrected_bytes_delta: r.fec_corrected_bytes_delta,
        ..start
    };
    let r2: MeterReport = MeterReport { lost_adc_samples_delta: r.lost_adc_samples_delta, ..r1 };
    let r3: MeterReport = MeterReport { rssi_dbm_tenths: r.rssi_dbm_tenths, ..r2 };
    assert(start.with_part(fec_key() + fec) == Some(r1)) by {
        lemma_long_part(start, fec);
    }
    assert(r1.with_part(clip_key() + clip) == Some(r2)) by {
        lemma_long_part(r1, clip);
    }
    assert(r2.with_part(rssi_key() + rssi) == Some(r3)) by {
        lemma_long_part(r2, rssi);
    }
    assert(r3.with_part(level_key() + level) == Some(r)) by {
        lemma_long_part(r3, level);
    }
    lemma_reads_four(
        start,
        r1,
        r2,
        r3,
        r,
        fec_key() + fec,
        clip_key() + clip,
        rssi_key() + rssi,
        level_key() + level,
    );
}

/// Reading four parts.
proof fn lemma_reads_four(
    r0: MeterReport,
    r1: MeterReport,
    r2: MeterReport,
    r3: MeterReport,
    r4: MeterReport,
    a: Seq<u8>,
    b: Seq<u8>,
    c: Seq<u8>,
    d: Seq<u8>,
)
    requires
        r0.with_part(a) == Some(r1),
        r1.with_part(b) == Some(r2),
        r2.with_part(c) == Some(r3),
        r3.with_part(d) == Some(r4),
    ensures
        reads(r0, seq![a, b, c, d]) == Some(r4),
{
    let none: Seq<Seq<u8>> = Seq::empty();
    assert(seq![a, b, c, d] =~= seq![a] + (seq![b] + (seq![c] + (seq![d] + none))));
    lemma_reads_first(r0, seq![a], seq![b] + (seq![c] + (seq![d] + none)));
    lemma_reads_first(r1, seq![b], seq![c] + (seq![d] + none));
    lemma_reads_first(r2, seq![c], seq![d] + none);
    lemma_reads_first(r3, seq![d], none);
}

/// A report whose counts are not negative is read back from its long form.
pub proof fn law_long_form_round_trip(r: MeterReport)
    requires
        r.decoded_frames >= 0,
        r.requested_frames >= 0,
    ensures
        report_in(r.long_form()) == Some(r),
{
    let start: MeterReport = MeterReport::counted(
        r.decoded_frames as int,
        r.requested_frames as int,
    );
    lemma_counts_are_plain(r);
    lemma_counts_read_back(r);
    lemma_parts_are_plain(r);
    lemma_reads_joined(start, r.counts(), r.long_parts());
    lemma_long_parts_read_back(r, start);
}

/// A report whose counts are not negative is read back from its short form.
pub proof fn law_short_form_round_trip(r: MeterReport)
    requires
        r.decoded_frames >= 0,
        r.requested_frames >= 0,
    ensures
        report_in(r.short_form()) == Some(r),
{
    let start: MeterReport = MeterReport::counted(
        r.decoded_frames as int,
        r.requested_frames as int,
    );
    lemma_counts_are_plain(r);
    lemma_counts_read_back(r);
    lemma_parts_are_plain(r);
    lemma_reads_joined(start, r.counts(), r.short_parts());
    lemma_values_read_back(r.fec_corrected_bytes_delta, r.rssi_dbm_tenths);
    lemma_values_read_back(r.lost_adc_samples_delta, r.audio_level_db_tenths);
    let r1: MeterReport = MeterReport {
        fec_corrected_bytes_delta: r.fec_corrected_bytes_delta,
        ..start
    };
    let r2: MeterReport = MeterReport { lost_adc_samples_delta: r.lost_adc_samples_delta, ..r1 };
    let r3: MeterReport = MeterReport { rssi_dbm_tenths: r.rssi_dbm_tenths, ..r2 };
    let a: Seq<Seq<u8>> = known_count(0x66, r.fec_corrected_bytes_delta);
    let b: Seq<Seq<u8>> = known_count(0x63, r.lost_adc_samples_delta);
    let c: Seq<Seq<u8>> = known_level(0x72, r.rssi_dbm_tenths);
    let d: Seq<Seq<u8>> = known_level(0x6C, r.audio_level_db_tenths);
    let none: Seq<Seq<u8>> = Seq::empty();
    assert(r.short_parts() =~= a + (b + (c + (d + none))));
    assert(reads(r, none) == Some(r));
    lemma_reads_first(start, a, b + (c + (d + none)));
    lemma_reads_first(r1, b, c + (d + none));
    lemma_reads_first(r2, c, d + none);
    lemma_reads_first(r3, d, none);
    if r.fec_corrected_bytes_delta is Some {
        lemma_number_texts_are_plain(r.fec_corrected_bytes_delta->0 as int);
        lemma_short_part(start, count_or_not(r.fec_corrected_bytes_delta));
    }
    if r.lost_adc_samples_delta is Some {
        lemma_number_texts_are_plain(r.lost_adc_samples_delta->0 as int);
        lemma_short_part(r1, count_or_not(r.lost_adc_samples_delta));
    }
    if r.rssi_dbm_tenths is Some {
        lemma_number_texts_are_plain(r.rssi_dbm_tenths->0 as int);
        lemma_short_part(r2, level_or_not(r.rssi_dbm_tenths));
    }
    if r.audio_level_db_tenths is Some {
        lemma_number_texts_are_plain(r.audio_level_db_tenths->0 as int);
        lemma_short_part(r3, level_or_not(r.audio_level_db_tenths));
    }
}

/// The counts of a report that was read are not negative.
pub proof fn lemma_read_counts_are_not_negative(s: Seq<u8>)
    requires
        report_in(s) is Some,
    ensures
        report_in(s)->0.decoded_frames >= 0,
        report_in(s)->0.requested_frames >= 0,
{
    let (d, n) = counts_in(fields::head(s, BAR))->0;
    lemma_parts_keep_the_counts(MeterReport::counted(d as int, n as int), fields::tail(s, BAR));
}

proof fn lemma_parts_keep_the_counts(r: MeterReport, rest: Option<Seq<u8>>)
    requires
        r.with_rest(rest) is Some,
    ensures
        r.with_rest(rest)->0.decoded_frames == r.decoded_frames,
        r.with_rest(rest)->0.requested_frames == r.requested_frames,
    decreases
            match rest {
                Some(t) => t.len() + 1,
                None => 0,
            },
{
    if rest is Some {
        let t: Seq<u8> = rest->0;
        fields::lemma_found(t, BAR, 0);
        let next: MeterReport = r.with_part(fields::head(t, BAR))->0;
        lemma_parts_keep_the_counts(next, fields::tail(t, BAR));
    }
}

/// The short form is never empty.
pub proof fn lemma_short_form_is_not_empty(r: MeterReport)
    ensures
        r.short_form().len() > 0,
{
    lemma_number_texts_are_plain(r.decoded_frames as int);
}

} // verus!
