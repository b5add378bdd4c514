//! The information field of an XID frame: a format octet, a group octet, the length of
//! the group in two octets, and the parameters, each a number, a length and a value.

use vstd::prelude::*;
use vstd::slice::slice_subrange;

use super::{ClassesOfProcedures, HdlcOptionalFunctions, RejectMode, XidParameters};
use crate::bytes;

verus! {

/// The octet that names the format of the field.
pub const FORMAT_IDENTIFIER: u8 = 0x82;

/// The octet that names the group of parameters.
pub const GROUP_IDENTIFIER: u8 = 0x80;

/// The number of the classes of procedures.
pub const PI_CLASSES: u8 = 2;

/// The number of the optional functions.
pub const PI_HDLC: u8 = 3;

/// The number of the longest information field.
pub const PI_I_FIELD_RX: u8 = 6;

/// The number of the window.
pub const PI_WINDOW_RX: u8 = 8;

/// The number of the acknowledge timer.
pub const PI_ACK_TIMER: u8 = 9;

/// The number of the retries.
pub const PI_RETRIES: u8 = 10;

/// The number that octets write, the highest first.
pub open spec fn value_of(s: Seq<u8>) -> nat
    decreases s.len(),
{
    if s.len() == 0 {
        0
    } else {
        value_of(s.drop_last()) * 256 + s.last() as nat
    }
}

/// A number in one octet if it fits and in four if it does not.
pub open spec fn narrow(v: u32) -> Seq<u8> {
    if v < 256 {
        seq![v as u8]
    } else {
        quad(v)
    }
}

/// A number in two octets if it fits and in four if it does not.
pub open spec fn wide(v: u32) -> Seq<u8> {
    if v < 65536 {
        seq![(v / 256) as u8, (v % 256) as u8]
    } else {
        quad(v)
    }
}

/// A number in four octets.
pub open spec fn quad(v: u32) -> Seq<u8> {
    seq![
        (v / 16777216) as u8,
        (v / 65536 % 256) as u8,
        (v / 256 % 256) as u8,
        (v % 256) as u8,
    ]
}

/// The value of the classes of procedures.
pub open spec fn classes_value(c: ClassesOfProcedures) -> Seq<u8> {
    seq![
        if c.half_duplex {
            0x21u8
        } else {
            0x41
        },
        0x00,
    ]
}

/// The value of the optional functions.
pub open spec fn hdlc_value(h: HdlcOptionalFunctions) -> Seq<u8> {
    seq![
        if h.reject is SelectiveReject {
            0x84u8
        } else {
            0x82
        },
        if h.modulo128 {
            0xA8u8
        } else {
            0xA4
        },
        (2 + (if h.srej_multiframe {
            32int
        } else {
            0
        }) + if h.segmenter_reassembler {
            64int
        } else {
            0
        }) as u8,
    ]
}

/// A parameter that is there, or nothing.
pub open spec fn record(number: u8, value: Option<Seq<u8>>) -> Seq<u8> {
    match value {
        Some(v) => seq![number, v.len() as u8] + v,
        None => Seq::empty(),
    }
}

/// The values of the parameters.
pub open spec fn classes_of(p: XidParameters) -> Option<Seq<u8>> {
    match p.classes_of_procedures {
        Some(c) => Some(classes_value(c)),
        None => None,
    }
}

pub open spec fn hdlc_of(p: XidParameters) -> Option<Seq<u8>> {
    match p.hdlc_optional_functions {
        Some(h) => Some(hdlc_value(h)),
        None => None,
    }
}

pub open spec fn narrow_of(v: Option<u32>) -> Option<Seq<u8>> {
    match v {
        Some(n) => Some(narrow(n)),
        None => None,
    }
}

pub open spec fn wide_of(v: Option<u32>) -> Option<Seq<u8>> {
    match v {
        Some(n) => Some(wide(n)),
        None => None,
    }
}

/// The octets of the parameters that are there.
pub open spec fn group(p: XidParameters) -> Seq<u8> {
    record(PI_CLASSES, classes_of(p)) + (record(PI_HDLC, hdlc_of(p)) + (record(
        PI_I_FIELD_RX,
        wide_of(p.i_field_length_rx_bits),
    ) + (record(PI_WINDOW_RX, narrow_of(p.window_size_rx)) + (record(
        PI_ACK_TIMER,
        wide_of(p.ack_timer_millis),
    ) + record(PI_RETRIES, narrow_of(p.retries))))))
}

/// The octets of the field.
pub open spec fn field(p: XidParameters) -> Seq<u8> {
    seq![FORMAT_IDENTIFIER, GROUP_IDENTIFIER, 0x00, group(p).len() as u8] + group(p)
}

/// The number in a value of one to four octets.
pub open spec fn number_in(v: Seq<u8>) -> Option<u32> {
    if 1 <= v.len() <= 4 {
        Some(value_of(v) as u32)
    } else {
        None
    }
}

/// The parameters `p` once one more has been read. A parameter that is not known is
/// passed over. `None` if its value has a length that it cannot have.
pub open spec fn with(p: XidParameters, number: u8, v: Seq<u8>) -> Option<XidParameters> {
    if number == PI_CLASSES {
        if v.len() == 2 {
            Some(
                XidParameters {
                    classes_of_procedures: Some(
                        ClassesOfProcedures { half_duplex: v[0] / 64 % 2 == 0 },
                    ),
                    ..p
                },
            )
        } else {
            None
        }
    } else if number == PI_HDLC {
        if v.len() == 3 {
            Some(
                XidParameters {
                    hdlc_optional_functions: Some(
                        HdlcOptionalFunctions {
                            reject: if v[0] / 4 % 2 == 1 {
                                RejectMode::SelectiveReject
                            } else {
                                RejectMode::ImplicitReject
                            },
                            modulo128: v[1] / 8 % 2 == 1,
                            srej_multiframe: v[2] / 32 % 2 == 1,
                            segmenter_reassembler: v[2] / 64 % 2 == 1,
                        },
                    ),
                    ..p
                },
            )
        } else {
            None
        }
    } else if number == PI_I_FIELD_RX {
        match number_in(v) {
            Some(n) => Some(XidParameters { i_field_length_rx_bits: Some(n), ..p }),
            None => None,
        }
    } else if number == PI_WINDOW_RX {
        match number_in(v) {
            Some(n) => Some(XidParameters { window_size_rx: Some(n), ..p }),
            None => None,
        }
    } else if number == PI_ACK_TIMER {
        match number_in(v) {
            Some(n) => Some(XidParameters { ack_timer_millis: Some(n), ..p }),
            None => None,
        }
    } else if number == PI_RETRIES {
        match number_in(v) {
            Some(n) => Some(XidParameters { retries: Some(n), ..p }),
            None => None,
        }
    } else {
        Some(p)
    }
}

/// The parameters `p` once those of a group have been read, if it is well formed.
pub open spec fn read_group(p: XidParameters, s: Seq<u8>) -> Option<XidParameters>
    decreases s.len(),
{
    if s.len() == 0 {
        Some(p)
    } else if s.len() < 2 || 2 + s[1] > s.len() {
        None
    } else {
        match with(p, s[0], s.subrange(2, 2 + s[1])) {
            Some(q) => read_group(q, s.skip(2 + s[1])),
            None => None,
        }
    }
}

/// The parameters that a field holds, if it is well formed.
pub open spec fn parameters_in(s: Seq<u8>) -> Option<XidParameters> {
    if s.len() < 4 || s[0] != FORMAT_IDENTIFIER || s[1] != GROUP_IDENTIFIER || s[2] * 256 + s[3]
        != s.len() - 4 {
        None
    } else {
        read_group(XidParameters::silent(), s.skip(4))
    }
}

proof fn lemma_numbers(v: u32)
    ensures
        number_in(narrow(v)) == Some(v),
        number_in(wide(v)) == Some(v),
        narrow(v).len() <= 4,
        wide(v).len() <= 4,
{
    reveal_with_fuel(value_of, 5);
    let q: Seq<u8> = quad(v);
    assert(q.drop_last() =~= seq![q[0], q[1], q[2]]);
    assert(seq![q[0], q[1], q[2]].drop_last() =~= seq![q[0], q[1]]);
    assert(seq![q[0], q[1]].drop_last() =~= seq![q[0]]);
    assert(seq![q[0]].drop_last() =~= Seq::<u8>::empty());
    assert(value_of(q) == v);
    if v < 65536 {
        let w: Seq<u8> = wide(v);
        assert(w.drop_last() =~= seq![w[0]]);
        assert(seq![w[0]].drop_last() =~= Seq::<u8>::empty());
        assert(value_of(w) == v);
    }
    if v < 256 {
        let n: Seq<u8> = narrow(v);
        assert(n.drop_last() =~= Seq::<u8>::empty());
        assert(value_of(n) == v);
    }
}

proof fn lemma_read_record(p: XidParameters, number: u8, value: Option<Seq<u8>>, rest: Seq<u8>)
    requires
        value matches Some(v) ==> v.len() <= 4 && with(p, number, v) is Some,
    ensures
        read_group(p, record(number, value) + rest) == read_group(
            match value {
                Some(v) => with(p, number, v)->0,
                None => p,
            },
            rest,
        ),
{
    let s: Seq<u8> = record(number, value) + rest;
    match value {
        Some(v) => {
            assert(s[1] == v.len());
            assert(s.subrange(2, 2 + s[1]) =~= v);
            assert(s.skip(2 + s[1]) =~= rest);
        },
        None => {
            assert(s =~= rest);
        },
    }
}

proof fn lemma_group_length(p: XidParameters)
    ensures
        group(p).len() <= 33,
{
    if p.i_field_length_rx_bits is Some {
        lemma_numbers(p.i_field_length_rx_bits->0);
    }
    if p.window_size_rx is Some {
        lemma_numbers(p.window_size_rx->0);
    }
    if p.ack_timer_millis is Some {
        lemma_numbers(p.ack_timer_millis->0);
    }
    if p.retries is Some {
        lemma_numbers(p.retries->0);
    }
}

/// The parameters are read back from the field that they are written as.
pub proof fn law_xid_round_trip(p: XidParameters)
    ensures
        parameters_in(field(p)) == Some(p),
{
    let none: Seq<u8> = Seq::empty();
    let p0: XidParameters = XidParameters::silent();
    let p1: XidParameters = XidParameters {
        classes_of_procedures: p.classes_of_procedures,
        ..p0
    };
    let p2: XidParameters = XidParameters {
        hdlc_optional_functions: p.hdlc_optional_functions,
        ..p1
    };
    let p3: XidParameters = XidParameters {
        i_field_length_rx_bits: p.i_field_length_rx_bits,
        ..p2
    };
    let p4: XidParameters = XidParameters { window_size_rx: p.window_size_rx, ..p3 };
    let p5: XidParameters = XidParameters { ack_timer_millis: p.ack_timer_millis, ..p4 };
    let r6: Seq<u8> = record(PI_RETRIES, narrow_of(p.retries));
    let r5: Seq<u8> = record(PI_ACK_TIMER, wide_of(p.ack_timer_millis)) + r6;
    let r4: Seq<u8> = record(PI_WINDOW_RX, narrow_of(p.window_size_rx)) + r5;
    let r3: Seq<u8> = record(PI_I_FIELD_RX, wide_of(p.i_field_length_rx_bits)) + r4;
    let r2: Seq<u8> = record(PI_HDLC, hdlc_of(p)) + r3;
    if p.i_field_length_rx_bits is Some {
        lemma_numbers(p.i_field_length_rx_bits->0);
    }
    if p.window_size_rx is Some {
        lemma_numbers(p.window_size_rx->0);
    }
    if p.ack_timer_millis is Some {
        lemma_numbers(p.ack_timer_millis->0);
    }
    if p.retries is Some {
        lemma_numbers(p.retries->0);
    }
    lemma_read_record(p0, PI_CLASSES, classes_of(p), r2);
    lemma_read_record(p1, PI_HDLC, hdlc_of(p), r3);
    lemma_read_record(p2, PI_I_FIELD_RX, wide_of(p.i_field_length_rx_bits), r4);
    lemma_read_record(p3, PI_WINDOW_RX, narrow_of(p.window_size_rx), r5);
    lemma_read_record(p4, PI_ACK_TIMER, wide_of(p.ack_timer_millis), r6);
    lemma_read_record(p5, PI_RETRIES, narrow_of(p.retries), none);
    assert(r6 + none =~= r6);
    lemma_group_length(p);
    assert(field(p).skip(4) =~= group(p));
}

fn push_quad(out: &mut Vec<u8>, v: u32)
    ensures
        final(out)@ == old(out)@ + quad(v),
{
    out.push((v / 16777216) as u8);
    out.push((v / 65536 % 256) as u8);
    out.push((v / 256 % 256) as u8);
    out.push((v % 256) as u8);
    assert(out@ =~= old(out)@ + quad(v));
}

fn push_narrow(out: &mut Vec<u8>, number: u8, value: Option<u32>)
    ensures
        final(out)@ == old(out)@ + record(number, narrow_of(value)),
{
    match value {
        Some(v) => {
            out.push(number);
            if v < 256 {
                out.push(1);
                out.push(v as u8);
            } else {
                out.push(4);
                push_quad(out, v);
            }
        },
        None => {},
    }
    assert(out@ =~= old(out)@ + record(number, narrow_of(value)));
}

fn push_wide(out: &mut Vec<u8>, number: u8, value: Option<u32>)
    ensures
        final(out)@ == old(out)@ + record(number, wide_of(value)),
{
    match value {
        Some(v) => {
            out.push(number);
            if v < 65536 {
                out.push(2);
                out.push((v / 256) as u8);
                out.push((v % 256) as u8);
            } else {
                out.push(4);
                push_quad(out, v);
            }
        },
        None => {},
    }
    assert(out@ =~= old(out)@ + record(number, wide_of(value)));
}

fn push_classes(out: &mut Vec<u8>, classes: Option<ClassesOfProcedures>)
    ensures
        final(out)@ == old(out)@ + record(
            PI_CLASSES,
            match classes {
                Some(c) => Some(classes_value(c)),
                None => None,
            },
        ),
{
    match classes {
        Some(c) => {
            out.push(PI_CLASSES);
            out.push(2);
            out.push(
                if c.half_duplex {
                    0x21
                } else {
                    0x41
                },
            );
            out.push(0x00);
            assert(out@ =~= old(out)@ + record(PI_CLASSES, Some(classes_value(c))));
        },
        None => {
            assert(out@ =~= old(out)@ + Seq::<u8>::empty());
        },
    }
}

fn push_hdlc(out: &mut Vec<u8>, functions: Option<HdlcOptionalFunctions>)
    ensures
        final(out)@ == old(out)@ + record(
            PI_HDLC,
            match functions {
                Some(h) => Some(hdlc_value(h)),
                None => None,
            },
        ),
{
    match functions {
        Some(h) => {
            out.push(PI_HDLC);
            out.push(3);
            out.push(
                match h.reject {
                    RejectMode::SelectiveReject => 0x84,
                    RejectMode::ImplicitReject => 0x82,
                },
            );
            out.push(
                if h.modulo128 {
                    0xA8
                } else {
                    0xA4
                },
            );
            let mut last: u8 = 0x02;
            if h.srej_multiframe {
                last = last + 0x20;
            }
            if h.segmenter_reassembler {
                last = last + 0x40;
            }
            out.push(last);
            assert(out@ =~= old(out)@ + record(PI_HDLC, Some(hdlc_value(h))));
        },
        None => {
            assert(out@ =~= old(out)@ + Seq::<u8>::empty());
        },
    }
}

/// The octets of the parameters that are there.
fn encode_group(p: &XidParameters) -> (r: Vec<u8>)
    ensures
        r@ == group(*p),
{
    let mut out: Vec<u8> = Vec::new();
    push_classes(&mut out, p.classes_of_procedures);
    push_hdlc(&mut out, p.hdlc_optional_functions);
    push_wide(&mut out, PI_I_FIELD_RX, p.i_field_length_rx_bits);
    push_narrow(&mut out, PI_WINDOW_RX, p.window_size_rx);
    push_wide(&mut out, PI_ACK_TIMER, p.ack_timer_millis);
    push_narrow(&mut out, PI_RETRIES, p.retries);
    proof {
        lemma_nested(
            record(PI_CLASSES, classes_of(*p)),
            record(PI_HDLC, hdlc_of(*p)),
            record(PI_I_FIELD_RX, wide_of(p.i_field_length_rx_bits)),
            record(PI_WINDOW_RX, narrow_of(p.window_size_rx)),
            record(PI_ACK_TIMER, wide_of(p.ack_timer_millis)),
            record(PI_RETRIES, narrow_of(p.retries)),
        );
    }
    out
}

proof fn lemma_nested(
    a: Seq<u8>,
    b: Seq<u8>,
    c: Seq<u8>,
    d: Seq<u8>,
    e: Seq<u8>,
    f: Seq<u8>,
)
    ensures
        Seq::<u8>::empty() + a + b + c + d + e + f == a + (b + (c + (d + (e + f)))),
{
    assert(Seq::<u8>::empty() + a + b + c + d + e + f =~= a + (b + (c + (d + (e + f)))));
}

/// The octets of the field that holds the given parameters.
pub fn encode(p: &XidParameters) -> (r: Vec<u8>)
    ensures
        r@ == field(*p),
{
    let parameters = encode_group(p);
    proof {
        lemma_group_length(*p);
    }
    let mut out: Vec<u8> = Vec::new();
    out.push(FORMAT_IDENTIFIER);
    out.push(GROUP_IDENTIFIER);
    out.push(0x00);
    out.push(parameters.len() as u8);
    bytes::append(&mut out, parameters.as_slice());
    assert(out@ =~= field(*p));
    out
}

/// The number in a value of one to four octets. `None` for any other length.
fn read_number(v: &[u8]) -> (r: Option<u32>)
    ensures
        r == number_in(v@),
{
    if v.len() < 1 || v.len() > 4 {
        return None;
    }
    let mut n: u64 = 0;
    let mut i: usize = 0;
    while i < v.len()
        invariant
            i <= v@.len() <= 4,
            n == value_of(v@.take(i as int)),
            i == 0 ==> n == 0,
            i == 1 ==> n < 0x100,
            i == 2 ==> n < 0x1_0000,
            i == 3 ==> n < 0x100_0000,
            i == 4 ==> n < 0x1_0000_0000,
        decreases v@.len() - i,
    {
        assert(v@.take(i + 1).drop_last() =~= v@.take(i as int));
        n = n * 256 + v[i] as u64;
        i = i + 1;
    }
    assert(v@.take(i as int) =~= v@);
    Some(n as u32)
}

/// The parameters `p` once one more has been read.
fn read_parameter(p: &XidParameters, number: u8, v: &[u8]) -> (r: Option<XidParameters>)
    ensures
        r == with(*p, number, v@),
{
    let mut q: XidParameters = *p;
    if number == PI_CLASSES {
        if v.len() != 2 {
            return None;
        }
        q.classes_of_procedures = Some(ClassesOfProcedures { half_duplex: v[0] / 64 % 2 == 0 });
    } else if number == PI_HDLC {
        if v.len() != 3 {
            return None;
        }
        let reject = if v[0] / 4 % 2 == 1 {
            RejectMode::SelectiveReject
        } else {
            RejectMode::ImplicitReject
        };
        q.hdlc_optional_functions = Some(
            HdlcOptionalFunctions {
                reject,
                modulo128: v[1] / 8 % 2 == 1,
                srej_multiframe: v[2] / 32 % 2 == 1,
                segmenter_reassembler: v[2] / 64 % 2 == 1,
            },
        );
    } else if number == PI_I_FIELD_RX || number == PI_WINDOW_RX || number == PI_ACK_TIMER || number
        == PI_RETRIES {
        let n: Option<u32> = read_number(v);
        if n.is_none() {
            return None;
        }
        if number == PI_I_FIELD_RX {
            q.i_field_length_rx_bits = n;
        } else if number == PI_WINDOW_RX {
            q.window_size_rx = n;
        } else if number == PI_ACK_TIMER {
            q.ack_timer_millis = n;
        } else {
            q.retries = n;
        }
    }
    Some(q)
}

/// The parameters that a field holds. `None` if it is not well formed.
pub fn parse(info: &[u8]) -> (r: Option<XidParameters>)
    ensures
        r == parameters_in(info@),
{
    if info.len() < 4 || info[0] != FORMAT_IDENTIFIER || info[1] != GROUP_IDENTIFIER {
        return None;
    }
    if info[2] as usize * 256 + info[3] as usize != info.len() - 4 {
        return None;
    }
    let mut p = XidParameters::default();
    let mut at: usize = 4;
    while at < info.len()
        invariant
            4 <= at <= info@.len(),
            parameters_in(info@) == read_group(p, info@.skip(at as int)),
        decreases info@.len() - at,
    {
        let ghost left = info@.skip(at as int);
        if info.len() - at < 2 {
            return None;
        }
        let len: usize = info[at + 1] as usize;
        if len > info.len() - at - 2 {
            return None;
        }
        let v = slice_subrange(info, at + 2, at + 2 + len);
        assert(v@ =~= left.subrange(2, 2 + left[1]));
        match read_parameter(&p, info[at], v) {
            Some(q) => {
                p = q;
            },
            None => {
                return None;
            },
        }
        assert(left.skip(2 + left[1]) =~= info@.skip(at + 2 + len));
        at = at + 2 + len;
    }
    Some(p)
}

} // verus!
