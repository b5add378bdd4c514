//! Numbers written in ASCII digits.

use vstd::prelude::*;
use vstd::slice::slice_subrange;

verus! {

/// A decimal digit.
pub open spec fn is_digit(b: u8) -> bool {
    0x30 <= b <= 0x39
}

/// Every octet is a decimal digit.
pub open spec fn all_digits(s: Seq<u8>) -> bool {
    forall|i: int| 0 <= i < s.len() ==> is_digit(#[trigger] s[i])
}

/// The number that decimal digits write.
pub open spec fn decimal(s: Seq<u8>) -> nat
    decreases s.len(),
{
    if s.len() == 0 {
        0
    } else {
        decimal(s.drop_last()) * 10 + (s.last() - 0x30) as nat
    }
}

/// The number, at most `max`, that a run of one or more digits writes.
pub open spec fn number_in(s: Seq<u8>, max: nat) -> Option<nat> {
    if s.len() > 0 && all_digits(s) && decimal(s) <= max {
        Some(decimal(s))
    } else {
        None
    }
}

/// The signed number, from `least` to `most`, that a sign, where there is one, and
/// digits write.
pub open spec fn signed_within(s: Seq<u8>, least: int, most: int) -> Option<int> {
    let minus: bool = s.len() > 0 && s[0] == 0x2D;
    let plus: bool = s.len() > 0 && s[0] == 0x2B;
    let digits: Seq<u8> = if minus || plus {
        s.skip(1)
    } else {
        s
    };
    if digits.len() == 0 || !all_digits(digits) {
        None
    } else {
        let v: int = if minus {
            -decimal(digits)
        } else {
            decimal(digits) as int
        };
        if least <= v <= most {
            Some(v)
        } else {
            None
        }
    }
}

/// The signed number of 32 bits that a text writes.
pub open spec fn signed_in(s: Seq<u8>) -> Option<int> {
    signed_within(s, i32::MIN as int, i32::MAX as int)
}

/// The signed number of 64 bits that a text writes.
pub open spec fn long_in(s: Seq<u8>) -> Option<int> {
    signed_within(s, i64::MIN as int, i64::MAX as int)
}

/// A prefix writes no greater a number.
pub proof fn lemma_prefix_is_less(s: Seq<u8>, i: int)
    requires
        0 <= i <= s.len(),
        all_digits(s),
    ensures
        decimal(s.take(i)) <= decimal(s),
    decreases s.len() - i,
{
    if i == s.len() {
        assert(s.take(i) =~= s);
    } else {
        assert(s.take(i + 1).drop_last() =~= s.take(i));
        assert(is_digit(s[i]));
        lemma_prefix_is_less(s, i + 1);
    }
}

/// The number, at most `max`, that a run of one or more digits writes.
pub fn parse_number(s: &[u8], max: u64) -> (r: Option<u64>)
    ensures
        match r {
            Some(v) => number_in(s@, max as nat) == Some(v as nat) && v <= max,
            None => number_in(s@, max as nat) is None,
        },
{
    if s.len() == 0 {
        return None;
    }
    let mut v: u128 = 0;
    let mut i: usize = 0;
    while i < s.len()
        invariant
            i <= s@.len(),
            v <= max,
            forall|j: int| 0 <= j < i ==> is_digit(#[trigger] s@[j]),
            v == decimal(s@.take(i as int)),
        decreases s@.len() - i,
    {
        let b: u8 = s[i];
        if b < 0x30 || b > 0x39 {
            assert(!is_digit(s@[i as int]));
            return None;
        }
        proof {
            assert(s@.take(i + 1).drop_last() =~= s@.take(i as int));
        }
        v = v * 10 + (b - 0x30) as u128;
        i = i + 1;
        if v > max as u128 {
            proof {
                if all_digits(s@) {
                    lemma_prefix_is_less(s@, i as int);
                }
            }
            return None;
        }
    }
    assert(s@.take(i as int) =~= s@);
    Some(v as u64)
}

/// The signed number of 64 bits that a sign, where there is one, and digits write.
pub fn parse_long(s: &[u8]) -> (r: Option<i64>)
    ensures
        match r {
            Some(v) => long_in(s@) == Some(v as int),
            None => long_in(s@) is None,
        },
{
    if s.len() == 0 {
        return None;
    }
    let minus: bool = s[0] == 0x2D;
    let signed: bool = minus || s[0] == 0x2B;
    let digits = if signed {
        slice_subrange(s, 1, s.len())
    } else {
        s
    };
    assert(signed ==> digits@ =~= s@.skip(1));
    if minus {
        match parse_number(digits, 0x8000_0000_0000_0000) {
            Some(v) => Some((-(v as i128)) as i64),
            None => None,
        }
    } else {
        match parse_number(digits, 0x7FFF_FFFF_FFFF_FFFF) {
            Some(v) => Some(v as i64),
            None => None,
        }
    }
}

/// The signed number of 32 bits that a sign, where there is one, and digits write.
pub fn parse_signed(s: &[u8]) -> (r: Option<i32>)
    ensures
        match r {
            Some(v) => signed_in(s@) == Some(v as int),
            None => signed_in(s@) is None,
        },
{
    match parse_long(s) {
        Some(v) => if -0x8000_0000 <= v && v <= 0x7FFF_FFFF {
            Some(v as i32)
        } else {
            None
        },
        None => None,
    }
}

/// The shortest way to write a number in decimal digits.
pub open spec fn digits_of(n: nat) -> Seq<u8>
    decreases n,
{
    if n < 10 {
        seq![(0x30 + n) as u8]
    } else {
        digits_of(n / 10).push((0x30 + n % 10) as u8)
    }
}

/// A number is read back from the digits that it is written in.
pub proof fn law_digits_round_trip(n: nat)
    ensures
        digits_of(n).len() > 0,
        all_digits(digits_of(n)),
        decimal(digits_of(n)) == n,
    decreases n,
{
    if n >= 10 {
        law_digits_round_trip(n / 10);
        assert(digits_of(n).drop_last() =~= digits_of(n / 10));
        assert(digits_of(n).last() == 0x30 + n % 10);
    } else {
        assert(digits_of(n).drop_last() =~= Seq::<u8>::empty());
        assert(decimal(Seq::<u8>::empty()) == 0);
        assert(digits_of(n).last() == 0x30 + n);
    }
}

/// Appends the digits of a number to `out`.
pub fn append_digits(out: &mut Vec<u8>, n: u64)
    ensures
        final(out)@ == old(out)@ + digits_of(n as nat),
    decreases n,
{
    if n < 10 {
        out.push(0x30 + n as u8);
        assert(out@ =~= old(out)@ + digits_of(n as nat));
    } else {
        append_digits(out, n / 10);
        out.push(0x30 + (n % 10) as u8);
        assert(out@ =~= old(out)@ + digits_of(n as nat));
    }
}

/// The shortest way to write a signed number: a minus sign where it is negative, and
/// the digits of its magnitude.
pub open spec fn signed_digits_of(n: int) -> Seq<u8> {
    if n < 0 {
        seq![0x2Du8] + digits_of((-n) as nat)
    } else {
        digits_of(n as nat)
    }
}

/// A signed number is read back from what it is written as.
pub proof fn law_signed_round_trip(n: int, least: int, most: int)
    requires
        least <= n <= most,
    ensures
        signed_within(signed_digits_of(n), least, most) == Some(n),
{
    let s: Seq<u8> = signed_digits_of(n);
    if n < 0 {
        law_digits_round_trip((-n) as nat);
        assert(s.skip(1) =~= digits_of((-n) as nat));
    } else {
        law_digits_round_trip(n as nat);
        assert(is_digit(s[0]));
    }
}

/// What a signed number is written as holds nothing but digits and a minus sign.
pub proof fn lemma_signed_octets(n: int)
    ensures
        signed_digits_of(n).len() > 0,
        forall|i: int|
            0 <= i < signed_digits_of(n).len() ==> is_digit(#[trigger] signed_digits_of(n)[i])
                || signed_digits_of(n)[i] == 0x2D,
{
    if n < 0 {
        let d: Seq<u8> = digits_of((-n) as nat);
        law_digits_round_trip((-n) as nat);
        assert forall|i: int| 0 <= i < signed_digits_of(n).len() implies is_digit(
            #[trigger] signed_digits_of(n)[i],
        ) || signed_digits_of(n)[i] == 0x2D by {
            if i > 0 {
                assert(is_digit(d[i - 1]));
            }
        }
    } else {
        law_digits_round_trip(n as nat);
    }
}

} // verus!
