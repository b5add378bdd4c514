//! The CCDI checksum: the octets of a message and the checksum add up to nothing,
//! modulo 256. It is written in two upper-case hexadecimal digits.

use vstd::prelude::*;

use super::hex_upper;

verus! {

/// The sum of octets.
pub open spec fn total(s: Seq<u8>) -> nat
    decreases s.len(),
{
    if s.len() == 0 {
        0
    } else {
        total(s.drop_last()) + s.last() as nat
    }
}

/// The octet that makes the sum of a body a multiple of 256.
pub open spec fn balance(body: Seq<u8>) -> u8 {
    ((256 - (total(body) % 256) as int) % 256) as u8
}

/// The two digits of the checksum of a body.
pub open spec fn checksum_of(body: Seq<u8>) -> Seq<u8> {
    super::hex_pair(balance(body))
}

/// The checksum balances its body.
pub proof fn law_checksum_balances(body: Seq<u8>)
    ensures
        (total(body) + balance(body)) % 256 == 0,
{
}

proof fn lemma_total_update(s: Seq<u8>, i: int, b: u8)
    requires
        0 <= i < s.len(),
    ensures
        total(s.update(i, b)) == total(s) - s[i] + b,
    decreases s.len(),
{
    let t: Seq<u8> = s.update(i, b);
    if i == s.len() - 1 {
        assert(t.drop_last() =~= s.drop_last());
    } else {
        assert(t.drop_last() =~= s.drop_last().update(i, b));
        lemma_total_update(s.drop_last(), i, b);
    }
}

/// A body in which one octet changed has another checksum.
pub proof fn law_one_changed_octet_shows(body: Seq<u8>, i: int, b: u8)
    requires
        0 <= i < body.len(),
        b != body[i],
    ensures
        checksum_of(body.update(i, b)) != checksum_of(body),
{
    lemma_total_update(body, i, b);
    let x: u8 = balance(body);
    let y: u8 = balance(body.update(i, b));
    let d: int = b - body[i];
    assert((total(body) + d) % 256 != total(body) % 256) by (nonlinear_arith)
        requires
            -255 <= d <= 255,
            d != 0,
    ;
    assert(x != y);
    super::law_hex_round_trip(x);
    super::law_hex_round_trip(y);
}

/// The two digits of the checksum of `body`.
pub fn compute(body: &[u8]) -> (r: [u8; 2])
    ensures
        r@ == checksum_of(body@),
{
    let mut sum: u16 = 0;
    let mut i: usize = 0;
    while i < body.len()
        invariant
            i <= body@.len(),
            sum < 256,
            sum == total(body@.take(i as int)) % 256,
        decreases body@.len() - i,
    {
        assert(body@.take(i + 1).drop_last() =~= body@.take(i as int));
        sum = (sum + body[i] as u16) % 256;
        i = i + 1;
    }
    assert(body@.take(i as int) =~= body@);
    let c: u8 = ((256 - sum) % 256) as u8;
    let r: [u8; 2] = [hex_upper(c / 16), hex_upper(c % 16)];
    assert(r@ =~= checksum_of(body@));
    r
}

/// Whether `checksum` is the checksum of `body`. Lower-case digits do not count.
pub fn is_valid(body: &[u8], checksum: &[u8]) -> (r: bool)
    ensures
        r == (checksum@ == checksum_of(body@)),
{
    let want = compute(body);
    if checksum.len() != 2 {
        return false;
    }
    let r: bool = checksum[0] == want[0] && checksum[1] == want[1];
    assert(r ==> checksum@ =~= want@);
    r
}

} // verus!
