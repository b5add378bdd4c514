//! Comparison of octet strings and of text.

use vstd::prelude::*;
use vstd::string::StringSliceAdditionalSpecFns;

verus! {

/// Whether two octet strings are the same.
pub fn same_bytes(a: &[u8], b: &[u8]) -> (r: bool)
    ensures
        r == (a@ == b@),
{
    if a.len() != b.len() {
        return false;
    }
    let n: usize = a.len();
    let mut i: usize = 0;
    while i < n
        invariant
            i <= n,
            n == a@.len(),
            n == b@.len(),
            forall|j: int| 0 <= j < i ==> a@[j] == b@[j],
        decreases n - i,
    {
        if a[i] != b[i] {
            return false;
        }
        i = i + 1;
    }
    assert(a@ =~= b@);
    true
}

/// Whether two texts are the same.
pub fn same_text(a: &str, b: &str) -> (r: bool)
    ensures
        r == (a@ == b@),
{
    proof {
        vstd::utf8::encode_utf8_decode_utf8(a@);
        vstd::utf8::encode_utf8_decode_utf8(b@);
    }
    same_bytes(a.as_bytes(), b.as_bytes())
}

/// Calls `core::str::from_utf8`, which gives the text that the octets encode if
/// they are well-formed UTF-8, and an error otherwise.
#[verifier::external_body]
pub(crate) fn text_of(v: &[u8]) -> (r: Option<&str>)
    ensures
        match r {
            Some(s) => vstd::utf8::valid_utf8(v@) && s.spec_bytes() == v@,
            None => !vstd::utf8::valid_utf8(v@),
        },
{
    core::str::from_utf8(v).ok()
}

/// The characters of an octet string.
pub open spec fn chars_of(v: Seq<u8>) -> Seq<char> {
    v.map_values(|b: u8| b as char)
}

/// Octets below 128 are the UTF-8 form of the characters of the same number.
pub proof fn lemma_ascii_is_utf8(v: Seq<u8>)
    requires
        forall|i: int| 0 <= i < v.len() ==> #[trigger] v[i] < 128,
    ensures
        vstd::utf8::valid_utf8(v),
        vstd::utf8::encode_utf8(chars_of(v)) == v,
{
    let chars: Seq<char> = chars_of(v);
    assert(vstd::utf8::is_ascii_chars(chars));
    vstd::utf8::is_ascii_chars_encode_utf8(chars);
    vstd::utf8::encode_utf8_valid_utf8(chars);
    assert(vstd::utf8::encode_utf8(chars) =~= v);
}

/// What stands behind an octet below 128 in well-formed UTF-8 is well-formed too.
pub proof fn lemma_rest_is_utf8(v: Seq<u8>, at: int)
    requires
        vstd::utf8::valid_utf8(v),
        0 <= at < v.len(),
        v[at] < 128,
    ensures
        vstd::utf8::valid_utf8(v.skip(at + 1)),
{
    let n: int = v.len() as int;
    assert(vstd::utf8::is_leading_byte_width_1(v[at]));
    vstd::utf8::is_char_boundary_iff_is_leading_byte(v, at);
    vstd::utf8::valid_utf8_split(v, at);
    let rest: Seq<u8> = v.subrange(at, n);
    assert(rest[0] == v[at]);
    assert(vstd::utf8::pop_first_scalar(rest) =~= v.skip(at + 1));
}

/// The text that well-formed UTF-8 encodes.
pub fn string_of(v: &[u8]) -> (r: String)
    requires
        vstd::utf8::valid_utf8(v@),
    ensures
        vstd::utf8::encode_utf8(r@) == v@,
{
    match text_of(v) {
        Some(s) => s.to_owned(),
        None => String::new(),
    }
}

/// The octets of a text whose characters are those of octets below 128.
pub proof fn lemma_ascii_text(s: &str, v: Seq<u8>)
    requires
        s@ == chars_of(v),
        forall|i: int| 0 <= i < v.len() ==> #[trigger] v[i] < 128,
    ensures
        s.spec_bytes() == v,
{
    lemma_ascii_is_utf8(v);
}

/// Two pieces of well-formed UTF-8, the first of octets below 128, are well-formed
/// together.
pub proof fn lemma_ascii_and_utf8(a: Seq<u8>, b: Seq<u8>)
    requires
        forall|i: int| 0 <= i < a.len() ==> #[trigger] a[i] < 128,
        vstd::utf8::valid_utf8(b),
    ensures
        vstd::utf8::valid_utf8(a + b),
{
    lemma_ascii_is_utf8(a);
    vstd::utf8::valid_utf8_concat(a, b);
}

} // verus!
