//! Decimal and hexadecimal text of numbers.
use vstd::prelude::*;

verus! {

/// A decimal digit.
pub open spec fn is_digit(c: char) -> bool {
    '0' <= c <= '9'
}

/// The value of a string of decimal digits, most significant first.
pub open spec fn digits_value(s: Seq<char>) -> nat
    decreases s.len(),
{
    if s.len() == 0 {
        0
    } else {
        digits_value(s.drop_last()) * 10 + (s.last() as nat - '0' as nat) as nat
    }
}

/// The text after an optional leading `+`.
pub open spec fn unsigned_body(s: Seq<char>) -> Seq<char> {
    if s.len() > 0 && s[0] == '+' {
        s.drop_first()
    } else {
        s
    }
}

/// The `u64` a text denotes: an optional `+`, then one or more decimal digits, with a value
/// that fits in 64 bits.
pub open spec fn u64_of_text(s: Seq<char>) -> Option<u64> {
    let b = unsigned_body(s);
    if b.len() > 0 && (forall|i: int| 0 <= i < b.len() ==> is_digit(#[trigger] b[i])) && digits_value(b)
        <= u64::MAX {
        Some(digits_value(b) as u64)
    } else {
        None
    }
}

/// The digit character of `d < 10`.
pub open spec fn digit_char(d: nat) -> char {
    (('0' as nat) + d) as char
}

/// The decimal text of `v`, without sign or leading zeros.
pub open spec fn decimal_text(v: nat) -> Seq<char>
    decreases v,
{
    if v < 10 {
        seq![digit_char(v)]
    } else {
        decimal_text(v / 10).push(digit_char(v % 10))
    }
}

/// Relies on `str::parse::<u64>` (`u64::from_str`): it accepts exactly an optional `+`
/// followed by at least one ASCII digit, whose value fits in a `u64`.
#[verifier::external_body]
pub(crate) fn parse_u64(s: &str) -> (r: Option<u64>)
    ensures
        r == u64_of_text(s@),
{
    s.parse::<u64>().ok()
}

/// Relies on `u64::to_string` (`Display` for `u64`): the decimal digits, with no sign, padding
/// or leading zeros.
#[verifier::external_body]
pub(crate) fn u64_text(v: u64) -> (r: String)
    ensures
        r@ == decimal_text(v as nat),
{
    v.to_string()
}

/// The value of a hexadecimal digit of either case.
pub open spec fn hex_value(c: char) -> int {
    if '0' <= c <= '9' {
        c as int - '0' as int
    } else if 'a' <= c <= 'f' {
        c as int - 'a' as int + 10
    } else {
        c as int - 'A' as int + 10
    }
}

/// A hexadecimal digit of either case.
pub open spec fn is_hex_digit(c: char) -> bool {
    ('0' <= c <= '9') || ('a' <= c <= 'f') || ('A' <= c <= 'F')
}

/// Exactly `2 * n` hexadecimal digits.
pub open spec fn is_hex_text(s: Seq<char>, n: nat) -> bool {
    s.len() == 2 * n && forall|i: int| 0 <= i < s.len() ==> is_hex_digit(#[trigger] s[i])
}

/// The bytes that pairs of hexadecimal digits denote, high digit first.
#[verifier::opaque]
pub open spec fn hex_bytes(s: Seq<char>) -> Seq<u8> {
    Seq::new(s.len() / 2, |i: int| (hex_value(s[2 * i]) * 16 + hex_value(s[2 * i + 1])) as u8)
}

/// Relies on `hex::decode_to_slice` into a 32-byte buffer: it succeeds exactly on 64
/// hexadecimal digits of either case, and fills byte `i` from digits `2i` (high) and `2i + 1`.
#[verifier::external_body]
pub(crate) fn decode_hex32(s: &str) -> (r: Option<Vec<u8>>)
    ensures
        r is Some <==> is_hex_text(s@, 32),
        r matches Some(b) ==> b@.len() == 32 && b@ == hex_bytes(s@),
{
    let mut out = [0u8; 32];
    match hex::decode_to_slice(s, &mut out) {
        Ok(()) => Some(out.to_vec()),
        Err(_) => None,
    }
}

/// The little-endian value of the eight bytes of `b` from `o` on.
#[verifier::opaque]
pub open spec fn le8(b: Seq<u8>, o: int) -> int {
    b[o] + 256 * b[o + 1] + 65536 * b[o + 2] + 16777216 * b[o + 3] + 4294967296 * b[o + 4]
        + 1099511627776 * b[o + 5] + 281474976710656 * b[o + 6] + 72057594037927936 * b[o + 7]
}

/// Reads eight little-endian bytes from `o` on.
pub fn read_le8(b: &Vec<u8>, o: usize) -> (r: u64)
    requires
        o + 8 <= b@.len(),
    ensures
        r as int == le8(b@, o as int),
{
    let len: usize = b.len();
    assert(o + 8 <= len);
    proof {
        reveal(le8);
    }
    let x0 = b[o] as u64;
    let x1 = b[o + 1] as u64;
    let x2 = b[o + 2] as u64;
    let x3 = b[o + 3] as u64;
    let x4 = b[o + 4] as u64;
    let x5 = b[o + 5] as u64;
    let x6 = b[o + 6] as u64;
    let x7 = b[o + 7] as u64;
    x0 + 256 * x1 + 65536 * x2 + 16777216 * x3 + 4294967296 * x4 + 1099511627776 * x5
        + 281474976710656 * x6 + 72057594037927936 * x7
}

} // verus!

verus! {

/// The decimal text of `v` is a string of digits that denotes `v`.
pub proof fn lemma_decimal_text_digits(v: nat)
    ensures
        decimal_text(v).len() > 0,
        forall|i: int| 0 <= i < decimal_text(v).len() ==> is_digit(#[trigger] decimal_text(v)[i]),
        digits_value(decimal_text(v)) == v,
    decreases v,
{
    if v < 10 {
        let s = decimal_text(v);
        assert(s.drop_last().len() == 0);
        assert(digits_value(s.drop_last()) == 0);
        assert(digit_char(v) as nat == '0' as nat + v);
        assert(s.last() == digit_char(v));
    } else {
        lemma_decimal_text_digits(v / 10);
        let s = decimal_text(v);
        assert(s.drop_last() =~= decimal_text(v / 10));
        assert(digit_char(v % 10) as nat == '0' as nat + v % 10);
        assert(s.last() == digit_char(v % 10));
        assert(digits_value(s) == digits_value(decimal_text(v / 10)) * 10 + v % 10);
        assert((v / 10) * 10 + v % 10 == v);
    }
}

/// Reading back the decimal text of a `u64` gives the number.
pub proof fn lemma_decimal_round_trip(v: u64)
    ensures
        u64_of_text(decimal_text(v as nat)) == Some(v),
{
    lemma_decimal_text_digits(v as nat);
    assert(is_digit(decimal_text(v as nat)[0]));
}

} // verus!
