//! Text as UTF-8 bytes, and numbers as decimal text.

use crate::bytes::push_bytes;
use vstd::arithmetic::power::pow;
use vstd::prelude::*;
use vstd::utf8::{encode_utf8, decode_utf8, valid_utf8};

verus! {

/// The decimal digit of a number below ten.
pub open spec fn digit(d: nat) -> char {
    (48 + d) as char
}

/// The last `width` decimal digits of `n`, with leading zeros.
pub open spec fn digits(n: nat, width: nat) -> Seq<char>
    decreases width,
{
    if width == 0 {
        seq![]
    } else {
        digits(n / 10, (width - 1) as nat).push(digit(n % 10))
    }
}

/// `n` in decimal, without leading zeros.
pub open spec fn decimal(n: nat) -> Seq<char>
    decreases n,
{
    if n < 10 {
        seq![digit(n)]
    } else {
        decimal(n / 10).push(digit(n % 10))
    }
}

/// One more than the largest number of so many decimal digits.
pub open spec fn digits_range(width: nat) -> nat
    decreases width,
{
    if width == 0 {
        1
    } else {
        10 * digits_range((width - 1) as nat)
    }
}

/// The decimal digits of a number have the width asked for, and determine the
/// number where it fits the width.
pub proof fn law_digits_unique(a: nat, b: nat, width: nat)
    ensures
        digits(a, width).len() == width,
        a < digits_range(width) && b < digits_range(width) && digits(a, width) == digits(b, width)
            ==> a == b,
    decreases width,
{
    if width > 0 {
        law_digits_unique(a / 10, b / 10, (width - 1) as nat);
        law_digits_unique(b / 10, a / 10, (width - 1) as nat);
        let x = digits(a, width);
        let y = digits(b, width);
        if a < digits_range(width) && b < digits_range(width) && x == y {
            assert(x.drop_last() =~= digits(a / 10, (width - 1) as nat));
            assert(y.drop_last() =~= digits(b / 10, (width - 1) as nat));
            assert(x.last() == digit(a % 10) && y.last() == digit(b % 10));
        }
    }
}

/// UTF-8 encodes a text piece by piece.
pub proof fn lemma_encode_concat(a: Seq<char>, b: Seq<char>)
    ensures
        encode_utf8(a + b) == encode_utf8(a) + encode_utf8(b),
    decreases a.len(),
{
    if a.len() == 0 {
        assert(a + b =~= b);
        assert(encode_utf8(a) + encode_utf8(b) =~= encode_utf8(b));
    } else {
        lemma_encode_concat(a.drop_first(), b);
        assert((a + b).drop_first() =~= a.drop_first() + b);
        assert((a + b)[0] == a[0]);
        let head = vstd::utf8::encode_scalar(a[0] as u32);
        assert(head + (encode_utf8(a.drop_first()) + encode_utf8(b)) =~= (head + encode_utf8(
            a.drop_first(),
        )) + encode_utf8(b));
    }
}

proof fn lemma_digit_byte(d: nat)
    requires
        d < 10,
    ensures
        encode_utf8(seq![digit(d)]) == seq![(48 + d) as u8],
{
    let s = seq![digit(d)];
    assert(vstd::utf8::is_ascii_chars(s));
    vstd::utf8::is_ascii_chars_encode_utf8(s);
    assert(s[0] as u8 == (48 + d) as u8);
    assert(encode_utf8(s) =~= seq![(48 + d) as u8]);
}

/// Appends the UTF-8 bytes of `s` to `out`.
pub fn push_text(out: &mut Vec<u8>, s: &str)
    ensures
        final(out)@ == old(out)@ + encode_utf8(s@),
{
    push_bytes(out, s.as_bytes());
}

fn push_digit(out: &mut Vec<u8>, d: u64)
    requires
        d < 10,
    ensures
        final(out)@ == old(out)@ + encode_utf8(seq![digit(d as nat)]),
{
    let ghost before = out@;
    proof {
        lemma_digit_byte(d as nat);
    }
    out.push(48 + d as u8);
    assert(out@ =~= before + seq![(48 + d as nat) as u8]);
}

/// Appends the last `width` decimal digits of `n`, with leading zeros.
pub fn push_digits(out: &mut Vec<u8>, n: u64, width: usize)
    ensures
        final(out)@ == old(out)@ + encode_utf8(digits(n as nat, width as nat)),
    decreases width,
{
    let ghost before = out@;
    if width == 0 {
        assert(out@ =~= before + encode_utf8(digits(n as nat, 0)));
    } else {
        push_digits(out, n / 10, width - 1);
        push_digit(out, n % 10);
        proof {
            let head = digits(n as nat / 10, (width - 1) as nat);
            let last = seq![digit(n as nat % 10)];
            lemma_encode_concat(head, last);
            assert(head.push(digit(n as nat % 10)) =~= head + last);
            assert(out@ =~= before + (encode_utf8(head) + encode_utf8(last)));
        }
    }
}

/// Appends `n` in decimal.
pub fn push_decimal(out: &mut Vec<u8>, n: u64)
    ensures
        final(out)@ == old(out)@ + encode_utf8(decimal(n as nat)),
    decreases n,
{
    let ghost before = out@;
    if n < 10 {
        push_digit(out, n);
    } else {
        push_decimal(out, n / 10);
        push_digit(out, n % 10);
        proof {
            let head = decimal(n as nat / 10);
            let last = seq![digit(n as nat % 10)];
            lemma_encode_concat(head, last);
            assert(head.push(digit(n as nat % 10)) =~= head + last);
            assert(out@ =~= before + (encode_utf8(head) + encode_utf8(last)));
        }
    }
}

/// Calls [`std::str::from_utf8`] and drops the error's position.
///
/// The call succeeds exactly on valid UTF-8, and the string that it gives has
/// the bytes of the slice.
#[verifier::external_body]
pub(crate) fn str_from_utf8(bytes: &[u8]) -> (s: Option<&str>)
    ensures
        s is Some <==> valid_utf8(bytes@),
        s matches Some(t) ==> encode_utf8(t@) == bytes@,
{
    match std::str::from_utf8(bytes) {
        Ok(s) => Some(s),
        Err(_) => None,
    }
}

/// The text that some valid UTF-8 bytes encode.
pub fn text_of(bytes: &[u8]) -> (s: &str)
    requires
        valid_utf8(bytes@),
    ensures
        s@ == decode_utf8(bytes@),
        encode_utf8(s@) == bytes@,
{
    match str_from_utf8(bytes) {
        Some(s) => {
            proof {
                vstd::utf8::encode_utf8_decode_utf8(s@);
            }
            s
        },
        None => "",
    }
}

/// Dividing by ten and then by a power of ten is dividing by the next power.
proof fn lemma_tens(n: nat, k: nat)
    requires
        0 < k,
    ensures
        n as int / 10 / pow(10, (k - 1) as nat) == n as int / pow(10, k),
        pow(10, k) == 10 * pow(10, (k - 1) as nat),
        pow(10, (k - 1) as nat) > 0,
{
    vstd::arithmetic::power::lemma_pow_positive(10, (k - 1) as nat);
    reveal(pow);
    vstd::arithmetic::div_mod::lemma_div_denominator(n as int, 10, pow(10, (k - 1) as nat));
}

/// In a number of fixed width each character is the decimal digit of its place,
/// counted from the right.
pub proof fn law_digits_places(n: nat, width: nat, k: nat)
    ensures
        digits(n, width).len() == width,
        k < width ==> digits(n, width)[width - 1 - k] as int == 48 + n as int / pow(10, k) % 10,
    decreases width,
{
    vstd::arithmetic::power::lemma_pow0(10);
    if width > 0 {
        if k > 0 {
            law_digits_places(n / 10, (width - 1) as nat, (k - 1) as nat);
            lemma_tens(n, k);
        } else {
            law_digits_places(n / 10, (width - 1) as nat, 0);
        }
    }
}

/// In a decimal number each character is the digit of its place, counted from
/// the right, and the first one is not zero unless it is the only one.
pub proof fn law_decimal_places(n: nat, k: nat)
    ensures
        decimal(n).len() > 0,
        k < decimal(n).len() ==> decimal(n)[decimal(n).len() - 1 - k] as int == 48 + n as int / pow(
            10,
            k,
        ) % 10,
        n < pow(10, decimal(n).len()),
        decimal(n).len() > 1 ==> pow(10, (decimal(n).len() - 1) as nat) <= n,
    decreases n,
{
    vstd::arithmetic::power::lemma_pow0(10);
    vstd::arithmetic::power::lemma_pow1(10);
    if n >= 10 {
        let len = decimal(n / 10).len();
        if k > 0 {
            law_decimal_places(n / 10, (k - 1) as nat);
            lemma_tens(n, k);
        } else {
            law_decimal_places(n / 10, 0);
        }
        lemma_tens(n, len);
        lemma_tens(n, len + 1);
        if len > 1 {
            assert(pow(10, (len - 1) as nat) <= n / 10);
        }
    }
}

/// Digits are ASCII.
pub(crate) proof fn lemma_digits_ascii(n: nat, width: nat)
    ensures
        vstd::utf8::is_ascii_chars(digits(n, width)),
    decreases width,
{
    if width > 0 {
        lemma_digits_ascii(n / 10, (width - 1) as nat);
    }
}

}
