//! Little-endian integers and byte copies.

use vstd::arithmetic::power::pow;
use vstd::prelude::*;

verus! {

/// `n` as `width` bytes, least significant first. Bits above the width are
/// dropped.
pub open spec fn le_bytes(n: nat, width: nat) -> Seq<u8>
    decreases width,
{
    if width == 0 {
        seq![]
    } else {
        seq![(n % 256) as u8] + le_bytes(n / 256, (width - 1) as nat)
    }
}

/// The number that a little-endian byte sequence stands for.
pub open spec fn le_value(s: Seq<u8>) -> nat
    decreases s.len(),
{
    if s.len() == 0 {
        0
    } else {
        s[0] as nat + 256 * le_value(s.drop_first())
    }
}

/// How many numbers fit in `width` bytes.
pub open spec fn le_range(width: nat) -> nat
    decreases width,
{
    if width == 0 {
        1
    } else {
        256 * le_range((width - 1) as nat)
    }
}

/// `buf` with `src` written over it from position `at` on.
pub open spec fn overwrite(buf: Seq<u8>, at: int, src: Seq<u8>) -> Seq<u8> {
    buf.subrange(0, at) + src + buf.subrange(at + src.len(), buf.len() as int)
}

/// So many zero bytes.
pub open spec fn zeros(n: nat) -> Seq<u8> {
    Seq::new(n, |i: int| 0u8)
}

pub proof fn lemma_le_len(n: nat, width: nat)
    ensures
        le_bytes(n, width).len() == width,
    decreases width,
{
    if width > 0 {
        lemma_le_len(n / 256, (width - 1) as nat);
    }
}

pub proof fn lemma_le_value_bound(s: Seq<u8>)
    ensures
        le_value(s) < le_range(s.len()),
    decreases s.len(),
{
    if s.len() > 0 {
        lemma_le_value_bound(s.drop_first());
    }
}

/// Reading back `width` little-endian bytes gives the number that was
/// written, where the number fits in them.
pub proof fn law_le_round_trip(n: nat, width: nat)
    requires
        n < le_range(width),
    ensures
        le_value(le_bytes(n, width)) == n,
        le_bytes(n, width).len() == width,
    decreases width,
{
    lemma_le_len(n, width);
    if width > 0 {
        law_le_round_trip(n / 256, (width - 1) as nat);
        assert(le_bytes(n, width).drop_first() =~= le_bytes(n / 256, (width - 1) as nat));
    }
}

/// Writing the number that some bytes stand for gives those bytes back.
pub proof fn law_le_value_round_trip(s: Seq<u8>)
    ensures
        le_bytes(le_value(s), s.len()) == s,
    decreases s.len(),
{
    if s.len() > 0 {
        law_le_value_round_trip(s.drop_first());
        let rest: nat = le_value(s.drop_first());
        assert((s[0] as nat + 256 * rest) % 256 == s[0] as nat);
        assert((s[0] as nat + 256 * rest) / 256 == rest);
        assert(s =~= seq![s[0]] + s.drop_first());
    } else {
        assert(le_bytes(le_value(s), s.len()) =~= s);
    }
}

pub proof fn lemma_le_ranges()
    ensures
        le_range(1) == 0x100,
        le_range(2) == 0x1_0000,
        le_range(4) == 0x1_0000_0000,
        le_range(8) == 0x1_0000_0000_0000_0000,
        le_range(16) == 0x1_0000_0000_0000_0000_0000_0000_0000_0000,
{
    reveal_with_fuel(le_range, 17);
}

/// Copies `src` into `buf`, starting at `at`.
pub fn copy_at(buf: &mut [u8], at: usize, src: &[u8])
    requires
        at + src@.len() <= old(buf)@.len(),
    ensures
        final(buf)@ == overwrite(old(buf)@, at as int, src@),
{
    let ghost before = buf@;
    let end: usize = buf.len();
    let mut i: usize = 0;
    while i < src.len()
        invariant
            i <= src@.len(),
            before.len() == end,
            at + src@.len() <= before.len(),
            buf@ == overwrite(before, at as int, src@.subrange(0, i as int)),
        decreases src@.len() - i,
    {
        buf[at + i] = src[i];
        i = i + 1;
        assert(buf@ =~= overwrite(before, at as int, src@.subrange(0, i as int)));
    }
    assert(src@.subrange(0, src@.len() as int) =~= src@);
}

/// Writes `n` into `buf` as `width` little-endian bytes, starting at `at`.
pub fn put_le(buf: &mut [u8], at: usize, n: u128, width: usize)
    requires
        at + width <= old(buf)@.len(),
    ensures
        final(buf)@ == overwrite(old(buf)@, at as int, le_bytes(n as nat, width as nat)),
{
    let ghost before = buf@;
    let ghost all = le_bytes(n as nat, width as nat);
    proof {
        lemma_le_len(n as nat, width as nat);
        assert(overwrite(before, at as int, all.subrange(0, 0)) =~= before);
        assert(all.subrange(0, width as int) =~= all);
    }
    let end: usize = buf.len();
    let mut rest: u128 = n;
    let mut i: usize = 0;
    while i < width
        invariant
            i <= width,
            before.len() == end,
            at + width <= before.len(),
            all.len() == width,
            all.subrange(i as int, width as int) == le_bytes(rest as nat, (width - i) as nat),
            buf@ == overwrite(before, at as int, all.subrange(0, i as int)),
        decreases width - i,
    {
        proof {
            lemma_le_len(rest as nat / 256, (width - i - 1) as nat);
            assert(all.subrange(i as int, width as int)[0] == (rest % 256) as u8);
            assert(all.subrange(i + 1, width as int) =~= all.subrange(
                i as int,
                width as int,
            ).drop_first());
            assert(all.subrange(i as int, width as int).drop_first() =~= le_bytes(
                rest as nat / 256,
                (width - i - 1) as nat,
            ));
        }
        buf[at + i] = (rest % 256) as u8;
        rest = rest / 256;
        i = i + 1;
        assert(buf@ =~= overwrite(before, at as int, all.subrange(0, i as int)));
    }
}

/// Reads `width` little-endian bytes of `buf` from position `at` on.
pub fn get_le(buf: &[u8], at: usize, width: usize) -> (n: u128)
    requires
        width <= 16,
        at + width <= buf@.len(),
    ensures
        n == le_value(buf@.subrange(at as int, at + width)),
{
    let end: usize = buf.len();
    let mut n: u128 = 0;
    let mut i: usize = width;
    proof {
        lemma_le_ranges();
        assert(buf@.subrange(at + width, at + width) =~= Seq::<u8>::empty());
    }
    while i > 0
        invariant
            i <= width <= 16,
            at + width <= buf@.len(),
            buf@.len() == end,
            n == le_value(buf@.subrange(at + i, at + width)),
        decreases i,
    {
        proof {
            let s = buf@.subrange(at + i - 1, at + width);
            lemma_le_value_bound(s);
            lemma_le_range_grows(s.len(), 16);
            lemma_le_ranges();
            assert(s.drop_first() =~= buf@.subrange(at + i, at + width));
        }
        i = i - 1;
        let byte: u8 = buf[at + i];
        n = n * 256 + byte as u128;
    }
    n
}

proof fn lemma_le_range_grows(a: nat, b: nat)
    requires
        a <= b,
    ensures
        le_range(a) <= le_range(b),
    decreases b - a,
{
    if a < b {
        lemma_le_range_grows(a + 1, b);
    }
}

/// Appends `src` to `out`.
pub fn push_bytes(out: &mut Vec<u8>, src: &[u8])
    ensures
        final(out)@ == old(out)@ + src@,
{
    let ghost before = out@;
    out.extend_from_slice(src);
    assert(out@ =~= before + src@);
}

/// Appends `n` to `out` as `width` little-endian bytes.
pub fn push_le(out: &mut Vec<u8>, n: u128, width: usize)
    ensures
        final(out)@ == old(out)@ + le_bytes(n as nat, width as nat),
{
    let ghost before = out@;
    let mut rest: u128 = n;
    let mut left: usize = width;
    while left > 0
        invariant
            left <= width,
            before + le_bytes(n as nat, width as nat) == out@ + le_bytes(rest as nat, left as nat),
        decreases left,
    {
        let ghost done = out@;
        out.push((rest % 256) as u8);
        proof {
            assert(done + le_bytes(rest as nat, left as nat) =~= out@ + le_bytes(
                rest as nat / 256,
                (left - 1) as nat,
            ));
        }
        rest = rest / 256;
        left = left - 1;
    }
    assert(out@ + le_bytes(rest as nat, 0) =~= out@);
}

/// Each byte of a number is the one of its place, lowest first.
pub proof fn law_le_places(n: nat, width: nat, k: nat)
    ensures
        le_bytes(n, width).len() == width,
        k < width ==> le_bytes(n, width)[k as int] as int == n as int / pow(256, k) % 256,
    decreases width,
{
    lemma_le_len(n, width);
    vstd::arithmetic::power::lemma_pow0(256);
    if k < width && k > 0 {
        law_le_places(n / 256, (width - 1) as nat, (k - 1) as nat);
        vstd::arithmetic::power::lemma_pow_positive(256, (k - 1) as nat);
        reveal(pow);
        vstd::arithmetic::div_mod::lemma_div_denominator(n as int, 256, pow(256, (k - 1) as nat));
    }
}

/// The first bytes of a number, by name.
pub proof fn law_le_small(s: Seq<u8>)
    ensures
        s.len() == 2 ==> le_value(s) == s[0] + 256 * s[1],
        s.len() == 4 ==> le_value(s) == s[0] + 256 * s[1] + 65536 * s[2] + 16777216 * s[3],
{
    reveal_with_fuel(le_value, 5);
}

/// Writing over a buffer changes the bytes from `at` on, as many as are written,
/// and no others.
pub proof fn law_overwrite(buf: Seq<u8>, at: int, src: Seq<u8>, i: int)
    requires
        0 <= at,
        at + src.len() <= buf.len(),
        0 <= i < buf.len(),
    ensures
        overwrite(buf, at, src).len() == buf.len(),
        at <= i < at + src.len() ==> overwrite(buf, at, src)[i] == src[i - at],
        i < at || at + src.len() <= i ==> overwrite(buf, at, src)[i] == buf[i],
{
}

/// Every one of so many zero bytes is zero.
pub proof fn law_zeros(n: nat, i: int)
    ensures
        zeros(n).len() == n,
        0 <= i < n ==> zeros(n)[i] == 0,
{
}

}
