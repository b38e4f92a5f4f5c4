//! The fallback stash: eagerly formatted arguments, waiting to be encoded.
//!
//! An argument that is not plain data is formatted on the producer before the
//! size of its record is known. Its text waits here until the record has been
//! claimed. Each thread keeps one stash.

use crate::bytes::{
    copy_at, get_le, law_le_places, law_le_round_trip, law_le_small, le_bytes, le_value, lemma_le_len, lemma_le_ranges,
    lemma_le_value_bound, overwrite, push_bytes, push_le,
};
use crate::text::{str_from_utf8, text_of};
use vstd::arithmetic::power::pow;
use vstd::prelude::*;
use vstd::slice::slice_subrange;
use vstd::utf8::{decode_utf8, encode_utf8, valid_utf8};

verus! {

/// Text as length-prefixed bytes: the lower 32 bits of its length in bytes,
/// then its UTF-8.
pub open spec fn text_bytes(t: Seq<char>) -> Seq<u8> {
    le_bytes(encode_utf8(t).len(), 4) + encode_utf8(t)
}

/// The length that stands in front of length-prefixed text.
pub open spec fn prefixed_len(s: Seq<u8>) -> nat {
    le_value(s.subrange(0, 4))
}

/// The bytes begin with length-prefixed text.
pub open spec fn has_text(s: Seq<u8>) -> bool {
    &&& s.len() >= 4
    &&& 4 + prefixed_len(s) <= s.len()
    &&& valid_utf8(s.subrange(4, 4 + prefixed_len(s) as int))
}

/// The length-prefixed text at the front of the bytes.
pub open spec fn prefixed_text(s: Seq<u8>) -> Seq<char> {
    decode_utf8(s.subrange(4, 4 + prefixed_len(s) as int))
}

/// Length-prefixed text reads back as it was written, whatever follows it,
/// where its length fits the 32-bit prefix.
pub proof fn law_text_round_trip(t: Seq<char>, rest: Seq<u8>)
    requires
        encode_utf8(t).len() <= u32::MAX,
    ensures
        has_text(text_bytes(t) + rest),
        prefixed_text(text_bytes(t) + rest) == t,
        4 + prefixed_len(text_bytes(t) + rest) == text_bytes(t).len(),
{
    let e = encode_utf8(t);
    let s = text_bytes(t) + rest;
    lemma_le_ranges();
    law_le_round_trip(e.len(), 4);
    assert(s.subrange(0, 4) =~= le_bytes(e.len(), 4));
    assert(s.subrange(4, 4 + e.len() as int) =~= e);
    vstd::utf8::encode_utf8_valid_utf8(t);
    vstd::utf8::encode_utf8_decode_utf8(t);
}

/// Texts that were formatted and wait to be encoded, in the order in which
/// they came.
pub struct FallbackStash {
    /// The length-prefixed texts, one after the other.
    buf: Vec<u8>,
    /// Where each text begins.
    offsets: Vec<usize>,
    /// How many texts were encoded.
    read_idx: usize,
    /// Arguments are formatted into this. Its memory is used again for each.
    scratch: String,
}

impl FallbackStash {
    /// Where entry `i` ends.
    spec fn end_of(self, i: int) -> int {
        if i + 1 < self.offsets@.len() {
            self.offsets@[i + 1] as int
        } else {
            self.buf@.len() as int
        }
    }

    /// Entry `i`.
    spec fn entry(self, i: int) -> Seq<u8> {
        self.buf@.subrange(self.offsets@[i] as int, self.end_of(i))
    }

    /// The entries lie one behind the other, each is length-prefixed text, and
    /// no more were encoded than came in.
    pub closed spec fn wf(self) -> bool {
        &&& self.read_idx <= self.offsets@.len()
        &&& forall|i: int, j: int|
            0 <= i <= j < self.offsets@.len() ==> self.offsets@[i] <= self.offsets@[j]
        &&& forall|i: int|
            0 <= i < self.offsets@.len() ==> #[trigger] self.offsets@[i] <= self.buf@.len()
        &&& forall|i: int|
            0 <= i < self.offsets@.len() ==> #[trigger] self.entry(i) == text_bytes(
                self.values()[i],
            )
    }

    /// The stashed texts.
    pub closed spec fn values(self) -> Seq<Seq<char>> {
        Seq::new(self.offsets@.len(), |i: int| decode_utf8(self.entry(i).skip(4)))
    }

    /// The index of the text that is encoded next.
    pub closed spec fn next(self) -> nat {
        self.read_idx as nat
    }

    /// The bytes that the texts take up.
    pub closed spec fn stored(self) -> nat {
        self.buf@.len()
    }

    /// An empty stash.
    pub fn new() -> (stash: FallbackStash)
        ensures
            stash.wf(),
            stash.values() == Seq::<Seq<char>>::empty(),
            stash.next() == 0,
            stash.stored() == 0,
    {
        let stash: FallbackStash = FallbackStash {
            buf: Vec::new(),
            offsets: Vec::new(),
            read_idx: 0,
            scratch: String::new(),
        };
        assert(stash.values() =~= Seq::<Seq<char>>::empty());
        stash
    }

    /// Stashes a text. Returns the number of bytes that it will be encoded to.
    pub fn push(&mut self, text: &str) -> (size: usize)
        requires
            old(self).wf(),
        ensures
            final(self).wf(),
            final(self).values() == old(self).values().push(text@),
            final(self).next() == old(self).next(),
            size == text_bytes(text@).len(),
            final(self).stored() == old(self).stored() + text_bytes(text@).len(),
    {
        let ghost before = *self;
        let start: usize = self.buf.len();
        let tb: &[u8] = text.as_bytes();
        self.offsets.push(start);
        push_le(&mut self.buf, tb.len() as u128, 4);
        push_bytes(&mut self.buf, tb);
        proof {
            let n = before.offsets@.len();
            let t = text@;
            lemma_le_len(encode_utf8(t).len(), 4);
            assert(self.buf@ =~= before.buf@ + text_bytes(t));
            assert(self.entry(n as int) =~= text_bytes(t));
            assert(text_bytes(t).skip(4) =~= encode_utf8(t));
            vstd::utf8::encode_utf8_decode_utf8(t);
            assert forall|i: int| 0 <= i < n implies #[trigger] self.entry(i) == before.entry(
                i,
            ) by {
                assert(before.offsets@[i] <= before.buf@.len());
                if i + 1 < n {
                    assert(before.offsets@[i + 1] <= before.buf@.len());
                }
                assert(before.end_of(i) == self.end_of(i));
                assert(before.offsets@[i] <= before.end_of(i));
                assert(self.entry(i) =~= before.entry(i));
            }
            assert(self.values() =~= before.values().push(t));
            assert forall|i: int| 0 <= i < self.offsets@.len() implies #[trigger] self.entry(i)
                == text_bytes(self.values()[i]) by {
                if i < n {
                    assert(before.entry(i) == text_bytes(before.values()[i]));
                }
            }
        }
        self.buf.len() - start
    }

    /// Stashes the text that `fmt` writes to an empty string. Returns the number
    /// of bytes that it will be encoded to.
    pub fn push_with<F: FnOnce(&mut String)>(&mut self, fmt: F) -> (size: usize)
        requires
            old(self).wf(),
            forall|x: &mut String| x@ == Seq::<char>::empty() ==> call_requires(fmt, (x,)),
        ensures
            exists|x: &mut String|
                {
                    &&& x@ == Seq::<char>::empty()
                    &&& #[trigger] call_ensures(fmt, (x,), ())
                    &&& final(self).values() == old(self).values().push(final(x)@)
                    &&& size == text_bytes(final(x)@).len()
                },
            final(self).wf(),
            final(self).next() == old(self).next(),
            final(self).stored() == old(self).stored() + size,
    {
        let ghost before = *self;
        let mut text: String = String::new();
        std::mem::swap(&mut text, &mut self.scratch);
        text.clear();
        fmt(&mut text);
        proof {
            lemma_same_texts(before, *self);
        }
        let size: usize = self.push(text.as_str());
        let ghost pushed = *self;
        self.scratch = text;
        proof {
            lemma_same_texts(pushed, *self);
        }
        size
    }
}

impl FallbackStash {
    /// There is memory to ask for so many bytes more than are stored.
    pub open spec fn may_reserve(self, bytes: usize) -> bool {
        &&& self.stored() + bytes <= isize::MAX
        &&& 8 * (self.values().len() + 16) <= isize::MAX
    }

    /// Whether there is memory to ask for so many bytes more than are stored.
    pub fn can_reserve(&self, bytes: usize) -> (ok: bool)
        ensures
            ok == self.may_reserve(bytes),
    {
        let limit: usize = isize::MAX as usize;
        self.buf.len() <= limit && bytes <= limit - self.buf.len() && self.offsets.len() <= limit
            / 8 - 16
    }
}

/// What the stash holds does not depend on the string that arguments are
/// formatted into.
proof fn lemma_same_texts(a: FallbackStash, b: FallbackStash)
    requires
        a.wf(),
        a.buf@ == b.buf@,
        a.offsets@ == b.offsets@,
        a.read_idx == b.read_idx,
    ensures
        b.wf(),
        b.values() == a.values(),
        b.next() == a.next(),
        b.stored() == a.stored(),
{
    assert forall|i: int| 0 <= i < a.offsets@.len() implies #[trigger] b.entry(i) == a.entry(
        i,
    ) by {}
    assert(b.values() =~= a.values());
    assert forall|i: int| 0 <= i < b.offsets@.len() implies #[trigger] b.entry(i) == text_bytes(
        b.values()[i],
    ) by {
        assert(a.entry(i) == text_bytes(a.values()[i]));
    }
}

/// Pre-allocates the fallback formatting buffer of a thread.
///
/// Call once per hot thread at startup. Avoids allocation on the first
/// log call that hits the fallback path.
pub fn reserve_fallback_capacity(stash: &mut FallbackStash, bytes: usize)
    requires
        old(stash).wf(),
        old(stash).may_reserve(bytes),
    ensures
        final(stash).wf(),
        final(stash).values() == old(stash).values(),
        final(stash).next() == old(stash).next(),
        final(stash).stored() == old(stash).stored(),
{
    let ghost before = *stash;
    stash.buf.reserve(bytes);
    stash.offsets.reserve(16);
    stash.scratch.clear();
    stash.scratch.reserve(bytes);
    proof {
        lemma_same_texts(before, *stash);
    }
}

/// Clears the fallback stash. Called at the start of each log block.
pub fn fallback_stash_clear(stash: &mut FallbackStash)
    ensures
        final(stash).wf(),
        final(stash).values() == Seq::<Seq<char>>::empty(),
        final(stash).next() == 0,
        final(stash).stored() == 0,
{
    stash.buf.clear();
    stash.offsets.clear();
    stash.read_idx = 0;
    assert(stash.values() =~= Seq::<Seq<char>>::empty());
}

/// Encodes the next stashed fallback value into `buf` as length-prefixed bytes.
///
/// Reads from the stash in order: each call advances the read index.
pub fn fallback_stash_encode(stash: &mut FallbackStash, buf: &mut [u8])
    requires
        old(stash).wf(),
        old(stash).next() < old(stash).values().len(),
        text_bytes(old(stash).values()[old(stash).next() as int]).len() <= old(buf)@.len(),
    ensures
        final(stash).wf(),
        final(stash).values() == old(stash).values(),
        final(stash).next() == old(stash).next() + 1,
        final(stash).stored() == old(stash).stored(),
        final(buf)@ == overwrite(
            old(buf)@,
            0,
            text_bytes(old(stash).values()[old(stash).next() as int]),
        ),
{
    let ghost before = *stash;
    let i: usize = stash.read_idx;
    let count: usize = stash.offsets.len();
    let start: usize = stash.offsets[i];
    let end: usize = if i + 1 < count {
        stash.offsets[i + 1]
    } else {
        stash.buf.len()
    };
    proof {
        assert(start <= end <= stash.buf@.len());
        assert(stash.entry(i as int) == text_bytes(stash.values()[i as int]));
    }
    copy_at(buf, 0, slice_subrange(stash.buf.as_slice(), start, end));
    stash.read_idx = i + 1;
    proof {
        assert forall|k: int| 0 <= k < before.offsets@.len() implies #[trigger] stash.entry(k)
            == before.entry(k) by {}
        assert(stash.values() =~= before.values());
        assert forall|k: int| 0 <= k < stash.offsets@.len() implies #[trigger] stash.entry(k)
            == text_bytes(stash.values()[k]) by {
            assert(before.entry(k) == text_bytes(before.values()[k]));
        }
    }
}

/// Whether the buffer begins with length-prefixed text.
pub fn check_text(buf: &[u8]) -> (ok: bool)
    ensures
        ok == has_text(buf@),
{
    if buf.len() < 4 {
        return false;
    }
    proof {
        lemma_le_ranges();
        lemma_le_value_bound(buf@.subrange(0, 4));
    }
    let len: usize = get_le(buf, 0, 4) as usize;
    if buf.len() - 4 < len {
        return false;
    }
    match str_from_utf8(slice_subrange(buf, 4, 4 + len)) {
        Some(_) => true,
        None => false,
    }
}

/// Read a length-prefixed string from the buffer. Returns (content, bytes_consumed).
pub fn bytes_from_buf(buf: &[u8]) -> (r: (&str, usize))
    requires
        has_text(buf@),
    ensures
        r.0@ == prefixed_text(buf@),
        r.1 == 4 + prefixed_len(buf@),
{
    proof {
        lemma_le_ranges();
        lemma_le_value_bound(buf@.subrange(0, 4));
    }
    let size: usize = buf.len();
    let len: usize = get_le(buf, 0, 4) as usize;
    (text_of(slice_subrange(buf, 4, 4 + len)), 4 + len)
}

/// Length-prefixed text: four bytes of its length, lowest first, then all of its
/// UTF-8.
pub proof fn law_text_layout(t: Seq<char>, k: nat)
    ensures
        text_bytes(t).len() == 4 + encode_utf8(t).len(),
        k < 4 ==> text_bytes(t)[k as int] as int == encode_utf8(t).len() as int / pow(256, k) % 256,
        text_bytes(t).skip(4) == encode_utf8(t),
{
    law_le_places(encode_utf8(t).len(), 4, k);
    assert(text_bytes(t).skip(4) =~= encode_utf8(t));
}

/// Length-prefixed text reads as its bytes say: a length, and that many bytes of
/// text.
pub proof fn law_text_reads(s: Seq<u8>)
    requires
        s.len() >= 4,
    ensures
        ({
            let n = s[0] + 256 * s[1] + 65536 * s[2] + 16777216 * s[3];
            &&& prefixed_len(s) == n
            &&& has_text(s) <==> 4 + n <= s.len() && valid_utf8(s.subrange(4, 4 + n))
            &&& has_text(s) ==> prefixed_text(s) == decode_utf8(s.subrange(4, 4 + n))
        }),
{
    law_le_small(s.subrange(0, 4));
}

/// More bytes can be asked for exactly where the texts, the new bytes and the
/// places of the texts stay within what memory can be asked for.
pub proof fn law_reserve(stash: FallbackStash, bytes: usize)
    ensures
        stash.stored() + bytes > isize::MAX ==> !stash.may_reserve(bytes),
        stash.stored() + bytes <= isize::MAX && 8 * stash.values().len() <= isize::MAX - 128
            ==> stash.may_reserve(bytes),
{
}

}
