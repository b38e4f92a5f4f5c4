//! Hot-path argument encoding via autoref specialization.
//!
//! Two tiers, one dispatch mechanism:
//! - **POD types** (`Pod`): fixed-size bytes, no formatting
//! - **Everything else**: eagerly formatted on producer, written as length-prefixed bytes
//!
//! # Dispatch Mechanism
//!
//! The hot-path macro expands each argument to `(&HotArg(&val)).method()`.
//! Method resolution picks the right path at compile time:
//!
//! 1. **Inherent methods** on `HotArg<&T> where T: Pod`: plain bytes (highest priority)
//! 2. **Trait methods** (`HotEncode`) on `HotArg<&T>`: stash-based fallback
//!
//! Inherent methods always win over trait methods in Rust's method resolution.
//! When the `Pod` bound isn't satisfied, the compiler falls through to
//! the blanket trait impl. Both take the thread's stash, which only the second
//! touches.

use crate::bytes::{
    get_le, law_le_places, law_le_round_trip, law_le_value_round_trip, le_bytes, le_range, lemma_le_len,
    lemma_le_ranges, lemma_le_value_bound, overwrite, put_le,
};
use crate::placeholder::FormatTrait;
use crate::stash::{
    bytes_from_buf, check_text, fallback_stash_encode, has_text, law_text_round_trip, prefixed_len,
    prefixed_text, text_bytes, FallbackStash,
};
use std::marker::PhantomData;
use vstd::arithmetic::power::pow;
use vstd::prelude::*;
use vstd::slice::slice_subrange;
use vstd::utf8::encode_utf8;

verus! {

/// The bytes begin with these.
pub open spec fn starts_with(s: Seq<u8>, front: Seq<u8>) -> bool {
    s.len() >= front.len() && s.take(front.len() as int) == front
}

/// Types that are logged as raw bytes.
///
/// A value of such a type is encoded to the hot-path ring buffer as a fixed
/// number of bytes, its image. Decoding happens on the consumer thread.
///
/// The image of an integer has the lowest byte first, on every machine.
pub trait Pod: Sized {
    /// The bytes of a value. They are left open for a type that does not say.
    open spec fn image(self) -> Seq<u8> {
        arbitrary()
    }

    /// The number of bytes of every value.
    open spec fn image_len() -> nat {
        arbitrary()
    }

    /// The size of the image. Every image has that length, and different values
    /// have different images.
    fn pod_size() -> (n: usize)
        ensures
            n == Self::image_len(),
            forall|v: Self| (#[trigger] v.image()).len() == Self::image_len(),
            forall|v: Self, w: Self| #[trigger] v.image() == #[trigger] w.image() ==> v == w,
    ;

    /// Writes the image to the front of `buf`.
    fn put_image(&self, buf: &mut [u8])
        requires
            Self::image_len() <= old(buf)@.len(),
        ensures
            final(buf)@ == overwrite(old(buf)@, 0, self.image()),
    ;

    /// Reads the value whose image stands at the front of `bytes`, if there is
    /// one.
    fn take_image(bytes: &[u8]) -> (v: Option<Self>)
        ensures
            v matches Some(w) ==> starts_with(bytes@, w.image()),
            v is None ==> forall|w: Self| !starts_with(bytes@, #[trigger] w.image()),
    ;
}

/// Every image has the same length, and different values have different images.
pub open spec fn pod_lawful<T: Pod>() -> bool {
    &&& forall|v: T| (#[trigger] v.image()).len() == T::image_len()
    &&& forall|v: T, w: T| #[trigger] v.image() == #[trigger] w.image() ==> v == w
}

/// The bytes begin with the image of some value.
pub open spec fn has_image<T: Pod>(s: Seq<u8>) -> bool {
    exists|w: T| starts_with(s, #[trigger] w.image())
}

/// A value that was written as raw bytes is the one that is read back, whatever
/// follows its image.
pub proof fn law_pod_round_trip<T: Pod>(v: T, rest: Seq<u8>, w: T)
    requires
        pod_lawful::<T>(),
    ensures
        has_image::<T>(v.image() + rest),
        starts_with(v.image() + rest, w.image()) ==> w == v,
{
    let s = v.image() + rest;
    assert(s.take(v.image().len() as int) =~= v.image());
    assert(starts_with(s, v.image()));
    assert(v.image().len() == w.image().len());
}

// -- Autoref dispatch machinery -----------------------------------------------

/// Wrapper enabling autoref-based dispatch between POD and fallback types.
///
/// Not user-facing: used by hot-path macro expansions.
pub struct HotArg<T>(pub T);

/// Zero-sized witness marker for consumer-side type routing.
///
/// `hot_witness()` gives back a `Witness<T>` that carries the `HotDecode` type
/// through to the witness function without needing a reference to the actual
/// value.
pub struct Witness<T>(pub PhantomData<T>);

/// Marker type for fallback-encoded arguments on the consumer side.
///
/// When a type isn't `Pod`, it gets eagerly formatted on the
/// producer thread and written as length-prefixed bytes. `PreFormatted`
/// decodes to `PreFormattedValue`.
pub struct PreFormatted;

/// Consumer-side wrapper for eagerly-formatted arguments.
///
/// Reads the same under every formatting trait: the producer already applied
/// the format spec, and nothing is formatted twice.
#[derive(Debug)]
pub struct PreFormattedValue(pub String);

impl PreFormattedValue {
    /// What the value reads as under a formatting trait: the pre-formatted
    /// content, verbatim.
    pub fn passthrough(&self, _format_trait: FormatTrait) -> (s: &str)
        ensures
            s@ == self.0@,
    {
        self.0.as_str()
    }
}

// -- Tier 2: Blanket trait for non-POD types ----------------------------------

/// Trait for non-POD argument encoding. Lower priority than inherent
/// methods on `HotArg` due to Rust's method resolution rules.
///
/// Not user-facing: used by hot-path macro expansions.
pub trait HotEncode {
    /// Formats the argument into the stash. Returns the size of its encoding.
    ///
    /// `fmt` is handed an empty string, and what it leaves there is stashed.
    fn hot_size_with<F: FnOnce(&mut String)>(&self, stash: &mut FallbackStash, fmt: F) -> (n: usize)
        where Self: Sized
        requires
            old(stash).wf(),
            forall|x: &mut String| x@ == Seq::<char>::empty() ==> call_requires(fmt, (x,)),
        ensures
            final(stash).wf(),
            final(stash).next() == old(stash).next(),
            final(stash).values().len() == old(stash).values().len() + 1,
            final(stash).values().drop_last() == old(stash).values(),
            n == text_bytes(final(stash).values().last()).len(),
            exists|x: &mut String|
                x@ == Seq::<char>::empty() && #[trigger] call_ensures(fmt, (x,), ()) && final(x)@
                    == final(stash).values().last(),
    ;

    /// Writes the next stashed text to the front of `buf`.
    fn hot_encode(&self, stash: &mut FallbackStash, buf: &mut [u8])
        requires
            old(stash).wf(),
            old(stash).next() < old(stash).values().len(),
            text_bytes(old(stash).values()[old(stash).next() as int]).len() <= old(buf)@.len(),
        ensures
            final(stash).wf(),
            final(stash).values() == old(stash).values(),
            final(stash).next() == old(stash).next() + 1,
            final(buf)@ == overwrite(
                old(buf)@,
                0,
                text_bytes(old(stash).values()[old(stash).next() as int]),
            ),
    ;

    fn hot_witness(&self) -> (w: Witness<PreFormatted>)
        ensures
            w == Witness::<PreFormatted>(PhantomData),
    ;
}

// -- Tier 1: Inherent methods for Pod types -----------------------------

impl<T: Pod> HotArg<&T> {
    /// The size of the argument's encoding.
    pub fn hot_size(&self) -> (n: usize)
        ensures
            n == T::image_len(),
    {
        T::pod_size()
    }

    /// Writes the argument's image to the front of `buf`.
    pub fn hot_encode(&self, _stash: &mut FallbackStash, buf: &mut [u8])
        requires
            T::image_len() <= old(buf)@.len(),
        ensures
            final(buf)@ == overwrite(old(buf)@, 0, self.0.image()),
            *final(_stash) == *old(_stash),
    {
        self.0.put_image(buf);
    }

    /// The size of the argument's encoding. `_fmt` is not called.
    pub fn hot_size_with<F: FnOnce(&mut String)>(&self, _stash: &mut FallbackStash, _fmt: F) -> (n:
        usize)
        ensures
            n == T::image_len(),
            *final(_stash) == *old(_stash),
    {
        self.hot_size()
    }

    pub fn hot_witness(&self) -> (w: Witness<T>)
        ensures
            w == Witness::<T>(PhantomData),
    {
        Witness(PhantomData)
    }
}

// -- Tier 2: Blanket impl for everything else ---------------------------------

impl<T> HotEncode for HotArg<&T> {
    fn hot_size_with<F: FnOnce(&mut String)>(&self, stash: &mut FallbackStash, fmt: F) -> (n: usize) {
        let ghost before = stash.values();
        let n: usize = stash.push_with(fmt);
        assert(stash.values().drop_last() =~= before);
        n
    }

    fn hot_encode(&self, stash: &mut FallbackStash, buf: &mut [u8]) {
        fallback_stash_encode(stash, buf);
    }

    fn hot_witness(&self) -> (w: Witness<PreFormatted>) {
        Witness(PhantomData)
    }
}

// -- Primitive Pod impls ------------------------------------------------

impl Pod for u8 {
    open spec fn image(self) -> Seq<u8> {
        le_bytes(self as nat, 1)
    }

    open spec fn image_len() -> nat {
        1
    }

    fn pod_size() -> (n: usize) {
        proof {
            assert forall|v: Self| (#[trigger] v.image()).len() == 1 by {
                lemma_le_len(v as nat, 1);
            }
            assert forall|v: Self, w: Self| #[trigger] v.image() == #[trigger] w.image() implies v
                == w by {
                lemma_le_ranges();
                law_le_round_trip(v as nat, 1);
                law_le_round_trip(w as nat, 1);
            }
        }
        1
    }

    fn put_image(&self, buf: &mut [u8]) {
        put_le(buf, 0, *self as u128, 1);
    }

    fn take_image(bytes: &[u8]) -> (v: Option<Self>) {
        if bytes.len() < 1 {
            assert forall|w: Self| !starts_with(bytes@, #[trigger] w.image()) by {
                lemma_le_len(w as nat, 1);
            }
            return None;
        }
        proof {
            lemma_le_ranges();
            lemma_le_value_bound(bytes@.subrange(0, 1));
            law_le_value_round_trip(bytes@.subrange(0, 1));
            assert(bytes@.take(1) =~= bytes@.subrange(0, 1));
        }
        Some(get_le(bytes, 0, 1) as u8)
    }
}

impl Pod for u16 {
    open spec fn image(self) -> Seq<u8> {
        le_bytes(self as nat, 2)
    }

    open spec fn image_len() -> nat {
        2
    }

    fn pod_size() -> (n: usize) {
        proof {
            assert forall|v: Self| (#[trigger] v.image()).len() == 2 by {
                lemma_le_len(v as nat, 2);
            }
            assert forall|v: Self, w: Self| #[trigger] v.image() == #[trigger] w.image() implies v
                == w by {
                lemma_le_ranges();
                law_le_round_trip(v as nat, 2);
                law_le_round_trip(w as nat, 2);
            }
        }
        2
    }

    fn put_image(&self, buf: &mut [u8]) {
        put_le(buf, 0, *self as u128, 2);
    }

    fn take_image(bytes: &[u8]) -> (v: Option<Self>) {
        if bytes.len() < 2 {
            assert forall|w: Self| !starts_with(bytes@, #[trigger] w.image()) by {
                lemma_le_len(w as nat, 2);
            }
            return None;
        }
        proof {
            lemma_le_ranges();
            lemma_le_value_bound(bytes@.subrange(0, 2));
            law_le_value_round_trip(bytes@.subrange(0, 2));
            assert(bytes@.take(2) =~= bytes@.subrange(0, 2));
        }
        Some(get_le(bytes, 0, 2) as u16)
    }
}

impl Pod for u32 {
    open spec fn image(self) -> Seq<u8> {
        le_bytes(self as nat, 4)
    }

    open spec fn image_len() -> nat {
        4
    }

    fn pod_size() -> (n: usize) {
        proof {
            assert forall|v: Self| (#[trigger] v.image()).len() == 4 by {
                lemma_le_len(v as nat, 4);
            }
            assert forall|v: Self, w: Self| #[trigger] v.image() == #[trigger] w.image() implies v
                == w by {
                lemma_le_ranges();
                law_le_round_trip(v as nat, 4);
                law_le_round_trip(w as nat, 4);
            }
        }
        4
    }

    fn put_image(&self, buf: &mut [u8]) {
        put_le(buf, 0, *self as u128, 4);
    }

    fn take_image(bytes: &[u8]) -> (v: Option<Self>) {
        if bytes.len() < 4 {
            assert forall|w: Self| !starts_with(bytes@, #[trigger] w.image()) by {
                lemma_le_len(w as nat, 4);
            }
            return None;
        }
        proof {
            lemma_le_ranges();
            lemma_le_value_bound(bytes@.subrange(0, 4));
            law_le_value_round_trip(bytes@.subrange(0, 4));
            assert(bytes@.take(4) =~= bytes@.subrange(0, 4));
        }
        Some(get_le(bytes, 0, 4) as u32)
    }
}

impl Pod for u64 {
    open spec fn image(self) -> Seq<u8> {
        le_bytes(self as nat, 8)
    }

    open spec fn image_len() -> nat {
        8
    }

    fn pod_size() -> (n: usize) {
        proof {
            assert forall|v: Self| (#[trigger] v.image()).len() == 8 by {
                lemma_le_len(v as nat, 8);
            }
            assert forall|v: Self, w: Self| #[trigger] v.image() == #[trigger] w.image() implies v
                == w by {
                lemma_le_ranges();
                law_le_round_trip(v as nat, 8);
                law_le_round_trip(w as nat, 8);
            }
        }
        8
    }

    fn put_image(&self, buf: &mut [u8]) {
        put_le(buf, 0, *self as u128, 8);
    }

    fn take_image(bytes: &[u8]) -> (v: Option<Self>) {
        if bytes.len() < 8 {
            assert forall|w: Self| !starts_with(bytes@, #[trigger] w.image()) by {
                lemma_le_len(w as nat, 8);
            }
            return None;
        }
        proof {
            lemma_le_ranges();
            lemma_le_value_bound(bytes@.subrange(0, 8));
            law_le_value_round_trip(bytes@.subrange(0, 8));
            assert(bytes@.take(8) =~= bytes@.subrange(0, 8));
        }
        Some(get_le(bytes, 0, 8) as u64)
    }
}

impl Pod for u128 {
    open spec fn image(self) -> Seq<u8> {
        le_bytes(self as nat, 16)
    }

    open spec fn image_len() -> nat {
        16
    }

    fn pod_size() -> (n: usize) {
        proof {
            assert forall|v: Self| (#[trigger] v.image()).len() == 16 by {
                lemma_le_len(v as nat, 16);
            }
            assert forall|v: Self, w: Self| #[trigger] v.image() == #[trigger] w.image() implies v
                == w by {
                lemma_le_ranges();
                law_le_round_trip(v as nat, 16);
                law_le_round_trip(w as nat, 16);
            }
        }
        16
    }

    fn put_image(&self, buf: &mut [u8]) {
        put_le(buf, 0, *self as u128, 16);
    }

    fn take_image(bytes: &[u8]) -> (v: Option<Self>) {
        if bytes.len() < 16 {
            assert forall|w: Self| !starts_with(bytes@, #[trigger] w.image()) by {
                lemma_le_len(w as nat, 16);
            }
            return None;
        }
        proof {
            lemma_le_ranges();
            lemma_le_value_bound(bytes@.subrange(0, 16));
            law_le_value_round_trip(bytes@.subrange(0, 16));
            assert(bytes@.take(16) =~= bytes@.subrange(0, 16));
        }
        Some(get_le(bytes, 0, 16) as u128)
    }
}

/// The two's complement of a signed integer of `width` bytes.
pub open spec fn complement(v: int, width: nat) -> nat {
    if v >= 0 {
        v as nat
    } else {
        (le_range(width) + v) as nat
    }
}

impl Pod for i8 {
    open spec fn image(self) -> Seq<u8> {
        le_bytes(complement(self as int, 1), 1)
    }

    open spec fn image_len() -> nat {
        1
    }

    fn pod_size() -> (n: usize) {
        proof {
            assert forall|v: Self| (#[trigger] v.image()).len() == 1 by {
                lemma_le_len(complement(v as int, 1), 1);
            }
            assert forall|v: Self, w: Self| #[trigger] v.image() == #[trigger] w.image() implies v
                == w by {
                lemma_le_ranges();
                law_le_round_trip(complement(v as int, 1), 1);
                law_le_round_trip(complement(w as int, 1), 1);
            }
        }
        1
    }

    fn put_image(&self, buf: &mut [u8]) {
        proof {
            lemma_le_ranges();
        }
        let raw: u8 = if *self >= 0 {
            *self as u8
        } else {
            u8::MAX - (-(*self + 1)) as u8
        };
        put_le(buf, 0, raw as u128, 1);
    }

    fn take_image(bytes: &[u8]) -> (v: Option<Self>) {
        if bytes.len() < 1 {
            assert forall|w: Self| !starts_with(bytes@, #[trigger] w.image()) by {
                lemma_le_len(complement(w as int, 1), 1);
            }
            return None;
        }
        proof {
            lemma_le_ranges();
            lemma_le_value_bound(bytes@.subrange(0, 1));
            law_le_value_round_trip(bytes@.subrange(0, 1));
            assert(bytes@.take(1) =~= bytes@.subrange(0, 1));
        }
        let raw: u8 = get_le(bytes, 0, 1) as u8;
        let v: i8 = if raw <= i8::MAX as u8 {
            raw as i8
        } else {
            -((u8::MAX - raw) as i8) - 1
        };
        Some(v)
    }
}

impl Pod for i16 {
    open spec fn image(self) -> Seq<u8> {
        le_bytes(complement(self as int, 2), 2)
    }

    open spec fn image_len() -> nat {
        2
    }

    fn pod_size() -> (n: usize) {
        proof {
            assert forall|v: Self| (#[trigger] v.image()).len() == 2 by {
                lemma_le_len(complement(v as int, 2), 2);
            }
            assert forall|v: Self, w: Self| #[trigger] v.image() == #[trigger] w.image() implies v
                == w by {
                lemma_le_ranges();
                law_le_round_trip(complement(v as int, 2), 2);
                law_le_round_trip(complement(w as int, 2), 2);
            }
        }
        2
    }

    fn put_image(&self, buf: &mut [u8]) {
        proof {
            lemma_le_ranges();
        }
        let raw: u16 = if *self >= 0 {
            *self as u16
        } else {
            u16::MAX - (-(*self + 1)) as u16
        };
        put_le(buf, 0, raw as u128, 2);
    }

    fn take_image(bytes: &[u8]) -> (v: Option<Self>) {
        if bytes.len() < 2 {
            assert forall|w: Self| !starts_with(bytes@, #[trigger] w.image()) by {
                lemma_le_len(complement(w as int, 2), 2);
            }
            return None;
        }
        proof {
            lemma_le_ranges();
            lemma_le_value_bound(bytes@.subrange(0, 2));
            law_le_value_round_trip(bytes@.subrange(0, 2));
            assert(bytes@.take(2) =~= bytes@.subrange(0, 2));
        }
        let raw: u16 = get_le(bytes, 0, 2) as u16;
        let v: i16 = if raw <= i16::MAX as u16 {
            raw as i16
        } else {
            -((u16::MAX - raw) as i16) - 1
        };
        Some(v)
    }
}

impl Pod for i32 {
    open spec fn image(self) -> Seq<u8> {
        le_bytes(complement(self as int, 4), 4)
    }

    open spec fn image_len() -> nat {
        4
    }

    fn pod_size() -> (n: usize) {
        proof {
            assert forall|v: Self| (#[trigger] v.image()).len() == 4 by {
                lemma_le_len(complement(v as int, 4), 4);
            }
            assert forall|v: Self, w: Self| #[trigger] v.image() == #[trigger] w.image() implies v
                == w by {
                lemma_le_ranges();
                law_le_round_trip(complement(v as int, 4), 4);
                law_le_round_trip(complement(w as int, 4), 4);
            }
        }
        4
    }

    fn put_image(&self, buf: &mut [u8]) {
        proof {
            lemma_le_ranges();
        }
        let raw: u32 = if *self >= 0 {
            *self as u32
        } else {
            u32::MAX - (-(*self + 1)) as u32
        };
        put_le(buf, 0, raw as u128, 4);
    }

    fn take_image(bytes: &[u8]) -> (v: Option<Self>) {
        if bytes.len() < 4 {
            assert forall|w: Self| !starts_with(bytes@, #[trigger] w.image()) by {
                lemma_le_len(complement(w as int, 4), 4);
            }
            return None;
        }
        proof {
            lemma_le_ranges();
            lemma_le_value_bound(bytes@.subrange(0, 4));
            law_le_value_round_trip(bytes@.subrange(0, 4));
            assert(bytes@.take(4) =~= bytes@.subrange(0, 4));
        }
        let raw: u32 = get_le(bytes, 0, 4) as u32;
        let v: i32 = if raw <= i32::MAX as u32 {
            raw as i32
        } else {
            -((u32::MAX - raw) as i32) - 1
        };
        Some(v)
    }
}

impl Pod for i64 {
    open spec fn image(self) -> Seq<u8> {
        le_bytes(complement(self as int, 8), 8)
    }

    open spec fn image_len() -> nat {
        8
    }

    fn pod_size() -> (n: usize) {
        proof {
            assert forall|v: Self| (#[trigger] v.image()).len() == 8 by {
                lemma_le_len(complement(v as int, 8), 8);
            }
            assert forall|v: Self, w: Self| #[trigger] v.image() == #[trigger] w.image() implies v
                == w by {
                lemma_le_ranges();
                law_le_round_trip(complement(v as int, 8), 8);
                law_le_round_trip(complement(w as int, 8), 8);
            }
        }
        8
    }

    fn put_image(&self, buf: &mut [u8]) {
        proof {
            lemma_le_ranges();
        }
        let raw: u64 = if *self >= 0 {
            *self as u64
        } else {
            u64::MAX - (-(*self + 1)) as u64
        };
        put_le(buf, 0, raw as u128, 8);
    }

    fn take_image(bytes: &[u8]) -> (v: Option<Self>) {
        if bytes.len() < 8 {
            assert forall|w: Self| !starts_with(bytes@, #[trigger] w.image()) by {
                lemma_le_len(complement(w as int, 8), 8);
            }
            return None;
        }
        proof {
            lemma_le_ranges();
            lemma_le_value_bound(bytes@.subrange(0, 8));
            law_le_value_round_trip(bytes@.subrange(0, 8));
            assert(bytes@.take(8) =~= bytes@.subrange(0, 8));
        }
        let raw: u64 = get_le(bytes, 0, 8) as u64;
        let v: i64 = if raw <= i64::MAX as u64 {
            raw as i64
        } else {
            -((u64::MAX - raw) as i64) - 1
        };
        Some(v)
    }
}

impl Pod for i128 {
    open spec fn image(self) -> Seq<u8> {
        le_bytes(complement(self as int, 16), 16)
    }

    open spec fn image_len() -> nat {
        16
    }

    fn pod_size() -> (n: usize) {
        proof {
            assert forall|v: Self| (#[trigger] v.image()).len() == 16 by {
                lemma_le_len(complement(v as int, 16), 16);
            }
            assert forall|v: Self, w: Self| #[trigger] v.image() == #[trigger] w.image() implies v
                == w by {
                lemma_le_ranges();
                law_le_round_trip(complement(v as int, 16), 16);
                law_le_round_trip(complement(w as int, 16), 16);
            }
        }
        16
    }

    fn put_image(&self, buf: &mut [u8]) {
        proof {
            lemma_le_ranges();
        }
        let raw: u128 = if *self >= 0 {
            *self as u128
        } else {
            u128::MAX - (-(*self + 1)) as u128
        };
        put_le(buf, 0, raw as u128, 16);
    }

    fn take_image(bytes: &[u8]) -> (v: Option<Self>) {
        if bytes.len() < 16 {
            assert forall|w: Self| !starts_with(bytes@, #[trigger] w.image()) by {
                lemma_le_len(complement(w as int, 16), 16);
            }
            return None;
        }
        proof {
            lemma_le_ranges();
            lemma_le_value_bound(bytes@.subrange(0, 16));
            law_le_value_round_trip(bytes@.subrange(0, 16));
            assert(bytes@.take(16) =~= bytes@.subrange(0, 16));
        }
        let raw: u128 = get_le(bytes, 0, 16) as u128;
        let v: i128 = if raw <= i128::MAX as u128 {
            raw as i128
        } else {
            -((u128::MAX - raw) as i128) - 1
        };
        Some(v)
    }
}

impl Pod for bool {
    open spec fn image(self) -> Seq<u8> {
        if self {
            seq![1u8]
        } else {
            seq![0u8]
        }
    }

    open spec fn image_len() -> nat {
        1
    }

    fn pod_size() -> (n: usize) {
        proof {
            assert forall|v: Self, w: Self| #[trigger] v.image() == #[trigger] w.image() implies v
                == w by {
                assert(v.image()[0] == (if v {
                    1u8
                } else {
                    0u8
                }));
                assert(w.image()[0] == (if w {
                    1u8
                } else {
                    0u8
                }));
            }
        }
        1
    }

    fn put_image(&self, buf: &mut [u8]) {
        let ghost before = buf@;
        buf[0] = if *self {
            1
        } else {
            0
        };
        assert(buf@ =~= overwrite(before, 0, self.image()));
    }

    fn take_image(bytes: &[u8]) -> (v: Option<Self>) {
        if bytes.len() < 1 {
            return None;
        }
        if bytes[0] > 1 {
            assert forall|w: Self| !starts_with(bytes@, #[trigger] w.image()) by {
                assert(bytes@.take(1)[0] == bytes@[0]);
            }
            return None;
        }
        let v: bool = bytes[0] == 1;
        assert(bytes@.take(1) =~= v.image());
        Some(v)
    }
}

// -- Consumer-side decoding helpers -------------------------------------------

/// Reconstruct a POD value from bytes written by `HotArg::hot_encode`.
pub fn pod_from_bytes<T: Pod>(bytes: &[u8]) -> (v: T)
    requires
        has_image::<T>(bytes@),
    ensures
        starts_with(bytes@, v.image()),
{
    T::take_image(bytes).unwrap()
}

// -- Consumer-side decoding trait ---------------------------------------------

/// Consumer-side decoding of hot-path encoded arguments.
///
/// Each type that can be encoded via `HotArg` implements this trait
/// so the consumer-side formatter can reconstruct values from the
/// byte payload.
///
/// `Decoded` must implement `Debug`. Additional formatting traits
/// (Display, LowerHex, etc.) are asked for per argument, by the format
/// specifier used.
pub trait HotDecode {
    type Decoded: std::fmt::Debug;

    /// The bytes begin with the encoding of a value. It is left open which do,
    /// for a type that does not say.
    open spec fn decodable(s: Seq<u8>) -> bool {
        arbitrary()
    }

    /// The bytes begin with the encoding of `v`, which takes up `n` of them.
    open spec fn encodes(s: Seq<u8>, v: Self::Decoded, n: nat) -> bool {
        arbitrary()
    }

    /// Whether the buffer begins with the encoding of a value.
    fn hot_check(buf: &[u8]) -> (ok: bool)
        ensures
            ok == Self::decodable(buf@),
    ;

    /// Decodes the value at the front of the buffer. Returns it with the number
    /// of bytes that it took up.
    fn hot_decode(buf: &[u8]) -> (r: (Self::Decoded, usize))
        requires
            Self::decodable(buf@),
        ensures
            Self::encodes(buf@, r.0, r.1 as nat),
    ;
}

/// Blanket impl: all Pod types that implement Debug can be decoded from their
/// raw byte representation.
impl<T: Pod + std::fmt::Debug> HotDecode for T {
    type Decoded = T;

    open spec fn decodable(s: Seq<u8>) -> bool {
        has_image::<T>(s)
    }

    open spec fn encodes(s: Seq<u8>, v: T, n: nat) -> bool {
        starts_with(s, v.image()) && n == T::image_len()
    }

    fn hot_check(buf: &[u8]) -> (ok: bool) {
        T::take_image(buf).is_some()
    }

    fn hot_decode(buf: &[u8]) -> (r: (T, usize)) {
        (pod_from_bytes::<T>(buf), T::pod_size())
    }
}

impl HotDecode for String {
    type Decoded = String;

    open spec fn decodable(s: Seq<u8>) -> bool {
        has_text(s)
    }

    open spec fn encodes(s: Seq<u8>, v: String, n: nat) -> bool {
        v@ == prefixed_text(s) && n == 4 + prefixed_len(s)
    }

    fn hot_check(buf: &[u8]) -> (ok: bool) {
        check_text(buf)
    }

    fn hot_decode(buf: &[u8]) -> (r: (String, usize)) {
        let (s, n) = bytes_from_buf(buf);
        (s.to_owned(), n)
    }
}

impl HotDecode for PreFormatted {
    type Decoded = PreFormattedValue;

    open spec fn decodable(s: Seq<u8>) -> bool {
        has_text(s)
    }

    open spec fn encodes(s: Seq<u8>, v: PreFormattedValue, n: nat) -> bool {
        v.0@ == prefixed_text(s) && n == 4 + prefixed_len(s)
    }

    fn hot_check(buf: &[u8]) -> (ok: bool) {
        check_text(buf)
    }

    fn hot_decode(buf: &[u8]) -> (r: (PreFormattedValue, usize)) {
        let (s, n) = bytes_from_buf(buf);
        (PreFormattedValue(s.to_owned()), n)
    }
}

/// A fallback argument that was encoded decodes to the text that was stashed
/// for it, and takes up as many bytes as were asked for it, where its length
/// fits the 32-bit prefix.
pub proof fn law_fallback_round_trip(t: Seq<char>, buf: Seq<u8>, v: PreFormattedValue, n: nat)
    requires
        encode_utf8(t).len() <= u32::MAX,
        text_bytes(t).len() <= buf.len(),
    ensures
        PreFormatted::decodable(overwrite(buf, 0, text_bytes(t))),
        PreFormatted::encodes(overwrite(buf, 0, text_bytes(t)), v, n) ==> v.0@ == t && n
            == text_bytes(t).len(),
{
    let rest = buf.skip(text_bytes(t).len() as int);
    assert(overwrite(buf, 0, text_bytes(t)) =~= text_bytes(t) + rest);
    law_text_round_trip(t, rest);
}

/// A POD argument that was encoded decodes to the value that it was.
pub proof fn law_pod_argument_round_trip<T: Pod>(arg: T, buf: Seq<u8>, v: T)
    requires
        pod_lawful::<T>(),
        T::image_len() <= buf.len(),
    ensures
        has_image::<T>(overwrite(buf, 0, arg.image())),
        starts_with(overwrite(buf, 0, arg.image()), v.image()) ==> v == arg,
{
    assert(arg.image().len() == T::image_len());
    let rest = buf.skip(T::image_len() as int);
    assert(overwrite(buf, 0, arg.image()) =~= arg.image() + rest);
    law_pod_round_trip(arg, rest, v);
}

// -- Arguments of one record ----------------------------------------------------

/// The sum of the first `n` sizes.
pub open spec fn total(sizes: Seq<usize>, n: int) -> int
    decreases n,
{
    if n <= 0 {
        0
    } else {
        total(sizes, n - 1) + sizes[n - 1]
    }
}

/// The encodings of a record's arguments, one after the other.
pub open spec fn joined(encodings: Seq<Seq<u8>>) -> Seq<u8>
    decreases encodings.len(),
{
    if encodings.len() == 0 {
        seq![]
    } else {
        joined(encodings.drop_last()) + encodings.last()
    }
}

/// The sizes are those of the encodings.
pub open spec fn sizes_of(encodings: Seq<Seq<u8>>, sizes: Seq<usize>) -> bool {
    &&& encodings.len() == sizes.len()
    &&& forall|i: int| 0 <= i < sizes.len() ==> (#[trigger] encodings[i]).len() == sizes[i]
}

proof fn lemma_total_prefix(sizes: Seq<usize>, shorter: Seq<usize>, n: int)
    requires
        n <= shorter.len() <= sizes.len(),
        forall|i: int| 0 <= i < shorter.len() ==> shorter[i] == sizes[i],
    ensures
        total(sizes, n) == total(shorter, n),
    decreases n,
{
    if n > 0 {
        lemma_total_prefix(sizes, shorter, n - 1);
    }
}

/// Each argument of a record stands where the sizes of those before it put it:
/// no argument runs into another, and all of them together fill the space that
/// was asked for.
pub proof fn law_arguments_in_place(encodings: Seq<Seq<u8>>, sizes: Seq<usize>, i: int)
    requires
        sizes_of(encodings, sizes),
        0 <= i < sizes.len(),
    ensures
        joined(encodings).len() == total(sizes, sizes.len() as int),
        0 <= total(sizes, i),
        total(sizes, i) + sizes[i] <= joined(encodings).len(),
        joined(encodings).subrange(total(sizes, i), total(sizes, i) + sizes[i]) == encodings[i],
    decreases encodings.len(),
{
    let last = encodings.len() - 1;
    let front = encodings.drop_last();
    let front_sizes = sizes.drop_last();
    assert(sizes_of(front, front_sizes)) by {
        assert forall|k: int| 0 <= k < front_sizes.len() implies (#[trigger] front[k]).len()
            == front_sizes[k] by {
            assert(encodings[k].len() == sizes[k]);
        }
    }
    assert(encodings[last].len() == sizes[last]);
    lemma_total_prefix(sizes, front_sizes, last);
    if last > 0 {
        law_arguments_in_place(front, front_sizes, if i < last {
            i
        } else {
            0
        });
    }
    if i < last {
        lemma_total_prefix(sizes, front_sizes, i);
        assert(joined(encodings).subrange(total(sizes, i), total(sizes, i) + sizes[i])
            =~= joined(front).subrange(total(sizes, i), total(sizes, i) + sizes[i]));
    } else {
        lemma_total_nonnegative(sizes, i);
        assert(joined(encodings).subrange(total(sizes, i), total(sizes, i) + sizes[i])
            =~= encodings[i]);
    }
}

proof fn lemma_total_nonnegative(sizes: Seq<usize>, n: int)
    requires
        n <= sizes.len(),
    ensures
        0 <= total(sizes, n),
    decreases n,
{
    if n > 0 {
        lemma_total_nonnegative(sizes, n - 1);
    }
}

proof fn lemma_total_grows(sizes: Seq<usize>, n: int, m: int)
    requires
        n <= m <= sizes.len(),
    ensures
        total(sizes, n) <= total(sizes, m),
    decreases m - n,
{
    if n < m {
        lemma_total_grows(sizes, n, m - 1);
    }
}

/// The size of a hot-path payload: line, target length and target, then the
/// arguments.
pub fn hot_payload_size(target_len: usize, sizes: &[usize]) -> (n: usize)
    requires
        4 + 2 + target_len + total(sizes@, sizes@.len() as int) <= usize::MAX,
    ensures
        n == 4 + 2 + target_len + total(sizes@, sizes@.len() as int),
{
    proof {
        lemma_total_nonnegative(sizes@, sizes@.len() as int);
    }
    let mut n: usize = 4 + 2 + target_len;
    let mut i: usize = 0;
    while i < sizes.len()
        invariant
            i <= sizes@.len(),
            n == 4 + 2 + target_len + total(sizes@, i as int),
            4 + 2 + target_len + total(sizes@, sizes@.len() as int) <= usize::MAX,
        decreases sizes@.len() - i,
    {
        proof {
            lemma_total_grows(sizes@, i + 1, sizes@.len() as int);
        }
        n = n + sizes[i];
        i = i + 1;
    }
    n
}

/// A payload whose arguments were written one after the other, from `start` on,
/// each where the one before it ends.
pub open spec fn written(payload: Seq<u8>, start: int, encodings: Seq<Seq<u8>>) -> Seq<u8>
    decreases encodings.len(),
{
    if encodings.len() == 0 {
        payload
    } else {
        let front = encodings.drop_last();
        overwrite(
            written(payload, start, front),
            start + joined(front).len(),
            encodings.last(),
        )
    }
}

/// Arguments that were written one after the other stand in the payload as they
/// were encoded, without gaps, and nothing else has changed.
pub proof fn law_arguments_written(payload: Seq<u8>, start: int, encodings: Seq<Seq<u8>>)
    requires
        0 <= start,
        start + joined(encodings).len() <= payload.len(),
    ensures
        written(payload, start, encodings) == overwrite(payload, start, joined(encodings)),
    decreases encodings.len(),
{
    if encodings.len() > 0 {
        law_arguments_written(payload, start, encodings.drop_last());
    }
    assert(written(payload, start, encodings) =~= overwrite(payload, start, joined(encodings)));
}

/// Goes from one argument of a payload to the next.
pub struct ArgCursor {
    at: usize,
}

impl ArgCursor {
    /// Where the next argument begins.
    pub closed spec fn at(self) -> nat {
        self.at as nat
    }

    /// A cursor at the first argument.
    pub fn new(start: usize) -> (c: ArgCursor)
        ensures
            c.at() == start,
    {
        ArgCursor { at: start }
    }

    /// Whether an argument of that size fits into a payload of that length.
    pub fn fits(&self, len: usize, size: usize) -> (ok: bool)
        ensures
            ok == (self.at() + size <= len),
    {
        self.at <= len && size <= len - self.at
    }

    /// Goes past an argument of that size.
    pub fn step(&mut self, size: usize)
        requires
            old(self).at() + size <= usize::MAX,
        ensures
            final(self).at() == old(self).at() + size,
    {
        self.at = self.at + size;
    }

    /// Hands out the bytes of the payload that are the next argument's, and goes
    /// past them. The other bytes stay as they are.
    pub fn slot<'a>(&mut self, payload: &'a mut [u8], size: usize) -> (slot: &'a mut [u8])
        requires
            old(self).at() + size <= old(payload)@.len(),
        ensures
            slot@ == old(payload)@.subrange(
                old(self).at() as int,
                old(self).at() + size as int,
            ),
            final(payload)@ == old(payload)@.take(old(self).at() as int) + final(slot)@ + old(
                payload,
            )@.skip(old(self).at() + size as int),
            final(slot)@.len() == size ==> final(payload)@ == overwrite(
                old(payload)@,
                old(self).at() as int,
                final(slot)@,
            ),
            final(self).at() == old(self).at() + size,
    {
        let len: usize = payload.len();
        assert(self.at + size <= len);
        let start: usize = self.at;
        self.step(size);
        let (_front, rest) = payload.split_at_mut(start);
        let (slot, _back) = rest.split_at_mut(size);
        slot
    }

    /// Decodes the next argument of the payload and goes past it, if one stands
    /// there.
    pub fn decode<T: HotDecode>(&mut self, payload: &[u8]) -> (v: Option<T::Decoded>)
        ensures
            v matches Some(w) ==> {
                &&& old(self).at() <= final(self).at() <= payload@.len()
                &&& T::decodable(payload@.skip(old(self).at() as int))
                &&& T::encodes(
                    payload@.skip(old(self).at() as int),
                    w,
                    (final(self).at() - old(self).at()) as nat,
                )
            },
            v is None ==> final(self).at() == old(self).at(),
            v is None ==> old(self).at() > payload@.len() || !T::decodable(
                payload@.skip(old(self).at() as int),
            ) || exists|w: T::Decoded, n: nat|
                #[trigger] T::encodes(payload@.skip(old(self).at() as int), w, n) && old(self).at()
                    + n > payload@.len(),
    {
        let size: usize = payload.len();
        if self.at > size {
            return None;
        }
        let rest: &[u8] = slice_subrange(payload, self.at, size);
        assert(rest@ =~= payload@.skip(self.at as int));
        if !T::hot_check(rest) {
            return None;
        }
        let (w, n) = T::hot_decode(rest);
        if n > size - self.at {
            return None;
        }
        self.step(n);
        Some(w)
    }
}

// -- The images of the primitive types ------------------------------------------

/// The image of an unsigned integer: its bytes, lowest first.
pub proof fn law_unsigned_images(a: u8, b: u16, c: u32, d: u64, e: u128, k: nat)
    ensures
        a.image() == seq![a],
        b.image().len() == 2 && (k < 2 ==> b.image()[k as int] as int == b as int / pow(256, k)
            % 256),
        c.image().len() == 4 && (k < 4 ==> c.image()[k as int] as int == c as int / pow(256, k)
            % 256),
        d.image().len() == 8 && (k < 8 ==> d.image()[k as int] as int == d as int / pow(256, k)
            % 256),
        e.image().len() == 16 && (k < 16 ==> e.image()[k as int] as int == e as int / pow(256, k)
            % 256),
        u8::image_len() == 1 && u16::image_len() == 2 && u32::image_len() == 4 && u64::image_len()
            == 8 && u128::image_len() == 16,
{
    vstd::arithmetic::power::lemma_pow0(256);
    law_le_places(a as nat, 1, 0);
    assert(a.image() =~= seq![a]);
    law_le_places(b as nat, 2, k);
    law_le_places(c as nat, 4, k);
    law_le_places(d as nat, 8, k);
    law_le_places(e as nat, 16, k);
}

/// The image of a signed integer: the bytes of its two's complement, lowest
/// first, which are those of the number modulo a power of 256.
pub proof fn law_signed_images(a: i8, b: i16, c: i32, d: i64, e: i128, k: nat)
    ensures
        a.image().len() == 1 && a.image()[0] as int == a as int % 0x100,
        b.image().len() == 2 && (k < 2 ==> b.image()[k as int] as int == (b as int % 0x1_0000)
            / pow(256, k) % 256),
        c.image().len() == 4 && (k < 4 ==> c.image()[k as int] as int == (c as int % 0x1_0000_0000)
            / pow(256, k) % 256),
        d.image().len() == 8 && (k < 8 ==> d.image()[k as int] as int == (d as int
            % 0x1_0000_0000_0000_0000int) / pow(256, k) % 256),
        e.image().len() == 16 && (k < 16 ==> e.image()[k as int] as int == (e as int
            % 0x1_0000_0000_0000_0000_0000_0000_0000_0000int) / pow(256, k) % 256),
        i8::image_len() == 1 && i16::image_len() == 2 && i32::image_len() == 4 && i64::image_len()
            == 8 && i128::image_len() == 16,
{
    lemma_le_ranges();
    vstd::arithmetic::power::lemma_pow0(256);
    law_le_places(complement(a as int, 1), 1, 0);
    law_le_places(complement(b as int, 2), 2, k);
    law_le_places(complement(c as int, 4), 4, k);
    law_le_places(complement(d as int, 8), 8, k);
    law_le_places(complement(e as int, 16), 16, k);
}

/// The image of a truth value is one byte, 1 or 0.
pub proof fn law_bool_images()
    ensures
        true.image() == seq![1u8],
        false.image() == seq![0u8],
        bool::image_len() == 1,
{
}

/// Bytes begin with others exactly where those are the first of them.
pub proof fn law_starts_with(s: Seq<u8>, front: Seq<u8>)
    ensures
        starts_with(s, front) <==> exists|rest: Seq<u8>| s == #[trigger] (front + rest),
{
    if starts_with(s, front) {
        let rest = s.skip(front.len() as int);
        assert(s =~= front + rest);
    }
    if exists|rest: Seq<u8>| s == #[trigger] (front + rest) {
        let rest = choose|rest: Seq<u8>| s == #[trigger] (front + rest);
        assert(s.take(front.len() as int) =~= front);
    }
}

/// An argument of plain data decodes to the value that it was and takes up the
/// bytes of its image, whatever follows it.
pub proof fn law_pod_decodes<T: Pod + std::fmt::Debug>(arg: T, rest: Seq<u8>, v: T, n: nat)
    requires
        pod_lawful::<T>(),
    ensures
        <T as HotDecode>::decodable(arg.image() + rest),
        <T as HotDecode>::encodes(arg.image() + rest, v, n) <==> v == arg && n == arg.image().len(),
{
    law_pod_round_trip(arg, rest, v);
    assert((arg.image() + rest).take(arg.image().len() as int) =~= arg.image());
}

/// A text decodes to what was encoded and takes up its bytes, whatever follows
/// it, where its length fits the 32-bit prefix.
pub proof fn law_text_decodes(t: Seq<char>, rest: Seq<u8>, v: String, w: PreFormattedValue, n: nat)
    requires
        encode_utf8(t).len() <= u32::MAX,
    ensures
        String::decodable(text_bytes(t) + rest),
        String::encodes(text_bytes(t) + rest, v, n) <==> v@ == t && n == text_bytes(t).len(),
        PreFormatted::decodable(text_bytes(t) + rest),
        PreFormatted::encodes(text_bytes(t) + rest, w, n) <==> w.0@ == t && n
            == text_bytes(t).len(),
{
    law_text_round_trip(t, rest);
}

/// The sum of sizes grows by each size in turn, from nothing.
pub proof fn law_total(sizes: Seq<usize>, n: int)
    ensures
        total(sizes, 0) == 0,
        0 <= n ==> total(sizes, n + 1) == total(sizes, n) + sizes[n],
{
}

}
