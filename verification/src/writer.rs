//! A writer into a fixed buffer, with a length prefix.

use crate::bytes::{copy_at, law_le_places, le_bytes, lemma_le_len, overwrite, put_le};
use vstd::prelude::*;
use vstd::slice::slice_subrange;

verus! {

/// Bytes that the length prefix takes up.
pub const LEN_OFFSET: usize = 2;

/// Writes bytes behind a two-byte length into a buffer. What does not fit is
/// cut off.
pub struct LogWriter<'a> {
    pub buf: &'a mut [u8],
    /// How many bytes are taken up, the length prefix among them.
    pub pos: usize,
}

/// The lesser of two numbers.
pub open spec fn lesser(a: int, b: int) -> int {
    if a <= b {
        a
    } else {
        b
    }
}

/// As much of the bytes as there is room for.
pub open spec fn cut(s: Seq<u8>, room: int) -> Seq<u8> {
    s.take(lesser(s.len() as int, room))
}

/// Writing bytes in two pieces leaves what writing them at once leaves, also
/// where they are cut off.
pub proof fn law_writes_join(a: Seq<u8>, b: Seq<u8>, room: int)
    requires
        0 <= room,
    ensures
        cut(cut(a, room) + b, room) == cut(a + b, room),
{
    assert(cut(cut(a, room) + b, room) =~= cut(a + b, room));
}

/// The length that is stored for so many bytes taken up of a buffer.
pub open spec fn stored_len(pos: int, len: int) -> nat {
    (lesser(pos, len) - LEN_OFFSET) as nat
}

/// The dots that mark a truncated message, at the end of the buffer, where the
/// buffer is full and has room for them.
pub open spec fn marked(buf: Seq<u8>, pos: int) -> Seq<u8> {
    if pos >= buf.len() && buf.len() >= 5 {
        overwrite(buf, buf.len() - 3, seq![0x2eu8, 0x2e, 0x2e])
    } else {
        buf
    }
}

/// The buffer with its length prefix.
pub open spec fn finished(buf: Seq<u8>, pos: int) -> Seq<u8> {
    overwrite(buf, 0, le_bytes(stored_len(pos, buf.len() as int), 2))
}

impl<'a> LogWriter<'a> {
    pub fn new(buf: &'a mut [u8]) -> (w: LogWriter<'a>)
        ensures
            w.buf@ == old(buf)@,
            w.pos == LEN_OFFSET,
            final(w.buf)@ == final(buf)@,
    {
        LogWriter { buf, pos: LEN_OFFSET }
    }

    /// Writes as much of `data` as there is room for. Returns the length of
    /// `data` in any case, so that no caller takes a cut message for a failure.
    pub fn write(&mut self, data: &[u8]) -> (n: usize)
        ensures
            n == data@.len(),
            ({
                let len = old(self.buf)@.len() as int;
                let room = if old(self).pos < len {
                    len - old(self).pos
                } else {
                    0
                };
                &&& final(self).pos == old(self).pos + cut(data@, room).len()
                &&& final(self).buf@ == (if room > 0 {
                    overwrite(old(self.buf)@, old(self).pos as int, cut(data@, room))
                } else {
                    old(self.buf)@
                })
            }),
            final(final(self).buf)@ == final(old(self).buf)@,
    {
        let ghost before = self.buf@;
        let ghost start = self.pos as int;
        let len: usize = self.buf.len();
        let remaining: usize = if self.pos < len {
            len - self.pos
        } else {
            0
        };
        let to_write: usize = if data.len() < remaining {
            data.len()
        } else {
            remaining
        };
        if to_write > 0 {
            copy_at(self.buf, self.pos, slice_subrange(data, 0, to_write));
            self.pos = self.pos + to_write;
        }
        proof {
            assert(data@.subrange(0, to_write as int) =~= cut(data@, remaining as int));
            if to_write == 0 && remaining > 0 {
                assert(overwrite(before, start, cut(data@, remaining as int)) =~= before);
            }
        }
        data.len()
    }

    /// Writes the length prefix. Returns how many bytes of the buffer are taken
    /// up.
    pub fn finish(self) -> (n: usize)
        requires
            self.buf@.len() >= LEN_OFFSET,
            self.pos >= LEN_OFFSET,
        ensures
            n == lesser(self.pos as int, old(self.buf)@.len() as int),
            final(self.buf)@ == finished(old(self.buf)@, self.pos as int),
    {
        let len: usize = self.buf.len();
        let taken: usize = if self.pos < len {
            self.pos
        } else {
            len
        };
        put_le(self.buf, 0, (taken - LEN_OFFSET) as u128, 2);
        taken
    }

    /// Like [`LogWriter::finish`], with `...` at the end of a buffer that the
    /// message has filled.
    pub fn finish_with_truncation_marker(self) -> (n: usize)
        requires
            self.buf@.len() >= LEN_OFFSET,
            self.pos >= LEN_OFFSET,
        ensures
            n == lesser(self.pos as int, old(self.buf)@.len() as int),
            final(self.buf)@ == finished(marked(old(self.buf)@, self.pos as int), self.pos as int),
    {
        let len: usize = self.buf.len();
        if self.pos >= len && len >= 5 {
            copy_at(self.buf, len - 3, &[0x2eu8, 0x2e, 0x2e]);
        }
        self.finish()
    }
}

/// A write appends to the message that the buffer holds behind its length, as
/// far as there is room.
pub proof fn law_write_appends(buf: Seq<u8>, pos: int, data: Seq<u8>)
    requires
        LEN_OFFSET <= pos <= buf.len(),
    ensures
        ({
            let piece = cut(data, buf.len() - pos);
            overwrite(buf, pos, piece).subrange(2, pos + piece.len()) == cut(
                buf.subrange(2, pos) + data,
                buf.len() - LEN_OFFSET,
            )
        }),
{
    let piece = cut(data, buf.len() - pos);
    assert(overwrite(buf, pos, piece).subrange(2, pos + piece.len()) =~= cut(
        buf.subrange(2, pos) + data,
        buf.len() - LEN_OFFSET,
    ));
}

/// What a finished buffer holds: the message's length in front of the message.
pub proof fn law_finished_message(buf: Seq<u8>, pos: int)
    requires
        LEN_OFFSET <= pos <= buf.len(),
    ensures
        finished(buf, pos).subrange(0, 2) == le_bytes((pos - LEN_OFFSET) as nat, 2),
        finished(buf, pos).skip(2) == buf.skip(2),
        finished(buf, pos).len() == buf.len(),
{
    lemma_le_len((pos - LEN_OFFSET) as nat, 2);
    assert(finished(buf, pos).subrange(0, 2) =~= le_bytes((pos - LEN_OFFSET) as nat, 2));
    assert(finished(buf, pos).skip(2) =~= buf.skip(2));
}

/// What is cut off is the end, and only as much as does not fit.
pub proof fn law_cut(s: Seq<u8>, room: int)
    requires
        0 <= room,
    ensures
        s.len() <= room ==> cut(s, room) == s,
        s.len() > room ==> cut(s, room) == s.subrange(0, room),
{
    assert(s.len() <= room ==> cut(s, room) =~= s);
    assert(s.len() > room ==> cut(s, room) =~= s.subrange(0, room));
}

/// The lesser of two numbers is one of them, and neither is less.
pub proof fn law_lesser(a: int, b: int)
    ensures
        lesser(a, b) == a || lesser(a, b) == b,
        lesser(a, b) <= a,
        lesser(a, b) <= b,
{
}

/// A buffer that a message has filled ends with three dots, where there is room
/// for them behind the length; the bytes before them, and any other buffer, stay
/// as they are.
pub proof fn law_truncation_marker(buf: Seq<u8>, pos: int, i: int)
    requires
        0 <= i < buf.len(),
    ensures
        marked(buf, pos).len() == buf.len(),
        pos >= buf.len() && buf.len() >= 5 && i >= buf.len() - 3 ==> marked(buf, pos)[i] == 0x2e,
        pos < buf.len() || buf.len() < 5 || i < buf.len() - 3 ==> marked(buf, pos)[i] == buf[i],
{
}

/// A finished buffer holds, in its first two bytes, how many bytes of message
/// follow, and the message as it was.
pub proof fn law_finished_bytes(buf: Seq<u8>, pos: int, i: int)
    requires
        2 <= buf.len(),
        2 <= pos,
        2 <= i < buf.len(),
    ensures
        ({
            let n = (if pos < buf.len() {
                pos
            } else {
                buf.len() as int
            }) - 2;
            &&& finished(buf, pos).len() == buf.len()
            &&& finished(buf, pos)[0] as int == n % 256
            &&& finished(buf, pos)[1] as int == n / 256 % 256
            &&& finished(buf, pos)[i] == buf[i]
        }),
{
    let n = stored_len(pos, buf.len() as int);
    vstd::arithmetic::power::lemma_pow0(256);
    vstd::arithmetic::power::lemma_pow1(256);
    law_le_places(n, 2, 0);
    law_le_places(n, 2, 1);
}

}
