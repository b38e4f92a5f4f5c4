//! Items of one source among those of several, in the order in which they come
//! out.

use vstd::prelude::*;

verus! {

/// One place was added behind the others, and the item stands there in the
/// stream.
pub open spec fn follows<T>(before: Seq<int>, after: Seq<int>, stream: Seq<T>, item: T) -> bool {
    &&& after.len() == before.len() + 1
    &&& after.drop_last() == before
    &&& before.len() > 0 ==> before.last() < after.last()
    &&& 0 <= after.last() < stream.len()
    &&& stream[after.last()] == item
}

/// The places rise, and each item stands at its place in the stream.
pub open spec fn in_place<T>(items: Seq<T>, places: Seq<int>, stream: Seq<T>) -> bool {
    &&& items.len() == places.len()
    &&& forall|i: int, j: int| 0 <= i < j < places.len() ==> places[i] < places[j]
    &&& forall|i: int|
        0 <= i < places.len() ==> 0 <= #[trigger] places[i] < stream.len() && stream[places[i]]
            == items[i]
}

/// An item that follows the others stands in place if they do.
pub(crate) proof fn lemma_follows<T>(
    items: Seq<T>,
    before: Seq<int>,
    after: Seq<int>,
    stream: Seq<T>,
    item: T,
)
    requires
        in_place(items, before, stream),
        follows(before, after, stream, item),
    ensures
        in_place(items.push(item), after, stream),
{
    assert forall|i: int| 0 <= i < before.len() implies after[i] == before[i] by {
        assert(after.drop_last()[i] == after[i]);
    }
    assert forall|i: int, j: int| 0 <= i < j < after.len() implies after[i] < after[j] by {
        if j == before.len() && i < before.len() - 1 {
            assert(before[i] < before[before.len() - 1]);
        }
    }
}

/// What went in stands where it comes out: once as much of the stream has come
/// out as lies before an item's place and the item itself, the item has come
/// out, unchanged; and of two items of one source the first comes out first.
pub proof fn law_comes_out<T>(items: Seq<T>, places: Seq<int>, stream: Seq<T>, out: Seq<T>, i: int, j: int)
    requires
        in_place(items, places, stream),
        out.len() <= stream.len(),
        out == stream.take(out.len() as int),
        0 <= i <= j < items.len(),
    ensures
        0 <= places[i],
        places[i] < out.len() ==> out[places[i]] == items[i],
        i < j ==> places[i] < places[j],
{
    let _ = places[i];
}

/// Items that went in at one end and came out at another are unchanged, and of
/// two of them the one that went in first comes out first.
pub proof fn law_in_order<T>(
    sent: Seq<T>,
    sent_at: Seq<int>,
    got: Seq<T>,
    got_at: Seq<int>,
    stream: Seq<T>,
    i: int,
    j: int,
    x: int,
    y: int,
)
    requires
        in_place(sent, sent_at, stream),
        in_place(got, got_at, stream),
        0 <= i < j < sent.len(),
        0 <= x < got.len(),
        0 <= y < got.len(),
        got_at[x] == sent_at[i],
        got_at[y] == sent_at[j],
    ensures
        got[x] == sent[i],
        got[y] == sent[j],
        x < y,
{
    assert(sent_at[i] < sent_at[j]);
    if y < x {
        assert(got_at[y] < got_at[x]);
    }
}

}
