//! What holds of reading, whatever the codec answers: laws over the step
//! [`next`] that [`crate::connection::Connection::read_frame`] carries out.

use crate::guard::lengths_fit;
use crate::connection::{
    attempt, doubled_from_initial, lemma_doubled_is_scaled, next, Attempt, Outcome, State,
    INITIAL_CAPACITY,
};
use vstd::arithmetic::power2::pow2;
use crate::unit::UnitView;
use vstd::prelude::*;

verus! {

/// The chunks one behind the other.
pub open spec fn joined(chunks: Seq<Seq<u8>>) -> Seq<u8>
    decreases chunks.len(),
{
    if chunks.len() == 0 {
        Seq::empty()
    } else {
        joined(chunks.drop_last()) + chunks.last()
    }
}

/// Where reading stands after the deliveries `chunks`: the caller starts with
/// a step without delivery and hands in one chunk for each step that asks for a
/// read. Once a step has not asked for a read, the chunks behind it are not
/// looked at.
pub open spec fn feed(state: State, chunks: Seq<Seq<u8>>) -> (State, Outcome)
    decreases chunks.len(),
{
    if chunks.len() == 0 {
        next(state, None)
    } else {
        let before = feed(state, chunks.drop_last());
        if before.1 is Read {
            next(before.0, Some(chunks.last()))
        } else {
            before
        }
    }
}

/// Whether `chunks` keep reading going up to the last of them: each brings at
/// least one byte, and each is handed in to a step that has asked for a read.
pub open spec fn trickles(state: State, chunks: Seq<Seq<u8>>) -> bool {
    &&& forall|i: int| 0 <= i < chunks.len() ==> (#[trigger] chunks[i]).len() > 0
    &&& forall|k: int| 0 <= k < chunks.len() ==> (#[trigger] feed(state, chunks.take(k))).1 is Read
}

/// Whether each of `chunks` fits in the room that the step before it has
/// offered.
pub open spec fn fits(state: State, chunks: Seq<Seq<u8>>) -> bool {
    forall|k: int|
        0 <= k < chunks.len() ==> ((#[trigger] feed(state, chunks.take(k))).1 matches Outcome::Read(
            room,
        ) ==> chunks[k].len() <= room)
}

/// Whether a step has settled what the window starts with: a unit, or a
/// protocol error.
pub open spec fn settled(outcome: Outcome) -> bool {
    outcome is Deliver || outcome is Protocol
}

/// The chunks up to the `k`-th, joined, are those up to the one before it and
/// then that one.
proof fn lemma_joined_take(chunks: Seq<Seq<u8>>, k: int)
    requires
        0 < k <= chunks.len(),
    ensures
        joined(chunks.take(k)) == joined(chunks.take(k - 1)) + chunks[k - 1],
        chunks.take(k).drop_last() == chunks.take(k - 1),
        chunks.take(k).last() == chunks[k - 1],
{
    assert(chunks.take(k).drop_last() =~= chunks.take(k - 1));
}

/// While the steps ask for reads, the window is what it was and then every
/// chunk handed in so far, in order: nothing is lost, doubled or moved.
pub proof fn lemma_window_gathers(state: State, chunks: Seq<Seq<u8>>, k: int)
    requires
        trickles(state, chunks),
        0 <= k < chunks.len(),
    ensures
        feed(state, chunks.take(k)).1 is Read,
        feed(state, chunks.take(k)).0.window == state.window + joined(chunks.take(k)),
    decreases k,
{
    if k == 0 {
        assert(chunks.take(0) =~= Seq::<Seq<u8>>::empty());
        assert(state.window + joined(chunks.take(0)) =~= state.window);
    } else {
        lemma_window_gathers(state, chunks, k - 1);
        lemma_joined_take(chunks, k);
        let before = feed(state, chunks.take(k - 1));
        assert(chunks[k - 1].len() > 0);
        assert(feed(state, chunks.take(k)) == next(before.0, Some(chunks[k - 1])));
        assert(before.0.window + chunks[k - 1] =~= state.window + joined(chunks.take(k)));
    }
}

/// Incremental delivery. Bytes that come in pieces, however small, are read as
/// the same bytes coming at once: where the pieces keep reading going up to the
/// last, that last step sees the very window that one delivery of all of them
/// gives, settles on the same unit or the same protocol error, and leaves the
/// same bytes behind.
pub proof fn lemma_incremental_delivery(state: State, chunks: Seq<Seq<u8>>)
    requires
        chunks.len() > 0,
        trickles(state, chunks),
    ensures
        feed(state, chunks).0.window == next(state, Some(joined(chunks))).0.window,
        settled(feed(state, chunks).1) || settled(next(state, Some(joined(chunks))).1) ==> feed(
            state,
            chunks,
        ).1 == next(state, Some(joined(chunks))).1,
{
    let n = chunks.len() as int;
    lemma_window_gathers(state, chunks, n - 1);
    assert(chunks.take(n - 1) =~= chunks.drop_last());
    let before = feed(state, chunks.drop_last());
    assert(chunks.last().len() > 0);
    assert(before.0.window + chunks.last() =~= state.window + joined(chunks));
}

/// The way that bytes are cut into pieces is immaterial: two runs of pieces
/// that join to the same bytes, each keeping reading going up to its last
/// piece, end on the same window and settle alike.
pub proof fn lemma_chunking_is_immaterial(state: State, one: Seq<Seq<u8>>, other: Seq<Seq<u8>>)
    requires
        one.len() > 0,
        other.len() > 0,
        trickles(state, one),
        trickles(state, other),
        joined(one) == joined(other),
    ensures
        feed(state, one).0.window == feed(state, other).0.window,
        settled(feed(state, one).1) || settled(feed(state, other).1) ==> feed(state, one).1 == feed(
            state,
            other,
        ).1,
{
    lemma_incremental_delivery(state, one);
    lemma_incremental_delivery(state, other);
}

/// Two units in one delivery. Where the codec finds `unit` at the front of the
/// window that a delivery has made and `rest` behind it, the step hands out
/// `unit` and keeps exactly `rest`; the step after it, without a new delivery,
/// reads `rest` as a window of its own, so a second unit that lies whole in
/// `rest` comes out next, and what lies behind that one stays.
pub proof fn lemma_units_back_to_back(
    state: State,
    delivered: Seq<u8>,
    unit: UnitView,
    rest: Seq<u8>,
)
    requires
        delivered.len() > 0,
        lengths_fit(state.window + delivered),
        attempt(state.window + delivered) == Attempt::Deliver(unit, rest),
    ensures
        next(state, Some(delivered)) == (
            State { window: rest, capacity: state.capacity },
            Outcome::Deliver(unit),
        ),
        forall|second: UnitView, tail: Seq<u8>|
            lengths_fit(rest) && attempt(rest) == Attempt::Deliver(second, tail) ==> next(
                next(state, Some(delivered)).0,
                None,
            ) == (State { window: tail, capacity: state.capacity }, Outcome::Deliver(second)),
{
}

/// Growth. However much comes in, the buffer only ever doubles: after any
/// deliveries that each fit in the room offered, the capacity is the initial
/// one doubled some number of times and no less than before; as long as no unit
/// has been taken off, the window lies in it; and a step that asks for a read
/// offers all the room behind the window, which is never none.
pub proof fn lemma_growth(state: State, chunks: Seq<Seq<u8>>)
    requires
        state.window.len() <= state.capacity,
        doubled_from_initial(state.capacity),
        fits(state, chunks),
    ensures
        doubled_from_initial(feed(state, chunks).0.capacity),
        feed(state, chunks).0.capacity >= state.capacity,
        !(feed(state, chunks).1 is Deliver) ==> feed(state, chunks).0.window.len() <= feed(
            state,
            chunks,
        ).0.capacity,
        feed(state, chunks).1 matches Outcome::Read(room) ==> room > 0 && room == feed(
            state,
            chunks,
        ).0.capacity - feed(state, chunks).0.window.len(),
    decreases chunks.len(),
{
    if chunks.len() > 0 {
        let shorter = chunks.drop_last();
        assert forall|k: int| 0 <= k < shorter.len() implies ((#[trigger] feed(
            state,
            shorter.take(k),
        )).1 matches Outcome::Read(room) ==> shorter[k].len() <= room) by {
            assert(shorter.take(k) =~= chunks.take(k));
        }
        lemma_growth(state, shorter);
        assert(chunks.take(chunks.len() - 1) =~= shorter);
    }
}

/// A unit that is longer than the buffer was is read all the same, and the
/// buffer has grown to hold it: where pieces that each fit keep reading going
/// and the last step hands out a unit, the capacity is then at least the length
/// of everything that was gathered, the unit's payload and framing included. It
/// is the initial capacity times a power of two, and has doubled once at least
/// where more was gathered than the initial capacity holds.
pub proof fn lemma_capacity_holds_the_unit(state: State, chunks: Seq<Seq<u8>>)
    requires
        state.window.len() <= state.capacity,
        doubled_from_initial(state.capacity),
        chunks.len() > 0,
        fits(state, chunks),
        trickles(state, chunks),
        feed(state, chunks).1 is Deliver,
    ensures
        feed(state, chunks).0.capacity >= state.window.len() + joined(chunks).len(),
        doubled_from_initial(feed(state, chunks).0.capacity),
        exists|k: nat| feed(state, chunks).0.capacity == INITIAL_CAPACITY * #[trigger] pow2(k),
        state.window.len() + joined(chunks).len() > INITIAL_CAPACITY ==> feed(
            state,
            chunks,
        ).0.capacity >= 2 * INITIAL_CAPACITY,
{
    let n = chunks.len() as int;
    lemma_growth(state, chunks);
    lemma_doubled_is_scaled(feed(state, chunks).0.capacity);
    lemma_window_gathers(state, chunks, n - 1);
    assert(chunks.take(n - 1) =~= chunks.drop_last());
    assert(fits(state, chunks.drop_last())) by {
        assert forall|k: int| 0 <= k < chunks.drop_last().len() implies ((#[trigger] feed(
            state,
            chunks.drop_last().take(k),
        )).1 matches Outcome::Read(room) ==> chunks.drop_last()[k].len() <= room) by {
            assert(chunks.drop_last().take(k) =~= chunks.take(k));
        }
    }
    lemma_growth(state, chunks.drop_last());
    let before = feed(state, chunks.drop_last());
    assert((before.0.window + chunks.last()).len() == state.window.len() + joined(chunks).len());
}

/// The end of the stream. An empty delivery after pieces that kept reading
/// going ends it cleanly where nothing at all is buffered, and is a reset where
/// any byte is waiting; the window stays as it was.
pub proof fn lemma_end_of_stream(state: State, chunks: Seq<Seq<u8>>)
    requires
        trickles(state, chunks),
        feed(state, chunks).1 is Read,
    ensures
        feed(state, chunks.push(Seq::empty())).1 == if state.window.len() + joined(chunks).len()
            == 0 {
            Outcome::Closed
        } else {
            Outcome::Reset
        },
        feed(state, chunks.push(Seq::empty())).0 == feed(state, chunks).0,
        feed(state, chunks).0.window == state.window + joined(chunks),
{
    let longer = chunks.push(Seq::<u8>::empty());
    assert(longer.drop_last() =~= chunks);
    let n = chunks.len() as int;
    if n == 0 {
        assert(state.window + joined(chunks) =~= state.window);
    } else {
        lemma_window_gathers(state, chunks, n - 1);
        assert(chunks.take(n - 1) =~= chunks.drop_last());
        let before = feed(state, chunks.drop_last());
        assert(before.0.window + chunks.last() =~= state.window + joined(chunks));
    }
}

} // verus!
