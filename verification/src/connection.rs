//! The read side: a sliding window over the bytes that have come in, and the
//! step that decides what to do with them.

use crate::buffer::{contents, drop_front, held, overwrite};
use crate::codec::{check, checked, lift, parse, parsed, Check, Verdict};
use crate::guard::{lengths_fit, lengths_fit_in};
use crate::unit::{Unit, UnitView};
use bytes::BytesMut;
use vstd::arithmetic::power2::{lemma2_to64, lemma_pow2_unfold, pow2};
use vstd::prelude::*;

verus! {

/// The capacity that a connection starts with.
pub const INITIAL_CAPACITY: usize = 4096;

/// Whether `capacity` is the initial capacity doubled some number of times.
pub open spec fn doubled_from_initial(capacity: int) -> bool
    decreases capacity,
{
    capacity == INITIAL_CAPACITY || (capacity > INITIAL_CAPACITY && capacity % 2 == 0
        && doubled_from_initial(capacity / 2))
}

/// A capacity that is the initial one doubled some number of times is the
/// initial one times a power of two.
pub proof fn lemma_doubled_is_scaled(capacity: int)
    requires
        doubled_from_initial(capacity),
    ensures
        exists|k: nat| capacity == INITIAL_CAPACITY * #[trigger] pow2(k),
    decreases capacity,
{
    if capacity == INITIAL_CAPACITY {
        lemma2_to64();
        assert(capacity == INITIAL_CAPACITY * pow2(0));
    } else {
        lemma_doubled_is_scaled(capacity / 2);
        let k = choose|k: nat| capacity / 2 == INITIAL_CAPACITY * #[trigger] pow2(k);
        lemma_pow2_unfold(k + 1);
        assert(capacity == INITIAL_CAPACITY * pow2(k + 1));
    }
}

/// Why reading failed.
#[derive(Debug, PartialEq, Eq)]
pub enum ReadError {
    /// The codec found the input malformed, or could not decode it; the text
    /// is the codec's.
    Protocol(String),
    /// The peer closed the stream in the middle of a unit.
    Reset,
    /// The codec would read a payload length within two of the largest
    /// `usize`, or the buffer is full and cannot double: the unit is beyond
    /// what this machine can hold.
    TooLarge,
}

impl ReadError {
    /// The error in words.
    pub open spec fn text(&self) -> Seq<char> {
        match self {
            ReadError::Protocol(reason) => reason@,
            ReadError::Reset => "connection reset by peer"@,
            ReadError::TooLarge => "frame too large for this machine"@,
        }
    }

    /// The error in words: the codec's own text for a protocol error.
    pub fn message(&self) -> (text: String)
        ensures
            text@ == self.text(),
    {
        match self {
            ReadError::Protocol(reason) => reason.clone(),
            ReadError::Reset => "connection reset by peer".to_owned(),
            ReadError::TooLarge => "frame too large for this machine".to_owned(),
        }
    }
}

/// What the caller of [`Connection::read_frame`] does next.
#[derive(Debug, PartialEq, Eq)]
pub enum Step {
    /// The next unit; reading is done.
    Deliver(Unit),
    /// Read once from the stream, at most this many bytes, and hand in what
    /// came.
    Read(usize),
    /// The peer closed the stream between units; reading is done.
    Closed,
    /// Reading failed; the connection is of no further use.
    Failed(ReadError),
}

/// A [`Step`] as mathematical values.
pub enum Outcome {
    Deliver(UnitView),
    Read(int),
    Closed,
    Reset,
    Protocol(Seq<char>),
    TooLarge,
}

impl View for Step {
    type V = Outcome;

    open spec fn view(&self) -> Outcome {
        match self {
            Step::Deliver(unit) => Outcome::Deliver(unit@),
            Step::Read(room) => Outcome::Read(*room as int),
            Step::Closed => Outcome::Closed,
            Step::Failed(ReadError::Reset) => Outcome::Reset,
            Step::Failed(ReadError::Protocol(reason)) => Outcome::Protocol(reason@),
            Step::Failed(ReadError::TooLarge) => Outcome::TooLarge,
        }
    }
}

/// What the codec makes of a window.
pub enum Attempt {
    /// The window starts with this unit; the bytes behind it follow.
    Deliver(UnitView, Seq<u8>),
    /// The window holds no whole unit yet.
    Wait,
    /// The window is malformed, or its first unit cannot be decoded.
    Protocol(Seq<char>),
}

/// The codec's answer for `window`: a whole unit is decoded and taken off the
/// front, an incomplete one waits, anything else is a protocol error.
pub open spec fn attempt(window: Seq<u8>) -> Attempt {
    match checked(window) {
        Verdict::Complete(len) => match parsed(window) {
            Ok(unit) => Attempt::Deliver(unit, window.skip(len)),
            Err(reason) => Attempt::Protocol(reason),
        },
        Verdict::Incomplete => Attempt::Wait,
        Verdict::Malformed(reason) => Attempt::Protocol(reason),
    }
}

/// A connection as mathematical values: its window and its capacity.
pub struct State {
    pub window: Seq<u8>,
    pub capacity: int,
}

/// Whether a buffer of `capacity` bytes can be doubled.
pub open spec fn can_double(capacity: int) -> bool {
    2 * capacity <= isize::MAX
}

/// The window once a delivery has joined it.
pub open spec fn gathered(window: Seq<u8>, delivered: Option<Seq<u8>>) -> Seq<u8> {
    match delivered {
        Some(chunk) => window + chunk,
        None => window,
    }
}

/// One step of reading. `delivered` is what the read that the step before
/// asked for has brought, or `None` where no read was made.
///
/// An empty delivery is the end of the stream: clean where the window is
/// empty, a reset where part of a unit is waiting. Otherwise the delivery
/// joins the window and the codec is asked, unless it would read a payload
/// length that it cannot add to. A whole unit is handed out and leaves the
/// window. Where none is there yet the step asks for a read into the room that
/// is left, after doubling a full buffer.
pub open spec fn next(state: State, delivered: Option<Seq<u8>>) -> (State, Outcome) {
    if delivered matches Some(chunk) && chunk.len() == 0 {
        (
            state,
            if state.window.len() == 0 {
                Outcome::Closed
            } else {
                Outcome::Reset
            },
        )
    } else {
        let window = gathered(state.window, delivered);
        let joined = State { window, capacity: state.capacity };
        if !lengths_fit(window) {
            (joined, Outcome::TooLarge)
        } else {
            match attempt(window) {
                Attempt::Deliver(unit, rest) => (
                    State { window: rest, capacity: state.capacity },
                    Outcome::Deliver(unit),
                ),
                Attempt::Protocol(reason) => (joined, Outcome::Protocol(reason)),
                Attempt::Wait => if window.len() < state.capacity {
                    (joined, Outcome::Read(state.capacity - window.len()))
                } else if can_double(state.capacity) {
                    (
                        State { window, capacity: 2 * state.capacity },
                        Outcome::Read(2 * state.capacity - window.len()),
                    )
                } else {
                    (joined, Outcome::TooLarge)
                },
            }
        }
    }
}

/// A delivery as mathematical values.
pub open spec fn delivery(delivered: Option<&[u8]>) -> Option<Seq<u8>> {
    match delivered {
        Some(chunk) => Some(chunk@),
        None => None,
    }
}

/// The read side of one connection: a buffer and the count of its bytes that
/// hold input not yet handed out.
pub struct Connection {
    buffer: BytesMut,
    filled: usize,
}

impl Connection {
    /// The size of the buffer: the room for input, used or not.
    pub closed spec fn spec_capacity(&self) -> usize {
        held(self.buffer).len() as usize
    }

    /// The input that has come in and has not been handed out, in order.
    pub closed spec fn window(&self) -> Seq<u8> {
        held(self.buffer).subrange(0, self.filled as int)
    }

    /// The window and the capacity.
    pub open spec fn state(&self) -> State {
        State { window: self.window(), capacity: self.spec_capacity() as int }
    }

    /// The invariant of a connection: the window lies in the buffer, and the
    /// capacity is the initial one doubled some number of times.
    pub closed spec fn wf(&self) -> bool {
        &&& self.filled <= held(self.buffer).len() <= isize::MAX
        &&& doubled_from_initial(held(self.buffer).len() as int)
    }

    /// What the invariant gives: the window fits in the capacity, which is
    /// the initial one doubled some number of times.
    pub proof fn lemma_wf(&self)
        requires
            self.wf(),
        ensures
            self.window().len() <= self.spec_capacity() <= isize::MAX,
            self.spec_capacity() >= INITIAL_CAPACITY,
            doubled_from_initial(self.spec_capacity() as int),
    {
    }

    /// A connection with an empty window and the initial capacity.
    pub fn new() -> (connection: Connection)
        ensures
            connection.wf(),
            connection.window() == Seq::<u8>::empty(),
            connection.spec_capacity() == INITIAL_CAPACITY,
    {
        let mut buffer = BytesMut::with_capacity(INITIAL_CAPACITY);
        buffer.resize(INITIAL_CAPACITY, 0u8);
        let connection = Connection { buffer, filled: 0 };
        assert(connection.window() =~= Seq::<u8>::empty());
        connection
    }

    /// The size of the buffer.
    #[verifier::when_used_as_spec(spec_capacity)]
    pub fn capacity(&self) -> (capacity: usize)
        ensures
            capacity == self.spec_capacity(),
    {
        self.buffer.len()
    }

    /// How many bytes the window holds.
    pub fn filled(&self) -> (filled: usize)
        requires
            self.wf(),
        ensures
            filled == self.window().len(),
    {
        self.filled
    }

    /// A copy of the window.
    pub fn buffered(&self) -> (bytes: Vec<u8>)
        requires
            self.wf(),
        ensures
            bytes@ == self.window(),
    {
        let all = contents(&self.buffer);
        let window = &all[0..self.filled];
        vstd::slice::slice_to_vec(window)
    }

    /// Takes the first `len` bytes off the window; the buffer keeps its size.
    fn consume(&mut self, len: usize)
        requires
            old(self).wf(),
            len <= old(self).filled,
        ensures
            final(self).wf(),
            final(self).window() == old(self).window().skip(len as int),
            final(self).spec_capacity() == old(self).spec_capacity(),
    {
        let capacity = self.buffer.len();
        drop_front(&mut self.buffer, len);
        self.buffer.resize(capacity, 0u8);
        self.filled = self.filled - len;
        assert(self.window() =~= old(self).window().skip(len as int));
    }

    /// Tries to take one unit off the front of the window. A whole unit is
    /// decoded and leaves the window, and what stood behind it moves to the
    /// front; where the window holds no whole unit, or the codec refuses it,
    /// the window stays as it is.
    pub fn parse_frame(&mut self) -> (r: Result<Option<Unit>, ReadError>)
        requires
            old(self).wf(),
            lengths_fit(old(self).window()),
        ensures
            final(self).wf(),
            final(self).spec_capacity() == old(self).spec_capacity(),
            match attempt(old(self).window()) {
                Attempt::Deliver(unit, rest) => r matches Ok(Some(got)) && got@ == unit && final(self).window() == rest,
                Attempt::Wait => r matches Ok(None) && final(self).window() == old(self).window(),
                Attempt::Protocol(reason) => r matches Err(ReadError::Protocol(text)) && text@
                    == reason && final(self).window() == old(self).window(),
            },
            r matches Ok(Some(_)) ==> (checked(old(self).window()) matches Verdict::Complete(len)
                && 0 < len <= old(self).window().len() && final(self).window().len() == old(self).window().len() - len),
    {
        let all = contents(&self.buffer);
        let window = &all[0..self.filled];
        match check(window) {
            Check::Complete(len) => match parse(window) {
                Ok(outside) => {
                    let unit = lift(outside);
                    self.consume(len);
                    Ok(Some(unit))
                },
                Err(reason) => Err(ReadError::Protocol(reason)),
            },
            Check::Incomplete => Ok(None),
            Check::Malformed(reason) => Err(ReadError::Protocol(reason)),
        }
    }

    /// Makes sure that there is room behind the window, doubling a full
    /// buffer, and says how much room there is.
    pub fn make_room(&mut self) -> (room: usize)
        requires
            old(self).wf(),
            old(self).window().len() == old(self).spec_capacity() ==> can_double(
                old(self).spec_capacity() as int,
            ),
        ensures
            final(self).wf(),
            final(self).window() == old(self).window(),
            final(self).spec_capacity() == if old(self).window().len() == old(self).spec_capacity() {
                2 * old(self).spec_capacity()
            } else {
                old(self).spec_capacity() as int
            },
            room == final(self).spec_capacity() - final(self).window().len(),
            room > 0,
    {
        let capacity = self.buffer.len();
        if self.filled == capacity {
            self.buffer.resize(2 * capacity, 0u8);
            assert(self.window() =~= old(self).window());
        }
        self.buffer.len() - self.filled
    }

    /// Puts `chunk` behind the window.
    pub fn fill(&mut self, chunk: &[u8])
        requires
            old(self).wf(),
            old(self).window().len() + chunk@.len() <= old(self).spec_capacity(),
        ensures
            final(self).wf(),
            final(self).window() == old(self).window() + chunk@,
            final(self).spec_capacity() == old(self).spec_capacity(),
    {
        let end = self.filled + chunk.len();
        overwrite(&mut self.buffer, self.filled, end, chunk);
        self.filled = end;
        assert(self.window() =~= old(self).window() + chunk@);
    }

    /// One step of reading the next unit: see [`next`]. The caller starts
    /// with no delivery, and as long as the step says [`Step::Read`] it reads
    /// once from the stream and calls again with what came; an empty delivery
    /// says that the stream has ended.
    pub fn read_frame(&mut self, delivered: Option<&[u8]>) -> (step: Step)
        requires
            old(self).wf(),
            delivered matches Some(chunk) ==> old(self).window().len() + chunk@.len() <= old(self).spec_capacity(),
        ensures
            final(self).wf(),
            (final(self).state(), step@) == next(old(self).state(), delivery(delivered)),
            step is Deliver ==> (checked(gathered(old(self).window(), delivery(delivered)))
                matches Verdict::Complete(len) && 0 < len <= gathered(
                old(self).window(),
                delivery(delivered),
            ).len() && final(self).window().len() == gathered(
                old(self).window(),
                delivery(delivered),
            ).len() - len),
    {
        if let Some(chunk) = delivered {
            if chunk.len() == 0 {
                return if self.filled == 0 {
                    Step::Closed
                } else {
                    Step::Failed(ReadError::Reset)
                };
            }
            self.fill(chunk);
        }
        let all = contents(&self.buffer);
        let fit = lengths_fit_in(&all[0..self.filled]);
        if !fit {
            return Step::Failed(ReadError::TooLarge);
        }
        match self.parse_frame() {
            Ok(Some(unit)) => Step::Deliver(unit),
            Ok(None) => {
                if self.filled == self.buffer.len() && self.filled > isize::MAX as usize / 2 {
                    Step::Failed(ReadError::TooLarge)
                } else {
                    let room = self.make_room();
                    Step::Read(room)
                }
            },
            Err(error) => Step::Failed(error),
        }
    }
}

} // verus!
