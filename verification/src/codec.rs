//! The protocol codec: `mini_redis::Frame::check` and `mini_redis::Frame::parse`,
//! and the frames that they make.

use crate::guard::lengths_fit;
use crate::unit::{Unit, UnitView};
use vstd::prelude::*;

verus! {

/// `mini_redis::Frame`, the codec's own frame type. Nothing of it is visible
/// here: what a value of it holds is spoken of through [`shape`], and
/// [`take_apart`] is the one place that looks into it.
#[verifier::external_type_specification]
#[verifier::external_body]
pub struct ExCodecFrame(mini_redis::Frame);

/// What the codec says of a window of bytes.
#[derive(Debug, PartialEq, Eq)]
pub enum Check {
    /// The window starts with a whole frame of this many bytes.
    Complete(usize),
    /// More bytes are needed.
    Incomplete,
    /// The window cannot start a frame; the text says why.
    Malformed(String),
}

/// A [`Check`] as mathematical values.
pub enum Verdict {
    Complete(int),
    Incomplete,
    Malformed(Seq<char>),
}

impl View for Check {
    type V = Verdict;

    open spec fn view(&self) -> Verdict {
        match self {
            Check::Complete(len) => Verdict::Complete(*len as int),
            Check::Incomplete => Verdict::Incomplete,
            Check::Malformed(reason) => Verdict::Malformed(reason@),
        }
    }
}

/// What `mini_redis::Frame::check` says of `bytes`, read from their start.
pub uninterp spec fn checked(bytes: Seq<u8>) -> Verdict;

/// What `mini_redis::Frame::parse` makes of `bytes`, read from their start: the
/// frame, or the text of its error.
pub uninterp spec fn parsed(bytes: Seq<u8>) -> Result<UnitView, Seq<char>>;

/// What a frame of the codec holds.
pub uninterp spec fn shape(frame: mini_redis::Frame) -> UnitView;

/// Calls `mini_redis::Frame::check` on a cursor at the start of `bytes`: the
/// answer depends on the bytes alone. On success the cursor stands behind the
/// frame, so the length is its position: at least the type byte, at most all of
/// `bytes`. The codec adds two to each payload length that it reads, without a
/// test, so windows in which it reads one that this would overflow are left
/// out. It calls itself once for each nested sequence; that the stack holds is
/// not part of the claim.
#[verifier::external_body]
pub(crate) fn check(bytes: &[u8]) -> (r: Check)
    requires
        lengths_fit(bytes@),
    ensures
        r@ == checked(bytes@),
        r matches Check::Complete(len) ==> 0 < len <= bytes@.len(),
{
    let mut cursor = std::io::Cursor::new(bytes);
    match mini_redis::Frame::check(&mut cursor) {
        Ok(()) => Check::Complete(cursor.position() as usize),
        Err(mini_redis::frame::Error::Incomplete) => Check::Incomplete,
        Err(mini_redis::frame::Error::Other(reason)) => Check::Malformed(reason.to_string()),
    }
}

/// Calls `mini_redis::Frame::parse` on a cursor at the start of `bytes`, and
/// gives its error as text: the frame or the error depends on the bytes alone.
/// It is for bytes that `check` found complete, on others `parse` may panic;
/// that stack and memory hold is not part of the claim.
#[verifier::external_body]
pub(crate) fn parse(bytes: &[u8]) -> (r: Result<mini_redis::Frame, String>)
    requires
        lengths_fit(bytes@),
        checked(bytes@) is Complete,
    ensures
        match r {
            Ok(frame) => parsed(bytes@) == Ok::<UnitView, Seq<char>>(shape(frame)),
            Err(reason) => parsed(bytes@) == Err::<UnitView, Seq<char>>(reason@),
        },
{
    let mut cursor = std::io::Cursor::new(bytes);
    match mini_redis::Frame::parse(&mut cursor) {
        Ok(frame) => Ok(frame),
        Err(reason) => Err(reason.to_string()),
    }
}

/// The outermost level of a frame of the codec: its variant with what the
/// variant holds, the items of a sequence still as the codec made them.
pub enum Outer {
    Simple(String),
    Error(String),
    Integer(u64),
    Bulk(Vec<u8>),
    Null,
    Array(Vec<mini_redis::Frame>),
}

/// What each of `items` holds.
pub open spec fn shapes(items: Seq<mini_redis::Frame>) -> Seq<UnitView> {
    Seq::new(items.len(), |i: int| shape(items[i]))
}

/// Takes a `mini_redis::Frame` apart by one level, variant for variant: texts,
/// the integer and the items are moved, a payload is copied out of its `Bytes`.
#[verifier::external_body]
pub(crate) fn take_apart(outside: mini_redis::Frame) -> (outer: Outer)
    ensures
        shape(outside) == match outer {
            Outer::Simple(text) => UnitView::Simple(text@),
            Outer::Error(text) => UnitView::Error(text@),
            Outer::Integer(value) => UnitView::Integer(value as int),
            Outer::Bulk(payload) => UnitView::Bulk(payload@),
            Outer::Null => UnitView::Null,
            Outer::Array(items) => UnitView::Array(shapes(items@)),
        },
{
    match outside {
        mini_redis::Frame::Simple(text) => Outer::Simple(text),
        mini_redis::Frame::Error(text) => Outer::Error(text),
        mini_redis::Frame::Integer(value) => Outer::Integer(value),
        mini_redis::Frame::Bulk(payload) => Outer::Bulk(payload.to_vec()),
        mini_redis::Frame::Null => Outer::Null,
        mini_redis::Frame::Array(items) => Outer::Array(items),
    }
}

/// Turns a frame of the codec into a [`Unit`] that holds the same, level by
/// level.
pub fn lift(outside: mini_redis::Frame) -> (unit: Unit)
    ensures
        unit@ == shape(outside),
    decreases shape(outside),
{
    match take_apart(outside) {
        Outer::Simple(text) => Unit::Simple(text),
        Outer::Error(text) => Unit::Error(text),
        Outer::Integer(value) => Unit::Integer(value as i128),
        Outer::Bulk(payload) => Unit::Bulk(payload),
        Outer::Null => Unit::Null,
        Outer::Array(items) => {
            let ghost all = items@;
            let mut units: Vec<Unit> = Vec::new();
            for item in iter: items
                invariant
                    iter.seq() == all,
                    shape(outside) == UnitView::Array(shapes(all)),
                    units@.len() == iter.index(),
                    forall|j: int| 0 <= j < units@.len() ==> (#[trigger] units@[j])@ == shape(all[j]),
            {
                proof {
                    let at = units@.len() as int;
                    let whole = shape(outside);
                    assert(shapes(all)[at] == shape(item));
                    assert(decreases_to!(whole => whole->Array_0));
                    assert(decreases_to!(whole->Array_0 => whole->Array_0[at]));
                }
                units.push(lift(item));
            }
            let unit = Unit::Array(units);
            assert(unit@ == shape(outside)) by {
                assert(unit@->Array_0 =~= shapes(all));
            }
            unit
        },
    }
}

} // verus!
