//! Protocol units (frames) and the bytes that stand for them on the wire.

use crate::decimal::decimal;
use vstd::prelude::*;
use vstd::utf8::encode_utf8;

verus! {

/// One protocol message.
#[derive(Debug, PartialEq, Eq)]
pub enum Unit {
    /// A status line.
    Simple(String),
    /// An error line.
    Error(String),
    /// An integer. The codec yields unsigned 64-bit values; the write side
    /// also renders negative ones.
    Integer(i128),
    /// A binary payload sent with its length.
    Bulk(Vec<u8>),
    /// The absence of a value.
    Null,
    /// A sequence of frames.
    Array(Vec<Unit>),
}

/// What a frame holds, as mathematical values.
pub enum UnitView {
    Simple(Seq<char>),
    Error(Seq<char>),
    Integer(int),
    Bulk(Seq<u8>),
    Null,
    Array(Seq<UnitView>),
}

impl View for Unit {
    type V = UnitView;

    open spec fn view(&self) -> UnitView
        decreases self,
    {
        match self {
            Unit::Simple(text) => UnitView::Simple(text@),
            Unit::Error(text) => UnitView::Error(text@),
            Unit::Integer(value) => UnitView::Integer(*value as int),
            Unit::Bulk(payload) => UnitView::Bulk(payload@),
            Unit::Null => UnitView::Null,
            Unit::Array(items) => UnitView::Array(
                Seq::new(items@.len(), |i: int| if 0 <= i < items@.len() { items@[i]@ } else { UnitView::Null }),
            ),
        }
    }
}

impl Clone for Unit {
    /// A unit that holds the same.
    fn clone(&self) -> (copy: Unit)
        ensures
            copy@ == self@,
        decreases self,
    {
        match self {
            Unit::Simple(text) => Unit::Simple(text.clone()),
            Unit::Error(text) => Unit::Error(text.clone()),
            Unit::Integer(value) => Unit::Integer(*value),
            Unit::Bulk(payload) => {
                let copy = Unit::Bulk(payload.clone());
                assert(copy@ == self@) by {
                    assert(copy->Bulk_0@ =~= payload@);
                }
                copy
            },
            Unit::Null => Unit::Null,
            Unit::Array(items) => {
                let mut copies: Vec<Unit> = Vec::new();
                let mut at: usize = 0;
                while at < items.len()
                    invariant
                        at <= items@.len(),
                        copies@.len() == at,
                        self is Array,
                        self->Array_0 == *items,
                        forall|j: int| 0 <= j < at ==> (#[trigger] copies@[j])@ == items@[j]@,
                    decreases items@.len() - at,
                {
                    assert(decreases_to!(*self => self->Array_0));
                    assert(decreases_to!(self->Array_0 => self->Array_0[at as int]));
                    copies.push(items[at].clone());
                    at = at + 1;
                }
                let copy = Unit::Array(copies);
                assert(copy@ == self@) by {
                    assert(copy@->Array_0 =~= self@->Array_0);
                }
                copy
            },
        }
    }
}

/// The two bytes that end a line.
pub open spec fn line_end() -> Seq<u8> {
    seq![13u8, 10u8]
}

/// Whether the write side can send `unit`: anything but a sequence of frames.
pub open spec fn writable(unit: UnitView) -> bool {
    !(unit is Array)
}

/// The bytes that stand for `unit` on the wire, for a unit that can be sent.
pub open spec fn wire(unit: UnitView) -> Seq<u8> {
    match unit {
        UnitView::Simple(text) => seq![43u8] + encode_utf8(text) + line_end(),
        UnitView::Error(text) => seq![45u8] + encode_utf8(text) + line_end(),
        UnitView::Integer(value) => seq![58u8] + decimal(value) + line_end(),
        UnitView::Bulk(payload) => seq![36u8] + decimal(payload.len() as int) + line_end() + payload
            + line_end(),
        UnitView::Null => seq![36u8, 45u8, 49u8, 13u8, 10u8],
        UnitView::Array(_) => Seq::empty(),
    }
}

} // verus!
