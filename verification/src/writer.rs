//! The write side: one frame to the bytes that go out.

use crate::decimal::{decimal, push_decimal};
use crate::unit::{line_end, wire, writable, Unit};
use vstd::prelude::*;

verus! {

/// Why a frame was not written.
#[derive(Clone, Copy, Debug, PartialEq, Eq)]
pub enum WriteError {
    /// The frame is a sequence of frames, which the write side does not send.
    Unsupported,
}

impl WriteError {
    /// The error in words.
    pub open spec fn text(&self) -> Seq<char> {
        "cannot write a sequence of frames"@
    }

    /// The error in words.
    pub fn message(&self) -> (text: String)
        ensures
            text@ == self.text(),
    {
        "cannot write a sequence of frames".to_owned()
    }
}

/// Appends `bytes` to `out`.
fn push_bytes(out: &mut Vec<u8>, bytes: &[u8])
    ensures
        final(out)@ == old(out)@ + bytes@,
{
    out.extend_from_slice(bytes);
    assert(out@ =~= old(out)@ + bytes@);
}

/// Appends the end of a line to `out`.
fn push_line_end(out: &mut Vec<u8>)
    ensures
        final(out)@ == old(out)@ + line_end(),
{
    out.push(13u8);
    out.push(10u8);
    assert(out@ =~= old(out)@ + line_end());
}

/// Appends the decimal text of `val` and the end of the line to `out`.
pub fn write_decimal(out: &mut Vec<u8>, val: i128)
    ensures
        final(out)@ == old(out)@ + decimal(val as int) + line_end(),
{
    push_decimal(out, val);
    push_line_end(out);
}

/// Appends to `out` the bytes that stand for `frame` on the wire. A sequence
/// of frames is refused, and `out` is then left as it was.
pub fn write_frame(out: &mut Vec<u8>, frame: &Unit) -> (r: Result<(), WriteError>)
    ensures
        r is Ok <==> writable(frame@),
        r is Ok ==> final(out)@ == old(out)@ + wire(frame@),
        r is Err ==> r == Err::<(), WriteError>(WriteError::Unsupported) && final(out)@ == old(out)@,
{
    match frame {
        Unit::Simple(text) => {
            out.push(43u8);
            push_bytes(out, text.as_str().as_bytes());
            push_line_end(out);
            assert(out@ =~= old(out)@ + wire(frame@));
        },
        Unit::Error(text) => {
            out.push(45u8);
            push_bytes(out, text.as_str().as_bytes());
            push_line_end(out);
            assert(out@ =~= old(out)@ + wire(frame@));
        },
        Unit::Integer(value) => {
            out.push(58u8);
            write_decimal(out, *value);
            assert(out@ =~= old(out)@ + wire(frame@));
        },
        Unit::Null => {
            out.push(36u8);
            out.push(45u8);
            out.push(49u8);
            push_line_end(out);
            assert(out@ =~= old(out)@ + wire(frame@));
        },
        Unit::Bulk(payload) => {
            out.push(36u8);
            write_decimal(out, payload.len() as i128);
            push_bytes(out, payload.as_slice());
            push_line_end(out);
            assert(out@ =~= old(out)@ + wire(frame@));
        },
        Unit::Array(_) => {
            return Err(WriteError::Unsupported);
        },
    }
    Ok(())
}

} // verus!
