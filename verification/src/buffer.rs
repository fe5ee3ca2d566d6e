//! The byte store of the read side: `bytes::BytesMut`, and what this library
//! relies on of it.

use bytes::Buf;
use bytes::BytesMut;
use vstd::prelude::*;

verus! {

/// `bytes::BytesMut`, a growable byte buffer. Nothing of its layout is used
/// here: its contents are spoken of through [`held`].
#[verifier::external_type_specification]
#[verifier::external_body]
pub struct ExBytesMut(bytes::BytesMut);

/// The bytes that a buffer holds, in order: what `&buffer[..]` shows.
pub uninterp spec fn held(buffer: BytesMut) -> Seq<u8>;

/// `BytesMut::with_capacity` returns a buffer that holds no bytes; the
/// capacity only reserves room. Capacities that no allocation can have are
/// left out.
pub assume_specification[ BytesMut::with_capacity ](capacity: usize) -> (buffer: BytesMut)
    requires
        capacity <= isize::MAX,
    ensures
        held(buffer) == Seq::<u8>::empty(),
;

/// `BytesMut::len` is the number of bytes held.
pub assume_specification[ BytesMut::len ](buffer: &BytesMut) -> (len: usize)
    ensures
        len == held(*buffer).len(),
;

/// `BytesMut::resize` makes the length `new_len`: a longer buffer keeps its
/// bytes and gains copies of `value` behind them, a shorter one keeps its first
/// `new_len` bytes. Lengths that no allocation can have are left out.
pub assume_specification[ BytesMut::resize ](buffer: &mut BytesMut, new_len: usize, value: u8)
    requires
        new_len <= isize::MAX,
    ensures
        held(*final(buffer)).len() == new_len,
        forall|i: int|
            0 <= i < new_len ==> #[trigger] held(*final(buffer))[i] == if i < held(
                *old(buffer),
            ).len() {
                held(*old(buffer))[i]
            } else {
                value
            },
;

/// `Buf::advance` on a `BytesMut` drops the first `cnt` bytes and keeps the
/// rest in order. It panics when asked to drop more than are held, so that is
/// left out.
#[verifier::external_body]
pub(crate) fn drop_front(buffer: &mut BytesMut, cnt: usize)
    requires
        cnt <= held(*old(buffer)).len(),
    ensures
        held(*final(buffer)) == held(*old(buffer)).skip(cnt as int),
{
    buffer.advance(cnt);
}

/// The contents of a `BytesMut` as a slice, through its `Deref`.
#[verifier::external_body]
pub(crate) fn contents(buffer: &BytesMut) -> (slice: &[u8])
    ensures
        slice@ == held(*buffer),
{
    &buffer[..]
}

/// Overwrites the bytes of a `BytesMut` from `at` up to `end` with `chunk`,
/// through its `DerefMut` and `copy_from_slice`; the other bytes stay. The
/// range must lie in the buffer and be as long as `chunk`, else the call
/// panics.
#[verifier::external_body]
pub(crate) fn overwrite(buffer: &mut BytesMut, at: usize, end: usize, chunk: &[u8])
    requires
        at <= end <= held(*old(buffer)).len(),
        end - at == chunk@.len(),
    ensures
        held(*final(buffer)).len() == held(*old(buffer)).len(),
        forall|i: int|
            0 <= i < held(*old(buffer)).len() ==> #[trigger] held(*final(buffer))[i] == if at <= i
                < end {
                chunk@[i - at]
            } else {
                held(*old(buffer))[i]
            },
{
    buffer[at..end].copy_from_slice(chunk);
}

} // verus!
