//! The byte buffer of the `bytes` crate, as the reader sees it: a front-first
//! sequence of the bytes that have not been consumed yet.

use bytes::Buf;
use bytes::Bytes;
use vstd::prelude::*;

verus! {

/// `bytes::Bytes`, a cheaply cloneable view into shared memory. Nothing of its
/// representation is visible here; `unread` names what it holds.
#[verifier::external_type_specification]
#[verifier::external_body]
pub struct ExBytes(bytes::Bytes);

/// The bytes that a buffer still holds, in the order in which they are read.
pub uninterp spec fn unread(b: Bytes) -> Seq<u8>;

/// `Buf::has_remaining` on `Bytes`: whether the length of the buffer, which is
/// what `remaining` reports, is above zero.
#[verifier::external_body]
pub(crate) fn has_remaining(b: &Bytes) -> (r: bool)
    ensures
        r == (unread(*b).len() > 0),
{
    b.has_remaining()
}

/// `Buf::chunk` on `Bytes`: the whole of the unread bytes as one slice.
#[verifier::external_body]
pub(crate) fn chunk(b: &Bytes) -> (s: &[u8])
    ensures
        s@ == unread(*b),
{
    b.chunk()
}

/// `Buf::advance` on `Bytes`: moves the start of the buffer forward by `cnt`
/// bytes. The call panics when `cnt` is above the buffer's length, which the
/// precondition rules out.
#[verifier::external_body]
pub(crate) fn advance(b: &mut Bytes, cnt: usize)
    requires
        cnt <= unread(*old(b)).len(),
    ensures
        unread(*final(b)) == unread(*old(b)).skip(cnt as int),
{
    b.advance(cnt)
}

} // verus!
