//! The byte buffer that frames are read from and written into: `BytesMut` of
//! the `bytes` crate, with the few of its methods that the codec calls.
use bytes::BytesMut;
use vstd::prelude::*;

verus! {

/// `bytes::BytesMut`, carried through verified code as an opaque value.
#[verifier::external_type_specification]
#[verifier::external_body]
pub struct ExBytesMut(BytesMut);

/// The bytes that a buffer currently holds, in order.
pub uninterp spec fn buffer_contents(buf: BytesMut) -> Seq<u8>;

/// `BytesMut::len`: the number of bytes the buffer holds.
#[verifier::external_body]
pub(crate) fn buffer_len(buf: &BytesMut) -> (n: usize)
    ensures
        n == buffer_contents(*buf).len(),
{
    buf.len()
}

/// `<[u8]>::to_vec` on the buffer's contents (reached through `BytesMut`'s
/// `Deref` to a byte slice): a fresh vector holding the same bytes.
#[verifier::external_body]
pub(crate) fn buffer_to_vec(buf: &BytesMut) -> (v: Vec<u8>)
    ensures
        v@ == buffer_contents(*buf),
{
    buf.to_vec()
}

/// `BytesMut::clear`: drops every byte the buffer holds.
#[verifier::external_body]
pub(crate) fn buffer_clear(buf: &mut BytesMut)
    ensures
        buffer_contents(*final(buf)) == Seq::<u8>::empty(),
{
    buf.clear()
}

/// `BytesMut::extend_from_slice`: appends `bytes` after the buffer's
/// contents, growing its storage first where needed. The growth goes through
/// `Vec::reserve`, which panics when the new capacity passes `isize::MAX`;
/// `requires` keeps the total length below that. Running out of memory
/// aborts the process, which no clause here speaks of.
#[verifier::external_body]
pub(crate) fn buffer_extend(buf: &mut BytesMut, bytes: &[u8])
    requires
        buffer_contents(*old(buf)).len() + bytes@.len() <= isize::MAX,
    ensures
        buffer_contents(*final(buf)) == buffer_contents(*old(buf)) + bytes@,
{
    buf.extend_from_slice(bytes)
}

} // verus!
