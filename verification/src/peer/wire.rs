use vstd::prelude::*;
use bytes::{Buf, BufMut, BytesMut};

verus! {

/// The four bytes of `n`, most significant first.
pub open spec fn u32_be(n: u32) -> Seq<u8> {
    seq![
        (n / 0x100_0000) as u8,
        ((n / 0x1_0000) % 0x100) as u8,
        ((n / 0x100) % 0x100) as u8,
        (n % 0x100) as u8,
    ]
}

/// The number that the first four bytes of `b` denote, most significant
/// first.
pub open spec fn be_u32(b: Seq<u8>) -> u32
    recommends
        b.len() >= 4,
{
    (b[0] * 0x100_0000 + b[1] * 0x1_0000 + b[2] * 0x100 + b[3]) as u32
}

/// Reading back what `u32_be` wrote gives the number.
pub proof fn lemma_be_u32_inverts(n: u32)
    ensures
        be_u32(u32_be(n)) == n,
        u32_be(n).len() == 4,
{
}

/// A growable byte buffer of the `bytes` crate.
#[verifier::external_type_specification]
#[verifier::external_body]
pub struct ExBytesMut(BytesMut);

/// The bytes that a buffer holds, first written first.
pub uninterp spec fn buffer_contents(buf: BytesMut) -> Seq<u8>;

/// An empty buffer.
///
/// Trusted: `BytesMut::new` returns a buffer of length 0.
#[verifier::external_body]
pub(crate) fn buffer_new() -> (buf: BytesMut)
    ensures
        buffer_contents(buf) == Seq::<u8>::empty(),
{
    BytesMut::new()
}

/// Appends `n` as four bytes, most significant first.
///
/// Trusted: `BufMut::put_u32` writes the big-endian bytes of `n` at the end
/// of the buffer, which grows as needed; it panics only when the buffer
/// cannot grow by four bytes, which the precondition rules out.
#[verifier::external_body]
pub(crate) fn buffer_put_u32(buf: &mut BytesMut, n: u32)
    requires
        buffer_contents(*old(buf)).len() + 4 <= isize::MAX,
    ensures
        buffer_contents(*final(buf)) == buffer_contents(*old(buf)) + u32_be(n),
{
    buf.put_u32(n)
}

/// Appends one byte.
///
/// Trusted: `BufMut::put_u8` writes `n` at the end of the buffer.
#[verifier::external_body]
pub(crate) fn buffer_put_u8(buf: &mut BytesMut, n: u8)
    requires
        buffer_contents(*old(buf)).len() + 1 <= isize::MAX,
    ensures
        buffer_contents(*final(buf)) == buffer_contents(*old(buf)).push(n),
{
    buf.put_u8(n)
}

/// Appends the bytes of `src`.
///
/// Trusted: `BufMut::put_slice` copies all of `src` to the end of the
/// buffer.
#[verifier::external_body]
pub(crate) fn buffer_put_slice(buf: &mut BytesMut, src: &[u8])
    requires
        buffer_contents(*old(buf)).len() + src@.len() <= isize::MAX,
    ensures
        buffer_contents(*final(buf)) == buffer_contents(*old(buf)) + src@,
{
    buf.put_slice(src)
}

/// The bytes of the buffer as a vector.
///
/// Trusted: a `BytesMut` dereferences to the slice of the bytes written so
/// far, which `to_vec` copies.
#[verifier::external_body]
pub(crate) fn buffer_to_vec(buf: &BytesMut) -> (bytes: Vec<u8>)
    ensures
        bytes@ == buffer_contents(*buf),
{
    buf.to_vec()
}

/// Reads four bytes as a number, most significant first, and returns it
/// with the bytes that follow.
///
/// Trusted: `Buf::get_u32` on a byte slice reads the first four bytes in
/// big-endian order and advances the slice past them; it panics on fewer
/// than four bytes, which the precondition rules out.
#[verifier::external_body]
pub(crate) fn take_u32(data: &[u8]) -> (r: (u32, &[u8]))
    requires
        data@.len() >= 4,
    ensures
        r.0 == be_u32(data@),
        r.1@ == data@.skip(4),
{
    let mut rest = data;
    let n = rest.get_u32();
    (n, rest)
}

/// Reads one byte and returns it with the bytes that follow.
///
/// Trusted: `Buf::get_u8` on a byte slice returns the first byte and
/// advances the slice past it; it panics on an empty slice, which the
/// precondition rules out.
#[verifier::external_body]
pub(crate) fn take_u8(data: &[u8]) -> (r: (u8, &[u8]))
    requires
        data@.len() >= 1,
    ensures
        r.0 == data@[0],
        r.1@ == data@.skip(1),
{
    let mut rest = data;
    let n = rest.get_u8();
    (n, rest)
}

} // verus!
