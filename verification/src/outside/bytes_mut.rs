//! `bytes::BytesMut`: the buffer that a stream of frames arrives in.
use bytes::BytesMut;
use vstd::prelude::*;

verus! {

/// `bytes::BytesMut`, a buffer of bytes that can be cut in two.
#[verifier::external_type_specification]
#[verifier::external_body]
pub struct ExBytesMut(BytesMut);

/// The bytes that a buffer holds, first to last.
pub uninterp spec fn buffered(buf: BytesMut) -> Seq<u8>;

/// `BytesMut::len`: how many bytes the buffer holds.
pub assume_specification[ BytesMut::len ](buf: &BytesMut) -> (n: usize)
    ensures
        n == buffered(*buf).len(),
;

/// `<BytesMut as AsRef<[u8]>>::as_ref`: the buffer's bytes as a slice.
#[verifier::external_body]
pub(crate) fn as_slice(buf: &BytesMut) -> (bytes: &[u8])
    ensures
        bytes@ == buffered(*buf),
{
    buf.as_ref()
}

/// `BytesMut::split_to`: cuts the first `at` bytes off the buffer and hands them back. It panics
/// where the buffer holds fewer.
pub assume_specification[ BytesMut::split_to ](buf: &mut BytesMut, at: usize) -> (cut: BytesMut)
    requires
        at <= buffered(*old(buf)).len(),
    ensures
        buffered(cut) == buffered(*old(buf)).take(at as int),
        buffered(*final(buf)) == buffered(*old(buf)).skip(at as int),
;

} // verus!
