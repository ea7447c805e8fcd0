//! The byte buffer that frames are written to and read from: `BytesMut` of
//! the `bytes` crate. Verus does not look inside it. What it holds is named
//! by [`buffered`], and the four methods the codec calls are given
//! specifications over that name. These specifications are believed, not
//! proved.

use bytes::BytesMut;
use vstd::prelude::*;

verus! {

/// `bytes::BytesMut`, taken as it is: a value that is carried through and
/// handed to its own methods.
#[verifier::external_type_specification]
#[verifier::external_body]
pub struct ExBytesMut(bytes::BytesMut);

/// The bytes that a buffer holds, first to last: what `as_ref` shows.
pub uninterp spec fn buffered(buf: BytesMut) -> Seq<u8>;

/// `BytesMut::len`: the number of bytes held.
pub assume_specification[ BytesMut::len ](buf: &BytesMut) -> (n: usize)
    ensures
        n == buffered(*buf).len(),
;

/// `AsRef<[u8]>::as_ref` of `BytesMut`: a slice of exactly the bytes held.
pub assume_specification[ <BytesMut as AsRef<[u8]>>::as_ref ](buf: &BytesMut) -> (bytes: &[u8])
    ensures
        bytes@ == buffered(*buf),
;

/// `BytesMut::split_to`: hands out the first `at` bytes as a buffer of their
/// own and keeps the rest. It panics where `at` exceeds the length, so
/// callers must stay within it.
pub assume_specification[ BytesMut::split_to ](buf: &mut BytesMut, at: usize) -> (front: BytesMut)
    requires
        at <= buffered(*old(buf)).len(),
    ensures
        buffered(front) == buffered(*old(buf)).take(at as int),
        buffered(*final(buf)) == buffered(*old(buf)).skip(at as int),
;

/// `BytesMut::extend_from_slice`: appends the bytes given, growing the
/// buffer first where it is too small. Growing panics where the new size
/// would pass what an allocation may hold, so callers must stay within
/// `isize::MAX` bytes. That the allocator has the memory is taken for
/// granted, as it is for `Vec`.
pub assume_specification[ BytesMut::extend_from_slice ](buf: &mut BytesMut, extend: &[u8])
    requires
        buffered(*old(buf)).len() + extend@.len() <= isize::MAX,
    ensures
        buffered(*final(buf)) == buffered(*old(buf)) + extend@,
;

} // verus!
