//! Bytes that wait for the end of their line.

use crate::frame::chunk_bytes;
use bytes::{Bytes, BytesMut};
use vstd::prelude::*;

verus! {

/// The byte that ends a line.
pub const LINE_FEED: u8 = 10;

/// The length of the first line with its line feed, or 0 where no line is
/// complete.
pub open spec fn line_length(bytes: Seq<u8>) -> nat
    decreases bytes.len(),
{
    if bytes.len() == 0 {
        0
    } else if bytes[0] == LINE_FEED {
        1
    } else {
        let n = line_length(bytes.skip(1));
        if n == 0 {
            0
        } else {
            n + 1
        }
    }
}

/// The complete lines, each with its line feed.
pub open spec fn complete_lines(bytes: Seq<u8>) -> Seq<Seq<u8>>
    decreases bytes.len(),
{
    let n = line_length(bytes);
    if 0 < n <= bytes.len() {
        seq![bytes.take(n as int)] + complete_lines(bytes.skip(n as int))
    } else {
        Seq::empty()
    }
}

/// What follows the last line feed.
pub open spec fn incomplete_line(bytes: Seq<u8>) -> Seq<u8>
    decreases bytes.len(),
{
    let n = line_length(bytes);
    if 0 < n <= bytes.len() {
        incomplete_line(bytes.skip(n as int))
    } else {
        bytes
    }
}

proof fn lemma_line_length(bytes: Seq<u8>, n: int)
    requires
        0 < n <= bytes.len(),
        bytes[n - 1] == LINE_FEED,
        forall|i: int| 0 <= i < n - 1 ==> bytes[i] != LINE_FEED,
    ensures
        line_length(bytes) == n,
    decreases bytes.len(),
{
    if n > 1 {
        assert(bytes[0] != LINE_FEED);
        lemma_line_length(bytes.skip(1), n - 1);
    }
}

proof fn lemma_no_line(bytes: Seq<u8>)
    requires
        forall|i: int| 0 <= i < bytes.len() ==> bytes[i] != LINE_FEED,
    ensures
        line_length(bytes) == 0,
    decreases bytes.len(),
{
    if bytes.len() > 0 {
        lemma_no_line(bytes.skip(1));
    }
}

pub(crate) proof fn lemma_line_length_bound(bytes: Seq<u8>)
    ensures
        line_length(bytes) <= bytes.len(),
    decreases bytes.len(),
{
    if bytes.len() > 0 {
        lemma_line_length_bound(bytes.skip(1));
    }
}

proof fn lemma_line_length_prefix(a: Seq<u8>, b: Seq<u8>)
    requires
        line_length(a) > 0,
    ensures
        line_length(a + b) == line_length(a),
    decreases a.len(),
{
    assert((a + b)[0] == a[0]);
    if a[0] != LINE_FEED {
        assert((a + b).skip(1) =~= a.skip(1) + b);
        lemma_line_length_prefix(a.skip(1), b);
    }
}

/// Lines do not depend on where the bytes were cut: what is complete after the
/// first piece comes first, and the rest of it goes on in the second piece.
pub proof fn lemma_lines_of_pieces(a: Seq<u8>, b: Seq<u8>)
    ensures
        complete_lines(a + b) == complete_lines(a) + complete_lines(incomplete_line(a) + b),
        incomplete_line(a + b) == incomplete_line(incomplete_line(a) + b),
    decreases a.len(),
{
    let n = line_length(a) as int;
    lemma_line_length_bound(a);
    if n > 0 {
        lemma_line_length_prefix(a, b);
        assert((a + b).skip(n) =~= a.skip(n) + b);
        assert((a + b).take(n) =~= a.take(n));
        lemma_lines_of_pieces(a.skip(n), b);
        assert(complete_lines(a + b) =~= complete_lines(a) + complete_lines(
            incomplete_line(a) + b,
        ));
    } else {
        assert(complete_lines(a + b) =~= complete_lines(a) + complete_lines(a + b));
    }
}

#[verifier::external_type_specification]
#[verifier::external_body]
pub struct ExBytesMut(BytesMut);

/// The bytes that a `bytes::BytesMut` holds.
pub uninterp spec fn buffer_bytes(buffer: BytesMut) -> Seq<u8>;

/// Calls `BytesMut::new`: an empty buffer.
#[verifier::external_body]
pub(crate) fn new_buffer() -> (r: BytesMut)
    ensures
        buffer_bytes(r) == Seq::<u8>::empty(),
{
    BytesMut::new()
}

/// How many bytes a buffer may hold. What a buffer allocates grows by doubling,
/// to at most four times what it ever held, and no allocation is larger than
/// half of the address space.
pub const BUFFER_LIMIT: usize = usize::MAX / 8;

/// Calls `BytesMut::extend_from_slice`: appends the bytes. It panics where an
/// allocation would be larger than `isize::MAX`, which the limit rules out;
/// exhausted memory is not accounted for.
#[verifier::external_body]
pub(crate) fn extend_buffer(buffer: &mut BytesMut, bytes: &[u8])
    requires
        buffer_bytes(*old(buffer)).len() + bytes@.len() <= BUFFER_LIMIT,
    ensures
        buffer_bytes(*final(buffer)) == buffer_bytes(*old(buffer)) + bytes@,
{
    buffer.extend_from_slice(bytes)
}

/// Calls `BytesMut::split_to`: takes the first bytes out of the buffer.
#[verifier::external_body]
fn split_buffer(buffer: &mut BytesMut, at: usize) -> (r: BytesMut)
    requires
        at <= buffer_bytes(*old(buffer)).len(),
    ensures
        buffer_bytes(r) == buffer_bytes(*old(buffer)).take(at as int),
        buffer_bytes(*final(buffer)) == buffer_bytes(*old(buffer)).skip(at as int),
{
    buffer.split_to(at)
}

/// Calls `BytesMut::clear`: empties the buffer.
#[verifier::external_body]
pub(crate) fn clear_buffer(buffer: &mut BytesMut)
    ensures
        buffer_bytes(*final(buffer)) == Seq::<u8>::empty(),
{
    buffer.clear()
}

/// Calls `Deref` of `BytesMut`: the bytes of the buffer.
#[verifier::external_body]
pub(crate) fn buffer_slice(buffer: &BytesMut) -> (r: &[u8])
    ensures
        r@ == buffer_bytes(*buffer),
{
    &buffer[..]
}

/// Calls `Deref` of `bytes::Bytes`: the bytes of the chunk.
#[verifier::external_body]
pub(crate) fn chunk_slice(chunk: &Bytes) -> (r: &[u8])
    ensures
        r@ == chunk_bytes(*chunk),
{
    &chunk[..]
}

/// Takes the first complete line out of the buffer, where there is one.
pub(crate) fn take_line(buffer: &mut BytesMut) -> (r: Option<BytesMut>)
    ensures
        r is Some <==> line_length(buffer_bytes(*old(buffer))) > 0,
        r matches Some(line) ==> ({
            let bytes = buffer_bytes(*old(buffer));
            let n = line_length(bytes) as int;
            &&& n <= bytes.len()
            &&& buffer_bytes(line) == bytes.take(n)
            &&& buffer_bytes(*final(buffer)) == bytes.skip(n)
        }),
        r is None ==> *final(buffer) == *old(buffer),
{
    let ghost all = buffer_bytes(*buffer);
    let bytes = buffer_slice(buffer);
    let len: usize = bytes.len();
    let mut i: usize = 0;
    while i < len && bytes[i] != LINE_FEED
        invariant
            bytes@ == all,
            len == all.len(),
            i <= len,
            forall|j: int| 0 <= j < i ==> all[j] != LINE_FEED,
        decreases len - i,
    {
        i = i + 1;
    }
    if i < len {
        proof {
            lemma_line_length(all, i + 1);
        }
        Some(split_buffer(buffer, i + 1))
    } else {
        proof {
            lemma_no_line(all);
        }
        None
    }
}

} // verus!
