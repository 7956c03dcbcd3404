//! Small helpers on byte vectors.

use vstd::prelude::*;

verus! {

/// `n` zero bytes.
pub open spec fn zeros(n: nat) -> Seq<u8> {
    Seq::new(n, |i: int| 0u8)
}

/// A page as it fills a slot of `size` bytes: zeros follow a shorter page,
/// a page of `size` bytes or more stands as it is.
pub open spec fn padded(data: Seq<u8>, size: nat) -> Seq<u8> {
    if data.len() < size {
        data + zeros((size - data.len()) as nat)
    } else {
        data
    }
}

/// The byte of a page at an offset, zero past the page's end.
pub open spec fn byte_or_zero(data: Seq<u8>, offset: int) -> u8 {
    if 0 <= offset < data.len() {
        data[offset]
    } else {
        0u8
    }
}

/// Appends `data` to `buf`.
pub fn append_bytes(buf: &mut Vec<u8>, data: &[u8])
    ensures
        final(buf)@ == old(buf)@ + data@,
{
    buf.extend_from_slice(data);
    assert(buf@ =~= old(buf)@ + data@);
}

/// A vector of `n` zero bytes.
pub fn zero_bytes(n: usize) -> (v: Vec<u8>)
    ensures
        v@ == zeros(n as nat),
{
    let v = vec![0u8; n];
    assert(v@ =~= zeros(n as nat));
    v
}

/// Appends `n` zero bytes to `buf`.
pub fn append_zeros(buf: &mut Vec<u8>, n: usize)
    ensures
        final(buf)@ == old(buf)@ + zeros(n as nat),
{
    let fill = zero_bytes(n);
    append_bytes(buf, fill.as_slice());
}

/// A copy of a byte slice.
pub fn copy_bytes(data: &[u8]) -> (v: Vec<u8>)
    ensures
        v@ == data@,
{
    vstd::slice::slice_to_vec(data)
}

} // verus!
