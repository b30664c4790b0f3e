//! Bit-buffer storage for the display plane.
//!
//! The plane's cells live in a `bitvec` bit-vector. The buffer is opaque to
//! verification: its contents are named by `bit_contents`, and the few
//! operations the display needs are trusted wrappers whose contracts state
//! what `bitvec`'s documentation and source promise.

use vstd::prelude::*;

verus! {

/// The bit store backing a display plane: one bit per cell, held in a
/// `bitvec` bit-vector stored most-significant-bit first in 64-bit words.
/// The buffer itself is opaque to verification; `bit_contents` names what
/// it holds.
#[verifier::external_body]
pub struct BitBuf {
    inner: bitvec::vec::BitVec<u64, bitvec::order::Msb0>,
}

/// The sequence of bits held by a buffer, in index order.
pub uninterp spec fn bit_contents(v: BitBuf) -> Seq<bool>;

/// Relies on bitvec's `BitVec::repeat`: a bit-vector of `len` copies of the
/// given bit. The length bound keeps the request far below the greatest
/// length a bit-vector can represent, which `repeat` would refuse.
#[verifier::external_body]
pub(crate) fn bits_new(len: usize) -> (r: BitBuf)
    requires
        len <= 8192,
    ensures
        bit_contents(r) == Seq::new(len as nat, |i: int| false),
{
    BitBuf { inner: bitvec::vec::BitVec::repeat(false, len) }
}

/// Relies on bitvec's `Index<usize>` for bit-slices: the bit at a semantic
/// index below the length.
#[verifier::external_body]
pub(crate) fn bits_read(v: &BitBuf, i: usize) -> (r: bool)
    requires
        i < bit_contents(*v).len(),
    ensures
        r == bit_contents(*v)[i as int],
{
    v.inner[i]
}

/// Relies on bitvec's `BitSlice::set`: writes one bit at an in-bounds index
/// and leaves every other bit as it was.
#[verifier::external_body]
pub(crate) fn bits_write(v: &mut BitBuf, i: usize, b: bool)
    requires
        i < bit_contents(*old(v)).len(),
    ensures
        bit_contents(*final(v)) == bit_contents(*old(v)).update(i as int, b),
{
    v.inner.set(i, b);
}

/// Relies on bitvec's `BitSlice::fill`: overwrites every bit with the given
/// value, keeping the length.
#[verifier::external_body]
pub(crate) fn bits_clear(v: &mut BitBuf)
    ensures
        bit_contents(*final(v)) == Seq::new(bit_contents(*old(v)).len(), |i: int| false),
{
    v.inner.fill(false);
}

} // verus!
