use vstd::prelude::*;

use bitvec::order::Lsb0;
use bitvec::vec::BitVec;

verus! {

/// A bit-addressable memory: a packed vector of bits, held in a `bitvec`
/// bit-vector and addressed by 0-based index. Verus sees it only through
/// `bit_seq` and the trusted methods below, each of which wraps one call
/// into the `bitvec` crate.
#[verifier::external_body]
pub struct BitMem {
    bits: BitVec<u8, Lsb0>,
}

/// The bits that a `BitMem` holds, in 0-based index order.
pub uninterp spec fn bit_seq(v: BitMem) -> Seq<bool>;

impl BitMem {
    /// Relies on bitvec's `BitVec::repeat`: a vector of `len` zero bits.
    #[verifier::external_body]
    pub fn zeros(len: usize) -> (r: BitMem)
        ensures
            bit_seq(r) == Seq::new(len as nat, |i: int| false),
    {
        BitMem { bits: BitVec::repeat(false, len) }
    }

    /// Relies on bitvec's `BitSlice::len`: the number of bits held.
    #[verifier::external_body]
    pub fn len(&self) -> (r: usize)
        ensures
            r == bit_seq(*self).len(),
    {
        self.bits.len()
    }

    /// Relies on bitvec's `Index<usize>` for `BitSlice`: the bit at `i`.
    #[verifier::external_body]
    pub fn get(&self, i: usize) -> (r: bool)
        requires
            i < bit_seq(*self).len(),
        ensures
            r == bit_seq(*self)[i as int],
    {
        self.bits[i]
    }

    /// Relies on bitvec's `BitSlice::set`: writes `bit` at index `i` and
    /// moves no other bit.
    #[verifier::external_body]
    pub fn set(&mut self, i: usize, bit: bool)
        requires
            i < bit_seq(*old(self)).len(),
        ensures
            bit_seq(*final(self)) == bit_seq(*old(self)).update(i as int, bit),
    {
        self.bits.set(i, bit)
    }

    /// Relies on bitvec's `BitSlice::fill`: overwrites every bit with `bit`.
    #[verifier::external_body]
    pub(crate) fn fill(&mut self, bit: bool)
        ensures
            bit_seq(*final(self)) == Seq::new(bit_seq(*old(self)).len(), |i: int| bit),
    {
        self.bits.fill(bit)
    }
}

} // verus!
