//! Bitfields: growable sequences of bits, stored by the `bitvec` crate in the order that
//! the relay chain uses (least significant bit first, in bytes).
//!
//! The bit vector itself is not verified. What it holds is named by [`bits_of`], and each of its
//! operations that the provisioner needs stands behind a small function whose contract says over
//! that name what the operation does.

use bitvec::order::Lsb0;
use bitvec::vec::BitVec;
use vstd::prelude::*;

verus! {

/// A sequence of bits.
///
/// It stands for one bit vector of the `bitvec` crate. In a signed availability bitfield it has
/// one bit per core, in the availability record of an occupied core one bit per validator.
#[verifier::external_body]
#[derive(Debug)]
pub struct Bitfield {
    inner: BitVec<Lsb0, u8>,
}

/// The bits that a bitfield holds, in order of their index.
pub uninterp spec fn bits_of(bitfield: Bitfield) -> Seq<bool>;

impl View for Bitfield {
    type V = Seq<bool>;

    open spec fn view(&self) -> Seq<bool> {
        bits_of(*self)
    }
}

/// How many of `bits` are set.
pub open spec fn ones(bits: Seq<bool>) -> nat
    decreases bits.len(),
{
    if bits.len() == 0 {
        0
    } else {
        ones(bits.drop_last()) + (if bits.last() {
            1nat
        } else {
            0nat
        })
    }
}

/// The largest number of bits that a bitfield can hold.
pub open spec fn max_bits() -> int {
    usize::MAX as int / 8
}

impl Bitfield {
    /// `BitVec::repeat`: a bit vector of `len` bits that all have the value `bit`.
    ///
    /// The crate refuses to make a vector longer than its limit, an eighth of the range of
    /// `usize`, so such a length is left out.
    #[verifier::external_body]
    fn repeat(bit: bool, len: usize) -> (bitfield: Self)
        requires
            len <= max_bits(),
        ensures
            bits_of(bitfield) == Seq::new(len as nat, |i: int| bit),
    {
        Bitfield { inner: BitVec::repeat(bit, len) }
    }

    /// `BitVec::len`: the number of bits. The crate keeps the length in a word of which three
    /// bits serve another purpose, so no vector is longer than an eighth of the range of `usize`.
    #[verifier::external_body]
    pub(crate) fn len(&self) -> (len: usize)
        ensures
            len == bits_of(*self).len(),
            len <= max_bits(),
    {
        self.inner.len()
    }

    /// `BitSlice::get`: the bit at `index`, or nothing if the vector is not that long.
    #[verifier::external_body]
    pub(crate) fn get(&self, index: usize) -> (bit: Option<bool>)
        ensures
            bit == (if index < bits_of(*self).len() {
                Some(bits_of(*self)[index as int])
            } else {
                None
            }),
    {
        self.inner.get(index).as_deref().copied()
    }

    /// `BitSlice::set`: overwrites the bit at `index`, which panics unless there is one.
    #[verifier::external_body]
    pub(crate) fn set(&mut self, index: usize, bit: bool)
        requires
            index < bits_of(*old(self)).len(),
        ensures
            bits_of(*final(self)) == bits_of(*old(self)).update(index as int, bit),
    {
        self.inner.set(index, bit)
    }

    /// `BitSlice::count_ones`: the number of bits that are set.
    #[verifier::external_body]
    pub(crate) fn count_ones(&self) -> (count: usize)
        ensures
            count == ones(bits_of(*self)),
    {
        self.inner.count_ones()
    }

    /// `Clone for BitVec`: a vector of its own with the same bits.
    #[verifier::external_body]
    fn duplicate(&self) -> (copy: Self)
        ensures
            bits_of(copy) == bits_of(*self),
    {
        Bitfield { inner: self.inner.clone() }
    }

    /// The bitfield that holds `bits`.
    pub fn from_bools(bits: &[bool]) -> (bitfield: Self)
        requires
            bits@.len() <= max_bits(),
        ensures
            bitfield@ == bits@,
    {
        let mut bitfield = Self::repeat(false, bits.len());
        let mut index: usize = 0;
        while index < bits.len()
            invariant
                index <= bits@.len(),
                bitfield@.len() == bits@.len(),
                bitfield@.take(index as int) == bits@.take(index as int),
            decreases bits@.len() - index,
        {
            let ghost before = bitfield@;
            bitfield.set(index, bits[index]);
            assert(bitfield@.take(index + 1) =~= before.take(index as int).push(bits@[index as int]));
            assert(bits@.take(index + 1) =~= bits@.take(index as int).push(bits@[index as int]));
            index = index + 1;
        }
        assert(bitfield@.take(index as int) =~= bitfield@);
        assert(bits@.take(index as int) =~= bits@);
        bitfield
    }

    /// The bits of this bitfield, one by one.
    pub fn to_bools(&self) -> (bits: Vec<bool>)
        ensures
            bits@ == self@,
    {
        let len: usize = self.len();
        let mut bits: Vec<bool> = Vec::with_capacity(len);
        let mut index: usize = 0;
        while index < len
            invariant
                len == self@.len(),
                index <= len,
                bits@ == self@.take(index as int),
            decreases len - index,
        {
            if let Some(bit) = self.get(index) {
                bits.push(bit);
            }
            assert(self@.take(index + 1) =~= self@.take(index as int).push(self@[index as int]));
            index = index + 1;
        }
        assert(self@.take(index as int) =~= self@);
        bits
    }
}

impl Clone for Bitfield {
    fn clone(&self) -> (copy: Self)
        ensures
            copy@ == self@,
    {
        self.duplicate()
    }
}

/// No more bits are set than there are.
pub proof fn lemma_ones_at_most_len(bits: Seq<bool>)
    ensures
        ones(bits) <= bits.len(),
    decreases bits.len(),
{
    if bits.len() > 0 {
        lemma_ones_at_most_len(bits.drop_last());
    }
}

/// Setting further bits does not lower the count.
pub proof fn lemma_ones_monotone(fewer: Seq<bool>, more: Seq<bool>)
    requires
        fewer.len() == more.len(),
        forall|i: int| 0 <= i < fewer.len() && fewer[i] ==> more[i],
    ensures
        ones(fewer) <= ones(more),
    decreases fewer.len(),
{
    if fewer.len() > 0 {
        assert(fewer[fewer.len() - 1] ==> more[fewer.len() - 1]);
        lemma_ones_monotone(fewer.drop_last(), more.drop_last());
    }
}

/// The count of set bits is the size of the set of all positions at which a bit is set.
pub proof fn law_ones_counts_the_set_bits(bits: Seq<bool>, positions: Set<int>)
    requires
        forall|i: int| #[trigger] positions.contains(i) <==> 0 <= i < bits.len() && bits[i],
    ensures
        positions.finite(),
        ones(bits) == positions.len(),
    decreases bits.len(),
{
    if bits.len() == 0 {
        assert(positions =~= Set::empty());
    } else {
        let last = bits.len() - 1;
        let earlier = positions.remove(last);
        law_ones_counts_the_set_bits(bits.drop_last(), earlier);
        if bits[last] {
            assert(positions =~= earlier.insert(last));
        } else {
            assert(positions =~= earlier);
        }
    }
}

} // verus!
