//! Hashes of blocks, candidates and validation data.

use vstd::prelude::*;
use vstd::std_specs::cmp::PartialEqSpec;

verus! {

/// A hash of 32 bytes.
#[derive(Clone, Copy, Debug, Eq)]
pub struct H256(pub [u8; 32]);

impl PartialEq for H256 {
    fn eq(&self, other: &Self) -> (equal: bool) {
        let mut i: usize = 0;
        while i < 32
            invariant
                i <= 32,
                forall|j: int| 0 <= j < i ==> self.0@[j] == other.0@[j],
            decreases 32 - i,
        {
            if self.0[i] != other.0[i] {
                return false;
            }
            i = i + 1;
        }
        assert(self.0@ =~= other.0@);
        assert(self.0 =~= other.0);
        true
    }
}

impl vstd::std_specs::cmp::PartialEqSpecImpl for H256 {
    open spec fn obeys_eq_spec() -> bool {
        true
    }

    open spec fn eq_spec(&self, other: &Self) -> bool {
        *self == *other
    }
}

/// Two hashes are equal exactly if all of their bytes are.
pub proof fn law_hashes_are_equal_by_their_bytes(one: H256, other: H256)
    ensures
        one.eq_spec(&other) <==> forall|i: int| 0 <= i < 32 ==> one.0@[i] == other.0@[i],
{
    if forall|i: int| 0 <= i < 32 ==> one.0@[i] == other.0@[i] {
        assert(one.0@ =~= other.0@);
        assert(one.0 =~= other.0);
    }
}

} // verus!
