//! The VM's native field, modelled as unsigned integers below the modulus,
//! and words of four field elements.

use vstd::prelude::*;

use crate::errors::ParseError;

verus! {

/// The prime modulus of the VM's 64-bit field: `2^64 - 2^32 + 1`.
pub const FIELD_MODULUS: u64 = 0xffffffff00000001;

/// A `u64` is a canonical field element exactly when it is below the modulus.
pub open spec fn is_felt(v: u64) -> bool {
    v < FIELD_MODULUS
}

/// A word: four field elements, the unit of digests, Merkle nodes and
/// advice-map values.
#[derive(Clone, Copy, Debug)]
pub struct Word {
    pub elements: [u64; 4],
}

impl PartialEq for Word {
    fn eq(&self, other: &Word) -> (r: bool) {
        self.elements[0] == other.elements[0] && self.elements[1] == other.elements[1]
            && self.elements[2] == other.elements[2] && self.elements[3] == other.elements[3]
    }
}

impl Eq for Word {

}

impl vstd::std_specs::cmp::PartialEqSpecImpl for Word {
    open spec fn obeys_eq_spec() -> bool {
        true
    }

    open spec fn eq_spec(&self, other: &Word) -> bool {
        self.elements@ =~= other.elements@
    }
}

impl Word {
    /// Every element is a canonical member of the field.
    pub open spec fn wf(self) -> bool {
        forall|i: int| 0 <= i < 4 ==> is_felt(#[trigger] self.elements[i])
    }

    /// The word whose four elements are all zero.
    pub fn zero() -> (r: Word)
        ensures
            r.wf(),
            r.elements@ == seq![0u64, 0u64, 0u64, 0u64],
    {
        let r = Word { elements: [0u64, 0u64, 0u64, 0u64] };
        proof {
            assert(r.elements@ =~= seq![0u64, 0u64, 0u64, 0u64]);
        }
        r
    }
}

/// Addition in the field: the sum of the two elements, reduced modulo the
/// field modulus.
pub fn felt_add(a: u64, b: u64) -> (r: u64)
    requires
        is_felt(a),
        is_felt(b),
    ensures
        is_felt(r),
        r == (a + b) % (FIELD_MODULUS as int),
{
    let wide: u128 = a as u128 + b as u128;
    let reduced: u128 = wide % (FIELD_MODULUS as u128);
    reduced as u64
}

} // verus!
