use vstd::prelude::*;

verus! {

/// A 256-bit digest, stored as four 64-bit words; word 0 holds the first
/// eight bytes of the digest in little-endian order, and so on.
#[derive(Clone, Copy, PartialEq, Eq, Structural, Hash, Debug)]
pub struct H256 {
    pub w0: u64,
    pub w1: u64,
    pub w2: u64,
    pub w3: u64,
}

impl H256 {
    pub open spec fn zero_spec() -> H256 {
        H256 { w0: 0, w1: 0, w2: 0, w3: 0 }
    }

    /// The all-zero digest.
    pub fn zero() -> (r: H256)
        ensures
            r == H256::zero_spec(),
    {
        H256 { w0: 0, w1: 0, w2: 0, w3: 0 }
    }

    pub open spec fn is_zero_spec(self) -> bool {
        self == H256::zero_spec()
    }

    pub fn is_zero(&self) -> (r: bool)
        ensures
            r == self.is_zero_spec(),
    {
        self.w0 == 0 && self.w1 == 0 && self.w2 == 0 && self.w3 == 0
    }
}

} // verus!
