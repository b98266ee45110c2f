use vstd::prelude::*;

verus! {

/// One byte of stored state costs this many shannons, the smallest capacity
/// unit.
pub const SHANNONS_PER_BYTE: u64 = 100_000_000;

/// An unsigned quantity of capacity in shannons.  All arithmetic on it is
/// checked: an overflow is reported, never silently wrapped.
#[derive(Clone, Copy, PartialEq, Eq, Structural, Hash, Debug)]
pub struct Capacity(pub u64);

/// The single arithmetic error of capacity sums: the result would not fit in
/// 64 bits.
#[derive(Clone, Copy, PartialEq, Eq, Structural, Debug)]
pub enum CapacityError {
    ArithmeticOverflow,
}

impl Capacity {
    pub open spec fn as_int(self) -> int {
        self.0 as int
    }

    pub fn zero() -> (r: Capacity)
        ensures
            r.0 == 0,
    {
        Capacity(0)
    }

    /// The capacity that covers `b` bytes of stored state.
    pub fn bytes(b: u64) -> (r: Result<Capacity, CapacityError>)
        ensures
            b * SHANNONS_PER_BYTE <= u64::MAX ==> r == Ok::<Capacity, CapacityError>(
                Capacity((b * SHANNONS_PER_BYTE) as u64),
            ),
            b * SHANNONS_PER_BYTE > u64::MAX ==> r == Err::<Capacity, CapacityError>(
                CapacityError::ArithmeticOverflow,
            ),
    {
        if b <= u64::MAX / SHANNONS_PER_BYTE {
            proof {
                assert(b * SHANNONS_PER_BYTE <= (u64::MAX / SHANNONS_PER_BYTE) * SHANNONS_PER_BYTE)
                    by (nonlinear_arith)
                    requires
                        b <= u64::MAX / SHANNONS_PER_BYTE,
                ;
            }
            Ok(Capacity(b * SHANNONS_PER_BYTE))
        } else {
            proof {
                assert(b * SHANNONS_PER_BYTE > u64::MAX) by (nonlinear_arith)
                    requires
                        b > u64::MAX / SHANNONS_PER_BYTE,
                ;
            }
            Err(CapacityError::ArithmeticOverflow)
        }
    }

    pub fn as_u64(&self) -> (r: u64)
        ensures
            r == self.0,
    {
        self.0
    }

    /// Checked addition: the sum, or `ArithmeticOverflow` when it does not
    /// fit in 64 bits.
    pub fn safe_add(self, other: Capacity) -> (r: Result<Capacity, CapacityError>)
        ensures
            self.0 + other.0 <= u64::MAX ==> r == Ok::<Capacity, CapacityError>(
                Capacity((self.0 + other.0) as u64),
            ),
            self.0 + other.0 > u64::MAX ==> r == Err::<Capacity, CapacityError>(
                CapacityError::ArithmeticOverflow,
            ),
    {
        if self.0 <= u64::MAX - other.0 {
            Ok(Capacity(self.0 + other.0))
        } else {
            Err(CapacityError::ArithmeticOverflow)
        }
    }

    /// Checked subtraction: the difference, or `ArithmeticOverflow` when the
    /// subtrahend is the larger.
    pub fn safe_sub(self, other: Capacity) -> (r: Result<Capacity, CapacityError>)
        ensures
            other.0 <= self.0 ==> r == Ok::<Capacity, CapacityError>(
                Capacity((self.0 - other.0) as u64),
            ),
            other.0 > self.0 ==> r == Err::<Capacity, CapacityError>(
                CapacityError::ArithmeticOverflow,
            ),
    {
        if other.0 <= self.0 {
            Ok(Capacity(self.0 - other.0))
        } else {
            Err(CapacityError::ArithmeticOverflow)
        }
    }
}

} // verus!
