//! Totally ordered finite floating-point values.
//!
//! A floating-point value is held as its IEEE-754 bit pattern: `u32` for
//! binary32, `u64` for binary64. On finite patterns the order of the encoded
//! numbers is the order of `signed_magnitude` (a pattern's magnitude bits
//! grow with the number it encodes), which is what the comparisons below
//! follow. `+0` and `-0` compare equal, as IEEE-754 has it.
use vstd::prelude::*;

verus! {

/// The sign bit of a binary32 pattern.
pub const SIGN32: u32 = 0x8000_0000;

/// The pattern of binary32 positive infinity: the smallest magnitude that is
/// not finite.
pub const INFINITY32: u32 = 0x7f80_0000;

/// The pattern of the largest finite binary32 value.
pub const MAX32: u32 = 0x7f7f_ffff;

/// The pattern of the most negative finite binary32 value.
pub const MIN32: u32 = 0xff7f_ffff;

/// The sign bit of a binary64 pattern.
pub const SIGN64: u64 = 0x8000_0000_0000_0000;

/// The pattern of binary64 positive infinity.
pub const INFINITY64: u64 = 0x7ff0_0000_0000_0000;

/// The pattern of the smallest positive normal binary64 value.
pub const MIN_POSITIVE64: u64 = 0x0010_0000_0000_0000;

/// Magnitude bits of a binary32 pattern (all but the sign).
pub open spec fn magnitude32(b: u32) -> int {
    if b >= SIGN32 {
        b - SIGN32
    } else {
        b as int
    }
}

/// A binary32 pattern encodes neither NaN nor an infinity.
pub open spec fn is_finite32(b: u32) -> bool {
    magnitude32(b) < INFINITY32
}

/// An integer that orders finite binary32 patterns as the numbers they encode.
pub open spec fn signed_magnitude32(b: u32) -> int {
    if b >= SIGN32 {
        -magnitude32(b)
    } else {
        magnitude32(b)
    }
}

/// Magnitude bits of a binary64 pattern (all but the sign).
pub open spec fn magnitude64(b: u64) -> int {
    if b >= SIGN64 {
        b - SIGN64
    } else {
        b as int
    }
}

/// A binary64 pattern encodes neither NaN nor an infinity.
pub open spec fn is_finite64(b: u64) -> bool {
    magnitude64(b) < INFINITY64
}

/// An integer that orders finite binary64 patterns as the numbers they encode.
pub open spec fn signed_magnitude64(b: u64) -> int {
    if b >= SIGN64 {
        -magnitude64(b)
    } else {
        magnitude64(b)
    }
}

/// The ordering of two integers.
pub open spec fn ordering_of(a: int, b: int) -> core::cmp::Ordering {
    if a < b {
        core::cmp::Ordering::Less
    } else if a == b {
        core::cmp::Ordering::Equal
    } else {
        core::cmp::Ordering::Greater
    }
}

/// Tells whether a binary32 pattern is finite.
pub fn bits_are_finite32(b: u32) -> (r: bool)
    ensures
        r == is_finite32(b),
{
    if b >= SIGN32 {
        b - SIGN32 < INFINITY32
    } else {
        b < INFINITY32
    }
}

/// Tells whether a binary64 pattern is finite.
pub fn bits_are_finite64(b: u64) -> (r: bool)
    ensures
        r == is_finite64(b),
{
    if b >= SIGN64 {
        b - SIGN64 < INFINITY64
    } else {
        b < INFINITY64
    }
}

/// A finite binary32 value.
#[derive(Clone, Copy, Debug)]
pub struct Finite {
    bits: u32,
}

impl Finite {
    #[verifier::type_invariant]
    spec fn finite(self) -> bool {
        is_finite32(self.bits)
    }

    /// The bit pattern held.
    pub closed spec fn spec_bits(self) -> u32 {
        self.bits
    }

    /// The number held, up to the order of finite values.
    pub open spec fn rank(self) -> int {
        signed_magnitude32(self.spec_bits())
    }

    /// Wraps a finite pattern; `None` for NaN and the infinities.
    pub fn try_value(bits: u32) -> (r: Option<Finite>)
        ensures
            r.is_some() == is_finite32(bits),
            r matches Some(f) ==> f.spec_bits() == bits,
    {
        if bits_are_finite32(bits) {
            Some(Finite { bits })
        } else {
            None
        }
    }

    /// Wraps a pattern that is known to be finite.
    pub fn value(bits: u32) -> (r: Finite)
        requires
            is_finite32(bits),
        ensures
            r.spec_bits() == bits,
    {
        Finite { bits }
    }

    /// The largest finite value: sorts after every other.
    pub fn maximum() -> (r: Finite)
        ensures
            r.spec_bits() == MAX32,
            forall|b: u32| is_finite32(b) ==> #[trigger] signed_magnitude32(b) <= r.rank(),
    {
        Finite { bits: MAX32 }
    }

    /// The most negative finite value: sorts before every other.
    pub fn minimum() -> (r: Finite)
        ensures
            r.spec_bits() == MIN32,
            forall|b: u32| is_finite32(b) ==> #[trigger] signed_magnitude32(b) >= r.rank(),
    {
        Finite { bits: MIN32 }
    }

    /// The bit pattern held.
    pub fn to_bits(&self) -> (r: u32)
        ensures
            r == self.spec_bits(),
            is_finite32(r),
    {
        proof {
            use_type_invariant(self);
        }
        self.bits
    }

    /// The same magnitude with the other sign: the key of a descending order.
    pub fn neg(self) -> (r: Finite)
        ensures
            r.rank() == -self.rank(),
            r.spec_bits() == (if self.spec_bits() >= SIGN32 {
                self.spec_bits() - SIGN32
            } else {
                self.spec_bits() + SIGN32
            }),
    {
        proof {
            use_type_invariant(self);
        }
        if self.bits >= SIGN32 {
            Finite { bits: self.bits - SIGN32 }
        } else {
            Finite { bits: self.bits + SIGN32 }
        }
    }

    /// The number held, as an integer that orders finite values.
    pub fn signed_magnitude(&self) -> (r: i64)
        ensures
            r == self.rank(),
    {
        if self.bits >= SIGN32 {
            -((self.bits - SIGN32) as i64)
        } else {
            self.bits as i64
        }
    }

    /// Total order of the numbers held.
    pub fn cmp(&self, other: &Finite) -> (r: core::cmp::Ordering)
        ensures
            r == ordering_of(self.rank(), other.rank()),
    {
        let a = self.signed_magnitude();
        let b = other.signed_magnitude();
        if a < b {
            core::cmp::Ordering::Less
        } else if a == b {
            core::cmp::Ordering::Equal
        } else {
            core::cmp::Ordering::Greater
        }
    }
}

impl PartialEq for Finite {
    fn eq(&self, other: &Finite) -> (r: bool) {
        self.signed_magnitude() == other.signed_magnitude()
    }
}

impl vstd::std_specs::cmp::PartialEqSpecImpl for Finite {
    open spec fn obeys_eq_spec() -> bool {
        true
    }

    open spec fn eq_spec(&self, other: &Finite) -> bool {
        self.rank() == other.rank()
    }
}

impl Eq for Finite {

}

impl PartialOrd for Finite {
    fn partial_cmp(&self, other: &Finite) -> (r: Option<core::cmp::Ordering>) {
        Some(self.cmp(other))
    }
}

impl vstd::std_specs::cmp::PartialOrdSpecImpl for Finite {
    open spec fn obeys_partial_cmp_spec() -> bool {
        true
    }

    open spec fn partial_cmp_spec(&self, other: &Finite) -> Option<core::cmp::Ordering> {
        Some(ordering_of(self.rank(), other.rank()))
    }
}

/// A finite binary64 value.
#[derive(Clone, Copy, Debug)]
pub struct Finite64 {
    bits: u64,
}

impl Finite64 {
    #[verifier::type_invariant]
    spec fn finite(self) -> bool {
        is_finite64(self.bits)
    }

    /// The bit pattern held.
    pub closed spec fn spec_bits(self) -> u64 {
        self.bits
    }

    /// The number held, up to the order of finite values.
    pub open spec fn rank(self) -> int {
        signed_magnitude64(self.spec_bits())
    }

    /// Wraps a finite pattern; `None` for NaN and the infinities.
    pub fn try_value(bits: u64) -> (r: Option<Finite64>)
        ensures
            r.is_some() == is_finite64(bits),
            r matches Some(f) ==> f.spec_bits() == bits,
    {
        if bits_are_finite64(bits) {
            Some(Finite64 { bits })
        } else {
            None
        }
    }

    /// Wraps a pattern that is known to be finite.
    pub fn value(bits: u64) -> (r: Finite64)
        requires
            is_finite64(bits),
        ensures
            r.spec_bits() == bits,
    {
        Finite64 { bits }
    }

    /// The bit pattern held.
    pub fn to_bits(&self) -> (r: u64)
        ensures
            r == self.spec_bits(),
            is_finite64(r),
    {
        proof {
            use_type_invariant(self);
        }
        self.bits
    }

    /// The number held, as an integer that orders finite values.
    pub fn signed_magnitude(&self) -> (r: i128)
        ensures
            r == self.rank(),
    {
        if self.bits >= SIGN64 {
            -((self.bits - SIGN64) as i128)
        } else {
            self.bits as i128
        }
    }

    /// Total order of the numbers held.
    pub fn cmp(&self, other: &Finite64) -> (r: core::cmp::Ordering)
        ensures
            r == ordering_of(self.rank(), other.rank()),
    {
        let a = self.signed_magnitude();
        let b = other.signed_magnitude();
        if a < b {
            core::cmp::Ordering::Less
        } else if a == b {
            core::cmp::Ordering::Equal
        } else {
            core::cmp::Ordering::Greater
        }
    }
}

impl PartialEq for Finite64 {
    fn eq(&self, other: &Finite64) -> (r: bool) {
        self.signed_magnitude() == other.signed_magnitude()
    }
}

impl vstd::std_specs::cmp::PartialEqSpecImpl for Finite64 {
    open spec fn obeys_eq_spec() -> bool {
        true
    }

    open spec fn eq_spec(&self, other: &Finite64) -> bool {
        self.rank() == other.rank()
    }
}

impl Eq for Finite64 {

}

impl PartialOrd for Finite64 {
    fn partial_cmp(&self, other: &Finite64) -> (r: Option<core::cmp::Ordering>) {
        Some(self.cmp(other))
    }
}

impl vstd::std_specs::cmp::PartialOrdSpecImpl for Finite64 {
    open spec fn obeys_partial_cmp_spec() -> bool {
        true
    }

    open spec fn partial_cmp_spec(&self, other: &Finite64) -> Option<core::cmp::Ordering> {
        Some(ordering_of(self.rank(), other.rank()))
    }
}

/// The order of `Finite` values is a strict total order: of `a < b`, `a == b`
/// and `b < a` exactly one holds, and `<` is transitive. `try_value` takes a
/// pattern exactly when it is finite, so it refuses NaN and both infinities.
pub proof fn lemma_finite_total_order(a: Finite, b: Finite, c: Finite)
    ensures
        (a.rank() < b.rank()) as int + (a.rank() == b.rank()) as int + (b.rank() < a.rank()) as int
            == 1,
        a.rank() < b.rank() && b.rank() < c.rank() ==> a.rank() < c.rank(),
        ordering_of(a.rank(), b.rank()) == core::cmp::Ordering::Less <==> a.rank() < b.rank(),
        ordering_of(a.rank(), b.rank()) == core::cmp::Ordering::Equal <==> a.rank() == b.rank(),
        ordering_of(a.rank(), b.rank()) == core::cmp::Ordering::Greater <==> b.rank() < a.rank(),
        !is_finite32(INFINITY32),
        !is_finite32(0xff80_0000u32),
        !is_finite32(0x7fc0_0000u32),
        forall|nan: u32| magnitude32(nan) > INFINITY32 ==> !is_finite32(nan),
{
}

} // verus!
