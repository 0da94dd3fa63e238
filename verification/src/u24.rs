//! A 24-bit unsigned integer stored as three little-endian bytes.
//!
//! Credits vectors hold one `U24` per normalized wire id; the packed
//! representation keeps the dense vector at three bytes per wire.

use vstd::prelude::*;

verus! {

/// Largest value representable in 24 bits.
pub const U24_MAX: u32 = 0xFFFFFF;

/// A 24-bit unsigned integer; bytes are ordered `[LSB, middle, MSB]`.
#[derive(Clone, Copy, Debug)]
pub struct U24(pub [u8; 3]);

impl PartialEq for U24 {
    fn eq(&self, other: &U24) -> (r: bool) {
        self.0[0] == other.0[0] && self.0[1] == other.0[1] && self.0[2] == other.0[2]
    }
}

impl Eq for U24 {

}

impl vstd::std_specs::cmp::PartialEqSpecImpl for U24 {
    open spec fn obeys_eq_spec() -> bool {
        true
    }

    open spec fn eq_spec(&self, other: &U24) -> bool {
        self.0[0] == other.0[0] && self.0[1] == other.0[1] && self.0[2] == other.0[2]
    }
}

impl U24 {
    /// The numeric value the three bytes denote.
    pub open spec fn value(self) -> u32 {
        (self.0[0] + self.0[1] * 0x100 + self.0[2] * 0x10000) as u32
    }

    pub fn new(bytes: [u8; 3]) -> (r: Self)
        ensures
            r.0 == bytes,
    {
        Self(bytes)
    }

    pub fn to_bytes(self) -> (r: [u8; 3])
        ensures
            r == self.0,
    {
        self.0
    }

    /// Reassemble the little-endian bytes into a `u32`.
    pub fn to_u32(self) -> (r: u32)
        ensures
            r == self.value(),
            r <= U24_MAX,
    {
        self.0[0] as u32 + (self.0[1] as u32) * 0x100 + (self.0[2] as u32) * 0x10000
    }

    /// Keep the low 24 bits of `value` as little-endian bytes.
    pub fn from_u32(value: u32) -> (r: Self)
        ensures
            r.value() == value % 0x1000000,
    {
        proof {
            assert(value & 0xFF < 256 && (value >> 8) & 0xFF < 256 && (value >> 16) & 0xFF
                < 256) by (bit_vector);
        }
        let b0 = (value & 0xFF) as u8;
        let b1 = ((value >> 8) & 0xFF) as u8;
        let b2 = ((value >> 16) & 0xFF) as u8;
        proof {
            assert((value & 0xFF) + ((value >> 8) & 0xFF) * 0x100 + ((value >> 16) & 0xFF)
                * 0x10000 == value % 0x1000000) by (bit_vector);
        }
        Self([b0, b1, b2])
    }

    pub fn checked_add(self, rhs: U24) -> (r: Option<U24>)
        ensures
            self.value() + rhs.value() <= U24_MAX ==> (r matches Some(s) && s.value()
                == self.value() + rhs.value()),
            self.value() + rhs.value() > U24_MAX ==> r is None,
    {
        let result = self.to_u32() + rhs.to_u32();
        if result > U24_MAX {
            None
        } else {
            Some(Self::from_u32(result))
        }
    }

    pub fn checked_sub(self, rhs: U24) -> (r: Option<U24>)
        ensures
            self.value() >= rhs.value() ==> (r matches Some(s) && s.value() == self.value()
                - rhs.value()),
            self.value() < rhs.value() ==> r is None,
    {
        if self.to_u32() >= rhs.to_u32() {
            Some(Self::from_u32(self.to_u32() - rhs.to_u32()))
        } else {
            None
        }
    }

    pub fn checked_mul(self, rhs: U24) -> (r: Option<U24>)
        ensures
            self.value() * rhs.value() <= U24_MAX ==> (r matches Some(s) && s.value()
                == self.value() * rhs.value()),
            self.value() * rhs.value() > U24_MAX ==> r is None,
    {
        let a = self.to_u32();
        let b = rhs.to_u32();
        proof {
            assert(a as u64 * b as u64 <= 0xFFFFFFu64 * 0xFFFFFFu64) by (nonlinear_arith)
                requires
                    a <= 0xFFFFFF,
                    b <= 0xFFFFFF,
            ;
        }
        let result = (a as u64) * (b as u64);
        if result > U24_MAX as u64 {
            None
        } else {
            Some(Self::from_u32(result as u32))
        }
    }

    pub fn checked_div(self, rhs: U24) -> (r: Option<U24>)
        ensures
            rhs.value() != 0 ==> (r matches Some(s) && s.value() == self.value() / rhs.value()),
            rhs.value() == 0 ==> r is None,
    {
        if rhs.to_u32() == 0 {
            None
        } else {
            Some(Self::from_u32(self.to_u32() / rhs.to_u32()))
        }
    }

    pub fn checked_rem(self, rhs: U24) -> (r: Option<U24>)
        ensures
            rhs.value() != 0 ==> (r matches Some(s) && s.value() == self.value() % rhs.value()),
            rhs.value() == 0 ==> r is None,
    {
        if rhs.to_u32() == 0 {
            None
        } else {
            Some(Self::from_u32(self.to_u32() % rhs.to_u32()))
        }
    }
}

} // verus!
