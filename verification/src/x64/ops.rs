//! Arithmetic on addresses, and stepping through them. Each result is
//! brought back to the normal form of its address space: canonical for a
//! virtual address, 52 bits for a physical one.
use vstd::prelude::*;
use crate::x64::{canonical, lemma_small_addresses, physical, PAddr, VAddr};

verus! {

/// The sum of two addresses, in normal form.
impl core::ops::Add for VAddr {
    type Output = VAddr;

    fn add(self, rhs: VAddr) -> (r: VAddr) {
        VAddr::new(self.as_u64() + rhs.as_u64())
    }
}

impl vstd::std_specs::ops::AddSpecImpl for VAddr {
    open spec fn obeys_add_spec() -> bool {
        true
    }

    open spec fn add_req(self, rhs: VAddr) -> bool {
        self.value() + rhs.value() <= u64::MAX
    }

    open spec fn add_spec(self, rhs: VAddr) -> VAddr {
        VAddr::at(canonical((self.value() + rhs.value()) as u64))
    }
}

/// The difference of two addresses, in normal form.
impl core::ops::Sub for VAddr {
    type Output = VAddr;

    fn sub(self, rhs: VAddr) -> (r: VAddr) {
        VAddr::new(self.as_u64() - rhs.as_u64())
    }
}

impl vstd::std_specs::ops::SubSpecImpl for VAddr {
    open spec fn obeys_sub_spec() -> bool {
        true
    }

    open spec fn sub_req(self, rhs: VAddr) -> bool {
        self.value() >= rhs.value()
    }

    open spec fn sub_spec(self, rhs: VAddr) -> VAddr {
        VAddr::at(canonical((self.value() - rhs.value()) as u64))
    }
}

/// The product of two addresses, in normal form.
impl core::ops::Mul for VAddr {
    type Output = VAddr;

    fn mul(self, rhs: VAddr) -> (r: VAddr) {
        VAddr::new(self.as_u64() * rhs.as_u64())
    }
}

impl vstd::std_specs::ops::MulSpecImpl for VAddr {
    open spec fn obeys_mul_spec() -> bool {
        true
    }

    open spec fn mul_req(self, rhs: VAddr) -> bool {
        self.value() * rhs.value() <= u64::MAX
    }

    open spec fn mul_spec(self, rhs: VAddr) -> VAddr {
        VAddr::at(canonical((self.value() * rhs.value()) as u64))
    }
}

/// The quotient of two addresses, in normal form.
impl core::ops::Div for VAddr {
    type Output = VAddr;

    fn div(self, rhs: VAddr) -> (r: VAddr) {
        VAddr::new(self.as_u64() / rhs.as_u64())
    }
}

impl vstd::std_specs::ops::DivSpecImpl for VAddr {
    open spec fn obeys_div_spec() -> bool {
        true
    }

    open spec fn div_req(self, rhs: VAddr) -> bool {
        rhs.value() != 0
    }

    open spec fn div_spec(self, rhs: VAddr) -> VAddr {
        VAddr::at(canonical(self.value() / rhs.value()))
    }
}

/// The remainder of two addresses, in normal form.
impl core::ops::Rem for VAddr {
    type Output = VAddr;

    fn rem(self, rhs: VAddr) -> (r: VAddr) {
        VAddr::new(self.as_u64() % rhs.as_u64())
    }
}

impl vstd::std_specs::ops::RemSpecImpl for VAddr {
    open spec fn obeys_rem_spec() -> bool {
        true
    }

    open spec fn rem_req(self, rhs: VAddr) -> bool {
        rhs.value() != 0
    }

    open spec fn rem_spec(self, rhs: VAddr) -> VAddr {
        VAddr::at(canonical(self.value() % rhs.value()))
    }
}

/// The bits that two addresses share, in normal form.
impl core::ops::BitAnd for VAddr {
    type Output = VAddr;

    fn bitand(self, rhs: VAddr) -> (r: VAddr) {
        VAddr::new(self.as_u64() & rhs.as_u64())
    }
}

impl vstd::std_specs::ops::BitAndSpecImpl for VAddr {
    open spec fn obeys_bitand_spec() -> bool {
        true
    }

    open spec fn bitand_req(self, rhs: VAddr) -> bool {
        true
    }

    open spec fn bitand_spec(self, rhs: VAddr) -> VAddr {
        VAddr::at(canonical(self.value() & rhs.value()))
    }
}

/// The address with every bit turned, in normal form.
impl core::ops::Not for VAddr {
    type Output = VAddr;

    fn not(self) -> (r: VAddr) {
        VAddr::new(!self.as_u64())
    }
}

impl vstd::std_specs::ops::NotSpecImpl for VAddr {
    open spec fn obeys_not_spec() -> bool {
        true
    }

    open spec fn not_req(self) -> bool {
        true
    }

    open spec fn not_spec(self) -> VAddr {
        VAddr::at(canonical(!self.value()))
    }
}

impl From<usize> for VAddr {
    fn from(addr: usize) -> (a: Self) {
        Self::new(addr as u64)
    }
}

impl vstd::std_specs::convert::FromSpecImpl<usize> for VAddr {
    open spec fn obeys_from_spec() -> bool {
        true
    }

    open spec fn from_spec(addr: usize) -> Self {
        VAddr::at(canonical(addr as u64))
    }
}

/// The sum of two addresses, in normal form.
impl core::ops::Add for PAddr {
    type Output = PAddr;

    fn add(self, rhs: PAddr) -> (r: PAddr) {
        PAddr::new(self.as_u64() + rhs.as_u64())
    }
}

impl vstd::std_specs::ops::AddSpecImpl for PAddr {
    open spec fn obeys_add_spec() -> bool {
        true
    }

    open spec fn add_req(self, rhs: PAddr) -> bool {
        self.value() + rhs.value() <= u64::MAX
    }

    open spec fn add_spec(self, rhs: PAddr) -> PAddr {
        PAddr::at(physical((self.value() + rhs.value()) as u64))
    }
}

/// The difference of two addresses, in normal form.
impl core::ops::Sub for PAddr {
    type Output = PAddr;

    fn sub(self, rhs: PAddr) -> (r: PAddr) {
        PAddr::new(self.as_u64() - rhs.as_u64())
    }
}

impl vstd::std_specs::ops::SubSpecImpl for PAddr {
    open spec fn obeys_sub_spec() -> bool {
        true
    }

    open spec fn sub_req(self, rhs: PAddr) -> bool {
        self.value() >= rhs.value()
    }

    open spec fn sub_spec(self, rhs: PAddr) -> PAddr {
        PAddr::at(physical((self.value() - rhs.value()) as u64))
    }
}

/// The product of two addresses, in normal form.
impl core::ops::Mul for PAddr {
    type Output = PAddr;

    fn mul(self, rhs: PAddr) -> (r: PAddr) {
        PAddr::new(self.as_u64() * rhs.as_u64())
    }
}

impl vstd::std_specs::ops::MulSpecImpl for PAddr {
    open spec fn obeys_mul_spec() -> bool {
        true
    }

    open spec fn mul_req(self, rhs: PAddr) -> bool {
        self.value() * rhs.value() <= u64::MAX
    }

    open spec fn mul_spec(self, rhs: PAddr) -> PAddr {
        PAddr::at(physical((self.value() * rhs.value()) as u64))
    }
}

/// The quotient of two addresses, in normal form.
impl core::ops::Div for PAddr {
    type Output = PAddr;

    fn div(self, rhs: PAddr) -> (r: PAddr) {
        PAddr::new(self.as_u64() / rhs.as_u64())
    }
}

impl vstd::std_specs::ops::DivSpecImpl for PAddr {
    open spec fn obeys_div_spec() -> bool {
        true
    }

    open spec fn div_req(self, rhs: PAddr) -> bool {
        rhs.value() != 0
    }

    open spec fn div_spec(self, rhs: PAddr) -> PAddr {
        PAddr::at(physical(self.value() / rhs.value()))
    }
}

/// The remainder of two addresses, in normal form.
impl core::ops::Rem for PAddr {
    type Output = PAddr;

    fn rem(self, rhs: PAddr) -> (r: PAddr) {
        PAddr::new(self.as_u64() % rhs.as_u64())
    }
}

impl vstd::std_specs::ops::RemSpecImpl for PAddr {
    open spec fn obeys_rem_spec() -> bool {
        true
    }

    open spec fn rem_req(self, rhs: PAddr) -> bool {
        rhs.value() != 0
    }

    open spec fn rem_spec(self, rhs: PAddr) -> PAddr {
        PAddr::at(physical(self.value() % rhs.value()))
    }
}

/// The bits that two addresses share, in normal form.
impl core::ops::BitAnd for PAddr {
    type Output = PAddr;

    fn bitand(self, rhs: PAddr) -> (r: PAddr) {
        PAddr::new(self.as_u64() & rhs.as_u64())
    }
}

impl vstd::std_specs::ops::BitAndSpecImpl for PAddr {
    open spec fn obeys_bitand_spec() -> bool {
        true
    }

    open spec fn bitand_req(self, rhs: PAddr) -> bool {
        true
    }

    open spec fn bitand_spec(self, rhs: PAddr) -> PAddr {
        PAddr::at(physical(self.value() & rhs.value()))
    }
}

/// The address with every bit turned, in normal form.
impl core::ops::Not for PAddr {
    type Output = PAddr;

    fn not(self) -> (r: PAddr) {
        PAddr::new(!self.as_u64())
    }
}

impl vstd::std_specs::ops::NotSpecImpl for PAddr {
    open spec fn obeys_not_spec() -> bool {
        true
    }

    open spec fn not_req(self) -> bool {
        true
    }

    open spec fn not_spec(self) -> PAddr {
        PAddr::at(physical(!self.value()))
    }
}

impl From<usize> for PAddr {
    fn from(addr: usize) -> (a: Self) {
        Self::new(addr as u64)
    }
}

impl vstd::std_specs::convert::FromSpecImpl<usize> for PAddr {
    open spec fn obeys_from_spec() -> bool {
        true
    }

    open spec fn from_spec(addr: usize) -> Self {
        PAddr::at(physical(addr as u64))
    }
}

impl VAddr {
    /// The next address.
    pub fn add_one(&self) -> (r: Self)
        requires
            self.value() < u64::MAX,
        ensures
            r.value() == canonical((self.value() + 1) as u64),
    {
        Self::new(self.as_u64() + 1)
    }

    /// The address before this one.
    pub fn sub_one(&self) -> (r: Self)
        requires
            self.value() > 0,
        ensures
            r.value() == canonical((self.value() - 1) as u64),
    {
        Self::new(self.as_u64() - 1)
    }

    /// The address `n` bytes on.
    pub fn add_usize(&self, n: usize) -> (r: Option<Self>)
        requires
            self.value() + n <= u64::MAX,
        ensures
            r matches Some(a) && a.value() == canonical((self.value() + n) as u64),
    {
        Some(Self::new(self.as_u64() + n as u64))
    }

    /// Replaces this address with `1`, returning itself
    pub fn replace_one(&mut self) -> (r: Self)
        ensures
            final(self).value() == 1,
            r == *final(self),
    {
        proof {
            lemma_small_addresses();
        }
        *self = Self::new(1);
        *self
    }

    /// Replaces this address with `0`, returning itself
    pub fn replace_zero(&mut self) -> (r: Self)
        ensures
            final(self).value() == 0,
            r == *final(self),
    {
        proof {
            lemma_small_addresses();
        }
        *self = Self::new(0);
        *self
    }
}

impl PAddr {
    /// The next address.
    pub fn add_one(&self) -> (r: Self)
        requires
            self.value() < u64::MAX,
        ensures
            r.value() == physical((self.value() + 1) as u64),
    {
        Self::new(self.as_u64() + 1)
    }

    /// The address before this one.
    pub fn sub_one(&self) -> (r: Self)
        requires
            self.value() > 0,
        ensures
            r.value() == physical((self.value() - 1) as u64),
    {
        Self::new(self.as_u64() - 1)
    }

    /// The address `n` bytes on.
    pub fn add_usize(&self, n: usize) -> (r: Option<Self>)
        requires
            self.value() + n <= u64::MAX,
        ensures
            r matches Some(a) && a.value() == physical((self.value() + n) as u64),
    {
        Some(Self::new(self.as_u64() + n as u64))
    }

    /// Replaces this address with `1`, returning itself
    pub fn replace_one(&mut self) -> (r: Self)
        ensures
            final(self).value() == 1,
            r == *final(self),
    {
        proof {
            lemma_small_addresses();
        }
        *self = Self::new(1);
        *self
    }

    /// Replaces this address with `0`, returning itself
    pub fn replace_zero(&mut self) -> (r: Self)
        ensures
            final(self).value() == 0,
            r == *final(self),
    {
        proof {
            lemma_small_addresses();
        }
        *self = Self::new(0);
        *self
    }
}

} // verus!
