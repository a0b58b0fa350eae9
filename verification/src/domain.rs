//! Power-of-two evaluation domains: a multiplicative subgroup generated by
//! a root of unity, optionally shifted by a nonzero coset offset.

use vstd::prelude::*;
use crate::field::{Felt, p, fmul, fpow, finv, TWO_ADIC_ROOT_OF_UNITY};
use crate::merkle::is_power_of_two;

verus! {

/// An evaluation domain of power-of-two size. The generator is the
/// two-adic root of unity raised to `2^32 / size`, so it generates the
/// multiplicative subgroup of order `size`; the offset shifts the whole
/// subgroup onto a coset.
pub struct EvaluationDomain {
    size: u64,
    generator: Felt,
    offset: Felt,
}

/// The subgroup generator for a domain of `size` points: the two-adic
/// root of unity raised to `2^32 / size`.
pub open spec fn domain_generator(size: u64) -> int {
    fpow(TWO_ADIC_ROOT_OF_UNITY as int, (0x1_0000_0000int / size as int) as nat)
}

impl EvaluationDomain {
    /// The number of points.
    pub closed spec fn size_spec(self) -> u64 {
        self.size
    }

    /// The subgroup generator's canonical representative.
    pub closed spec fn generator_spec(self) -> int {
        self.generator.val()
    }

    /// The coset offset's canonical representative.
    pub closed spec fn offset_spec(self) -> int {
        self.offset.val()
    }

    /// A well-formed domain: power-of-two size of at most `2^32`, the
    /// matching subgroup generator, and a nonzero offset.
    pub closed spec fn wf(self) -> bool {
        &&& is_power_of_two(self.size as int)
        &&& self.size <= 0x1_0000_0000
        &&& self.generator.val() == domain_generator(self.size)
        &&& self.offset.val() != 0
    }

    /// The `i`-th point: `offset * generator^i`.
    pub open spec fn element_spec(self, i: nat) -> int {
        fmul(self.offset_spec(), fpow(self.generator_spec(), i))
    }

    /// Builds the domain of `size` points shifted by `offset`.
    pub fn new(size: u64, offset: Felt) -> (r: EvaluationDomain)
        requires
            is_power_of_two(size as int),
            size <= 0x1_0000_0000,
            offset.val() != 0,
        ensures
            r.wf(),
            r.size_spec() == size,
            r.offset_spec() == offset.val(),
            r.generator_spec() == domain_generator(size),
            is_power_of_two(r.size_spec() as int),
    {
        let root = Felt::new(TWO_ADIC_ROOT_OF_UNITY);
        proof {
            vstd::arithmetic::div_mod::lemma_small_mod(
                TWO_ADIC_ROOT_OF_UNITY as nat,
                p() as nat,
            );
        }
        let exponent = 0x1_0000_0000u64 / size;
        let generator = root.pow(exponent);
        EvaluationDomain { size, generator, offset }
    }

    /// The domain over the plain subgroup (offset one).
    pub fn new_subgroup(size: u64) -> (r: EvaluationDomain)
        requires
            is_power_of_two(size as int),
            size <= 0x1_0000_0000,
        ensures
            r.wf(),
            r.size_spec() == size,
            r.offset_spec() == 1,
            r.generator_spec() == domain_generator(size),
            is_power_of_two(r.size_spec() as int),
    {
        EvaluationDomain::new(size, Felt::one())
    }

    /// The number of points.
    pub fn size(&self) -> (r: u64)
        ensures
            r == self.size_spec(),
    {
        self.size
    }

    /// The subgroup generator.
    pub fn generator(&self) -> (r: Felt)
        ensures
            r.val() == self.generator_spec(),
            0 <= r.val() < p(),
    {
        proof {
            use_type_invariant(self.generator);
            self.generator.lemma_canonical();
        }
        self.generator
    }

    /// The coset offset.
    pub fn offset(&self) -> (r: Felt)
        ensures
            r.val() == self.offset_spec(),
            0 <= r.val() < p(),
    {
        proof {
            use_type_invariant(self.offset);
            self.offset.lemma_canonical();
        }
        self.offset
    }

    /// The `i`-th point of the domain.
    pub fn element(&self, i: u64) -> (r: Felt)
        ensures
            r.val() == self.element_spec(i as nat),
    {
        self.offset.mul(self.generator.pow(i))
    }

    /// The domain after one radix-two fold: half the size, the generator
    /// and the offset both squared.
    pub fn fold(&self) -> (r: EvaluationDomain)
        requires
            self.size_spec() >= 2,
        ensures
            r.size_spec() == self.size_spec() / 2,
            r.generator_spec() == fmul(self.generator_spec(), self.generator_spec()),
            r.offset_spec() == fmul(self.offset_spec(), self.offset_spec()),
    {
        EvaluationDomain {
            size: self.size / 2,
            generator: self.generator.mul(self.generator),
            offset: self.offset.mul(self.offset),
        }
    }
}

} // verus!
