//! Proof parameters, validated at construction.

use vstd::prelude::*;
use crate::fri::FriOptions;
use crate::merkle::is_power_of_two;

verus! {

/// Checks at run time whether `n` is a positive power of two.
pub fn is_power_of_two_exec(n: u64) -> (r: bool)
    ensures
        r == is_power_of_two(n as int),
{
    if n == 0 {
        return false;
    }
    let mut v = n;
    while v > 1
        invariant
            v >= 1,
            is_power_of_two(n as int) == is_power_of_two(v as int),
        decreases v,
    {
        if v % 2 == 1 {
            return false;
        }
        v = v / 2;
    }
    true
}

/// The parameters of one proving run: how many spot-checks, how far the
/// trace is extended, how much grinding, and how FRI folds and stops.
///
/// The engine folds FRI in radix-two steps, each with its own committed
/// layer and fresh challenge; a folding factor of `2^k` corresponds to
/// `k` such steps, so the factor is validated and carried but the fold
/// width itself is fixed at two.
#[derive(Clone, Copy, Debug, PartialEq, Eq, Structural)]
pub struct ProofOptions {
    pub num_queries: u8,
    pub lde_blowup_factor: u8,
    pub grinding_factor: u8,
    pub fri_folding_factor: u8,
    pub fri_max_remainder_size: u8,
}

impl ProofOptions {
    pub const MIN_NUM_QUERIES: u8 = 1;

    pub const MAX_NUM_QUERIES: u8 = 128;

    pub const MIN_BLOWUP_FACTOR: u8 = 2;

    pub const MAX_BLOWUP_FACTOR: u8 = 64;

    pub const MAX_GRINDING_FACTOR: u8 = 32;

    /// The validation rule: queries in `[1, 128]`, the blowup factor a
    /// power of two in `[2, 64]`, grinding in `[0, 32]`, the folding
    /// factor a power of two, and a positive remainder bound.
    pub open spec fn valid_spec(
        num_queries: u8,
        lde_blowup_factor: u8,
        grinding_factor: u8,
        fri_folding_factor: u8,
        fri_max_remainder_size: u8,
    ) -> bool {
        &&& 1 <= num_queries <= 128
        &&& is_power_of_two(lde_blowup_factor as int)
        &&& 2 <= lde_blowup_factor <= 64
        &&& grinding_factor <= 32
        &&& is_power_of_two(fri_folding_factor as int)
        &&& fri_max_remainder_size >= 1
    }

    /// Whether this bundle satisfies the validation rule.
    pub open spec fn is_valid_spec(self) -> bool {
        Self::valid_spec(
            self.num_queries,
            self.lde_blowup_factor,
            self.grinding_factor,
            self.fri_folding_factor,
            self.fri_max_remainder_size,
        )
    }

    /// Bundles validated parameters; a caller must not pass an invalid
    /// combination (use [`ProofOptions::try_new`] to validate first).
    pub fn new(
        num_queries: u8,
        lde_blowup_factor: u8,
        grinding_factor: u8,
        fri_folding_factor: u8,
        fri_max_remainder_size: u8,
    ) -> (r: ProofOptions)
        requires
            Self::valid_spec(
                num_queries,
                lde_blowup_factor,
                grinding_factor,
                fri_folding_factor,
                fri_max_remainder_size,
            ),
        ensures
            r == (ProofOptions {
                num_queries,
                lde_blowup_factor,
                grinding_factor,
                fri_folding_factor,
                fri_max_remainder_size,
            }),
            r.is_valid_spec(),
    {
        ProofOptions {
            num_queries,
            lde_blowup_factor,
            grinding_factor,
            fri_folding_factor,
            fri_max_remainder_size,
        }
    }

    /// Validates and bundles the parameters: the result is the bundle
    /// exactly when the validation rule holds, and nothing otherwise.
    pub fn try_new(
        num_queries: u8,
        lde_blowup_factor: u8,
        grinding_factor: u8,
        fri_folding_factor: u8,
        fri_max_remainder_size: u8,
    ) -> (r: Option<ProofOptions>)
        ensures
            Self::valid_spec(
                num_queries,
                lde_blowup_factor,
                grinding_factor,
                fri_folding_factor,
                fri_max_remainder_size,
            ) <==> r == Some(
                ProofOptions {
                    num_queries,
                    lde_blowup_factor,
                    grinding_factor,
                    fri_folding_factor,
                    fri_max_remainder_size,
                },
            ),
            r is Some ==> r->0 == (ProofOptions {
                num_queries,
                lde_blowup_factor,
                grinding_factor,
                fri_folding_factor,
                fri_max_remainder_size,
            }),
    {
        if num_queries < 1 || num_queries > 128 {
            return None;
        }
        if !is_power_of_two_exec(lde_blowup_factor as u64) {
            return None;
        }
        if lde_blowup_factor < 2 || lde_blowup_factor > 64 {
            return None;
        }
        if grinding_factor > 32 {
            return None;
        }
        if !is_power_of_two_exec(fri_folding_factor as u64) {
            return None;
        }
        if fri_max_remainder_size < 1 {
            return None;
        }
        Some(
            ProofOptions {
                num_queries,
                lde_blowup_factor,
                grinding_factor,
                fri_folding_factor,
                fri_max_remainder_size,
            },
        )
    }

    /// Whether this bundle satisfies the validation rule.
    pub fn is_valid(&self) -> (r: bool)
        ensures
            r == self.is_valid_spec(),
    {
        match Self::try_new(
            self.num_queries,
            self.lde_blowup_factor,
            self.grinding_factor,
            self.fri_folding_factor,
            self.fri_max_remainder_size,
        ) {
            Some(o) => {
                proof {
                    assert(o == *self);
                }
                true
            },
            None => false,
        }
    }

    /// The low-degree-test parameters this bundle implies.
    pub fn into_fri_options(self) -> (r: FriOptions)
        ensures
            r.lde_blowup_factor == self.lde_blowup_factor as u64,
            r.folding_factor == self.fri_folding_factor as u64,
            r.max_remainder_size == self.fri_max_remainder_size as u64,
    {
        FriOptions::new(
            self.lde_blowup_factor as u64,
            self.fri_folding_factor as u64,
            self.fri_max_remainder_size as u64,
        )
    }
}

} // verus!
