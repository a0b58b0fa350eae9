//! Prime-field arithmetic for the proving engine.
//!
//! Every protocol component works over this base field. The modulus
//! `2^64 - 2^32 + 1` has a multiplicative group of order `2^32 * (2^32 - 1)`,
//! so it contains a subgroup of every power-of-two order up to `2^32`; that
//! is what makes power-of-two evaluation domains available.

use vstd::prelude::*;

verus! {

/// The field modulus `2^64 - 2^32 + 1`.
pub const FIELD_MODULUS: u64 = 18446744069414584321;

/// A generator of the subgroup of order `2^32`.
pub const TWO_ADIC_ROOT_OF_UNITY: u64 = 1753635133440165772;

/// The two-adicity of the multiplicative group: `2^32` divides its order.
pub const TWO_ADICITY: u64 = 32;

/// A generator of the whole multiplicative group, used as the default
/// coset offset for low-degree-extension domains.
pub const GROUP_GENERATOR: u64 = 7;

/// The modulus as a mathematical integer.
pub open spec fn p() -> int {
    18446744069414584321
}

/// Field addition on canonical representatives.
pub open spec fn fadd(a: int, b: int) -> int {
    (a + b) % p()
}

/// Field subtraction on canonical representatives.
pub open spec fn fsub(a: int, b: int) -> int {
    (a - b) % p()
}

/// Field multiplication on canonical representatives.
pub open spec fn fmul(a: int, b: int) -> int {
    (a * b) % p()
}

/// Field negation on canonical representatives.
pub open spec fn fneg(a: int) -> int {
    (p() - a) % p()
}

/// Field exponentiation by repeated multiplication.
pub open spec fn fpow(b: int, e: nat) -> int
    decreases e,
{
    if e == 0 {
        1int
    } else {
        fmul(b, fpow(b, (e - 1) as nat))
    }
}

/// The multiplicative inverse of nonzero elements, by Fermat's little
/// theorem; maps zero to zero.
pub open spec fn finv(a: int) -> int {
    fpow(a, (p() - 2) as nat)
}

/// An element of the prime field, kept as its canonical representative.
#[derive(Clone, Copy, PartialEq, Eq, Structural, Debug)]
pub struct Felt {
    value: u64,
}

impl Felt {
    /// Every constructed field element is canonical: its representative
    /// lies below the modulus.
    #[verifier::type_invariant]
    pub closed spec fn type_inv(self) -> bool {
        self.value < FIELD_MODULUS
    }

    /// The canonical representative as a mathematical integer.
    pub closed spec fn val(self) -> int {
        self.value as int
    }

    /// A constructed field element holds its canonical representative.
    pub proof fn lemma_canonical(self)
        requires
            self.type_inv(),
        ensures
            0 <= self.val() < p(),
    {
    }

    /// Two field elements are equal exactly when their representatives are.
    pub proof fn lemma_eq_val(a: Felt, b: Felt)
        ensures
            (a == b) <==> (a.val() == b.val()),
    {
    }

    /// Builds the field element congruent to `value`.
    pub fn new(value: u64) -> (r: Felt)
        ensures
            r.val() == value as int % p(),
    {
        let v: u64 = if value >= FIELD_MODULUS {
            value - FIELD_MODULUS
        } else {
            value
        };
        proof {
            if value >= FIELD_MODULUS {
                vstd::arithmetic::div_mod::lemma_mod_sub_multiples_vanish(value as int, p());
                vstd::arithmetic::div_mod::lemma_small_mod((value - FIELD_MODULUS) as nat, p() as nat);
            } else {
                vstd::arithmetic::div_mod::lemma_small_mod(value as nat, p() as nat);
            }
        }
        Felt { value: v }
    }

    /// The additive identity.
    pub fn zero() -> (r: Felt)
        ensures
            r.val() == 0,
    {
        Felt { value: 0 }
    }

    /// The multiplicative identity.
    pub fn one() -> (r: Felt)
        ensures
            r.val() == 1,
    {
        Felt { value: 1 }
    }

    /// The canonical representative, for callers that serialize elements.
    pub fn as_u64(self) -> (r: u64)
        ensures
            r as int == self.val(),
            r < FIELD_MODULUS,
    {
        proof {
            use_type_invariant(self);
        }
        self.value
    }

    /// Whether this is the additive identity.
    pub fn is_zero(self) -> (r: bool)
        ensures
            r <==> self.val() == 0,
    {
        self.value == 0
    }

    /// Field addition.
    pub fn add(self, rhs: Felt) -> (r: Felt)
        ensures
            r.val() == fadd(self.val(), rhs.val()),
    {
        proof {
            use_type_invariant(self);
            use_type_invariant(rhs);
        }
        let s: u128 = self.value as u128 + rhs.value as u128;
        let v: u64 = if s >= FIELD_MODULUS as u128 {
            (s - FIELD_MODULUS as u128) as u64
        } else {
            s as u64
        };
        proof {
            if s >= FIELD_MODULUS as u128 {
                vstd::arithmetic::div_mod::lemma_mod_sub_multiples_vanish(s as int, p());
                vstd::arithmetic::div_mod::lemma_small_mod((s - FIELD_MODULUS as u128) as nat, p() as nat);
            } else {
                vstd::arithmetic::div_mod::lemma_small_mod(s as nat, p() as nat);
            }
        }
        Felt { value: v }
    }

    /// Field subtraction.
    pub fn sub(self, rhs: Felt) -> (r: Felt)
        ensures
            r.val() == fsub(self.val(), rhs.val()),
    {
        proof {
            use_type_invariant(self);
            use_type_invariant(rhs);
        }
        let v: u64 = if self.value >= rhs.value {
            self.value - rhs.value
        } else {
            ((self.value as u128 + FIELD_MODULUS as u128) - rhs.value as u128) as u64
        };
        proof {
            if self.value >= rhs.value {
                vstd::arithmetic::div_mod::lemma_small_mod((self.value - rhs.value) as nat, p() as nat);
            } else {
                vstd::arithmetic::div_mod::lemma_mod_add_multiples_vanish(
                    self.value as int - rhs.value as int,
                    p(),
                );
                vstd::arithmetic::div_mod::lemma_small_mod(
                    (self.value as int + p() - rhs.value as int) as nat,
                    p() as nat,
                );
            }
        }
        Felt { value: v }
    }

    /// Field negation.
    pub fn neg(self) -> (r: Felt)
        ensures
            r.val() == fneg(self.val()),
    {
        proof {
            use_type_invariant(self);
        }
        let v: u64 = if self.value == 0 {
            0
        } else {
            FIELD_MODULUS - self.value
        };
        proof {
            if self.value == 0 {
                vstd::arithmetic::div_mod::lemma_mod_self_0(p());
            } else {
                vstd::arithmetic::div_mod::lemma_small_mod((FIELD_MODULUS - self.value) as nat, p() as nat);
            }
        }
        Felt { value: v }
    }

    /// Field multiplication.
    pub fn mul(self, rhs: Felt) -> (r: Felt)
        ensures
            r.val() == fmul(self.val(), rhs.val()),
    {
        proof {
            use_type_invariant(self);
            use_type_invariant(rhs);
            assert((self.value as int) * (rhs.value as int) < u128::MAX) by {
                if self.value > 0 && rhs.value > 0 {
                    vstd::arithmetic::mul::lemma_mul_strict_upper_bound(
                        self.value as int,
                        0x1_0000_0000_0000_0000,
                        rhs.value as int,
                        0x1_0000_0000_0000_0000,
                    );
                } else {
                    vstd::arithmetic::mul::lemma_mul_basics(self.value as int);
                    vstd::arithmetic::mul::lemma_mul_basics(rhs.value as int);
                    vstd::arithmetic::mul::lemma_mul_is_commutative(self.value as int, rhs.value as int);
                }
            }
        }
        let prod: u128 = (self.value as u128) * (rhs.value as u128);
        let v: u128 = prod % (FIELD_MODULUS as u128);
        proof {
            vstd::arithmetic::div_mod::lemma_mod_bound(prod as int, p());
        }
        Felt { value: v as u64 }
    }

    /// Field exponentiation by square and multiply.
    pub fn pow(self, exp: u64) -> (r: Felt)
        ensures
            r.val() == fpow(self.val(), exp as nat),
    {
        proof {
            use_type_invariant(self);
        }
        let mut acc = Felt { value: 1 };
        let mut base = self;
        let mut e = exp;
        proof {
            lemma_fpow_zero(self.val());
        }
        while e > 0
            invariant
                fmul(acc.val(), fpow(base.val(), e as nat)) == fpow(self.val(), exp as nat),
            decreases e,
        {
            proof {
                use_type_invariant(acc);
                use_type_invariant(base);
            }
            let ghost acc0 = acc.val();
            let ghost base0 = base.val();
            let ghost e0 = e as nat;
            if e % 2 == 1 {
                acc = acc.mul(base);
            }
            base = base.mul(base);
            e = e / 2;
            proof {
                lemma_pow_step(self.val(), exp as nat, acc0, base0, e0);
            }
        }
        proof {
            use_type_invariant(acc);
            // fmul(acc, fpow(base, 0)) == acc % p == acc
            vstd::arithmetic::div_mod::lemma_small_mod(acc.value as nat, p() as nat);
        }
        acc
    }

    /// The multiplicative inverse (zero maps to zero).
    pub fn inv(self) -> (r: Felt)
        ensures
            r.val() == finv(self.val()),
    {
        self.pow(FIELD_MODULUS - 2)
    }
}

/// Exponentiation by zero yields the multiplicative identity.
pub proof fn lemma_fpow_zero(b: int)
    ensures
        fpow(b, 0) == 1,
{
}

/// Advancing an exponent by one multiplies by the base once more.
pub proof fn lemma_fpow_step(x: int, j: nat)
    ensures
        fpow(x, j + 1) == fmul(fpow(x, j), x),
{
    lemma_fmul_comm(x, fpow(x, j));
}

/// Multiplying by one only reduces the operand modulo `p`.
pub proof fn lemma_fmul_one(a: int)
    ensures
        fmul(a, 1) == a % p(),
        fmul(1, a) == a % p(),
{
    vstd::arithmetic::mul::lemma_mul_basics(a);
}

/// Reducing either factor modulo `p` leaves a field product unchanged.
pub proof fn lemma_fmul_noop(a: int, b: int)
    ensures
        fmul(a % p(), b) == fmul(a, b),
        fmul(a, b % p()) == fmul(a, b),
{
    vstd::arithmetic::div_mod::lemma_mul_mod_noop_left(a, b, p());
    vstd::arithmetic::div_mod::lemma_mul_mod_noop_right(a, b, p());
}

/// Field multiplication is associative.
pub proof fn lemma_fmul_assoc(a: int, b: int, c: int)
    ensures
        fmul(fmul(a, b), c) == fmul(a, fmul(b, c)),
{
    lemma_fmul_noop(a * b, c);
    lemma_fmul_noop(b * c, a);
    assert((a * b) * c == a * (b * c)) by {
        vstd::arithmetic::mul::lemma_mul_is_associative(a, b, c);
    }
    assert(fmul(a, b * c) == (a * (b * c)) % p()) by {
        vstd::arithmetic::mul::lemma_mul_is_commutative(a, b * c);
        lemma_fmul_noop(a, b * c);
    }
}

/// Field multiplication is commutative.
pub proof fn lemma_fmul_comm(a: int, b: int)
    ensures
        fmul(a, b) == fmul(b, a),
{
    vstd::arithmetic::mul::lemma_mul_is_commutative(a, b);
}

/// Splitting an exponent sum splits the power into a product.
pub proof fn lemma_fpow_adds(b: int, e1: nat, e2: nat)
    ensures
        fpow(b, e1 + e2) == fmul(fpow(b, e1), fpow(b, e2)),
    decreases e1,
{
    if e1 == 0 {
        lemma_fmul_noop(1, fpow(b, e2));
        vstd::arithmetic::div_mod::lemma_mod_bound(b * fpow(b, (e2 - 1) as int as nat), p());
        if e2 == 0 {
            assert(fmul(1int, 1int) == 1int % p()) by {
                vstd::arithmetic::div_mod::lemma_small_mod(1nat, p() as nat);
            }
        } else {
            // fpow(b, e2) is already reduced
            assert(fpow(b, e2) % p() == fpow(b, e2)) by {
                vstd::arithmetic::div_mod::lemma_mod_mod(b * fpow(b, (e2 - 1) as nat), 1, p());
                vstd::arithmetic::div_mod::lemma_mod_twice(b * fpow(b, (e2 - 1) as nat), p());
            }
            assert(fmul(1int, fpow(b, e2)) == fpow(b, e2) % p()) by {
                vstd::arithmetic::mul::lemma_mul_basics(fpow(b, e2));
            }
        }
    } else {
        lemma_fpow_adds(b, (e1 - 1) as nat, e2);
        // fpow(b, e1 + e2) == fmul(b, fpow(b, e1 + e2 - 1))
        //                  == fmul(b, fmul(fpow(b, e1 - 1), fpow(b, e2)))
        //                  == fmul(fmul(b, fpow(b, e1 - 1)), fpow(b, e2))
        lemma_fmul_assoc(b, fpow(b, (e1 - 1) as nat), fpow(b, e2));
    }
}

/// Squaring the base halves the (even) exponent.
pub proof fn lemma_fpow_even(b: int, k: nat)
    ensures
        fpow(b, 2 * k) == fpow(fmul(b, b), k),
    decreases k,
{
    if k == 0 {
    } else {
        lemma_fpow_even(b, (k - 1) as nat);
        lemma_fpow_adds(b, 1, (2 * k - 1) as nat);
        lemma_fpow_adds(b, 1, (2 * k - 2) as nat);
        // fpow(b, 2k) = fmul(b, fpow(b, 2k - 1)) = fmul(b, fmul(b, fpow(b, 2k - 2)))
        assert(fpow(b, 2 * k) == fmul(b, fmul(b, fpow(b, (2 * (k - 1)) as nat))));
        lemma_fmul_assoc(b, b, fpow(b, (2 * (k - 1)) as nat));
        // = fmul(fmul(b, b), fpow(b, 2(k-1))) = fmul(fmul(b,b), fpow(fmul(b,b), k-1))
        assert(fpow(fmul(b, b), k) == fmul(fmul(b, b), fpow(fmul(b, b), (k - 1) as nat)));
        lemma_fmul_noop(b * b, fpow(fmul(b, b), (k - 1) as nat));
    }
}

/// One square-and-multiply step preserves the running-product equation.
proof fn lemma_pow_step(orig: int, exp: nat, acc0: int, base0: int, e0: nat)
    requires
        e0 > 0,
        0 <= acc0 < p(),
        0 <= base0 < p(),
        fmul(acc0, fpow(base0, e0)) == fpow(orig, exp),
    ensures
        e0 % 2 == 1 ==> fmul(fmul(acc0, base0), fpow(fmul(base0, base0), e0 / 2)) == fpow(orig, exp),
        e0 % 2 == 0 ==> fmul(acc0, fpow(fmul(base0, base0), e0 / 2)) == fpow(orig, exp),
{
    let k = e0 / 2;
    if e0 % 2 == 1 {
        assert(e0 == 2 * k + 1);
        lemma_fpow_adds(base0, 1, 2 * k);
        lemma_fpow_even(base0, k);
        // fpow(base0, e0) == fmul(fpow(base0, 1), fpow(base0, 2k))
        lemma_fpow_zero(base0);
        assert(fpow(base0, 1) == fmul(base0, 1));
        assert(fmul(base0, 1int) == base0 % p()) by {
            vstd::arithmetic::mul::lemma_mul_basics(base0);
        }
        vstd::arithmetic::div_mod::lemma_small_mod(base0 as nat, p() as nat);
        assert(fpow(base0, e0) == fmul(base0, fpow(fmul(base0, base0), k))) by {
            lemma_fmul_noop(base0, fpow(fmul(base0, base0), k));
        }
        // fmul(acc0, fmul(base0, X)) == fmul(fmul(acc0, base0), X)
        lemma_fmul_assoc(acc0, base0, fpow(fmul(base0, base0), k));
    } else {
        assert(e0 == 2 * k);
        lemma_fpow_even(base0, k);
    }
}

} // verus!
