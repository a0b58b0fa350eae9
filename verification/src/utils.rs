//! Polynomial and domain helpers shared by the protocol stages.

use vstd::prelude::*;
use crate::field::{Felt, p, fadd, fsub, fmul, fpow, lemma_fpow_zero, lemma_fpow_adds, lemma_fmul_assoc, lemma_fmul_comm, lemma_fmul_noop};
use crate::domain::EvaluationDomain;
use crate::merkle::is_power_of_two;

verus! {

/// The value at `x` of the polynomial with coefficient sequence `coeffs`
/// (lowest degree first): `coeffs[0] + x * (coeffs[1] + x * (...))`.
pub open spec fn poly_eval(coeffs: Seq<Felt>, x: int) -> int
    decreases coeffs.len(),
{
    if coeffs.len() == 0 {
        0int
    } else {
        fadd(coeffs[0].val(), fmul(x, poly_eval(coeffs.drop_first(), x)))
    }
}

/// Horner's method for polynomial evaluation.
pub fn horner_evaluate(poly_coeffs: &Vec<Felt>, point: &Felt) -> (r: Felt)
    ensures
        r.val() == poly_eval(poly_coeffs@, point.val()),
{
    let mut acc = Felt::zero();
    let mut i = poly_coeffs.len();
    proof {
        assert(poly_coeffs@.skip(i as int) =~= Seq::<Felt>::empty());
    }
    while i > 0
        invariant
            i <= poly_coeffs@.len(),
            acc.val() == poly_eval(poly_coeffs@.skip(i as int), point.val()),
        decreases i,
    {
        i = i - 1;
        acc = poly_coeffs[i].add(point.mul(acc));
        proof {
            let s = poly_coeffs@.skip(i as int);
            assert(s.len() > 0);
            assert(s[0] == poly_coeffs@[i as int]);
            assert(s.drop_first() =~= poly_coeffs@.skip(i as int + 1));
        }
    }
    proof {
        assert(poly_coeffs@.skip(0) =~= poly_coeffs@);
    }
    acc
}

/// Rounds the input value up to the nearest power of two.
pub fn ceil_power_of_two(value: usize) -> (r: usize)
    requires
        value <= usize::MAX / 2 + 1,
    ensures
        is_power_of_two(r as int),
        r >= value,
        value > r / 2 || r == 1,
{
    let mut r: usize = 1;
    while r < value
        invariant
            value <= usize::MAX / 2 + 1,
            1 <= r && (r == 1 || r <= 2 * value),
            is_power_of_two(r as int),
            value > r / 2 || r == 1,
        decreases 2 * value - r,
    {
        r = r * 2;
    }
    r
}

/// Regroups a flat sequence into `len / radix` groups of `radix` entries;
/// group `i` holds the entries at `i`, `i + n`, `i + 2n`, ... where
/// `n = len / radix`.
pub fn interleave(source: &Vec<Felt>, radix: usize) -> (r: Vec<Vec<Felt>>)
    requires
        radix > 0,
    ensures
        r@.len() == source@.len() as int / radix as int,
        forall|i: int|
            0 <= i < r@.len() ==> (#[trigger] r@[i])@.len() == radix,
        forall|i: int, j: int|
            0 <= i < r@.len() && 0 <= j < radix ==> (#[trigger] r@[i]@[j]) == source@[i + j * (
            source@.len() as int / radix as int)],
    {
    let len = source.len();
    let n = len / radix;
    proof {
        assert(n * radix as int <= source@.len()) by {
            vstd::arithmetic::div_mod::lemma_fundamental_div_mod(
                source@.len() as int,
                radix as int,
            );
            vstd::arithmetic::div_mod::lemma_mod_bound(source@.len() as int, radix as int);
            vstd::arithmetic::mul::lemma_mul_is_commutative(radix as int, n as int);
        }
    }
    let mut r: Vec<Vec<Felt>> = Vec::new();
    for i in 0..n
        invariant
            n == source@.len() as int / radix as int,
            n * radix as int <= source@.len(),
            source@.len() <= usize::MAX,
            radix > 0,
            r@.len() == i,
            forall|a: int|
                0 <= a < i ==> (#[trigger] r@[a])@.len() == radix,
            forall|a: int, j: int|
                0 <= a < i && 0 <= j < radix ==> (#[trigger] r@[a]@[j]) == source@[a + j * n],
    {
        let mut group: Vec<Felt> = Vec::new();
        for j in 0..radix
            invariant
                n == source@.len() as int / radix as int,
                n * radix as int <= source@.len(),
                source@.len() <= usize::MAX,
                radix > 0,
                i < n,
                group@.len() == j,
                forall|b: int| 0 <= b < j ==> (#[trigger] group@[b]) == source@[i + b * n],
        {
            proof {
                assert(j * n >= 0) by {
                    vstd::arithmetic::mul::lemma_mul_nonnegative(j as int, n as int);
                }
                assert(i + j * n < source@.len()) by {
                    assert(j * n <= (radix - 1) * n) by {
                        vstd::arithmetic::mul::lemma_mul_inequality(
                            j as int,
                            radix as int - 1,
                            n as int,
                        );
                    }
                    assert((radix - 1) * n == radix * n - n) by {
                        vstd::arithmetic::mul::lemma_mul_is_distributive_sub_other_way(
                            n as int,
                            radix as int,
                            1int,
                        );
                    }
                    vstd::arithmetic::mul::lemma_mul_is_commutative(radix as int, n as int);
                }
            }
            group.push(source[i + j * n]);
        }
        r.push(group);
    }
    r
}

/// Evaluates the vanishing polynomial of `vanish_domain` — the monic
/// polynomial `x^n - v` that is zero exactly on that domain, `n` its size
/// and `v` its offset raised to `n` — at every point of `eval_domain`,
/// writing the results into `dst`.
///
/// The value at point `i` of the evaluation domain is
/// `eval_offset^n * (eval_generator^n)^i - vanish_offset^n`.
pub fn fill_vanishing_polynomial(
    dst: &mut Vec<Felt>,
    vanish_domain: &EvaluationDomain,
    eval_domain: &EvaluationDomain,
)
    requires
        old(dst)@.len() == eval_domain.size_spec(),
    ensures
        final(dst)@.len() == eval_domain.size_spec(),
        forall|i: int|
            0 <= i < final(dst)@.len() ==> (#[trigger] final(dst)@[i]).val() == fsub(
                fmul(
                    fpow(eval_domain.offset_spec(), vanish_domain.size_spec() as nat),
                    fpow(
                        fpow(eval_domain.generator_spec(), vanish_domain.size_spec() as nat),
                        i as nat,
                    ),
                ),
                fpow(vanish_domain.offset_spec(), vanish_domain.size_spec() as nat),
            ),
{
    let n = vanish_domain.size();
    let scaled_eval_offset = eval_domain.offset().pow(n);
    let scaled_eval_generator = eval_domain.generator().pow(n);
    let scaled_vanish_offset = vanish_domain.offset().pow(n);
    let mut acc = scaled_eval_offset;
    let len = dst.len();
    proof {
        lemma_fpow_zero(scaled_eval_generator.val());
        lemma_fmul_noop(scaled_eval_offset.val(), 1int);
        vstd::arithmetic::mul::lemma_mul_basics(scaled_eval_offset.val());
        vstd::arithmetic::div_mod::lemma_small_mod(
            scaled_eval_offset.val() as nat,
            p() as nat,
        );
    }
    for i in 0..len
        invariant
            len == dst@.len(),
            acc.val() == fmul(scaled_eval_offset.val(), fpow(scaled_eval_generator.val(), i as nat)),
            scaled_eval_offset.val() == fpow(
                eval_domain.offset_spec(),
                vanish_domain.size_spec() as nat,
            ),
            scaled_eval_generator.val() == fpow(
                eval_domain.generator_spec(),
                vanish_domain.size_spec() as nat,
            ),
            scaled_vanish_offset.val() == fpow(
                vanish_domain.offset_spec(),
                vanish_domain.size_spec() as nat,
            ),
            forall|k: int|
                0 <= k < i ==> (#[trigger] dst@[k]).val() == fsub(
                    fmul(scaled_eval_offset.val(), fpow(scaled_eval_generator.val(), k as nat)),
                    scaled_vanish_offset.val(),
                ),
    {
        let v = acc.sub(scaled_vanish_offset);
        dst.set(i, v);
        let ghost acc0 = acc.val();
        acc = acc.mul(scaled_eval_generator);
        proof {
            lemma_step_power(
                scaled_eval_offset.val(),
                scaled_eval_generator.val(),
                i as nat,
            );
        }
    }
}

/// Multiplying a partial power product by the base advances the exponent:
/// `(o * g^i) * g == o * g^(i+1)` in the field.
pub proof fn lemma_step_power(o: int, g: int, i: nat)
    ensures
        fmul(fmul(o, fpow(g, i)), g) == fmul(o, fpow(g, (i + 1) as nat)),
{
    lemma_fmul_assoc(o, fpow(g, i), g);
    lemma_fpow_adds(g, i, 1);
    lemma_fpow_zero(g);
    lemma_fmul_noop(g, 1int);
    vstd::arithmetic::mul::lemma_mul_basics(g);
    // fpow(g, 1) == g % p
    assert(fpow(g, 1) == g % p());
    lemma_fmul_comm(fpow(g, i), g % p());
    lemma_fmul_noop(g, fpow(g, i));
    lemma_fmul_comm(g, fpow(g, i));
}

/// The floor of the base-two logarithm.
pub open spec fn log2(n: int) -> int
    decreases n,
{
    if n <= 1 {
        0int
    } else {
        1 + log2(n / 2)
    }
}

/// The base-two logarithm is never negative.
pub proof fn lemma_log2_nonneg(n: int)
    ensures
        log2(n) >= 0,
    decreases n,
{
    if n > 1 {
        lemma_log2_nonneg(n / 2);
    }
}

/// A value below `2^k` has a base-two logarithm below `k`.
pub proof fn lemma_log2_small(n: int, k: nat)
    requires
        0 <= n,
        1 <= k,
        n < vstd::arithmetic::power2::pow2(k),
    ensures
        log2(n) < k,
    decreases k,
{
    if n > 1 {
        vstd::arithmetic::power2::lemma_pow2_unfold(k);
        if k == 1 {
            vstd::arithmetic::power2::lemma2_to64();
            assert(false);
        }
        assert(n / 2 < vstd::arithmetic::power2::pow2((k - 1) as nat));
        lemma_log2_small(n / 2, (k - 1) as nat);
    }
}

/// Any 64-bit value has a base-two logarithm of at most 63.
pub proof fn lemma_log2_u64(n: u64)
    ensures
        0 <= log2(n as int) <= 63,
{
    lemma_log2_nonneg(n as int);
    vstd::arithmetic::power2::lemma2_to64_rest();
    lemma_log2_small(n as int, 64);
}

/// The floor of the base-two logarithm.
pub fn log2_floor(n: u64) -> (r: u64)
    ensures
        r == log2(n as int),
        r <= 63,
    {
    proof {
        lemma_log2_u64(n);
    }
    let mut v = n;
    let mut r: u64 = 0;
    while v > 1
        invariant
            r + log2(v as int) == log2(n as int),
            log2(n as int) <= 63,
            r <= 63,
        decreases v,
    {
        proof {
            lemma_log2_nonneg(v as int / 2);
            assert(log2(v as int) == 1 + log2(v as int / 2));
        }
        v = v / 2;
        r = r + 1;
    }
    proof {
        assert(log2(v as int) == 0);
    }
    r
}

/// The conjectured security level, in bits, of a proof produced with the
/// given parameters: the least of the hash's collision resistance, the
/// field security (field bits less the base-two logarithm of the extended
/// domain size), and the query security (queries times the blowup's
/// base-two logarithm, plus the grinding factor).
pub fn conjectured_security_level(
    field_bits: usize,
    collision_resistance: usize,
    lde_blowup_factor: usize,
    trace_len: usize,
    num_queries: usize,
    grinding_factor: usize,
) -> (r: usize)
    requires
        1 <= trace_len,
        trace_len <= 0x1_0000_0000,
        1 <= lde_blowup_factor <= 64,
        num_queries <= 128,
        grinding_factor <= 32,
        field_bits <= 1024,
    ensures
        ({
            let lde_bits = log2((trace_len * lde_blowup_factor) as int);
            let field_security: int = if field_bits >= lde_bits {
                field_bits - lde_bits
            } else {
                0
            };
            let query_security = num_queries * log2(lde_blowup_factor as int) + grinding_factor;
            r == vstd::math::min(
                vstd::math::min(field_security, query_security),
                collision_resistance as int,
            )
        }),
{
    proof {
        assert(trace_len * lde_blowup_factor <= 0x1_0000_0000 * 64) by {
            vstd::arithmetic::mul::lemma_mul_inequality(
                trace_len as int,
                0x1_0000_0000,
                lde_blowup_factor as int,
            );
            vstd::arithmetic::mul::lemma_mul_inequality(
                lde_blowup_factor as int,
                64,
                0x1_0000_0000,
            );
            vstd::arithmetic::mul::lemma_mul_is_commutative(lde_blowup_factor as int, 0x1_0000_0000);
        }
        assert(trace_len * lde_blowup_factor >= 1) by {
            vstd::arithmetic::mul::lemma_mul_inequality(1int, trace_len as int, lde_blowup_factor as int);
            vstd::arithmetic::mul::lemma_mul_is_commutative(lde_blowup_factor as int, trace_len as int);
        }
    }
    let lde_domain_size = (trace_len as u64) * (lde_blowup_factor as u64);
    let lde_bits = log2_floor(lde_domain_size) as usize;
    let field_security = if field_bits >= lde_bits {
        field_bits - lde_bits
    } else {
        0
    };
    proof {
        lemma_log2_u64(lde_blowup_factor as u64);
        assert(num_queries * log2(lde_blowup_factor as int) <= 128 * 63) by {
            vstd::arithmetic::mul::lemma_mul_inequality(
                num_queries as int,
                128,
                log2(lde_blowup_factor as int),
            );
            vstd::arithmetic::mul::lemma_mul_inequality(
                log2(lde_blowup_factor as int),
                63,
                128,
            );
            vstd::arithmetic::mul::lemma_mul_is_commutative(log2(lde_blowup_factor as int), 128);
        }
        assert(num_queries * log2(lde_blowup_factor as int) >= 0) by {
            vstd::arithmetic::mul::lemma_mul_nonnegative(
                num_queries as int,
                log2(lde_blowup_factor as int),
            );
        }
    }
    let query_security = num_queries * (log2_floor(lde_blowup_factor as u64) as usize)
        + grinding_factor;
    let mut level = field_security;
    if query_security < level {
        level = query_security;
    }
    if collision_resistance < level {
        level = collision_resistance;
    }
    level
}

} // verus!
