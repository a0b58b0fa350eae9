//! Prover orchestration: the linear pipeline from an execution trace to a
//! proof — interpolate, extend, commit, compose, evaluate out of domain,
//! combine into the DEEP polynomial, run FRI, grind, and open the drawn
//! query positions.

use vstd::prelude::*;
use vstd::bytes::u64_to_le_bytes;
use crate::field::Felt;
use crate::coin::{PublicCoin, pow_check};
use crate::matrix::{Matrix, felts_to_bytes};
use crate::constraint::{MatrixGroup, constraint_value};
use crate::air::{Air, TraceInfo};
use crate::composer::{build_composition, deep_value_at};
use crate::fri::{fri_commit, open_query, FriQueryLayer};
use crate::options::ProofOptions;
use crate::hashing::extend_bytes;

verus! {

/// Errors that can occur during the proving stage.
#[derive(Clone, Copy, Debug, PartialEq, Eq, Structural)]
pub enum ProvingError {
    /// A constraint evaluated over the execution trace does not hold at
    /// the given step.
    UnsatisfiedConstraint(usize),
    /// No 64-bit nonce met the grinding predicate (never happens for the
    /// accepted difficulty range in practice).
    GrindingFailed,
}

/// The low-degree-test part of a proof: the per-round layer commitments,
/// the remainder in the clear, and the per-query layer openings.
pub struct FriProof {
    pub commitments: Vec<Vec<u8>>,
    pub remainder: Vec<Felt>,
    pub queries: Vec<Vec<FriQueryLayer>>,
}

/// The authenticated trace openings for the drawn query positions: for
/// each position the base-trace row and the composition row, each with
/// its Merkle path.
pub struct Queries {
    pub base_rows: Vec<Vec<Felt>>,
    pub base_paths: Vec<Vec<Vec<u8>>>,
    pub comp_rows: Vec<Vec<Felt>>,
    pub comp_paths: Vec<Vec<Vec<u8>>>,
}

/// A proof produced by the prover and consumed once by the verifier.
pub struct Proof {
    pub options: ProofOptions,
    pub trace_info: TraceInfo,
    pub base_trace_commitment: Vec<u8>,
    pub extension_trace_commitment: Option<Vec<u8>>,
    pub composition_trace_commitment: Vec<u8>,
    pub fri_proof: FriProof,
    pub pow_nonce: u64,
    pub trace_queries: Queries,
    pub public_inputs: Vec<u8>,
    pub ood_trace_states: (Vec<Felt>, Vec<Felt>),
    pub ood_constraint_evaluations: Vec<Felt>,
}

impl Proof {
    /// The conjectured security level of this proof in bits, from the
    /// field width (64 bits), the hash's 128-bit collision resistance,
    /// and the proof's own parameters.
    pub fn conjectured_security_level(&self) -> (r: usize)
        requires
            self.options.is_valid_spec(),
            1 <= self.trace_info.trace_len <= 0x1_0000_0000,
        ensures
            ({
                let lde_bits = crate::utils::log2(
                    (self.trace_info.trace_len * self.options.lde_blowup_factor as int) as int,
                );
                let field_security: int = if 64 >= lde_bits {
                    64 - lde_bits
                } else {
                    0int
                };
                let query_security = self.options.num_queries as int * crate::utils::log2(
                    self.options.lde_blowup_factor as int,
                ) + self.options.grinding_factor as int;
                r == vstd::math::min(vstd::math::min(field_security, query_security), 128)
            }),
    {
        let field_bits: usize = 64;
        let collision_resistance: usize = 128;
        crate::utils::conjectured_security_level(
            field_bits,
            collision_resistance,
            self.options.lde_blowup_factor as usize,
            self.trace_info.trace_len,
            self.options.num_queries as usize,
            self.options.grinding_factor as usize,
        )
    }
}

/// Whether a trace satisfies an AIR: every transition constraint is zero
/// at every step but the last, and every boundary constraint's cell holds
/// its fixed value.
pub open spec fn air_satisfied(air: Air, cols: Seq<Seq<Felt>>) -> bool {
    &&& forall|t: int, i: int|
        0 <= t < air.transition_constraints@.len() && 0 <= i < air.trace_info.trace_len - 1
            ==> #[trigger] constraint_value(
            air.transition_constraints@[t],
            cols,
            Seq::empty(),
            i,
            1,
            air.trace_info.trace_len as int,
        ) == 0
    &&& forall|b: int|
        0 <= b < air.boundary_constraints@.len() ==> cols[(
        #[trigger] air.boundary_constraints@[b]).column as int][air.boundary_constraints@[b].row as int].val()
            == air.boundary_constraints@[b].value.val()
}

/// No 64-bit nonce at all meets the grinding predicate for this state.
pub open spec fn grinding_exhausted(seed: Seq<u8>, difficulty: u64) -> bool {
    forall|nonce: u64| !#[trigger] pow_check(seed, nonce, difficulty)
}

/// A witnessed violation at step `s`: some transition constraint is
/// nonzero at step `s` (below the last row), or some boundary
/// constraint's cell at row `s` differs from its fixed value.
pub open spec fn violation_at(air: Air, cols: Seq<Seq<Felt>>, s: int) -> bool {
    ||| exists|t: int|
        0 <= t < air.transition_constraints@.len() && 0 <= s < air.trace_info.trace_len - 1
            && #[trigger] constraint_value(
            air.transition_constraints@[t],
            cols,
            Seq::empty(),
            s,
            1,
            air.trace_info.trace_len as int,
        ) != 0
    ||| exists|b: int|
        0 <= b < air.boundary_constraints@.len() && (#[trigger] air.boundary_constraints@[b]).row
            == s && cols[air.boundary_constraints@[b].column as int][s].val()
            != air.boundary_constraints@[b].value.val()
}

/// Checks a trace against every constraint of an AIR; accepts exactly the
/// satisfying traces, and otherwise names a step that witnesses a
/// violated constraint.
pub fn check_trace(air: &Air, trace: &Matrix) -> (r: Result<(), usize>)
    requires
        air.wf(),
        trace.wf(),
        trace.num_rows_spec() == air.trace_info.trace_len,
        trace.num_cols_spec() == air.trace_info.num_base_columns,
    ensures
        r is Ok <==> air_satisfied(*air, trace.columns()),
        r is Err ==> r->Err_0 < air.trace_info.trace_len,
        r matches Err(s) ==> violation_at(*air, trace.columns(), s as int),
{
    let n = air.trace_info.trace_len;
    let tvals = air.evaluate_transitions_on_trace(trace);
    let num_t = air.transition_constraints.len();
    for t in 0..num_t
        invariant
            air.wf(),
            trace.wf(),
            trace.num_rows_spec() == air.trace_info.trace_len,
            n == air.trace_info.trace_len,
            num_t == air.transition_constraints@.len(),
            tvals.wf(),
            tvals.num_cols_spec() == num_t,
            num_t > 0 ==> tvals.num_rows_spec() == n,
            forall|a: int, i: int|
                0 <= a < num_t && 0 <= i < n ==> (#[trigger] tvals.columns()[a][i]).val()
                    == constraint_value(
                    air.transition_constraints@[a],
                    trace.columns(),
                    Seq::empty(),
                    i,
                    1,
                    n as int,
                ),
            forall|a: int, i: int|
                0 <= a < t && 0 <= i < n - 1 ==> #[trigger] constraint_value(
                    air.transition_constraints@[a],
                    trace.columns(),
                    Seq::empty(),
                    i,
                    1,
                    n as int,
                ) == 0,
    {
        let col = tvals.col(t);
        for i in 0..n - 1
            invariant
                air.wf(),
                n == air.trace_info.trace_len,
                n >= 2,
                t < num_t,
                num_t == air.transition_constraints@.len(),
                col@.len() == n,
                col@ == tvals.columns()[t as int],
                forall|a: int, b: int|
                    0 <= a < num_t && 0 <= b < n ==> (#[trigger] tvals.columns()[a][b]).val()
                        == constraint_value(
                        air.transition_constraints@[a],
                        trace.columns(),
                        Seq::empty(),
                        b,
                        1,
                        n as int,
                    ),
                forall|b: int|
                    0 <= b < i ==> #[trigger] constraint_value(
                        air.transition_constraints@[t as int],
                        trace.columns(),
                        Seq::empty(),
                        b,
                        1,
                        n as int,
                    ) == 0,
        {
            if !col[i].is_zero() {
                proof {
                    assert(constraint_value(
                        air.transition_constraints@[t as int],
                        trace.columns(),
                        Seq::empty(),
                        i as int,
                        1,
                        n as int,
                    ) != 0);
                }
                return Err(i);
            }
        }
    }
    let num_b = air.boundary_constraints.len();
    for b in 0..num_b
        invariant
            air.wf(),
            trace.wf(),
            trace.num_rows_spec() == air.trace_info.trace_len,
            trace.num_cols_spec() == air.trace_info.num_base_columns,
            n == air.trace_info.trace_len,
            num_b == air.boundary_constraints@.len(),
            forall|a: int, i: int|
                0 <= a < air.transition_constraints@.len() && 0 <= i < n - 1
                    ==> #[trigger] constraint_value(
                    air.transition_constraints@[a],
                    trace.columns(),
                    Seq::empty(),
                    i,
                    1,
                    n as int,
                ) == 0,
            forall|a: int|
                0 <= a < b ==> trace.columns()[(
                #[trigger] air.boundary_constraints@[a]).column as int][air.boundary_constraints@[a].row as int].val()
                    == air.boundary_constraints@[a].value.val(),
    {
        let bc = &air.boundary_constraints[b];
        proof {
            assert(trace.columns()[bc.column as int].len() == n);
        }
        let cell = trace.col(bc.column)[bc.row];
        if cell.as_u64() != bc.value.as_u64() {
            proof {
                Felt::lemma_eq_val(cell, bc.value);
                assert(trace.columns()[bc.column as int][bc.row as int].val()
                    != bc.value.val());
            }
            return Err(bc.row);
        }
        proof {
            Felt::lemma_eq_val(cell, bc.value);
        }
    }
    Ok(())
}

/// Produces a proof that the trace satisfies the AIR's constraints, or
/// reports a violated step. The pipeline: seed the coin with the public
/// inputs; interpolate the trace and extend it over the coset domain;
/// commit its rows; draw one composition challenge per constraint;
/// compose the constraint quotients and commit them; draw the
/// out-of-domain point and evaluate everything there; combine the DEEP
/// quotients under drawn coefficients; run the FRI commit phase; grind;
/// draw the query positions and open every commitment there.
pub fn prove(air: &Air, trace: &Matrix, public_inputs: &Vec<u8>) -> (r: Result<
    Proof,
    ProvingError,
>)
    requires
        air.wf(),
        trace.wf(),
        trace.num_rows_spec() == air.trace_info.trace_len,
        trace.num_cols_spec() == air.trace_info.num_base_columns,
    ensures
        r is Ok ==> air_satisfied(*air, trace.columns()),
        r matches Err(ProvingError::UnsatisfiedConstraint(s)) ==> !air_satisfied(
            *air,
            trace.columns(),
        ) && s < air.trace_info.trace_len && violation_at(*air, trace.columns(), s as int),
        r matches Err(ProvingError::GrindingFailed) ==> exists|seed: Seq<u8>|
            #[trigger] grinding_exhausted(seed, air.options.grinding_factor as u64),
        r is Ok ==> ({
            let pf = r->Ok_0;
            &&& pf.options == air.options
            &&& pf.trace_info.trace_len == air.trace_info.trace_len
            &&& pf.trace_info.num_base_columns == air.trace_info.num_base_columns
            &&& pf.trace_info.meta@ == air.trace_info.meta@
            &&& pf.public_inputs@ == public_inputs@
            &&& pf.extension_trace_commitment is None
            &&& crate::verification::pow_ok(*air, pf)
            &&& crate::verification::shape_ok(*air, pf)
        }),
{
    match check_trace(air, trace) {
        Ok(()) => (),
        Err(step) => {
            return Err(ProvingError::UnsatisfiedConstraint(step));
        },
    }
    let mut coin = PublicCoin::new(public_inputs);
    let trace_domain = air.trace_domain();
    let lde_domain = air.lde_domain();
    let n = air.trace_info.trace_len;
    let blowup = air.options.lde_blowup_factor as usize;
    let lde_size = n * blowup;
    proof {
        assert(lde_size == lde_domain.size_spec());
    }
    proof {
        assert(lde_size >= n) by {
            vstd::arithmetic::mul::lemma_mul_inequality(1, blowup as int, n as int);
            vstd::arithmetic::mul::lemma_mul_basics(n as int);
            vstd::arithmetic::mul::lemma_mul_is_commutative(blowup as int, n as int);
        }
        assert(lde_size >= 2 * blowup) by {
            vstd::arithmetic::mul::lemma_mul_inequality(2, n as int, blowup as int);
        }
    }
    // Trace low-degree extension and its row commitment.
    let polys = trace.interpolate(&trace_domain);
    let padded = polys.pad_rows_to(lde_size);
    let lde = padded.into_evaluations(&lde_domain);
    let base_tree = lde.commit_to_rows();
    let base_root = base_tree.root();
    coin.reseed(&base_root);
    let ghost seed_b = coin.seed();
    proof {
        assert(seed_b == crate::hashing::sha256_of(
            crate::hashing::sha256_of(public_inputs@) + base_root@,
        ));
    }
    // One composition challenge per constraint.
    let num_t = air.transition_constraints.len();
    let num_b = air.boundary_constraints.len();
    proof {
        assert(num_t + num_b <= usize::MAX);
    }
    let num_alphas = num_t + num_b;
    let mut alphas: Vec<Felt> = Vec::new();
    for k in 0..num_alphas
        invariant
            alphas@.len() == k,
            coin.seed() == seed_b,
    {
        let a = coin.draw_felt();
        alphas.push(a);
    }
    // Constraint evaluations over the extended domain, composed into one
    // column and committed.
    let group = MatrixGroup::new(vec![lde.duplicate()]);
    let no_challenges: Vec<Felt> = Vec::new();
    proof {
        assert(group.columns() =~= lde.columns()) by {
            assert(group.items@.drop_last() =~= Seq::<Matrix>::empty());
            assert(crate::matrix::join_columns(Seq::<Matrix>::empty())
                =~= Seq::<Seq<Felt>>::empty());
            assert(Seq::<Seq<Felt>>::empty() + lde.columns() =~= lde.columns());
        }
        assert(group.num_rows_spec() == lde.num_rows_spec());
        assert(no_challenges@ =~= Seq::<Felt>::empty());
        assert(blowup >= 2);
        assert(lde_size >= 2 * n) by {
            vstd::arithmetic::mul::lemma_mul_inequality(2, blowup as int, n as int);
            vstd::arithmetic::mul::lemma_mul_is_commutative(blowup as int, n as int);
        }
    }
    let tvals_matrix = group.evaluate_symbolic(&air.transition_constraints, &no_challenges, blowup);
    let tvals = tvals_matrix.into_columns();
    let lde_cols = lde.duplicate().into_columns();
    let mut zvec: Vec<Felt> = Vec::new();
    for k in 0..lde_size
        invariant
            zvec@.len() == k,
    {
        zvec.push(Felt::zero());
    }
    crate::utils::fill_vanishing_polynomial(&mut zvec, &trace_domain, &lde_domain);
    let g_trace = trace_domain.generator();
    let comp = build_composition(
        &alphas,
        &tvals,
        &air.boundary_constraints,
        &lde_cols,
        &zvec,
        &lde_domain,
        g_trace,
        n as u64,
        lde_size,
    );
    let comp_matrix = Matrix::new(vec![comp]);
    proof {
        assert(comp_matrix.num_rows_spec() == lde_size);
    }
    let comp_tree = comp_matrix.commit_to_rows();
    let comp_root = comp_tree.root();
    coin.reseed(&comp_root);
    let ghost seed_c = coin.seed();
    proof {
        assert(seed_c == crate::hashing::sha256_of(seed_b + comp_root@));
    }
    // Out-of-domain evaluations at z and z * g.
    let z = coin.draw_felt();
    let zg = z.mul(g_trace);
    let ood_z = polys.evaluate_at(z);
    let ood_zg = polys.evaluate_at(zg);
    proof {
        assert(lde_size <= 0x400_0000 * 64) by {
            vstd::arithmetic::mul::lemma_mul_inequality(n as int, 0x400_0000, blowup as int);
            vstd::arithmetic::mul::lemma_mul_inequality(blowup as int, 64, 0x400_0000);
            vstd::arithmetic::mul::lemma_mul_is_commutative(blowup as int, 0x400_0000);
        }
    }
    let comp_poly = comp_matrix.interpolate(&lde_domain);
    let ood_constraint_evaluations = comp_poly.evaluate_at(z);
    let mut ood_bytes = felts_to_bytes(&ood_z);
    let zg_bytes = felts_to_bytes(&ood_zg);
    extend_bytes(&mut ood_bytes, &zg_bytes);
    let comp_z_bytes = felts_to_bytes(&ood_constraint_evaluations);
    extend_bytes(&mut ood_bytes, &comp_z_bytes);
    proof {
        assert(ood_bytes@ =~= crate::matrix::row_bytes(ood_z@) + crate::matrix::row_bytes(ood_zg@)
            + crate::matrix::row_bytes(ood_constraint_evaluations@));
    }
    coin.reseed(&ood_bytes);
    let ghost seed_o = coin.seed();
    proof {
        assert(seed_o == crate::hashing::sha256_of(
            seed_c + (crate::matrix::row_bytes(ood_z@) + crate::matrix::row_bytes(ood_zg@)
                + crate::matrix::row_bytes(ood_constraint_evaluations@)),
        ));
    }
    // DEEP combination under drawn coefficients.
    let num_cols = trace.num_cols();
    let mut g1: Vec<Felt> = Vec::new();
    for k in 0..num_cols
        invariant
            g1@.len() == k,
            coin.seed() == seed_o,
    {
        let a = coin.draw_felt();
        g1.push(a);
    }
    let mut g2: Vec<Felt> = Vec::new();
    for k in 0..num_cols
        invariant
            g2@.len() == k,
            coin.seed() == seed_o,
    {
        let a = coin.draw_felt();
        g2.push(a);
    }
    let g3 = coin.draw_felt();
    let comp_z = ood_constraint_evaluations[0];
    let mut deep: Vec<Felt> = Vec::new();
    for i in 0..lde_size
        invariant
            air.wf(),
            trace.wf(),
            lde.wf(),
            comp_matrix.wf(),
            lde.num_rows_spec() == lde_size,
            comp_matrix.num_rows_spec() == lde_size,
            comp_matrix.num_cols_spec() == 1,
            lde.num_cols_spec() == air.trace_info.num_base_columns,
            num_cols == air.trace_info.num_base_columns,
            ood_z@.len() == num_cols,
            ood_zg@.len() == num_cols,
            g1@.len() == num_cols,
            g2@.len() == num_cols,
            deep@.len() == i,
    {
        let row = match lde.get_row(i) {
            Some(r) => r,
            None => {
                proof {
                    assert(false);
                }
                Vec::new()
            },
        };
        let comp_i = comp_matrix.col(0)[i];
        let x = lde_domain.element(i as u64);
        let dv = deep_value_at(
            &row,
            comp_i,
            &ood_z,
            &ood_zg,
            comp_z,
            &g1,
            &g2,
            g3,
            x,
            z,
            zg,
        );
        deep.push(dv);
    }
    // FRI commit phase, grinding, and query openings.
    let fri_domain = air.lde_domain();
    let max_remainder = air.options.fri_max_remainder_size as u64;
    let phase = fri_commit(deep, fri_domain, max_remainder, &mut coin);
    let last = phase.layers.len() - 1;
    let mut remainder: Vec<Felt> = Vec::new();
    let remainder_len = phase.layers[last].len();
    for k in 0..remainder_len
        invariant
            last == phase.layers@.len() - 1,
            remainder_len == phase.layers@[last as int]@.len(),
            remainder@.len() == k,
            forall|a: int|
                0 <= a < k ==> (#[trigger] remainder@[a]) == phase.layers@[last as int]@[a],
    {
        remainder.push(phase.layers[last][k]);
    }
    let ghost seed_f = coin.seed();
    proof {
        assert(seed_f == crate::fri::fri_seed(seed_o, phase.commitments@, phase.betas@.len() as int));
    }
    let remainder_bytes = felts_to_bytes(&remainder);
    coin.reseed(&remainder_bytes);
    let ghost seed_r = coin.seed();
    proof {
        assert(seed_r == crate::hashing::sha256_of(seed_f + crate::matrix::row_bytes(remainder@)));
    }
    let pow_nonce = match coin.grind(air.options.grinding_factor as u64) {
        Some(nonce) => {
            proof {
                assert(pow_check(seed_r, nonce, air.options.grinding_factor as u64));
            }
            nonce
        },
        None => {
            proof {
                let g = air.options.grinding_factor as u64;
                assert(grinding_exhausted(coin.seed(), g));
            }
            return Err(ProvingError::GrindingFailed);
        },
    };
    let nonce_bytes = u64_to_le_bytes(pow_nonce);
    coin.reseed(&nonce_bytes);
    let positions = coin.draw_query_positions(air.options.num_queries as usize, lde_size as u64);
    let num_positions = positions.len();
    let mut base_rows: Vec<Vec<Felt>> = Vec::new();
    let mut base_paths: Vec<Vec<Vec<u8>>> = Vec::new();
    let mut comp_rows: Vec<Vec<Felt>> = Vec::new();
    let mut comp_paths: Vec<Vec<Vec<u8>>> = Vec::new();
    let mut fri_queries: Vec<Vec<FriQueryLayer>> = Vec::new();
    for q in 0..num_positions
        invariant
            air.wf(),
            lde.wf(),
            comp_matrix.wf(),
            lde.num_rows_spec() == lde_size,
            comp_matrix.num_rows_spec() == lde_size,
            base_tree.wf(),
            comp_tree.wf(),
            base_tree.leaves().len() == lde_size,
            comp_tree.leaves().len() == lde_size,
            num_positions == positions@.len(),
            forall|a: int| 0 <= a < positions@.len() ==> (#[trigger] positions@[a]) < lde_size,
            phase.wf(
                lde_domain.offset_spec(),
                lde_domain.generator_spec(),
                lde_size as int,
                max_remainder as int,
            ),
            phase.layers@[0]@.len() == lde_size,
            crate::merkle::is_power_of_two(lde_size as int),
            base_rows@.len() == q,
            base_paths@.len() == q,
            comp_rows@.len() == q,
            comp_paths@.len() == q,
            fri_queries@.len() == q,
    {
        let pos = positions[q] as usize;
        let base_row = match lde.get_row(pos) {
            Some(r) => r,
            None => {
                proof {
                    assert(false);
                }
                Vec::new()
            },
        };
        let comp_row = match comp_matrix.get_row(pos) {
            Some(r) => r,
            None => {
                proof {
                    assert(false);
                }
                Vec::new()
            },
        };
        base_rows.push(base_row);
        base_paths.push(base_tree.open(pos));
        comp_rows.push(comp_row);
        comp_paths.push(comp_tree.open(pos));
        fri_queries.push(
            open_query(
                &phase,
                positions[q],
                Ghost(lde_domain.offset_spec()),
                Ghost(lde_domain.generator_spec()),
                Ghost(max_remainder as int),
            ),
        );
    }
    let meta = copy_bytes(&air.trace_info.meta);
    let pub_in = copy_bytes(public_inputs);
    let pf = Proof {
        options: air.options,
        trace_info: TraceInfo::new(n, num_cols, meta),
        base_trace_commitment: base_root,
        extension_trace_commitment: None,
        composition_trace_commitment: comp_root,
        fri_proof: FriProof {
            commitments: phase.commitments,
            remainder,
            queries: fri_queries,
        },
        pow_nonce,
        trace_queries: Queries { base_rows, base_paths, comp_rows, comp_paths },
        public_inputs: pub_in,
        ood_trace_states: (ood_z, ood_zg),
        ood_constraint_evaluations,
    };
    proof {
        assert(crate::verification::replay_seed_base(pf) == seed_b);
        assert(crate::verification::replay_seed_comp(pf) == seed_c);
        assert(crate::verification::ood_bytes_spec(pf) == crate::matrix::row_bytes(ood_z@)
            + crate::matrix::row_bytes(ood_zg@) + crate::matrix::row_bytes(
            ood_constraint_evaluations@,
        ));
        assert(crate::verification::replay_seed_ood(pf) == seed_o);
        assert(crate::verification::replay_seed_fri(pf) == seed_f);
        assert(crate::verification::replay_seed_remainder(pf) == seed_r);
        assert(crate::verification::pow_ok(*air, pf));
        crate::verification::lemma_wf_folded_size(
            phase,
            lde_domain.offset_spec(),
            lde_domain.generator_spec(),
            lde_size as int,
            max_remainder as int,
            phase.betas@.len() as int,
        );
        assert(crate::verification::shape_ok(*air, pf));
    }
    Ok(pf)
}

/// A fresh copy of a byte vector.
pub fn copy_bytes(v: &Vec<u8>) -> (r: Vec<u8>)
    ensures
        r@ == v@,
{
    let mut out: Vec<u8> = Vec::new();
    extend_bytes(&mut out, v);
    proof {
        assert(out@ =~= v@);
    }
    out
}

} // verus!
