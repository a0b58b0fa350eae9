//! The algebraic intermediate representation of a computation: the trace
//! shape, the transition and boundary constraints, and the two evaluation
//! domains the protocol works over.

use vstd::prelude::*;
use crate::field::{Felt, GROUP_GENERATOR, p};
use crate::domain::{EvaluationDomain, domain_generator};
use crate::constraint::{Constraint, MatrixGroup, constraint_value, constraint_degree};
use crate::matrix::Matrix;
use crate::merkle::is_power_of_two;
use crate::options::ProofOptions;

verus! {

/// The shape of an execution trace and computation-specific metadata.
pub struct TraceInfo {
    pub trace_len: usize,
    pub num_base_columns: usize,
    pub meta: Vec<u8>,
}

impl TraceInfo {
    /// Bundles the trace shape.
    pub fn new(trace_len: usize, num_base_columns: usize, meta: Vec<u8>) -> (r: TraceInfo)
        ensures
            r.trace_len == trace_len,
            r.num_base_columns == num_base_columns,
            r.meta == meta,
    {
        TraceInfo { trace_len, num_base_columns, meta }
    }
}

/// A boundary constraint: one trace cell fixed to a value.
#[derive(Clone, Copy)]
pub struct BoundaryConstraint {
    pub column: usize,
    pub row: usize,
    pub value: Felt,
}

/// An AIR instance: the trace shape, the proof parameters, and the
/// transition and boundary constraints of one computation.
///
/// The engine composes all constraints into a single column, which fits
/// exactly when every transition constraint has degree at most two; the
/// trace length must be a power of two (the register table is padded to
/// one by its producer), small enough that the extended domain fits the
/// field's power-of-two subgroups.
///
/// Every column lives in the base field: this engine declares no
/// extension columns, so its constraints are challenge-free and a proof's
/// extension-trace commitment is always absent. An extension-field stage
/// would need an extension of the field capability itself.
pub struct Air {
    pub trace_info: TraceInfo,
    pub options: ProofOptions,
    pub transition_constraints: Vec<Constraint>,
    pub boundary_constraints: Vec<BoundaryConstraint>,
}

impl Air {
    /// A usable AIR: validated options, a power-of-two trace of workable
    /// size, at least one column, every constraint reference in range and
    /// challenge-free, and every transition constraint of degree at most
    /// two.
    pub open spec fn wf(self) -> bool {
        &&& self.options.is_valid_spec()
        &&& is_power_of_two(self.trace_info.trace_len as int)
        &&& 2 <= self.trace_info.trace_len
        &&& self.trace_info.trace_len <= 0x400_0000
        &&& self.trace_info.trace_len * self.options.lde_blowup_factor as int <= usize::MAX / 2
        &&& self.trace_info.num_base_columns >= 1
        &&& self.trace_info.num_base_columns <= 0x1000_0000
        &&& self.transition_constraints@.len() + self.boundary_constraints@.len() <= 0x1000_0000
        &&& forall|t: int|
            0 <= t < self.transition_constraints@.len()
                ==> (#[trigger] self.transition_constraints@[t]).in_range(
                self.trace_info.num_base_columns as int,
                0,
            )
        &&& forall|t: int|
            0 <= t < self.transition_constraints@.len() ==> constraint_degree(
                (#[trigger] self.transition_constraints@[t]).terms@,
            ) <= 2
        &&& forall|b: int|
            0 <= b < self.boundary_constraints@.len()
                ==> (#[trigger] self.boundary_constraints@[b]).column
                < self.trace_info.num_base_columns && self.boundary_constraints@[b].row
                < self.trace_info.trace_len
    }

    /// Bundles an AIR instance.
    pub fn new(
        trace_info: TraceInfo,
        options: ProofOptions,
        transition_constraints: Vec<Constraint>,
        boundary_constraints: Vec<BoundaryConstraint>,
    ) -> (r: Air)
        requires
            (Air {
                trace_info: TraceInfo {
                    trace_len: trace_info.trace_len,
                    num_base_columns: trace_info.num_base_columns,
                    meta: trace_info.meta,
                },
                options,
                transition_constraints,
                boundary_constraints,
            }).wf(),
        ensures
            r.wf(),
            r.trace_info == trace_info,
            r.options == options,
            r.transition_constraints == transition_constraints,
            r.boundary_constraints == boundary_constraints,
    {
        Air { trace_info, options, transition_constraints, boundary_constraints }
    }

    /// The trace domain: the plain subgroup of the trace length's size.
    pub fn trace_domain(&self) -> (r: EvaluationDomain)
        requires
            self.wf(),
        ensures
            r.wf(),
            r.size_spec() == self.trace_info.trace_len,
            r.offset_spec() == 1,
            r.generator_spec() == domain_generator(self.trace_info.trace_len as u64),
            is_power_of_two(r.size_spec() as int),
    {
        EvaluationDomain::new_subgroup(self.trace_info.trace_len as u64)
    }

    /// The extended (low-degree-extension) domain: the trace domain scaled
    /// by the blowup factor and shifted onto a coset, so that it is
    /// disjoint from the trace domain.
    pub fn lde_domain(&self) -> (r: EvaluationDomain)
        requires
            self.wf(),
        ensures
            r.wf(),
            r.size_spec() == self.trace_info.trace_len * self.options.lde_blowup_factor as int,
            r.offset_spec() == GROUP_GENERATOR as int,
            r.generator_spec() == domain_generator(
                (self.trace_info.trace_len * self.options.lde_blowup_factor as int) as u64,
            ),
            is_power_of_two(r.size_spec() as int),
    {
        proof {
            assert(self.trace_info.trace_len * self.options.lde_blowup_factor as int
                <= 0x400_0000 * 64) by {
                vstd::arithmetic::mul::lemma_mul_inequality(
                    self.trace_info.trace_len as int,
                    0x400_0000,
                    self.options.lde_blowup_factor as int,
                );
                vstd::arithmetic::mul::lemma_mul_inequality(
                    self.options.lde_blowup_factor as int,
                    64,
                    0x400_0000,
                );
                vstd::arithmetic::mul::lemma_mul_is_commutative(
                    self.options.lde_blowup_factor as int,
                    0x400_0000,
                );
            }
            lemma_pow2_product(
                self.trace_info.trace_len as int,
                self.options.lde_blowup_factor as int,
            );
            vstd::arithmetic::div_mod::lemma_small_mod(GROUP_GENERATOR as nat, p() as nat);
        }
        let size = (self.trace_info.trace_len as u64) * (self.options.lde_blowup_factor as u64);
        EvaluationDomain::new(size, Felt::new(GROUP_GENERATOR))
    }

    /// Evaluates every transition constraint on a trace matrix over the
    /// trace domain itself: result column `t`, row `i` is constraint `t`
    /// at step `i` (the next row being `i + 1`, cyclically).
    pub fn evaluate_transitions_on_trace(&self, trace: &Matrix) -> (r: Matrix)
        requires
            self.wf(),
            trace.wf(),
            trace.num_rows_spec() == self.trace_info.trace_len,
            trace.num_cols_spec() == self.trace_info.num_base_columns,
        ensures
            r.wf(),
            r.num_cols_spec() == self.transition_constraints@.len(),
            self.transition_constraints@.len() > 0 ==> r.num_rows_spec()
                == self.trace_info.trace_len,
            forall|t: int, i: int|
                0 <= t < self.transition_constraints@.len() && 0 <= i < self.trace_info.trace_len
                    ==> (#[trigger] r.columns()[t][i]).val() == constraint_value(
                    self.transition_constraints@[t],
                    trace.columns(),
                    Seq::empty(),
                    i,
                    1,
                    self.trace_info.trace_len as int,
                ),
    {
        let group = MatrixGroup::new(vec![trace.duplicate()]);
        let challenges: Vec<Felt> = Vec::new();
        proof {
            assert(group.columns() =~= trace.columns()) by {
                assert(group.items@.drop_last() =~= Seq::<Matrix>::empty());
                assert(crate::matrix::join_columns(Seq::<Matrix>::empty())
                    =~= Seq::<Seq<Felt>>::empty());
                assert(Seq::<Seq<Felt>>::empty() + trace.columns() =~= trace.columns());
            }
            assert(group.num_rows_spec() == trace.num_rows_spec());
            assert(challenges@ =~= Seq::<Felt>::empty());
        }
        group.evaluate_symbolic(&self.transition_constraints, &challenges, 1)
    }
}

/// A product of two powers of two is a power of two.
pub proof fn lemma_pow2_product(a: int, b: int)
    requires
        is_power_of_two(a),
        is_power_of_two(b),
    ensures
        is_power_of_two(a * b),
    decreases b,
{
    if b == 1 {
        assert(a * 1 == a) by {
            vstd::arithmetic::mul::lemma_mul_basics(a);
        }
    } else {
        lemma_pow2_product(a, b / 2);
        assert(a * b == 2 * (a * (b / 2))) by {
            vstd::arithmetic::mul::lemma_mul_is_distributive_add(a, b / 2, b / 2);
            vstd::arithmetic::mul::lemma_mul_is_commutative(a, b);
        }
        assert((a * b) % 2 == 0) by {
            vstd::arithmetic::div_mod::lemma_mod_multiples_basic(a * (b / 2), 2);
            vstd::arithmetic::mul::lemma_mul_is_commutative(2, a * (b / 2));
        }
        assert((a * b) / 2 == a * (b / 2)) by {
            vstd::arithmetic::div_mod::lemma_div_multiples_vanish(a * (b / 2), 2);
            vstd::arithmetic::mul::lemma_mul_is_commutative(2, a * (b / 2));
        }
    }
}

} // verus!
