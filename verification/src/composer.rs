//! Constraint composition and the DEEP combination.
//!
//! Composition: every constraint's evaluations over the extended domain
//! are scaled by a drawn challenge and divided by the constraint's
//! divisor — for a transition constraint the trace domain's vanishing
//! polynomial with the last step divided out, for a boundary constraint
//! the linear factor at its row — and summed into one column.
//!
//! DEEP: quotients `(T(x) - T(z)) / (x - z)`, `(T(x) - T(zg)) / (x - zg)`
//! and `(C(x) - C(z)) / (x - z)`, combined with drawn coefficients; its
//! low degree certifies the out-of-domain identity.

use vstd::prelude::*;
use crate::field::{Felt, fadd, fsub, fmul, fpow, finv};
use crate::domain::EvaluationDomain;
use crate::air::BoundaryConstraint;

verus! {

/// The quotient `(v - sub) / den` in the field.
pub open spec fn quotient(v: int, sub: int, den: int) -> int {
    fmul(fsub(v, sub), finv(den))
}

/// The first `k` transition summands at row `i`: challenge times
/// constraint evaluation times the shared divisor factor.
pub open spec fn trans_sum(
    alphas: Seq<Felt>,
    tvals: Seq<Seq<Felt>>,
    i: int,
    factor: int,
    k: int,
) -> int
    decreases k,
{
    if k <= 0 {
        0int
    } else {
        fadd(
            trans_sum(alphas, tvals, i, factor, k - 1),
            fmul(alphas[k - 1].val(), fmul(tvals[k - 1][i].val(), factor)),
        )
    }
}

/// The first `k` boundary summands at row `i`: challenge (after the
/// transition challenges) times the quotient of the column against its
/// fixed value, divided by the linear factor at the constraint's row.
pub open spec fn bound_sum(
    alphas: Seq<Felt>,
    num_transitions: int,
    bcs: Seq<BoundaryConstraint>,
    cols: Seq<Seq<Felt>>,
    i: int,
    x: int,
    g_trace: int,
    k: int,
) -> int
    decreases k,
{
    if k <= 0 {
        0int
    } else {
        fadd(
            bound_sum(alphas, num_transitions, bcs, cols, i, x, g_trace, k - 1),
            fmul(
                alphas[num_transitions + k - 1].val(),
                quotient(
                    cols[bcs[k - 1].column as int][i].val(),
                    bcs[k - 1].value.val(),
                    fsub(x, fpow(g_trace, bcs[k - 1].row as nat)),
                ),
            ),
        )
    }
}

/// The composition value at row `i` of the extended domain.
pub open spec fn composition_value(
    alphas: Seq<Felt>,
    tvals: Seq<Seq<Felt>>,
    bcs: Seq<BoundaryConstraint>,
    cols: Seq<Seq<Felt>>,
    i: int,
    x: int,
    z_i: int,
    g_trace: int,
    trace_len: int,
) -> int {
    let factor = fmul(fsub(x, fpow(g_trace, (trace_len - 1) as nat)), finv(z_i));
    fadd(
        trans_sum(alphas, tvals, i, factor, tvals.len() as int),
        bound_sum(alphas, tvals.len() as int, bcs, cols, i, x, g_trace, bcs.len() as int),
    )
}

/// Builds the composition column over the extended domain: at every row
/// the challenge-weighted sum of all constraint quotients.
pub fn build_composition(
    alphas: &Vec<Felt>,
    tvals: &Vec<Vec<Felt>>,
    bcs: &Vec<BoundaryConstraint>,
    lde_trace_cols: &Vec<Vec<Felt>>,
    zvec: &Vec<Felt>,
    lde_domain: &EvaluationDomain,
    g_trace: Felt,
    trace_len: u64,
    n: usize,
) -> (r: Vec<Felt>)
    requires
        trace_len >= 1,
        n == lde_domain.size_spec(),
        zvec@.len() == n,
        alphas@.len() == tvals@.len() + bcs@.len(),
        forall|t: int| 0 <= t < tvals@.len() ==> (#[trigger] tvals@[t])@.len() == n,
        forall|b: int|
            0 <= b < bcs@.len() ==> (#[trigger] bcs@[b]).column < lde_trace_cols@.len(),
        forall|c: int| 0 <= c < lde_trace_cols@.len() ==> (#[trigger] lde_trace_cols@[c])@.len() == n,
    ensures
        r@.len() == n,
        forall|i: int|
            0 <= i < n ==> (#[trigger] r@[i]).val() == composition_value(
                alphas@,
                tvals@.map_values(|c: Vec<Felt>| c@),
                bcs@,
                lde_trace_cols@.map_values(|c: Vec<Felt>| c@),
                i,
                lde_domain.element_spec(i as nat),
                zvec@[i].val(),
                g_trace.val(),
                trace_len as int,
            ),
{
    let ghost tview = tvals@.map_values(|c: Vec<Felt>| c@);
    let ghost lview = lde_trace_cols@.map_values(|c: Vec<Felt>| c@);
    let num_t = tvals.len();
    let num_b = bcs.len();
    let num_alphas = alphas.len();
    proof {
        assert(alphas@.len() <= usize::MAX);
    }
    let g_last = g_trace.pow(trace_len - 1);
    let mut out: Vec<Felt> = Vec::new();
    for i in 0..n
        invariant
            trace_len >= 1,
            n == lde_domain.size_spec(),
            zvec@.len() == n,
            num_t == tvals@.len(),
            num_b == bcs@.len(),
            alphas@.len() == num_t + num_b,
            alphas@.len() <= usize::MAX,
            tview == tvals@.map_values(|c: Vec<Felt>| c@),
            lview == lde_trace_cols@.map_values(|c: Vec<Felt>| c@),
            forall|t: int| 0 <= t < tvals@.len() ==> (#[trigger] tvals@[t])@.len() == n,
            forall|b: int|
                0 <= b < bcs@.len() ==> (#[trigger] bcs@[b]).column < lde_trace_cols@.len(),
            forall|c: int|
                0 <= c < lde_trace_cols@.len() ==> (#[trigger] lde_trace_cols@[c])@.len() == n,
            g_last.val() == fpow(g_trace.val(), (trace_len - 1) as nat),
            out@.len() == i,
            forall|a: int|
                0 <= a < i ==> (#[trigger] out@[a]).val() == composition_value(
                    alphas@,
                    tview,
                    bcs@,
                    lview,
                    a,
                    lde_domain.element_spec(a as nat),
                    zvec@[a].val(),
                    g_trace.val(),
                    trace_len as int,
                ),
    {
        let x = lde_domain.element(i as u64);
        let factor = x.sub(g_last).mul(zvec[i].inv());
        let mut tsum = Felt::zero();
        for t in 0..num_t
            invariant
                num_t == tvals@.len(),
                num_b == bcs@.len(),
                alphas@.len() == num_t + num_b,
                i < n,
                tview == tvals@.map_values(|c: Vec<Felt>| c@),
                forall|a: int| 0 <= a < tvals@.len() ==> (#[trigger] tvals@[a])@.len() == n,
                tsum.val() == trans_sum(
                    alphas@,
                    tview,
                    i as int,
                    factor.val(),
                    t as int,
                ),
        {
            tsum = tsum.add(alphas[t].mul(tvals[t][i].mul(factor)));
        }
        let mut bsum = Felt::zero();
        for b in 0..num_b
            invariant
                num_t == tvals@.len(),
                num_b == bcs@.len(),
                alphas@.len() == num_t + num_b,
                alphas@.len() <= usize::MAX,
                i < n,
                x.val() == lde_domain.element_spec(i as nat),
                lview == lde_trace_cols@.map_values(|c: Vec<Felt>| c@),
                forall|a: int|
                    0 <= a < bcs@.len() ==> (#[trigger] bcs@[a]).column < lde_trace_cols@.len(),
                forall|c: int|
                    0 <= c < lde_trace_cols@.len() ==> (#[trigger] lde_trace_cols@[c])@.len() == n,
                bsum.val() == bound_sum(
                    alphas@,
                    num_t as int,
                    bcs@,
                    lview,
                    i as int,
                    x.val(),
                    g_trace.val(),
                    b as int,
                ),
        {
            let bc = &bcs[b];
            let den = x.sub(g_trace.pow(bc.row as u64));
            let q = lde_trace_cols[bc.column][i].sub(bc.value).mul(den.inv());
            bsum = bsum.add(alphas[num_t + b].mul(q));
        }
        out.push(tsum.add(bsum));
    }
    out
}

/// The first `k` trace-quotient summands of the DEEP combination at `x`:
/// for each column, its value against the out-of-domain value, divided by
/// the linear factor at the out-of-domain point, times its coefficient.
pub open spec fn deep_trace_sum(
    row: Seq<Felt>,
    oods: Seq<Felt>,
    gammas: Seq<Felt>,
    x: int,
    zz: int,
    k: int,
) -> int
    decreases k,
{
    if k <= 0 {
        0int
    } else {
        fadd(
            deep_trace_sum(row, oods, gammas, x, zz, k - 1),
            fmul(gammas[k - 1].val(), quotient(row[k - 1].val(), oods[k - 1].val(), fsub(x, zz))),
        )
    }
}

/// The DEEP combination at `x` from the trace row values, the composition
/// value, the out-of-domain values and the drawn coefficients.
pub open spec fn deep_value(
    row: Seq<Felt>,
    comp: Felt,
    ood_z: Seq<Felt>,
    ood_zg: Seq<Felt>,
    comp_z: Felt,
    g1: Seq<Felt>,
    g2: Seq<Felt>,
    g3: Felt,
    x: int,
    z: int,
    zg: int,
) -> int {
    fadd(
        fadd(
            deep_trace_sum(row, ood_z, g1, x, z, row.len() as int),
            deep_trace_sum(row, ood_zg, g2, x, zg, row.len() as int),
        ),
        fmul(g3.val(), quotient(comp.val(), comp_z.val(), fsub(x, z))),
    )
}

/// Computes the DEEP combination at one point from the trace row there,
/// the composition value there, and the out-of-domain data.
pub fn deep_value_at(
    row: &Vec<Felt>,
    comp: Felt,
    ood_z: &Vec<Felt>,
    ood_zg: &Vec<Felt>,
    comp_z: Felt,
    g1: &Vec<Felt>,
    g2: &Vec<Felt>,
    g3: Felt,
    x: Felt,
    z: Felt,
    zg: Felt,
) -> (r: Felt)
    requires
        ood_z@.len() == row@.len(),
        ood_zg@.len() == row@.len(),
        g1@.len() == row@.len(),
        g2@.len() == row@.len(),
    ensures
        r.val() == deep_value(
            row@,
            comp,
            ood_z@,
            ood_zg@,
            comp_z,
            g1@,
            g2@,
            g3,
            x.val(),
            z.val(),
            zg.val(),
        ),
{
    let num_cols = row.len();
    let mut sum_z = Felt::zero();
    let mut sum_zg = Felt::zero();
    for c in 0..num_cols
        invariant
            num_cols == row@.len(),
            ood_z@.len() == row@.len(),
            ood_zg@.len() == row@.len(),
            g1@.len() == row@.len(),
            g2@.len() == row@.len(),
            sum_z.val() == deep_trace_sum(row@, ood_z@, g1@, x.val(), z.val(), c as int),
            sum_zg.val() == deep_trace_sum(row@, ood_zg@, g2@, x.val(), zg.val(), c as int),
    {
        let qz = row[c].sub(ood_z[c]).mul(x.sub(z).inv());
        sum_z = sum_z.add(g1[c].mul(qz));
        let qzg = row[c].sub(ood_zg[c]).mul(x.sub(zg).inv());
        sum_zg = sum_zg.add(g2[c].mul(qzg));
    }
    let qc = comp.sub(comp_z).mul(x.sub(z).inv());
    sum_z.add(sum_zg).add(g3.mul(qc))
}

} // verus!
