use mini_stark::matrix::Matrix;
use mini_stark::domain::EvaluationDomain;
use mini_stark::field::Felt;
use mini_stark::utils::{horner_evaluate, ceil_power_of_two, interleave, fill_vanishing_polynomial,
    conjectured_security_level};

fn felts(vals: &[u64]) -> Vec<Felt> {
    vals.iter().map(|v| Felt::new(*v)).collect()
}

#[test]
fn evaluate_interpolate_round_trip_subgroup() {
    // For any vector of a domain's size, evaluate(interpolate(v)) == v.
    let v = felts(&[3, 1, 4, 1, 5, 9, 2, 6]);
    let d = EvaluationDomain::new_subgroup(8);
    let m = Matrix::new(vec![v.clone()]);
    let round = m.interpolate(&d).evaluate(&d);
    assert_eq!(round.col(0).clone(), v);
}

#[test]
fn evaluate_interpolate_round_trip_coset() {
    let v = felts(&[10, 20, 30, 40, 50, 60, 70, 80]);
    let d = EvaluationDomain::new(8, Felt::new(7));
    let m = Matrix::new(vec![v.clone()]);
    let round = m.interpolate(&d).evaluate(&d);
    assert_eq!(round.col(0).clone(), v);
    // And the other composition direction as well.
    let coeffs = felts(&[1, 2, 3, 4, 0, 0, 0, 0]);
    let c = Matrix::new(vec![coeffs.clone()]);
    let back = c.evaluate(&d).interpolate(&d);
    assert_eq!(back.col(0).clone(), coeffs);
}

#[test]
fn evaluation_matches_horner() {
    let coeffs = felts(&[5, 0, 2, 1]);
    let poly = Matrix::new(vec![coeffs.clone()]);
    let d = EvaluationDomain::new_subgroup(4);
    let evals = poly.evaluate(&d);
    for i in 0..4u64 {
        let x = d.element(i);
        assert_eq!(evals.col(0)[i as usize], horner_evaluate(&coeffs, &x));
    }
    // Exact value at x = 2: 5 + 0*2 + 2*4 + 1*8 = 21.
    assert_eq!(horner_evaluate(&coeffs, &Felt::new(2)), Felt::new(21));
}

#[test]
fn vanishing_polynomial_zero_exactly_on_the_trace_domain() {
    let trace_domain = EvaluationDomain::new_subgroup(8);
    // Over the trace domain itself every value vanishes.
    let mut on_trace = vec![Felt::zero(); 8];
    fill_vanishing_polynomial(&mut on_trace, &trace_domain, &trace_domain);
    for v in &on_trace {
        assert!(v.is_zero());
    }
    // Over a disjoint coset no value vanishes.
    let lde_domain = EvaluationDomain::new(32, Felt::new(7));
    let mut on_coset = vec![Felt::zero(); 32];
    fill_vanishing_polynomial(&mut on_coset, &trace_domain, &lde_domain);
    for v in &on_coset {
        assert!(!v.is_zero());
    }
}

#[test]
fn ceil_power_of_two_rounds_up() {
    assert_eq!(ceil_power_of_two(0), 1);
    assert_eq!(ceil_power_of_two(1), 1);
    assert_eq!(ceil_power_of_two(5), 8);
    assert_eq!(ceil_power_of_two(8), 8);
    assert_eq!(ceil_power_of_two(9), 16);
}

#[test]
fn interleave_regroups_by_stride() {
    let source = felts(&[0, 1, 2, 3, 4, 5]);
    let grouped = interleave(&source, 2);
    // n = 3: group i holds source[i] and source[i + 3].
    assert_eq!(grouped.len(), 3);
    assert_eq!(grouped[0], felts(&[0, 3]));
    assert_eq!(grouped[1], felts(&[1, 4]));
    assert_eq!(grouped[2], felts(&[2, 5]));
}

#[test]
fn security_level_formula() {
    // lde domain = 8 * 8 = 64 -> 6 bits; field security 64 - 6 = 58;
    // query security 20 * 3 + 0 = 60; collision 128; min is 58.
    assert_eq!(conjectured_security_level(64, 128, 8, 8, 20, 0), 58);
    // Raising grinding and queries makes collision resistance the cap.
    assert_eq!(conjectured_security_level(64, 40, 8, 8, 20, 0), 40);
}
