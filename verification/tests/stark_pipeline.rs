use mini_stark::{Air, Constraint, Element, Felt, Matrix, ProofOptions, Term, TraceInfo};
use mini_stark::air::BoundaryConstraint;
use mini_stark::prover::{prove, ProvingError};
use mini_stark::verification::{verify, VerificationError};
use mini_stark::domain::EvaluationDomain;
use mini_stark::fri::fold_once;
use mini_stark::field::FIELD_MODULUS;

fn felts(vals: &[u64]) -> Vec<Felt> {
    vals.iter().map(|v| Felt::new(*v)).collect()
}

/// An eight-step Fibonacci computation in two registers: the recurrence
/// `col[i+1] = col[i] + col[i-1]` encoded as `a' = b`, `b' = a + b` with
/// both registers fixed to one at the first step.
fn fibonacci_air(options: ProofOptions) -> Air {
    let minus_one = Felt::new(FIELD_MODULUS - 1);
    let step_a = Constraint::new(vec![
        Term { coeff: Felt::one(), factors: vec![(Element::Next(0), 1)] },
        Term { coeff: minus_one, factors: vec![(Element::Curr(1), 1)] },
    ]);
    let step_b = Constraint::new(vec![
        Term { coeff: Felt::one(), factors: vec![(Element::Next(1), 1)] },
        Term { coeff: minus_one, factors: vec![(Element::Curr(0), 1)] },
        Term { coeff: minus_one, factors: vec![(Element::Curr(1), 1)] },
    ]);
    let boundaries = vec![
        BoundaryConstraint { column: 0, row: 0, value: Felt::one() },
        BoundaryConstraint { column: 1, row: 0, value: Felt::one() },
    ];
    Air::new(TraceInfo::new(8, 2, Vec::new()), options, vec![step_a, step_b], boundaries)
}

fn fibonacci_trace() -> Matrix {
    Matrix::new(vec![
        felts(&[1, 1, 2, 3, 5, 8, 13, 21]),
        felts(&[1, 2, 3, 5, 8, 13, 21, 34]),
    ])
}

#[test]
fn fibonacci_proof_verifies() {
    let options = ProofOptions::new(20, 8, 0, 2, 8);
    let air = fibonacci_air(options);
    let trace = fibonacci_trace();
    let proof = prove(&air, &trace, &vec![1, 2, 3]).unwrap();
    assert!(verify(&air, &proof).is_ok());
    // 64-bit field minus 6 domain bits caps the level at 58.
    assert_eq!(proof.conjectured_security_level(), 58);
}

#[test]
fn fibonacci_with_grinding_verifies() {
    let options = ProofOptions::new(10, 8, 4, 2, 8);
    let air = fibonacci_air(options);
    let trace = fibonacci_trace();
    let proof = prove(&air, &trace, &vec![7]).unwrap();
    assert!(verify(&air, &proof).is_ok());
}

#[test]
fn mutated_trace_cell_is_rejected_by_the_prover() {
    let options = ProofOptions::new(20, 8, 0, 2, 8);
    let air = fibonacci_air(options);
    let mut cols = vec![
        felts(&[1, 1, 2, 3, 5, 8, 13, 21]),
        felts(&[1, 2, 3, 5, 8, 13, 21, 34]),
    ];
    cols[0][3] = Felt::new(99);
    let trace = Matrix::new(cols);
    let result = prove(&air, &trace, &vec![1, 2, 3]);
    assert!(matches!(result, Err(ProvingError::UnsatisfiedConstraint(_))));
}

#[test]
fn tampered_commitment_is_rejected() {
    let options = ProofOptions::new(20, 8, 0, 2, 8);
    let air = fibonacci_air(options);
    let mut proof = prove(&air, &fibonacci_trace(), &vec![1, 2, 3]).unwrap();
    proof.base_trace_commitment[0] ^= 1;
    assert!(verify(&air, &proof).is_err());
}

#[test]
fn tampered_ood_evaluation_is_rejected() {
    let options = ProofOptions::new(20, 8, 0, 2, 8);
    let air = fibonacci_air(options);
    let mut proof = prove(&air, &fibonacci_trace(), &vec![1, 2, 3]).unwrap();
    proof.ood_constraint_evaluations[0] = proof.ood_constraint_evaluations[0].add(Felt::one());
    assert_eq!(verify(&air, &proof), Err(VerificationError::InconsistentOodIdentity));
}

#[test]
fn tampered_trace_opening_is_rejected() {
    let options = ProofOptions::new(20, 8, 0, 2, 8);
    let air = fibonacci_air(options);
    let mut proof = prove(&air, &fibonacci_trace(), &vec![1, 2, 3]).unwrap();
    proof.trace_queries.base_rows[0][0] = proof.trace_queries.base_rows[0][0].add(Felt::one());
    assert!(matches!(
        verify(&air, &proof),
        Err(VerificationError::InvalidMerkleOpening(_))
    ));
}

#[test]
fn tampered_remainder_is_rejected() {
    let options = ProofOptions::new(20, 8, 0, 2, 8);
    let air = fibonacci_air(options);
    let mut proof = prove(&air, &fibonacci_trace(), &vec![1, 2, 3]).unwrap();
    let last = proof.fri_proof.remainder.len() - 1;
    proof.fri_proof.remainder[last] = proof.fri_proof.remainder[last].add(Felt::one());
    assert!(verify(&air, &proof).is_err());
}

#[test]
fn fri_fold_halves_the_degree() {
    // Evaluations of a genuine degree-three polynomial over a coset of
    // sixteen points fold into evaluations of a degree-one polynomial.
    let domain = EvaluationDomain::new(16, Felt::new(7));
    let coeffs = felts(&[9, 4, 2, 1, 0, 0, 0, 0, 0, 0, 0, 0, 0, 0, 0, 0]);
    let evals = Matrix::new(vec![coeffs]).evaluate(&domain);
    let beta = Felt::new(12345);
    let folded = fold_once(evals.col(0), &domain, beta);
    let folded_domain = domain.fold();
    let folded_coeffs = Matrix::new(vec![folded]).interpolate(&folded_domain);
    let degrees = folded_coeffs.column_degrees();
    assert_eq!(degrees[0], 1);
}

#[test]
fn proofs_are_deterministic() {
    let options = ProofOptions::new(20, 8, 0, 2, 8);
    let air = fibonacci_air(options);
    let a = prove(&air, &fibonacci_trace(), &vec![1, 2, 3]).unwrap();
    let b = prove(&air, &fibonacci_trace(), &vec![1, 2, 3]).unwrap();
    assert_eq!(a.base_trace_commitment, b.base_trace_commitment);
    assert_eq!(a.composition_trace_commitment, b.composition_trace_commitment);
    assert_eq!(a.pow_nonce, b.pow_nonce);
}
