use mini_stark::constraint::{Constraint, Element, Term, MatrixGroup};
use mini_stark::matrix::Matrix;
use mini_stark::field::{Felt, FIELD_MODULUS};

fn felts(vals: &[u64]) -> Vec<Felt> {
    vals.iter().map(|v| Felt::new(*v)).collect()
}

#[test]
fn symbolic_evaluation_with_cyclic_next() {
    // One column [1, 2, 3, 4]; constraint: next - curr.
    let m = Matrix::new(vec![felts(&[1, 2, 3, 4])]);
    let c = Constraint::new(vec![
        Term { coeff: Felt::one(), factors: vec![(Element::Next(0), 1)] },
        Term { coeff: Felt::new(FIELD_MODULUS - 1), factors: vec![(Element::Curr(0), 1)] },
    ]);
    let group = MatrixGroup::new(vec![m]);
    let out = group.evaluate_symbolic(&vec![c], &Vec::new(), 1);
    // Rows 0..2 give 1; the last row wraps to 1 - 4 = -3.
    assert_eq!(out.col(0).clone(), vec![
        Felt::one(),
        Felt::one(),
        Felt::one(),
        Felt::new(FIELD_MODULUS - 3),
    ]);
}

#[test]
fn challenges_and_exponents_in_terms() {
    // Constraint: ch0^2 * curr^2 over column [1, 2, 3, 4].
    let m = Matrix::new(vec![felts(&[1, 2, 3, 4])]);
    let c = Constraint::new(vec![Term {
        coeff: Felt::one(),
        factors: vec![(Element::Challenge(0), 2), (Element::Curr(0), 2)],
    }]);
    let group = MatrixGroup::new(vec![m]);
    let out = group.evaluate_symbolic(&vec![c], &felts(&[5]), 1);
    assert_eq!(out.col(0).clone(), felts(&[25, 100, 225, 400]));
}

#[test]
fn group_columns_are_routed_in_declaration_order() {
    let a = Matrix::new(vec![felts(&[1, 1]), felts(&[2, 2])]);
    let b = Matrix::new(vec![felts(&[3, 3])]);
    let group = MatrixGroup::new(vec![a, b]);
    assert_eq!(group.num_cols(), 3);
    assert_eq!(group.get_column(2).clone(), felts(&[3, 3]));
    // A constraint reading the third (global) column sees matrix b.
    let c = Constraint::new(vec![Term {
        coeff: Felt::one(),
        factors: vec![(Element::Curr(2), 1)],
    }]);
    let out = group.evaluate_symbolic(&vec![c], &Vec::new(), 1);
    assert_eq!(out.col(0).clone(), felts(&[3, 3]));
}

#[test]
fn degree_sums_column_exponents_only() {
    let c = Constraint::new(vec![
        Term {
            coeff: Felt::one(),
            factors: vec![(Element::Curr(0), 2), (Element::Next(0), 1), (Element::Challenge(0), 7)],
        },
        Term { coeff: Felt::one(), factors: vec![(Element::Curr(1), 1)] },
    ]);
    assert_eq!(c.degree(), 3);
}
