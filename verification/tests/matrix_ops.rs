use mini_stark::matrix::{Matrix, MatrixError};
use mini_stark::field::Felt;

fn felts(vals: &[u64]) -> Vec<Felt> {
    vals.iter().map(|v| Felt::new(*v)).collect()
}

#[test]
fn from_rows_transposes() {
    let m = Matrix::from_rows(vec![felts(&[1, 2]), felts(&[3, 4]), felts(&[5, 6])]);
    assert_eq!(m.num_rows(), 3);
    assert_eq!(m.num_cols(), 2);
    assert!(!m.is_empty());
    assert_eq!(m.col(0).clone(), felts(&[1, 3, 5]));
    assert_eq!(m.col(1).clone(), felts(&[2, 4, 6]));
    assert_eq!(m.get_row(1).unwrap(), felts(&[3, 4]));
    assert!(m.get_row(3).is_none());
    let rows = m.rows();
    assert_eq!(rows[2], felts(&[5, 6]));
}

#[test]
fn append_and_join_concatenate_columns() {
    let mut a = Matrix::new(vec![felts(&[1, 2])]);
    let b = Matrix::new(vec![felts(&[3, 4]), felts(&[5, 6])]);
    a.append(b);
    assert_eq!(a.num_cols(), 3);
    assert_eq!(a.col(2).clone(), felts(&[5, 6]));
    let j = Matrix::join(vec![
        Matrix::new(vec![felts(&[1, 2])]),
        Matrix::new(vec![felts(&[3, 4])]),
    ]);
    assert_eq!(j.num_cols(), 2);
    assert_eq!(j.col(1).clone(), felts(&[3, 4]));
}

#[test]
fn sum_columns_adds_in_the_field() {
    let m = Matrix::new(vec![felts(&[1, 2, 3]), felts(&[10, 20, 30]), felts(&[100, 200, 300])]);
    let s = m.sum_columns();
    assert_eq!(s.num_cols(), 1);
    assert_eq!(s.col(0).clone(), felts(&[111, 222, 333]));
}

#[test]
fn column_degrees_find_highest_nonzero() {
    let m = Matrix::new(vec![
        felts(&[5, 0, 7, 0]),
        felts(&[0, 0, 0, 0]),
        felts(&[0, 0, 0, 9]),
    ]);
    assert_eq!(m.column_degrees(), vec![2usize, 0, 3]);
}

#[test]
fn into_column_demands_exactly_one() {
    let one = Matrix::new(vec![felts(&[1, 2])]);
    assert_eq!(one.into_column().unwrap(), felts(&[1, 2]));
    let none = Matrix::new(vec![]);
    assert_eq!(none.into_column(), Err(MatrixError::NoColumns));
    let two = Matrix::new(vec![felts(&[1]), felts(&[2])]);
    assert_eq!(two.into_column(), Err(MatrixError::ManyColumns));
}

#[test]
fn evaluate_at_uses_each_column_as_coefficients() {
    let m = Matrix::new(vec![felts(&[1, 1]), felts(&[0, 2])]);
    let vals = m.evaluate_at(Felt::new(3));
    // 1 + 1*3 = 4 and 0 + 2*3 = 6.
    assert_eq!(vals, felts(&[4, 6]));
}
