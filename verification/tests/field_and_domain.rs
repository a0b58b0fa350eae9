use mini_stark::field::{Felt, FIELD_MODULUS, TWO_ADIC_ROOT_OF_UNITY};
use mini_stark::domain::EvaluationDomain;

#[test]
fn field_add_wraps_at_modulus() {
    let a = Felt::new(FIELD_MODULUS - 1);
    let b = Felt::new(1);
    assert_eq!(a.add(b), Felt::new(0));
    assert_eq!(a.add(b).as_u64(), 0);
}

#[test]
fn field_sub_wraps_below_zero() {
    let a = Felt::new(3);
    let b = Felt::new(5);
    assert_eq!(a.sub(b), Felt::new(FIELD_MODULUS - 2));
}

#[test]
fn field_mul_exact_value() {
    // (2^32) * (2^32) = 2^64 = p + (2^32 - 1), so the product reduces to 2^32 - 1.
    let a = Felt::new(1u64 << 32);
    assert_eq!(a.mul(a), Felt::new((1u64 << 32) - 1));
    assert_eq!(Felt::new(7).mul(Felt::new(6)), Felt::new(42));
}

#[test]
fn field_neg_and_zero() {
    assert_eq!(Felt::new(5).neg().add(Felt::new(5)), Felt::zero());
    assert_eq!(Felt::zero().neg(), Felt::zero());
    assert!(Felt::zero().is_zero());
    assert!(!Felt::one().is_zero());
}

#[test]
fn field_pow_and_inverse() {
    assert_eq!(Felt::new(2).pow(10), Felt::new(1024));
    assert_eq!(Felt::new(3).pow(0), Felt::one());
    let a = Felt::new(123456789);
    assert_eq!(a.mul(a.inv()), Felt::one());
    assert_eq!(Felt::zero().inv(), Felt::zero());
}

#[test]
fn two_adic_root_has_order_two_to_32() {
    let root = Felt::new(TWO_ADIC_ROOT_OF_UNITY);
    assert_eq!(root.pow(1u64 << 32), Felt::one());
    // Half the order gives -1, not 1: the root is primitive.
    assert_eq!(root.pow(1u64 << 31), Felt::new(FIELD_MODULUS - 1));
}

#[test]
fn domain_elements_form_a_cycle() {
    let d = EvaluationDomain::new_subgroup(8);
    let g = d.generator();
    assert_eq!(g.pow(8), Felt::one());
    assert_ne!(g.pow(4), Felt::one());
    assert_eq!(d.element(0), Felt::one());
    assert_eq!(d.element(3), g.pow(3));
    // A coset-shifted domain scales every element by the offset.
    let c = EvaluationDomain::new(8, Felt::new(7));
    assert_eq!(c.element(2), Felt::new(7).mul(g.pow(2)));
}

#[test]
fn folded_domain_squares_generator_and_offset() {
    let d = EvaluationDomain::new(8, Felt::new(7));
    let f = d.fold();
    assert_eq!(f.size(), 4);
    assert_eq!(f.generator(), d.generator().mul(d.generator()));
    assert_eq!(f.offset(), Felt::new(49));
}
