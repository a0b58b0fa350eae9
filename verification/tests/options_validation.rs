use mini_stark::ProofOptions;

#[test]
fn zero_queries_rejected() {
    assert!(ProofOptions::try_new(0, 8, 0, 2, 8).is_none());
}

#[test]
fn non_power_of_two_blowup_rejected() {
    assert!(ProofOptions::try_new(20, 3, 0, 2, 8).is_none());
}

#[test]
fn oversized_grinding_rejected() {
    assert!(ProofOptions::try_new(20, 8, 33, 2, 8).is_none());
}

#[test]
fn bounds_of_the_accepted_ranges() {
    assert!(ProofOptions::try_new(1, 2, 0, 2, 1).is_some());
    assert!(ProofOptions::try_new(128, 64, 32, 2, 255).is_some());
    assert!(ProofOptions::try_new(129, 64, 32, 2, 255).is_none());
    assert!(ProofOptions::try_new(128, 128, 32, 2, 255).is_none());
    assert!(ProofOptions::try_new(20, 8, 0, 3, 8).is_none());
    assert!(ProofOptions::try_new(20, 8, 0, 2, 0).is_none());
}

#[test]
fn valid_options_keep_their_fields() {
    let o = ProofOptions::try_new(20, 8, 0, 2, 8).unwrap();
    assert_eq!(o.num_queries, 20);
    assert_eq!(o.lde_blowup_factor, 8);
    assert_eq!(o.grinding_factor, 0);
    assert_eq!(o.fri_folding_factor, 2);
    assert_eq!(o.fri_max_remainder_size, 8);
    assert!(o.is_valid());
    let p = ProofOptions::new(20, 8, 0, 2, 8);
    assert_eq!(o, p);
    let fri = o.into_fri_options();
    assert_eq!(fri.lde_blowup_factor, 8);
    assert_eq!(fri.folding_factor, 2);
    assert_eq!(fri.max_remainder_size, 8);
}
