use mini_stark::merkle::MerkleTree;
use mini_stark::coin::PublicCoin;
use mini_stark::matrix::Matrix;
use mini_stark::field::Felt;

fn sample_leaves() -> Vec<Vec<u8>> {
    (0u8..8).map(|i| vec![i; 32]).collect()
}

#[test]
fn honest_opening_verifies() {
    let tree = MerkleTree::new(sample_leaves());
    let root = tree.root();
    for i in 0..8usize {
        let path = tree.open(i);
        let leaf = vec![i as u8; 32];
        assert!(MerkleTree::verify(&root, i, &leaf, &path));
    }
}

#[test]
fn tampered_leaf_or_index_fails() {
    let tree = MerkleTree::new(sample_leaves());
    let root = tree.root();
    let path = tree.open(3);
    let mut wrong_leaf = vec![3u8; 32];
    wrong_leaf[0] = 99;
    assert!(!MerkleTree::verify(&root, 3, &wrong_leaf, &path));
    let leaf = vec![3u8; 32];
    assert!(!MerkleTree::verify(&root, 2, &leaf, &path));
}

#[test]
fn single_cell_change_changes_committed_root() {
    // Commitment sensitivity: mutating exactly one trace cell must change
    // the root in practice.
    let rows: Vec<Vec<Felt>> = (0u64..8).map(|i| vec![Felt::new(i), Felt::new(i * i)]).collect();
    let m = Matrix::from_rows(rows.clone());
    let root = m.commit_to_rows().root();
    for i in 0..8usize {
        for j in 0..2usize {
            let mut mutated = rows.clone();
            mutated[i][j] = mutated[i][j].add(Felt::one());
            let m2 = Matrix::from_rows(mutated);
            assert_ne!(m2.commit_to_rows().root(), root);
        }
    }
}

#[test]
fn draw_query_positions_deterministic() {
    // Two coins with identical transcript histories draw identical
    // position sequences.
    let seed = vec![1u8, 2, 3, 4];
    let mut a = PublicCoin::new(&seed);
    let mut b = PublicCoin::new(&seed);
    let commitment = vec![9u8; 32];
    a.reseed(&commitment);
    b.reseed(&commitment);
    let pa = a.draw_query_positions(20, 64);
    let pb = b.draw_query_positions(20, 64);
    assert_eq!(pa, pb);
    assert_eq!(pa.len(), 20);
    for (i, x) in pa.iter().enumerate() {
        assert!(*x < 64);
        for y in pa.iter().skip(i + 1) {
            assert_ne!(x, y);
        }
    }
}

#[test]
fn differing_history_changes_positions() {
    let seed = vec![1u8, 2, 3, 4];
    let mut a = PublicCoin::new(&seed);
    let mut b = PublicCoin::new(&seed);
    a.reseed(&vec![9u8; 32]);
    b.reseed(&vec![8u8; 32]);
    let pa = a.draw_query_positions(20, 64);
    let pb = b.draw_query_positions(20, 64);
    assert_ne!(pa, pb);
}

#[test]
fn challenges_advance_the_counter() {
    let seed = vec![7u8];
    let mut a = PublicCoin::new(&seed);
    let x = a.draw_felt();
    let y = a.draw_felt();
    assert_ne!(x, y);
    // Reseeding changes subsequent draws.
    let mut b = PublicCoin::new(&seed);
    b.reseed(&vec![1u8]);
    assert_ne!(b.draw_felt(), x);
}

#[test]
fn grinding_meets_its_predicate() {
    let coin = PublicCoin::new(&vec![5u8, 6, 7]);
    let nonce = coin.grind(8).unwrap();
    assert!(coin.check_pow(nonce, 8));
    // Difficulty zero accepts the very first nonce.
    assert_eq!(coin.grind(0).unwrap(), 0);
}
