//! The FRI low-degree test: a commit phase that repeatedly folds an
//! evaluation vector in radix-two steps (committing each layer and drawing
//! the folding challenge from the public coin), and a query phase of
//! authenticated spot-checks that the verifier replays locally.
//!
//! One radix-two fold sends the evaluations of `f` over a domain of size
//! `m` to the evaluations of `f_even + beta * f_odd` over the squared
//! domain of size `m / 2`; a degree bound `d` becomes `d / 2`. Folding
//! stops once the layer fits the configured remainder bound, and the
//! remainder is sent in the clear.

use vstd::prelude::*;
use vstd::bytes::spec_u64_to_le_bytes;
use crate::field::{Felt, p, fadd, fsub, fmul, fpow, finv};
use crate::domain::EvaluationDomain;
use crate::matrix::Matrix;
use crate::merkle::{MerkleTree, merkle_verify, merkle_root, merkle_path, is_power_of_two, digests_view};
use crate::hashing::sha256_of;

verus! {

/// The parameters of the low-degree test.
#[derive(Clone, Copy, Debug, PartialEq, Eq, Structural)]
pub struct FriOptions {
    pub lde_blowup_factor: u64,
    pub folding_factor: u64,
    pub max_remainder_size: u64,
}

impl FriOptions {
    /// Bundles the low-degree-test parameters.
    pub fn new(lde_blowup_factor: u64, folding_factor: u64, max_remainder_size: u64) -> (r:
        FriOptions)
        ensures
            r.lde_blowup_factor == lde_blowup_factor,
            r.folding_factor == folding_factor,
            r.max_remainder_size == max_remainder_size,
    {
        FriOptions { lde_blowup_factor, folding_factor, max_remainder_size }
    }
}

/// One radix-two fold of the pair `(a, b)` of evaluations at `x` and `-x`:
/// `(a + b + beta * (a - b) / x) / 2`, the evaluation at `x^2` of
/// `f_even + beta * f_odd`.
pub open spec fn fold_pair(a: int, b: int, x: int, beta: int) -> int {
    fmul(fadd(fadd(a, b), fmul(beta, fmul(fsub(a, b), finv(x)))), finv(2))
}

/// The folded evaluation at reduced index `j` of the layer `v` over the
/// domain with offset `o` and generator `g`.
pub open spec fn fold_value(v: Seq<Felt>, o: int, g: int, beta: int, j: int) -> int {
    fold_pair(
        v[j].val(),
        v[j + v.len() as int / 2].val(),
        fmul(o, fpow(g, j as nat)),
        beta,
    )
}

/// The leaf digest that commits one layer evaluation.
pub open spec fn felt_leaf(v: Felt) -> Seq<u8> {
    sha256_of(spec_u64_to_le_bytes(v.val() as u64))
}

/// Folds an evaluation layer once: the result has half the length and
/// holds, at every reduced index, exactly the radix-two fold of the layer.
pub fn fold_once(evals: &Vec<Felt>, domain: &EvaluationDomain, beta: Felt) -> (r: Vec<Felt>)
    requires
        evals@.len() == domain.size_spec(),
        evals@.len() >= 2,
        evals@.len() % 2 == 0,
    ensures
        r@.len() == evals@.len() / 2,
        forall|j: int|
            0 <= j < r@.len() ==> (#[trigger] r@[j]).val() == fold_value(
                evals@,
                domain.offset_spec(),
                domain.generator_spec(),
                beta.val(),
                j,
            ),
{
    let half = evals.len() / 2;
    let o = domain.offset();
    let g = domain.generator();
    let two_inv = Felt::new(2).inv();
    proof {
        vstd::arithmetic::div_mod::lemma_small_mod(2nat, p() as nat);
    }
    let mut out: Vec<Felt> = Vec::new();
    for j in 0..half
        invariant
            half == evals@.len() / 2,
            evals@.len() <= usize::MAX,
            evals@.len() == domain.size_spec(),
            evals@.len() % 2 == 0,
            o.val() == domain.offset_spec(),
            g.val() == domain.generator_spec(),
            two_inv.val() == finv(2),
            out@.len() == j,
            forall|a: int|
                0 <= a < j ==> (#[trigger] out@[a]).val() == fold_value(
                    evals@,
                    domain.offset_spec(),
                    domain.generator_spec(),
                    beta.val(),
                    a,
                ),
    {
        let a = evals[j];
        let b = evals[j + half];
        let x = o.mul(g.pow(j as u64));
        let folded = a.add(b).add(beta.mul(a.sub(b).mul(x.inv()))).mul(two_inv);
        out.push(folded);
    }
    out
}

/// Commits one evaluation layer: the Merkle tree over one leaf digest per
/// evaluation.
pub fn commit_layer(evals: &Vec<Felt>) -> (r: MerkleTree)
    requires
        is_power_of_two(evals@.len() as int),
    ensures
        r.wf(),
        r.leaves().len() == evals@.len(),
        forall|i: int|
            0 <= i < evals@.len() ==> (#[trigger] r.leaves()[i]) == felt_leaf(evals@[i]),
{
    let mut col: Vec<Felt> = Vec::new();
    let n = evals.len();
    for i in 0..n
        invariant
            n == evals@.len(),
            col@.len() == i,
            forall|a: int| 0 <= a < i ==> (#[trigger] col@[a]) == evals@[a],
    {
        col.push(evals[i]);
    }
    let m = Matrix::new(vec![col]);
    proof {
        assert(m.columns()[0] =~= evals@);
        assert(m.num_rows_spec() == evals@.len());
    }
    let tree = m.commit_to_rows();
    proof {
        assert forall|i: int| 0 <= i < evals@.len() implies (#[trigger] tree.leaves()[i])
            == felt_leaf(evals@[i]) by {
            let row = crate::matrix::row_of(m.columns(), i);
            assert(row.len() == 1);
            assert(row[0] == evals@[i]);
            assert(row.last() == evals@[i]);
            assert(row.drop_last() =~= Seq::<Felt>::empty());
            assert(crate::matrix::row_bytes(Seq::<Felt>::empty()) == Seq::<u8>::empty());
            assert(crate::matrix::row_bytes(row) == Seq::<u8>::empty() + spec_u64_to_le_bytes(
                evals@[i].val() as u64,
            ));
            assert(Seq::<u8>::empty() + spec_u64_to_le_bytes(evals@[i].val() as u64)
                =~= spec_u64_to_le_bytes(evals@[i].val() as u64));
        }
    }
    tree
}

/// The offset or generator of the domain after `l` radix-two folds: the
/// value squared `l` times.
pub open spec fn iter_square(x: int, l: nat) -> int
    decreases l,
{
    if l == 0 {
        x
    } else {
        fmul(iter_square(x, (l - 1) as nat), iter_square(x, (l - 1) as nat))
    }
}

/// The prover's commit-phase output: every evaluation layer, the Merkle
/// tree and root of each committed layer, the drawn folding challenges,
/// and the remainder (the last layer, sent in the clear).
pub struct FriCommitPhase {
    pub layers: Vec<Vec<Felt>>,
    pub trees: Vec<MerkleTree>,
    pub commitments: Vec<Vec<u8>>,
    pub betas: Vec<Felt>,
}

impl FriCommitPhase {
    /// Structural soundness of a commit phase built over a domain with
    /// offset `o`, generator `g` and `size` points: layer zero is the
    /// input; every next layer is the radix-two fold of the one before
    /// under the matching folding challenge; every committed layer's tree
    /// binds exactly its evaluations; the last layer fits the remainder
    /// bound.
    pub open spec fn wf(self, o: int, g: int, size: int, max_remainder: int) -> bool {
        let num_folds = self.betas@.len() as int;
        &&& self.layers@.len() == num_folds + 1
        &&& self.trees@.len() == num_folds
        &&& self.commitments@.len() == num_folds
        &&& self.layers@[0]@.len() == size
        &&& forall|l: int|
            0 <= l < num_folds ==> (#[trigger] self.layers@[l]@).len() >= 2
                && self.layers@[l]@.len() % 2 == 0
                && self.layers@[l + 1]@.len() == self.layers@[l]@.len() / 2
        &&& forall|l: int, j: int|
            0 <= l < num_folds && 0 <= j < self.layers@[l + 1]@.len()
                ==> (#[trigger] self.layers@[l + 1]@[j]).val() == fold_value(
                self.layers@[l]@,
                iter_square(o, l as nat),
                iter_square(g, l as nat),
                self.betas@[l].val(),
                j,
            )
        &&& forall|l: int|
            0 <= l < num_folds ==> (#[trigger] self.trees@[l]).wf() && self.trees@[l].leaves()
                == Seq::new(self.layers@[l]@.len(), |i: int| felt_leaf(self.layers@[l]@[i]))
                && self.commitments@[l]@ == merkle_root(self.trees@[l].leaves())
        &&& self.layers@[num_folds]@.len() <= max_remainder
    }

    /// The remainder: the evaluations of the last layer.
    pub open spec fn remainder_spec(self) -> Seq<Felt> {
        self.layers@[self.layers@.len() - 1]@
    }
}

/// The hash-chain state of the coin after it has absorbed the first `l`
/// layer commitments, starting from `seed0`.
pub open spec fn fri_seed(seed0: Seq<u8>, commitments: Seq<Vec<u8>>, l: int) -> Seq<u8>
    decreases l,
{
    if l <= 0 {
        seed0
    } else {
        sha256_of(fri_seed(seed0, commitments, l - 1) + commitments[l - 1]@)
    }
}

/// Appending a commitment leaves the earlier chain states unchanged.
proof fn lemma_fri_seed_push(seed0: Seq<u8>, commitments: Seq<Vec<u8>>, x: Vec<u8>, l: int)
    requires
        0 <= l <= commitments.len(),
    ensures
        fri_seed(seed0, commitments.push(x), l) == fri_seed(seed0, commitments, l),
    decreases l,
{
    if l > 0 {
        lemma_fri_seed_push(seed0, commitments, x, l - 1);
    }
}

/// The FRI commit phase: folds the input evaluations in radix-two steps
/// until they fit the remainder bound, committing every folded layer and
/// reseeding the coin with each commitment before drawing the next
/// folding challenge from it. Every folding challenge is the coin's first
/// draw after absorbing that layer's root, and the coin ends in the state
/// after the last absorbed commitment. The fold width is fixed at two:
/// a radix-`2^k` fold is exactly `k` of these steps, each under its own
/// challenge.
pub fn fri_commit(
    evals: Vec<Felt>,
    domain: EvaluationDomain,
    max_remainder_size: u64,
    coin: &mut crate::coin::PublicCoin,
) -> (r: FriCommitPhase)
    requires
        evals@.len() == domain.size_spec(),
        is_power_of_two(domain.size_spec() as int),
        1 <= max_remainder_size <= usize::MAX,
    ensures
        r.wf(
            domain.offset_spec(),
            domain.generator_spec(),
            domain.size_spec() as int,
            max_remainder_size as int,
        ),
        r.layers@[0]@ == evals@,
        forall|l: int|
            0 <= l < r.betas@.len() ==> (#[trigger] r.betas@[l]).val() == crate::coin::challenge_felt(
                fri_seed(old(coin).seed(), r.commitments@, l + 1),
                1,
            ),
        final(coin).seed() == fri_seed(old(coin).seed(), r.commitments@, r.betas@.len() as int),
        r.betas@.len() > 0 ==> final(coin).counter() == 1,
        r.betas@.len() == 0 ==> final(coin).counter() == old(coin).counter(),
{
    let ghost o0 = domain.offset_spec();
    let ghost g0 = domain.generator_spec();
    let ghost size0 = domain.size_spec() as int;
    let ghost seed0 = coin.seed();
    let ghost ctr0 = coin.counter();
    let mut layers: Vec<Vec<Felt>> = Vec::new();
    let mut trees: Vec<MerkleTree> = Vec::new();
    let mut commitments: Vec<Vec<u8>> = Vec::new();
    let mut betas: Vec<Felt> = Vec::new();
    let mut cur_domain = domain;
    let ghost evals0 = evals@;
    layers.push(evals);
    while layers[layers.len() - 1].len() > max_remainder_size as usize
        invariant
            1 <= max_remainder_size <= usize::MAX,
            layers@.len() == betas@.len() + 1,
            trees@.len() == betas@.len(),
            commitments@.len() == betas@.len(),
            layers@[0]@ == evals0,
            layers@[0]@.len() == size0,
            cur_domain.size_spec() == layers@[layers@.len() - 1]@.len(),
            is_power_of_two(cur_domain.size_spec() as int),
            cur_domain.offset_spec() == iter_square(o0, betas@.len()),
            cur_domain.generator_spec() == iter_square(g0, betas@.len()),
            forall|l: int|
                0 <= l < betas@.len() ==> (#[trigger] layers@[l]@).len() >= 2
                    && layers@[l]@.len() % 2 == 0
                    && layers@[l + 1]@.len() == layers@[l]@.len() / 2,
            forall|l: int, j: int|
                0 <= l < betas@.len() && 0 <= j < layers@[l + 1]@.len()
                    ==> (#[trigger] layers@[l + 1]@[j]).val() == fold_value(
                    layers@[l]@,
                    iter_square(o0, l as nat),
                    iter_square(g0, l as nat),
                    betas@[l].val(),
                    j,
                ),
            forall|l: int|
                0 <= l < betas@.len() ==> (#[trigger] trees@[l]).wf() && trees@[l].leaves()
                    == Seq::new(layers@[l]@.len(), |i: int| felt_leaf(layers@[l]@[i]))
                    && commitments@[l]@ == merkle_root(trees@[l].leaves()),
            coin.seed() == fri_seed(seed0, commitments@, betas@.len() as int),
            betas@.len() > 0 ==> coin.counter() == 1,
            betas@.len() == 0 ==> coin.counter() == ctr0,
            forall|l: int|
                0 <= l < betas@.len() ==> (#[trigger] betas@[l]).val()
                    == crate::coin::challenge_felt(fri_seed(seed0, commitments@, l + 1), 1),
        decreases layers@[layers@.len() - 1]@.len(),
    {
        let top = layers.len() - 1;
        let cur_len = layers[top].len();
        proof {
            assert(cur_len >= 2);
            assert(cur_len % 2 == 0);
        }
        let tree = commit_layer(&layers[top]);
        let root = tree.root();
        let ghost commitments0 = commitments@;
        let ghost num0 = betas@.len() as int;
        coin.reseed(&root);
        let beta = coin.draw_felt();
        let folded = fold_once(&layers[top], &cur_domain, beta);
        cur_domain = cur_domain.fold();
        trees.push(tree);
        commitments.push(root);
        betas.push(beta);
        layers.push(folded);
        proof {
            assert(layers@[layers@.len() - 1]@.len() == cur_len / 2);
            assert forall|l: int| 0 <= l <= num0 implies fri_seed(seed0, commitments@, l)
                == fri_seed(seed0, commitments0, l) by {
                assert(commitments@ =~= commitments0.push(root));
                lemma_fri_seed_push(seed0, commitments0, root, l);
            }
            assert(fri_seed(seed0, commitments@, num0 + 1) == sha256_of(
                fri_seed(seed0, commitments0, num0) + root@,
            ));
        }
    }
    FriCommitPhase { layers, trees, commitments, betas }
}

} // verus!

verus! {

/// One per-layer query opening: the two evaluations of the fold pair at
/// the query's reduced index, each with its authentication path.
pub struct FriQueryLayer {
    pub value_low: Felt,
    pub value_high: Felt,
    pub path_low: Vec<Vec<u8>>,
    pub path_high: Vec<Vec<u8>>,
}

/// Whether one query's fold chain replays correctly from layer `l` on:
/// at every layer both openings authenticate against that layer's
/// commitment, the opening on the query's side equals the value expected
/// from the fold so far, and the chain ends on the disclosed remainder.
pub open spec fn chain_ok(
    qlayers: Seq<FriQueryLayer>,
    commitments: Seq<Seq<u8>>,
    betas: Seq<Felt>,
    l: int,
    pos: int,
    size: int,
    o: int,
    g: int,
    expected: int,
    remainder: Seq<Felt>,
) -> bool
    decreases qlayers.len() - l,
{
    if l < 0 || l >= qlayers.len() {
        0 <= pos < remainder.len() && remainder[pos].val() == expected
    } else {
        let h = size / 2;
        let j = pos % h;
        let q = qlayers[l];
        &&& size >= 2
        &&& size % 2 == 0
        &&& merkle_verify(commitments[l], j, felt_leaf(q.value_low), digests_view(q.path_low@))
        &&& merkle_verify(
            commitments[l],
            j + h,
            felt_leaf(q.value_high),
            digests_view(q.path_high@),
        )
        &&& (if pos < h {
            q.value_low.val() == expected
        } else {
            q.value_high.val() == expected
        })
        &&& chain_ok(
            qlayers,
            commitments,
            betas,
            l + 1,
            j,
            h,
            fmul(o, o),
            fmul(g, g),
            fold_pair(
                q.value_low.val(),
                q.value_high.val(),
                fmul(o, fpow(g, j as nat)),
                betas[l].val(),
            ),
            remainder,
        )
    }
}

/// Replays one query's fold chain against the layer commitments, the
/// folding challenges and the remainder; accepts exactly when the whole
/// chain checks out.
pub fn verify_query_chain(
    qlayers: &Vec<FriQueryLayer>,
    commitments: &Vec<Vec<u8>>,
    betas: &Vec<Felt>,
    position: u64,
    domain: &EvaluationDomain,
    expected0: Felt,
    remainder: &Vec<Felt>,
) -> (r: bool)
    requires
        qlayers@.len() == commitments@.len(),
        qlayers@.len() == betas@.len(),
        domain.size_spec() <= usize::MAX,
    ensures
        r == chain_ok(
            qlayers@,
            commitments@.map_values(|d: Vec<u8>| d@),
            betas@,
            0,
            position as int,
            domain.size_spec() as int,
            domain.offset_spec(),
            domain.generator_spec(),
            expected0.val(),
            remainder@,
        ),
{
    let ghost croots = commitments@.map_values(|d: Vec<u8>| d@);
    let num_layers = qlayers.len();
    let mut pos = position;
    let mut size = domain.size();
    let mut o = domain.offset();
    let mut g = domain.generator();
    let mut expected = expected0;
    for l in 0..num_layers
        invariant
            num_layers == qlayers@.len(),
            num_layers == commitments@.len(),
            num_layers == betas@.len(),
            croots == commitments@.map_values(|d: Vec<u8>| d@),
            size <= usize::MAX,
            chain_ok(
                qlayers@,
                croots,
                betas@,
                0,
                position as int,
                domain.size_spec() as int,
                domain.offset_spec(),
                domain.generator_spec(),
                expected0.val(),
                remainder@,
            ) == chain_ok(
                qlayers@,
                croots,
                betas@,
                l as int,
                pos as int,
                size as int,
                o.val(),
                g.val(),
                expected.val(),
                remainder@,
            ),
    {
        if size < 2 || size % 2 != 0 {
            proof {
                assert(!chain_ok(qlayers@, croots, betas@, l as int, pos as int, size as int,
                    o.val(), g.val(), expected.val(), remainder@));
            }
            return false;
        }
        let h = size / 2;
        let j = pos % h;
        let q = &qlayers[l];
        let low_bytes = felt_leaf_bytes(q.value_low);
        let leaf_low = crate::hashing::sha256(&low_bytes);
        let high_bytes = felt_leaf_bytes(q.value_high);
        let leaf_high = crate::hashing::sha256(&high_bytes);
        proof {
            assert(croots[l as int] == commitments@[l as int]@);
        }
        let ok_low = MerkleTree::verify(&commitments[l], j as usize, &leaf_low, &q.path_low);
        let ok_high = MerkleTree::verify(
            &commitments[l],
            (j + h) as usize,
            &leaf_high,
            &q.path_high,
        );
        if !ok_low || !ok_high {
            return false;
        }
        let side = if pos < h {
            q.value_low
        } else {
            q.value_high
        };
        if side.as_u64() != expected.as_u64() {
            proof {
                Felt::lemma_eq_val(side, expected);
            }
            return false;
        }
        proof {
            Felt::lemma_eq_val(side, expected);
        }
        let x = o.mul(g.pow(j));
        let folded = q.value_low.add(q.value_high).add(
            betas[l].mul(q.value_low.sub(q.value_high).mul(x.inv())),
        ).mul(two_inverse());
        pos = j;
        size = h;
        o = o.mul(o);
        g = g.mul(g);
        expected = folded;
    }
    let final_ok = if pos < remainder.len() as u64 {
        let rv = remainder[pos as usize];
        proof {
            Felt::lemma_eq_val(rv, expected);
        }
        rv.as_u64() == expected.as_u64()
    } else {
        false
    };
    proof {
        assert(chain_ok(qlayers@, croots, betas@, num_layers as int, pos as int, size as int,
            o.val(), g.val(), expected.val(), remainder@) == ((pos as int) < remainder@.len()
            && remainder@[pos as int].val() == expected.val()));
    }
    final_ok
}

/// The inverse of two in the field.
fn two_inverse() -> (r: Felt)
    ensures
        r.val() == finv(2),
{
    proof {
        vstd::arithmetic::div_mod::lemma_small_mod(2nat, p() as nat);
    }
    Felt::new(2).inv()
}

/// The byte string whose digest commits one layer evaluation.
fn felt_leaf_bytes(v: Felt) -> (r: Vec<u8>)
    ensures
        r@ == spec_u64_to_le_bytes(v.val() as u64),
{
    vstd::bytes::u64_to_le_bytes(v.as_u64())
}

/// The entry position of one query at layer `l`: the original position
/// reduced modulo each passed layer's half size in turn.
pub open spec fn chain_position(phase: FriCommitPhase, position: int, l: int) -> int
    decreases l,
{
    if l <= 0 {
        position
    } else {
        chain_position(phase, position, l - 1) % (phase.layers@[l - 1]@.len() as int / 2)
    }
}

/// Whether one per-layer opening is the honest one for reduced index `j`:
/// the two layer evaluations of the fold pair and their true paths.
pub open spec fn honest_at(phase: FriCommitPhase, ql: FriQueryLayer, a: int, j: int) -> bool {
    let h = phase.layers@[a]@.len() as int / 2;
    &&& ql.value_low == phase.layers@[a]@[j]
    &&& ql.value_high == phase.layers@[a]@[j + h]
    &&& digests_view(ql.path_low@) == merkle_path(phase.trees@[a].leaves(), j)
    &&& digests_view(ql.path_high@) == merkle_path(phase.trees@[a].leaves(), j + h)
}

/// Every chained position stays inside its layer, and every layer's size
/// stays a power of two.
proof fn lemma_chain_position_bounds(
    phase: FriCommitPhase,
    o: int,
    g: int,
    size: int,
    max_rem: int,
    position: int,
    l: int,
)
    requires
        phase.wf(o, g, size, max_rem),
        is_power_of_two(size),
        0 <= l <= phase.betas@.len(),
        0 <= position < phase.layers@[0]@.len(),
    ensures
        0 <= chain_position(phase, position, l) < phase.layers@[l]@.len(),
        is_power_of_two(phase.layers@[l]@.len() as int),
    decreases l,
{
    if l == 0 {
    } else {
        lemma_chain_position_bounds(phase, o, g, size, max_rem, position, l - 1);
        let prev = chain_position(phase, position, l - 1);
        let sz = phase.layers@[l - 1]@.len() as int;
        let h = sz / 2;
        assert(sz >= 2 && sz % 2 == 0);
        vstd::arithmetic::div_mod::lemma_mod_bound(prev, h);
    }
}

/// Honest openings always replay: for any query position, the fold chain
/// assembled from a commit phase's own layers and paths satisfies the
/// verifier's whole chain check, starting from the committed layer-zero
/// value at that position and ending on the disclosed remainder.
pub proof fn lemma_honest_chain(
    phase: FriCommitPhase,
    qls: Seq<FriQueryLayer>,
    o: int,
    g: int,
    size: int,
    max_rem: int,
    position: int,
    l: int,
)
    requires
        phase.wf(o, g, size, max_rem),
        is_power_of_two(size),
        qls.len() == phase.betas@.len(),
        0 <= l <= qls.len(),
        0 <= position < phase.layers@[0]@.len(),
        forall|a: int|
            l <= a < qls.len() ==> honest_at(
                phase,
                #[trigger] qls[a],
                a,
                chain_position(phase, position, a + 1),
            ),
    ensures
        chain_ok(
            qls,
            phase.commitments@.map_values(|d: Vec<u8>| d@),
            phase.betas@,
            l,
            chain_position(phase, position, l),
            phase.layers@[l]@.len() as int,
            iter_square(o, l as nat),
            iter_square(g, l as nat),
            phase.layers@[l]@[chain_position(phase, position, l)].val(),
            phase.remainder_spec(),
        ),
    decreases qls.len() - l,
{
    lemma_chain_position_bounds(phase, o, g, size, max_rem, position, l);
    let pos = chain_position(phase, position, l);
    let croots = phase.commitments@.map_values(|d: Vec<u8>| d@);
    if l == qls.len() {
        assert(phase.remainder_spec() == phase.layers@[l]@);
    } else {
        lemma_chain_position_bounds(phase, o, g, size, max_rem, position, l + 1);
        let sz = phase.layers@[l]@.len() as int;
        let h = sz / 2;
        let j = pos % h;
        assert(sz >= 2 && sz % 2 == 0);
        assert(j == chain_position(phase, position, l + 1));
        let ql = qls[l];
        let leaves = phase.trees@[l].leaves();
        assert(leaves.len() == sz);
        assert(0 <= j < h && j + h < sz) by {
            vstd::arithmetic::div_mod::lemma_mod_bound(pos, h);
        }
        assert(leaves[j] == felt_leaf(phase.layers@[l]@[j]));
        assert(leaves[j + h] == felt_leaf(phase.layers@[l]@[j + h]));
        crate::merkle::lemma_open_verifies(leaves, j);
        crate::merkle::lemma_open_verifies(leaves, j + h);
        assert(croots[l] == phase.commitments@[l]@);
        assert(merkle_verify(croots[l], j, felt_leaf(ql.value_low), digests_view(ql.path_low@)));
        assert(merkle_verify(
            croots[l],
            j + h,
            felt_leaf(ql.value_high),
            digests_view(ql.path_high@),
        ));
        if pos < h {
            vstd::arithmetic::div_mod::lemma_small_mod(pos as nat, h as nat);
            assert(j == pos);
            assert(ql.value_low.val() == phase.layers@[l]@[pos].val());
        } else {
            assert(pos < 2 * h);
            vstd::arithmetic::div_mod::lemma_mod_sub_multiples_vanish(pos, h);
            vstd::arithmetic::div_mod::lemma_small_mod((pos - h) as nat, h as nat);
            assert(j == pos - h);
            assert(ql.value_high.val() == phase.layers@[l]@[pos].val());
        }
        let o_l = iter_square(o, l as nat);
        let g_l = iter_square(g, l as nat);
        assert(phase.layers@[l + 1]@[j].val() == fold_value(
            phase.layers@[l]@,
            o_l,
            g_l,
            phase.betas@[l].val(),
            j,
        ));
        assert(fold_value(phase.layers@[l]@, o_l, g_l, phase.betas@[l].val(), j) == fold_pair(
            ql.value_low.val(),
            ql.value_high.val(),
            fmul(o_l, fpow(g_l, j as nat)),
            phase.betas@[l].val(),
        ));
        lemma_honest_chain(phase, qls, o, g, size, max_rem, position, l + 1);
        assert(iter_square(o, (l + 1) as nat) == fmul(o_l, o_l));
        assert(iter_square(g, (l + 1) as nat) == fmul(g_l, g_l));
        assert(phase.layers@[l + 1]@.len() == h);
        assert(chain_ok(
            qls,
            croots,
            phase.betas@,
            l + 1,
            j,
            h,
            fmul(o_l, o_l),
            fmul(g_l, g_l),
            fold_pair(
                ql.value_low.val(),
                ql.value_high.val(),
                fmul(o_l, fpow(g_l, j as nat)),
                phase.betas@[l].val(),
            ),
            phase.remainder_spec(),
        ));
    }
}

/// Gathers the per-layer openings for one query position: at every layer
/// the two evaluations of the query's fold pair and their paths. The
/// openings are honest by construction, so the whole fold chain replays
/// from the committed layer-zero value down to the remainder.
pub fn open_query(
    phase: &FriCommitPhase,
    position: u64,
    Ghost(o): Ghost<int>,
    Ghost(g): Ghost<int>,
    Ghost(max_rem): Ghost<int>,
) -> (r: Vec<FriQueryLayer>)
    requires
        phase.wf(o, g, phase.layers@[0]@.len() as int, max_rem),
        is_power_of_two(phase.layers@[0]@.len() as int),
        position < phase.layers@[0]@.len(),
    ensures
        r@.len() == phase.betas@.len(),
        chain_ok(
            r@,
            phase.commitments@.map_values(|d: Vec<u8>| d@),
            phase.betas@,
            0,
            position as int,
            phase.layers@[0]@.len() as int,
            o,
            g,
            phase.layers@[0]@[position as int].val(),
            phase.remainder_spec(),
        ),
{
    let ghost size0 = phase.layers@[0]@.len() as int;
    let num_layers = phase.trees.len();
    let layer0_len = phase.layers[0].len();
    let mut out: Vec<FriQueryLayer> = Vec::new();
    let mut pos = position as usize;
    proof {
        assert(pos == chain_position(*phase, position as int, 0));
    }
    for l in 0..num_layers
        invariant
            num_layers == phase.betas@.len(),
            phase.wf(o, g, size0, max_rem),
            is_power_of_two(size0),
            size0 == phase.layers@[0]@.len(),
            position < phase.layers@[0]@.len(),
            pos == chain_position(*phase, position as int, l as int),
            pos < phase.layers@[l as int]@.len(),
            out@.len() == l,
            forall|a: int|
                0 <= a < l ==> honest_at(
                    *phase,
                    #[trigger] out@[a],
                    a,
                    chain_position(*phase, position as int, a + 1),
                ),
    {
        let layer = &phase.layers[l];
        let h = layer.len() / 2;
        let j = pos % h;
        let tree = &phase.trees[l];
        proof {
            assert(tree.leaves().len() == layer@.len());
            assert(j == chain_position(*phase, position as int, l as int + 1));
        }
        let path_low = tree.open(j);
        let path_high = tree.open(j + h);
        out.push(
            FriQueryLayer {
                value_low: layer[j],
                value_high: layer[j + h],
                path_low,
                path_high,
            },
        );
        pos = j;
        proof {
            lemma_chain_position_bounds(
                *phase,
                o,
                g,
                size0,
                max_rem,
                position as int,
                l as int + 1,
            );
        }
    }
    proof {
        lemma_honest_chain(*phase, out@, o, g, size0, max_rem, position as int, 0);
    }
    out
}

} // verus!
