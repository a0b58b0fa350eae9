//! Verifier orchestration: rebuild the public coin from the proof's
//! commitments exactly as the prover did, then check the grinding
//! predicate, the out-of-domain algebraic identity, every Merkle opening,
//! every FRI fold chain, and the remainder's degree bound. Any failing
//! check rejects with its reason; the verifier never recomputes a
//! commitment, it only checks openings against the embedded roots.
//!
//! Every challenge the verifier uses is a function of the proof's own
//! bytes; the `replay_*` spec functions below state that transcript, and
//! [`verify_accepts`] states the whole decision: `verify` returns `Ok`
//! exactly when the predicate holds.

use vstd::prelude::*;
use vstd::bytes::{u64_to_le_bytes, spec_u64_to_le_bytes};
use crate::field::{Felt, fadd, fsub, fmul, fpow, finv, GROUP_GENERATOR};
use crate::coin::{PublicCoin, challenge_felt, positions_rec, position_attempts, pow_check};
use crate::matrix::{Matrix, felts_to_bytes, row_bytes, interp_coeff};
use crate::merkle::{MerkleTree, merkle_verify, digests_view};
use crate::constraint::{MatrixGroup, constraint_value};
use crate::air::Air;
use crate::composer::{deep_value_at, deep_value, quotient};
use crate::fri::{verify_query_chain, iter_square, fri_seed, chain_ok};
use crate::domain::domain_generator;
use crate::prover::Proof;
use crate::hashing::{sha256, sha256_of, extend_bytes};

verus! {

/// The reasons a proof is rejected.
#[derive(Clone, Copy, Debug, PartialEq, Eq, Structural)]
pub enum VerificationError {
    /// The proof's parameters fail validation.
    InvalidOptions,
    /// The proof's shape does not match the AIR (lengths, counts).
    MalformedProof,
    /// The out-of-domain identity does not hold: the weighted constraint
    /// sum at `z` differs from the composition value there times the
    /// vanishing value.
    InconsistentOodIdentity,
    /// A Merkle opening of the given query failed against its commitment.
    InvalidMerkleOpening(usize),
    /// The disclosed nonce does not meet the grinding predicate.
    InvalidProofOfWork,
    /// The FRI fold chain of the given query does not replay.
    FriFoldMismatch(usize),
    /// The remainder's interpolation exceeds the degree bound.
    RemainderDegreeExceeded,
}

/// The coin's state after the public inputs and the base commitment.
pub open spec fn replay_seed_base(proof: Proof) -> Seq<u8> {
    sha256_of(sha256_of(proof.public_inputs@) + proof.base_trace_commitment@)
}

/// The coin's state after the composition commitment as well.
pub open spec fn replay_seed_comp(proof: Proof) -> Seq<u8> {
    sha256_of(replay_seed_base(proof) + proof.composition_trace_commitment@)
}

/// The serialized out-of-domain evaluations, as both sides absorb them.
pub open spec fn ood_bytes_spec(proof: Proof) -> Seq<u8> {
    row_bytes(proof.ood_trace_states.0@) + row_bytes(proof.ood_trace_states.1@) + row_bytes(
        proof.ood_constraint_evaluations@,
    )
}

/// The coin's state after the out-of-domain evaluations as well.
pub open spec fn replay_seed_ood(proof: Proof) -> Seq<u8> {
    sha256_of(replay_seed_comp(proof) + ood_bytes_spec(proof))
}

/// The coin's state after every FRI layer commitment as well.
pub open spec fn replay_seed_fri(proof: Proof) -> Seq<u8> {
    fri_seed(
        replay_seed_ood(proof),
        proof.fri_proof.commitments@,
        proof.fri_proof.commitments@.len() as int,
    )
}

/// The coin's state after the disclosed remainder as well.
pub open spec fn replay_seed_remainder(proof: Proof) -> Seq<u8> {
    sha256_of(replay_seed_fri(proof) + row_bytes(proof.fri_proof.remainder@))
}

/// The coin's state after the grinding nonce: the one queries are drawn from.
pub open spec fn replay_seed_queries(proof: Proof) -> Seq<u8> {
    sha256_of(replay_seed_remainder(proof) + spec_u64_to_le_bytes(proof.pow_nonce))
}

/// The `k`-th composition challenge of the replayed transcript.
pub open spec fn alpha_at(proof: Proof, k: int) -> int {
    challenge_felt(replay_seed_base(proof), (k + 1) as u64)
}

/// The out-of-domain point of the replayed transcript.
pub open spec fn replay_z(proof: Proof) -> int {
    challenge_felt(replay_seed_comp(proof), 1)
}

/// The `k`-th DEEP coefficient for the `z` trace quotients.
pub open spec fn gamma1_at(proof: Proof, k: int) -> int {
    challenge_felt(replay_seed_ood(proof), (k + 1) as u64)
}

/// The `k`-th DEEP coefficient for the `z * g` trace quotients.
pub open spec fn gamma2_at(proof: Proof, num_cols: int, k: int) -> int {
    challenge_felt(replay_seed_ood(proof), (num_cols + k + 1) as u64)
}

/// The DEEP coefficient for the composition quotient.
pub open spec fn gamma3_at(proof: Proof, num_cols: int) -> int {
    challenge_felt(replay_seed_ood(proof), (2 * num_cols + 1) as u64)
}

/// The `l`-th FRI folding challenge of the replayed transcript.
pub open spec fn beta_at(proof: Proof, l: int) -> int {
    challenge_felt(fri_seed(replay_seed_ood(proof), proof.fri_proof.commitments@, l + 1), 1)
}

/// The query positions of the replayed transcript.
pub open spec fn replay_positions(proof: Proof, num_queries: nat, lde_size: u64) -> Seq<u64> {
    positions_rec(
        replay_seed_queries(proof),
        0,
        Seq::empty(),
        num_queries,
        lde_size,
        position_attempts(num_queries),
    ).0
}

/// The layer size after `rounds` radix-two folds, or a sentinel below
/// zero when some intermediate layer could not be folded.
pub open spec fn folded_size_spec(size: int, rounds: int) -> int
    decreases rounds,
{
    if rounds <= 0 {
        size
    } else {
        let s = folded_size_spec(size, rounds - 1);
        if s >= 2 && s % 2 == 0 {
            s / 2
        } else {
            -1
        }
    }
}

/// A well-formed commit phase's layer sizes follow the fold recurrence.
pub proof fn lemma_wf_folded_size(
    phase: crate::fri::FriCommitPhase,
    o: int,
    g: int,
    size: int,
    max_rem: int,
    l: int,
)
    requires
        phase.wf(o, g, size, max_rem),
        0 <= l <= phase.betas@.len(),
    ensures
        folded_size_spec(size, l) == phase.layers@[l]@.len(),
    decreases l,
{
    if l > 0 {
        lemma_wf_folded_size(phase, o, g, size, max_rem, l - 1);
    }
}

/// Once folding fails it stays failed.
proof fn lemma_folded_invalid(size: int, l: int, rounds: int)
    requires
        0 <= l <= rounds,
        folded_size_spec(size, l) == -1,
    ensures
        folded_size_spec(size, rounds) == -1,
    decreases rounds - l,
{
    if l < rounds {
        lemma_folded_invalid(size, l + 1, rounds);
    }
}

/// The out-of-domain trace states read as a two-row matrix: row zero the
/// states at `z`, row one the states at `z * g`.
pub open spec fn ood_view(proof: Proof) -> Seq<Seq<Felt>> {
    Seq::new(
        proof.ood_trace_states.0@.len(),
        |c: int| seq![proof.ood_trace_states.0@[c], proof.ood_trace_states.1@[c]],
    )
}

/// The first `k` transition summands of the out-of-domain identity.
pub open spec fn ood_trans_rhs(air: Air, proof: Proof, factor: int, k: int) -> int
    decreases k,
{
    if k <= 0 {
        0int
    } else {
        fadd(
            ood_trans_rhs(air, proof, factor, k - 1),
            fmul(
                alpha_at(proof, k - 1),
                fmul(
                    constraint_value(
                        air.transition_constraints@[k - 1],
                        ood_view(proof),
                        Seq::empty(),
                        0,
                        1,
                        2,
                    ),
                    factor,
                ),
            ),
        )
    }
}

/// The first `k` boundary summands of the out-of-domain identity.
pub open spec fn ood_bound_rhs(air: Air, proof: Proof, z: int, k: int) -> int
    decreases k,
{
    if k <= 0 {
        0int
    } else {
        let bc = air.boundary_constraints@[k - 1];
        fadd(
            ood_bound_rhs(air, proof, z, k - 1),
            fmul(
                alpha_at(proof, air.transition_constraints@.len() + k - 1),
                quotient(
                    proof.ood_trace_states.0@[bc.column as int].val(),
                    bc.value.val(),
                    fsub(
                        z,
                        fpow(domain_generator(air.trace_info.trace_len as u64), bc.row as nat),
                    ),
                ),
            ),
        )
    }
}

/// The out-of-domain algebraic identity: the challenge-weighted sum of
/// the constraint quotients at `z` equals the claimed composition value.
pub open spec fn ood_identity_holds(air: Air, proof: Proof) -> bool {
    let n = air.trace_info.trace_len as int;
    let z = replay_z(proof);
    let g_t = domain_generator(air.trace_info.trace_len as u64);
    let factor = fmul(fsub(z, fpow(g_t, (n - 1) as nat)), finv(fsub(fpow(z, n as nat), 1)));
    fadd(
        ood_trans_rhs(air, proof, factor, air.transition_constraints@.len() as int),
        ood_bound_rhs(air, proof, z, air.boundary_constraints@.len() as int),
    ) == proof.ood_constraint_evaluations@[0].val()
}

/// The proof's shape matches the AIR: the trace description, the relevant
/// parameters, the out-of-domain vector lengths, and a remainder whose
/// length is the extended domain folded once per FRI round.
pub open spec fn shape_ok(air: Air, proof: Proof) -> bool {
    &&& proof.trace_info.trace_len == air.trace_info.trace_len
    &&& proof.trace_info.num_base_columns == air.trace_info.num_base_columns
    &&& proof.options.num_queries == air.options.num_queries
    &&& proof.options.lde_blowup_factor == air.options.lde_blowup_factor
    &&& proof.options.grinding_factor == air.options.grinding_factor
    &&& proof.ood_trace_states.0@.len() == air.trace_info.num_base_columns
    &&& proof.ood_trace_states.1@.len() == air.trace_info.num_base_columns
    &&& proof.ood_constraint_evaluations@.len() == 1
    &&& folded_size_spec(
        air.trace_info.trace_len * air.options.lde_blowup_factor as int,
        proof.fri_proof.commitments@.len() as int,
    ) == proof.fri_proof.remainder@.len()
}

/// The disclosed nonce meets the grinding predicate for the replayed state.
pub open spec fn pow_ok(air: Air, proof: Proof) -> bool {
    pow_check(replay_seed_remainder(proof), proof.pow_nonce, air.options.grinding_factor as u64)
}

/// Whether the given field elements are exactly the replayed transcript's
/// DEEP coefficients and folding challenges.
pub open spec fn drawn_match(
    proof: Proof,
    num_cols: int,
    g1: Seq<Felt>,
    g2: Seq<Felt>,
    g3: Felt,
    betas: Seq<Felt>,
) -> bool {
    &&& g1.len() == num_cols
    &&& g2.len() == num_cols
    &&& betas.len() == proof.fri_proof.commitments@.len()
    &&& forall|k: int| 0 <= k < num_cols ==> (#[trigger] g1[k]).val() == gamma1_at(proof, k)
    &&& forall|k: int|
        0 <= k < num_cols ==> (#[trigger] g2[k]).val() == gamma2_at(proof, num_cols, k)
    &&& g3.val() == gamma3_at(proof, num_cols)
    &&& forall|l: int| 0 <= l < betas.len() ==> (#[trigger] betas[l]).val() == beta_at(proof, l)
}

/// One query's checks: the opened rows have the right widths, both
/// openings authenticate against their commitments, and the FRI fold
/// chain replays from the DEEP value at the position to the remainder.
pub open spec fn query_ok(
    air: Air,
    proof: Proof,
    q: int,
    pos: u64,
    g1: Seq<Felt>,
    g2: Seq<Felt>,
    g3: Felt,
    betas: Seq<Felt>,
) -> bool {
    let num_cols = air.trace_info.num_base_columns as int;
    let lde_size = air.trace_info.trace_len * air.options.lde_blowup_factor as int;
    let lde_gen = domain_generator(
        (air.trace_info.trace_len * air.options.lde_blowup_factor as int) as u64,
    );
    let row = proof.trace_queries.base_rows@[q]@;
    let comp_row = proof.trace_queries.comp_rows@[q]@;
    let z = replay_z(proof);
    let zg = fmul(z, domain_generator(air.trace_info.trace_len as u64));
    let x = fmul(GROUP_GENERATOR as int, fpow(lde_gen, pos as nat));
    &&& row.len() == num_cols
    &&& comp_row.len() == 1
    &&& proof.fri_proof.queries@[q]@.len() == proof.fri_proof.commitments@.len()
    &&& merkle_verify(
        proof.base_trace_commitment@,
        pos as int,
        sha256_of(row_bytes(row)),
        digests_view(proof.trace_queries.base_paths@[q]@),
    )
    &&& merkle_verify(
        proof.composition_trace_commitment@,
        pos as int,
        sha256_of(row_bytes(comp_row)),
        digests_view(proof.trace_queries.comp_paths@[q]@),
    )
    &&& chain_ok(
        proof.fri_proof.queries@[q]@,
        proof.fri_proof.commitments@.map_values(|d: Vec<u8>| d@),
        betas,
        0,
        pos as int,
        lde_size,
        GROUP_GENERATOR as int,
        lde_gen,
        deep_value(
            row,
            comp_row[0],
            proof.ood_trace_states.0@,
            proof.ood_trace_states.1@,
            proof.ood_constraint_evaluations@[0],
            g1,
            g2,
            g3,
            x,
            z,
            zg,
        ),
        proof.fri_proof.remainder@,
    )
}

/// Every drawn query position passes its checks, and the opening vectors
/// have one entry per position.
pub open spec fn queries_ok(
    air: Air,
    proof: Proof,
    positions: Seq<u64>,
    g1: Seq<Felt>,
    g2: Seq<Felt>,
    g3: Felt,
    betas: Seq<Felt>,
) -> bool {
    &&& proof.trace_queries.base_rows@.len() == positions.len()
    &&& proof.trace_queries.base_paths@.len() == positions.len()
    &&& proof.trace_queries.comp_rows@.len() == positions.len()
    &&& proof.trace_queries.comp_paths@.len() == positions.len()
    &&& proof.fri_proof.queries@.len() == positions.len()
    &&& forall|q: int|
        0 <= q < positions.len() ==> #[trigger] query_ok(
            air,
            proof,
            q,
            positions[q],
            g1,
            g2,
            g3,
            betas,
        )
}

/// The index from which the remainder's interpolation must have zero
/// coefficients: the remainder length over the blowup factor, at least
/// one (a constant remainder is always admissible) and at most the
/// remainder length.
pub open spec fn remainder_degree_bound(len: int, blowup: int) -> int {
    let b = if len / blowup == 0 {
        1int
    } else {
        len / blowup
    };
    if b > len {
        len
    } else {
        b
    }
}

/// The disclosed remainder interpolates over the final folded domain to a
/// polynomial within the degree bound.
pub open spec fn remainder_ok(air: Air, proof: Proof) -> bool {
    let rem = proof.fri_proof.remainder@;
    let rounds = proof.fri_proof.commitments@.len() as nat;
    let fgen = iter_square(
        domain_generator((air.trace_info.trace_len * air.options.lde_blowup_factor as int) as u64),
        rounds,
    );
    let foff = iter_square(GROUP_GENERATOR as int, rounds);
    forall|k: int|
        remainder_degree_bound(rem.len() as int, air.options.lde_blowup_factor as int) <= k
            < rem.len() ==> #[trigger] interp_coeff(rem, rem.len() as u64, fgen, foff, k as nat)
            == 0
}

/// The verifier's whole decision: valid parameters, a matching shape, the
/// out-of-domain identity, the grinding predicate, every drawn query's
/// openings and fold chain (under the replayed transcript's coefficients
/// and challenges), and the remainder degree bound.
pub open spec fn verify_accepts(air: Air, proof: Proof) -> bool {
    let num_cols = air.trace_info.num_base_columns as int;
    let lde_size_u64 = (air.trace_info.trace_len * air.options.lde_blowup_factor as int) as u64;
    &&& proof.options.is_valid_spec()
    &&& shape_ok(air, proof)
    &&& ood_identity_holds(air, proof)
    &&& pow_ok(air, proof)
    &&& exists|g1: Seq<Felt>, g2: Seq<Felt>, g3: Felt, betas: Seq<Felt>|
        #[trigger] drawn_match(proof, num_cols, g1, g2, g3, betas) && queries_ok(
            air,
            proof,
            replay_positions(proof, air.options.num_queries as nat, lde_size_u64),
            g1,
            g2,
            g3,
            betas,
        )
    &&& remainder_ok(air, proof)
}

/// Field-element sequences with equal representatives are equal.
proof fn lemma_felt_seq_from_vals(a: Seq<Felt>, b: Seq<Felt>)
    requires
        a.len() == b.len(),
        forall|i: int| 0 <= i < a.len() ==> (#[trigger] a[i]).val() == b[i].val(),
    ensures
        a == b,
{
    assert forall|i: int| 0 <= i < a.len() implies #[trigger] a[i] == b[i] by {
        Felt::lemma_eq_val(a[i], b[i]);
    }
    assert(a =~= b);
}

/// A failed query check refutes the whole decision: no coefficients
/// matching the replayed transcript can make every query pass.
proof fn lemma_query_failure(
    air: Air,
    proof: Proof,
    positions: Seq<u64>,
    q: int,
    g1: Seq<Felt>,
    g2: Seq<Felt>,
    g3: Felt,
    betas: Seq<Felt>,
)
    requires
        positions == replay_positions(
            proof,
            air.options.num_queries as nat,
            (air.trace_info.trace_len * air.options.lde_blowup_factor as int) as u64,
        ),
        drawn_match(proof, air.trace_info.num_base_columns as int, g1, g2, g3, betas),
        0 <= q < positions.len(),
        !query_ok(air, proof, q, positions[q], g1, g2, g3, betas),
    ensures
        !verify_accepts(air, proof),
{
    let num_cols = air.trace_info.num_base_columns as int;
    assert forall|g1s: Seq<Felt>, g2s: Seq<Felt>, g3s: Felt, betass: Seq<Felt>|
        !(#[trigger] drawn_match(proof, num_cols, g1s, g2s, g3s, betass) && queries_ok(
            air,
            proof,
            positions,
            g1s,
            g2s,
            g3s,
            betass,
        )) by {
        if drawn_match(proof, num_cols, g1s, g2s, g3s, betass) {
            lemma_felt_seq_from_vals(g1s, g1);
            lemma_felt_seq_from_vals(g2s, g2);
            lemma_felt_seq_from_vals(betass, betas);
            Felt::lemma_eq_val(g3s, g3);
            assert(!query_ok(air, proof, q, positions[q], g1s, g2s, g3s, betass));
            assert(!queries_ok(air, proof, positions, g1s, g2s, g3s, betass));
        }
    }
    assert(!verify_accepts(air, proof));
}

/// Checks one query: the opened row widths, both Merkle openings, and
/// the FRI fold chain from the DEEP value at the position; accepts
/// exactly when [`query_ok`] holds of the given coefficients.
#[verifier::rlimit(100)]
fn check_query(
    air: &Air,
    proof: &Proof,
    q: usize,
    pos: u64,
    lde_domain: &crate::domain::EvaluationDomain,
    comp_z: Felt,
    z: Felt,
    zg: Felt,
    g1: &Vec<Felt>,
    g2: &Vec<Felt>,
    g3: Felt,
    betas: &Vec<Felt>,
) -> (r: Result<(), VerificationError>)
    requires
        air.wf(),
        q < proof.trace_queries.base_rows@.len(),
        q < proof.trace_queries.base_paths@.len(),
        q < proof.trace_queries.comp_rows@.len(),
        q < proof.trace_queries.comp_paths@.len(),
        q < proof.fri_proof.queries@.len(),
        betas@.len() == proof.fri_proof.commitments@.len(),
        g1@.len() == air.trace_info.num_base_columns,
        g2@.len() == air.trace_info.num_base_columns,
        proof.ood_trace_states.0@.len() == air.trace_info.num_base_columns,
        proof.ood_trace_states.1@.len() == air.trace_info.num_base_columns,
        proof.ood_constraint_evaluations@.len() == 1,
        comp_z == proof.ood_constraint_evaluations@[0],
        lde_domain.size_spec() == air.trace_info.trace_len * air.options.lde_blowup_factor as int,
        lde_domain.size_spec() <= usize::MAX,
        lde_domain.offset_spec() == GROUP_GENERATOR as int,
        lde_domain.generator_spec() == domain_generator(
            (air.trace_info.trace_len * air.options.lde_blowup_factor as int) as u64,
        ),
        z.val() == replay_z(*proof),
        zg.val() == fmul(replay_z(*proof), domain_generator(air.trace_info.trace_len as u64)),
        pos < lde_domain.size_spec(),
    ensures
        r is Ok <==> query_ok(*air, *proof, q as int, pos, g1@, g2@, g3, betas@),
        r is Err ==> r->Err_0 != VerificationError::InvalidOptions,
{
    let num_cols = air.trace_info.num_base_columns;
    let num_rounds = proof.fri_proof.commitments.len();
    let base_row = &proof.trace_queries.base_rows[q];
    let comp_row = &proof.trace_queries.comp_rows[q];
    if base_row.len() != num_cols || comp_row.len() != 1 {
        return Err(VerificationError::MalformedProof);
    }
    let qlayers = &proof.fri_proof.queries[q];
    if qlayers.len() != num_rounds {
        return Err(VerificationError::MalformedProof);
    }
    let base_bytes = felts_to_bytes(base_row);
    let base_leaf = sha256(&base_bytes);
    if !MerkleTree::verify(
        &proof.base_trace_commitment,
        pos as usize,
        &base_leaf,
        &proof.trace_queries.base_paths[q],
    ) {
        return Err(VerificationError::InvalidMerkleOpening(q));
    }
    let comp_bytes = felts_to_bytes(comp_row);
    let comp_leaf = sha256(&comp_bytes);
    if !MerkleTree::verify(
        &proof.composition_trace_commitment,
        pos as usize,
        &comp_leaf,
        &proof.trace_queries.comp_paths[q],
    ) {
        return Err(VerificationError::InvalidMerkleOpening(q));
    }
    let x = lde_domain.element(pos);
    let deep_q = deep_value_at(
        base_row,
        comp_row[0],
        &proof.ood_trace_states.0,
        &proof.ood_trace_states.1,
        comp_z,
        g1,
        g2,
        g3,
        x,
        z,
        zg,
    );
    if !verify_query_chain(
        qlayers,
        &proof.fri_proof.commitments,
        betas,
        pos,
        lde_domain,
        deep_q,
        &proof.fri_proof.remainder,
    ) {
        return Err(VerificationError::FriFoldMismatch(q));
    }
    Ok(())
}

/// Checks a proof against an AIR: replays the whole transcript from the
/// embedded commitments and checks every opening and identity. The
/// decision is exact: the result is `Ok` precisely when
/// [`verify_accepts`] holds, and the invalid-options rejection comes
/// precisely when the parameters fail validation.
#[verifier::rlimit(100)]
pub fn verify(air: &Air, proof: &Proof) -> (r: Result<(), VerificationError>)
    requires
        air.wf(),
    ensures
        r == Result::<(), VerificationError>::Err(VerificationError::InvalidOptions)
            <==> !proof.options.is_valid_spec(),
        r is Ok <==> verify_accepts(*air, *proof),
{
    if !proof.options.is_valid() {
        return Err(VerificationError::InvalidOptions);
    }
    // Shape checks against the AIR.
    let n = air.trace_info.trace_len;
    let num_cols = air.trace_info.num_base_columns;
    let blowup = air.options.lde_blowup_factor as usize;
    let lde_size = n * blowup;
    let lde_domain = air.lde_domain();
    let trace_domain = air.trace_domain();
    proof {
        assert(lde_size == lde_domain.size_spec());
    }
    if proof.trace_info.trace_len != n || proof.trace_info.num_base_columns != num_cols {
        return Err(VerificationError::MalformedProof);
    }
    if proof.options.num_queries != air.options.num_queries
        || proof.options.lde_blowup_factor != air.options.lde_blowup_factor
        || proof.options.grinding_factor != air.options.grinding_factor {
        return Err(VerificationError::MalformedProof);
    }
    if proof.ood_trace_states.0.len() != num_cols || proof.ood_trace_states.1.len() != num_cols {
        return Err(VerificationError::MalformedProof);
    }
    if proof.ood_constraint_evaluations.len() != 1 {
        return Err(VerificationError::MalformedProof);
    }
    // The remainder length must be the extended domain folded once per
    // FRI round.
    let num_rounds = proof.fri_proof.commitments.len();
    let mut folded_size = lde_size;
    let mut final_domain = air.lde_domain();
    for l in 0..num_rounds
        invariant
            proof.options.is_valid_spec(),
            num_rounds == proof.fri_proof.commitments@.len(),
            folded_size <= lde_size,
            folded_size == final_domain.size_spec(),
            folded_size as int == folded_size_spec(lde_size as int, l as int),
            final_domain.generator_spec() == iter_square(
                domain_generator(
                    (air.trace_info.trace_len * air.options.lde_blowup_factor as int) as u64,
                ),
                l as nat,
            ),
            final_domain.offset_spec() == iter_square(GROUP_GENERATOR as int, l as nat),
            lde_size == air.trace_info.trace_len * air.options.lde_blowup_factor as int,
    {
        if folded_size < 2 || folded_size % 2 != 0 {
            proof {
                assert(folded_size_spec(lde_size as int, l as int + 1) == -1);
                lemma_folded_invalid(lde_size as int, l as int + 1, num_rounds as int);
                assert(!shape_ok(*air, *proof));
            }
            return Err(VerificationError::MalformedProof);
        }
        final_domain = final_domain.fold();
        folded_size = folded_size / 2;
    }
    if proof.fri_proof.remainder.len() != folded_size {
        proof {
            assert(!shape_ok(*air, *proof));
        }
        return Err(VerificationError::MalformedProof);
    }
    // Transcript replay: public inputs, base commitment, composition
    // challenges, composition commitment.
    let mut coin = PublicCoin::new(&proof.public_inputs);
    coin.reseed(&proof.base_trace_commitment);
    proof {
        assert(coin.seed() == replay_seed_base(*proof));
    }
    let num_t = air.transition_constraints.len();
    let num_b = air.boundary_constraints.len();
    let num_alphas = num_t + num_b;
    let mut alphas: Vec<Felt> = Vec::new();
    for k in 0..num_alphas
        invariant
            num_alphas <= 0x1000_0000,
            coin.seed() == replay_seed_base(*proof),
            coin.counter() == k,
            alphas@.len() == k,
            forall|a: int| 0 <= a < k ==> (#[trigger] alphas@[a]).val() == alpha_at(*proof, a),
    {
        let a = coin.draw_felt();
        alphas.push(a);
    }
    coin.reseed(&proof.composition_trace_commitment);
    proof {
        assert(coin.seed() == replay_seed_comp(*proof));
    }
    // Out-of-domain identity at z.
    let z = coin.draw_felt();
    proof {
        assert(z.val() == replay_z(*proof));
    }
    let g_trace = trace_domain.generator();
    let zg = z.mul(g_trace);
    let mut ood_cols: Vec<Vec<Felt>> = Vec::new();
    for c in 0..num_cols
        invariant
            num_cols == proof.ood_trace_states.0@.len(),
            num_cols == proof.ood_trace_states.1@.len(),
            ood_cols@.len() == c,
            forall|a: int| 0 <= a < c ==> (#[trigger] ood_cols@[a])@.len() == 2,
            forall|a: int|
                0 <= a < c ==> (#[trigger] ood_cols@[a])@ == seq![
                    proof.ood_trace_states.0@[a],
                    proof.ood_trace_states.1@[a],
                ],
    {
        let mut col: Vec<Felt> = Vec::new();
        col.push(proof.ood_trace_states.0[c]);
        col.push(proof.ood_trace_states.1[c]);
        proof {
            assert(col@ =~= seq![
                proof.ood_trace_states.0@[c as int],
                proof.ood_trace_states.1@[c as int],
            ]);
        }
        ood_cols.push(col);
    }
    let ood_matrix = Matrix::new(ood_cols);
    proof {
        assert(num_cols >= 1);
        assert(ood_matrix.num_rows_spec() == 2);
    }
    let group = MatrixGroup::new(vec![ood_matrix]);
    let no_challenges: Vec<Felt> = Vec::new();
    proof {
        assert(group.items@[0].num_rows_spec() == 2);
        assert(group.num_rows_spec() == 2);
        assert(group.columns() =~= ood_view(*proof)) by {
            assert(group.items@.drop_last() =~= Seq::<Matrix>::empty());
            assert(crate::matrix::join_columns(Seq::<Matrix>::empty())
                =~= Seq::<Seq<Felt>>::empty());
            assert(Seq::<Seq<Felt>>::empty() + group.items@[0].columns() =~= group.items@[
                0
            ].columns());
        }
        assert(no_challenges@ =~= Seq::<Felt>::empty());
    }
    let tvals_at_z = group.evaluate_symbolic(&air.transition_constraints, &no_challenges, 1);
    let g_last = g_trace.pow((n as u64) - 1);
    let z_vanish = z.pow(n as u64).sub(Felt::one());
    let factor = z.sub(g_last).mul(z_vanish.inv());
    let ghost factor_spec = fmul(
        fsub(replay_z(*proof), fpow(domain_generator(n as u64), (n - 1) as nat)),
        finv(fsub(fpow(replay_z(*proof), n as nat), 1)),
    );
    proof {
        assert(factor.val() == factor_spec);
    }
    let mut tsum = Felt::zero();
    for t in 0..num_t
        invariant
            num_t == air.transition_constraints@.len(),
            num_alphas == num_t + num_b,
            alphas@.len() == num_alphas,
            num_alphas <= 0x1000_0000,
            forall|a: int|
                0 <= a < num_alphas ==> (#[trigger] alphas@[a]).val() == alpha_at(*proof, a),
            tvals_at_z.wf(),
            tvals_at_z.num_cols_spec() == num_t,
            num_t > 0 ==> tvals_at_z.num_rows_spec() == 2,
            forall|a: int, i: int|
                0 <= a < num_t && 0 <= i < 2 ==> (#[trigger] tvals_at_z.columns()[a][i]).val()
                    == constraint_value(
                    air.transition_constraints@[a],
                    ood_view(*proof),
                    Seq::empty(),
                    i,
                    1,
                    2,
                ),
            factor.val() == factor_spec,
            tsum.val() == ood_trans_rhs(*air, *proof, factor_spec, t as int),
    {
        proof {
            assert(tvals_at_z.columns()[t as int].len() == 2);
        }
        let ct = tvals_at_z.col(t)[0];
        tsum = tsum.add(alphas[t].mul(ct.mul(factor)));
    }
    let mut bsum = Felt::zero();
    for b in 0..num_b
        invariant
            num_b == air.boundary_constraints@.len(),
            num_t == air.transition_constraints@.len(),
            num_alphas == num_t + num_b,
            alphas@.len() == num_alphas,
            num_alphas <= 0x1000_0000,
            forall|a: int|
                0 <= a < num_alphas ==> (#[trigger] alphas@[a]).val() == alpha_at(*proof, a),
            air.wf(),
            num_cols == air.trace_info.num_base_columns,
            num_cols == proof.ood_trace_states.0@.len(),
            n == air.trace_info.trace_len,
            z.val() == replay_z(*proof),
            g_trace.val() == domain_generator(n as u64),
            bsum.val() == ood_bound_rhs(*air, *proof, replay_z(*proof), b as int),
    {
        let bc = &air.boundary_constraints[b];
        let den = z.sub(g_trace.pow(bc.row as u64));
        let q = proof.ood_trace_states.0[bc.column].sub(bc.value).mul(den.inv());
        bsum = bsum.add(alphas[num_t + b].mul(q));
    }
    let rhs = tsum.add(bsum);
    let comp_z = proof.ood_constraint_evaluations[0];
    proof {
        assert(rhs.val() == fadd(
            ood_trans_rhs(*air, *proof, factor_spec, num_t as int),
            ood_bound_rhs(*air, *proof, replay_z(*proof), num_b as int),
        ));
    }
    if rhs.as_u64() != comp_z.as_u64() {
        proof {
            Felt::lemma_eq_val(rhs, comp_z);
            assert(!ood_identity_holds(*air, *proof));
        }
        return Err(VerificationError::InconsistentOodIdentity);
    }
    proof {
        Felt::lemma_eq_val(rhs, comp_z);
        assert(ood_identity_holds(*air, *proof));
    }
    // DEEP coefficients, FRI challenges, grinding, query positions.
    let mut ood_bytes = felts_to_bytes(&proof.ood_trace_states.0);
    let zg_bytes = felts_to_bytes(&proof.ood_trace_states.1);
    extend_bytes(&mut ood_bytes, &zg_bytes);
    let comp_z_bytes = felts_to_bytes(&proof.ood_constraint_evaluations);
    extend_bytes(&mut ood_bytes, &comp_z_bytes);
    proof {
        assert(ood_bytes@ =~= ood_bytes_spec(*proof));
    }
    coin.reseed(&ood_bytes);
    proof {
        assert(coin.seed() == replay_seed_ood(*proof));
    }
    let mut g1: Vec<Felt> = Vec::new();
    for k in 0..num_cols
        invariant
            num_cols <= 0x1000_0000,
            coin.seed() == replay_seed_ood(*proof),
            coin.counter() == k,
            g1@.len() == k,
            forall|a: int| 0 <= a < k ==> (#[trigger] g1@[a]).val() == gamma1_at(*proof, a),
    {
        let a = coin.draw_felt();
        g1.push(a);
    }
    let mut g2: Vec<Felt> = Vec::new();
    for k in 0..num_cols
        invariant
            num_cols <= 0x1000_0000,
            coin.seed() == replay_seed_ood(*proof),
            coin.counter() == num_cols + k,
            g2@.len() == k,
            forall|a: int|
                0 <= a < k ==> (#[trigger] g2@[a]).val() == gamma2_at(*proof, num_cols as int, a),
    {
        let a = coin.draw_felt();
        g2.push(a);
    }
    let g3 = coin.draw_felt();
    proof {
        assert(g3.val() == gamma3_at(*proof, num_cols as int));
    }
    let mut betas: Vec<Felt> = Vec::new();
    for l in 0..num_rounds
        invariant
            num_rounds == proof.fri_proof.commitments@.len(),
            betas@.len() == l,
            coin.seed() == fri_seed(replay_seed_ood(*proof), proof.fri_proof.commitments@, l as int),
            forall|a: int| 0 <= a < l ==> (#[trigger] betas@[a]).val() == beta_at(*proof, a),
    {
        coin.reseed(&proof.fri_proof.commitments[l]);
        let beta = coin.draw_felt();
        betas.push(beta);
    }
    proof {
        assert(coin.seed() == replay_seed_fri(*proof));
    }
    let remainder_bytes = felts_to_bytes(&proof.fri_proof.remainder);
    coin.reseed(&remainder_bytes);
    proof {
        assert(coin.seed() == replay_seed_remainder(*proof));
    }
    if !coin.check_pow(proof.pow_nonce, air.options.grinding_factor as u64) {
        proof {
            assert(!pow_ok(*air, *proof));
        }
        return Err(VerificationError::InvalidProofOfWork);
    }
    let nonce_bytes = u64_to_le_bytes(proof.pow_nonce);
    coin.reseed(&nonce_bytes);
    proof {
        assert(coin.seed() == replay_seed_queries(*proof));
        assert(lde_size >= 1) by {
            vstd::arithmetic::mul::lemma_mul_inequality(1, blowup as int, n as int);
            vstd::arithmetic::mul::lemma_mul_basics(n as int);
            vstd::arithmetic::mul::lemma_mul_is_commutative(blowup as int, n as int);
        }
    }
    let positions = coin.draw_query_positions(air.options.num_queries as usize, lde_size as u64);
    let ghost positions_spec = replay_positions(
        *proof,
        air.options.num_queries as nat,
        (air.trace_info.trace_len * air.options.lde_blowup_factor as int) as u64,
    );
    proof {
        assert(positions@ == positions_spec);
    }
    let num_positions = positions.len();
    if proof.trace_queries.base_rows.len() != num_positions
        || proof.trace_queries.base_paths.len() != num_positions
        || proof.trace_queries.comp_rows.len() != num_positions
        || proof.trace_queries.comp_paths.len() != num_positions
        || proof.fri_proof.queries.len() != num_positions {
        proof {
            assert forall|g1s: Seq<Felt>, g2s: Seq<Felt>, g3s: Felt, betass: Seq<Felt>|
                !(#[trigger] drawn_match(*proof, num_cols as int, g1s, g2s, g3s, betass)
                    && queries_ok(*air, *proof, positions_spec, g1s, g2s, g3s, betass)) by {
                if drawn_match(*proof, num_cols as int, g1s, g2s, g3s, betass) {
                    assert(!queries_ok(*air, *proof, positions_spec, g1s, g2s, g3s, betass));
                }
            }
            assert(!verify_accepts(*air, *proof));
        }
        return Err(VerificationError::MalformedProof);
    }
    // Per-query checks: trace and composition openings, then the FRI
    // fold chain from the DEEP value at the position.
    proof {
        assert(drawn_match(*proof, num_cols as int, g1@, g2@, g3, betas@));
    }
    for q in 0..num_positions
        invariant
            proof.options.is_valid_spec(),
            air.wf(),
            num_positions == positions@.len(),
            positions@ == positions_spec,
            positions_spec == replay_positions(
                *proof,
                air.options.num_queries as nat,
                (air.trace_info.trace_len * air.options.lde_blowup_factor as int) as u64,
            ),
            forall|a: int| 0 <= a < positions@.len() ==> (#[trigger] positions@[a]) < lde_size,
            proof.trace_queries.base_rows@.len() == num_positions,
            proof.trace_queries.base_paths@.len() == num_positions,
            proof.trace_queries.comp_rows@.len() == num_positions,
            proof.trace_queries.comp_paths@.len() == num_positions,
            proof.fri_proof.queries@.len() == num_positions,
            betas@.len() == proof.fri_proof.commitments@.len(),
            num_cols == air.trace_info.num_base_columns,
            num_cols == proof.ood_trace_states.0@.len(),
            num_cols == proof.ood_trace_states.1@.len(),
            g1@.len() == num_cols,
            g2@.len() == num_cols,
            proof.ood_constraint_evaluations@.len() == 1,
            comp_z == proof.ood_constraint_evaluations@[0],
            lde_size == lde_domain.size_spec(),
            lde_size == air.trace_info.trace_len * air.options.lde_blowup_factor as int,
            lde_size <= usize::MAX,
            lde_domain.offset_spec() == GROUP_GENERATOR as int,
            lde_domain.generator_spec() == domain_generator(
                (air.trace_info.trace_len * air.options.lde_blowup_factor as int) as u64,
            ),
            z.val() == replay_z(*proof),
            zg.val() == fmul(replay_z(*proof), domain_generator(air.trace_info.trace_len as u64)),
            n == air.trace_info.trace_len,
            drawn_match(*proof, num_cols as int, g1@, g2@, g3, betas@),
            forall|a: int|
                0 <= a < q ==> #[trigger] query_ok(
                    *air,
                    *proof,
                    a,
                    positions@[a],
                    g1@,
                    g2@,
                    g3,
                    betas@,
                ),
    {
        let pos = positions[q];
        match check_query(
            air,
            proof,
            q,
            pos,
            &lde_domain,
            comp_z,
            z,
            zg,
            &g1,
            &g2,
            g3,
            &betas,
        ) {
            Ok(()) => {
                proof {
                    assert(query_ok(*air, *proof, q as int, pos, g1@, g2@, g3, betas@));
                }
            },
            Err(e) => {
                proof {
                    lemma_query_failure(
                        *air,
                        *proof,
                        positions_spec,
                        q as int,
                        g1@,
                        g2@,
                        g3,
                        betas@,
                    );
                }
                return Err(e);
            },
        }
    }
    // Remainder degree bound: interpolate the remainder over the final
    // folded domain and demand zero coefficients above the bound.
    let mut rem: Vec<Felt> = Vec::new();
    let rem_len = proof.fri_proof.remainder.len();
    for k in 0..rem_len
        invariant
            rem_len == proof.fri_proof.remainder@.len(),
            rem@.len() == k,
            forall|a: int| 0 <= a < k ==> (#[trigger] rem@[a]) == proof.fri_proof.remainder@[a],
    {
        rem.push(proof.fri_proof.remainder[k]);
    }
    proof {
        assert(rem@ =~= proof.fri_proof.remainder@);
    }
    let rem_matrix = Matrix::new(vec![rem]);
    proof {
        assert(rem_matrix.num_rows_spec() == rem_len);
        assert(rem_len == folded_size);
        assert(final_domain.size_spec() <= 0x1_0000_0000) by {
            assert(lde_size <= 0x400_0000 * 64) by {
                vstd::arithmetic::mul::lemma_mul_inequality(n as int, 0x400_0000, blowup as int);
                vstd::arithmetic::mul::lemma_mul_inequality(blowup as int, 64, 0x400_0000);
                vstd::arithmetic::mul::lemma_mul_is_commutative(blowup as int, 0x400_0000);
            }
        }
    }
    let coeffs = rem_matrix.into_polynomials(&final_domain);
    // The degree bound shrinks with each fold but never below a constant.
    let mut bound = if rem_len / blowup == 0 {
        1
    } else {
        rem_len / blowup
    };
    if bound > rem_len {
        bound = rem_len;
    }
    let coeff_col = coeffs.col(0);
    let ghost fgen = iter_square(
        domain_generator((air.trace_info.trace_len * air.options.lde_blowup_factor as int) as u64),
        num_rounds as nat,
    );
    let ghost foff = iter_square(GROUP_GENERATOR as int, num_rounds as nat);
    proof {
        assert(coeffs.columns()[0].len() == rem_len);
        assert(final_domain.generator_spec() == fgen);
        assert(final_domain.offset_spec() == foff);
        assert(bound == remainder_degree_bound(
            rem_len as int,
            air.options.lde_blowup_factor as int,
        ));
        assert forall|a: int| 0 <= a < rem_len implies (#[trigger] coeff_col@[a]).val()
            == interp_coeff(proof.fri_proof.remainder@, rem_len as u64, fgen, foff, a as nat) by {
            assert(coeff_col@[a].val() == interp_coeff(
                rem_matrix.columns()[0],
                final_domain.size_spec(),
                final_domain.generator_spec(),
                final_domain.offset_spec(),
                a as nat,
            ));
        }
    }
    for k in bound..rem_len
        invariant
            proof.options.is_valid_spec(),
            rem_len == proof.fri_proof.remainder@.len(),
            num_rounds == proof.fri_proof.commitments@.len(),
            coeff_col@.len() == rem_len,
            bound == remainder_degree_bound(rem_len as int, air.options.lde_blowup_factor as int),
            fgen == iter_square(
                domain_generator(
                    (air.trace_info.trace_len * air.options.lde_blowup_factor as int) as u64,
                ),
                num_rounds as nat,
            ),
            foff == iter_square(GROUP_GENERATOR as int, num_rounds as nat),
            forall|a: int|
                0 <= a < rem_len ==> (#[trigger] coeff_col@[a]).val() == interp_coeff(
                    proof.fri_proof.remainder@,
                    rem_len as u64,
                    fgen,
                    foff,
                    a as nat,
                ),
            forall|a: int| bound <= a < k ==> (#[trigger] coeff_col@[a]).val() == 0,
    {
        if !coeff_col[k].is_zero() {
            proof {
                assert(interp_coeff(proof.fri_proof.remainder@, rem_len as u64, fgen, foff,
                    k as nat) != 0);
                assert(!remainder_ok(*air, *proof));
            }
            return Err(VerificationError::RemainderDegreeExceeded);
        }
    }
    proof {
        assert(remainder_ok(*air, *proof)) by {
            assert forall|k: int|
                remainder_degree_bound(rem_len as int, air.options.lde_blowup_factor as int) <= k
                    < rem_len implies #[trigger] interp_coeff(
                proof.fri_proof.remainder@,
                rem_len as u64,
                fgen,
                foff,
                k as nat,
            ) == 0 by {
                assert(coeff_col@[k].val() == interp_coeff(proof.fri_proof.remainder@,
                    rem_len as u64, fgen, foff, k as nat));
            }
        }
        assert(shape_ok(*air, *proof));
        assert(drawn_match(*proof, num_cols as int, g1@, g2@, g3, betas@) && queries_ok(
            *air,
            *proof,
            positions_spec,
            g1@,
            g2@,
            g3,
            betas@,
        ));
        assert(verify_accepts(*air, *proof));
    }
    Ok(())
}

} // verus!
