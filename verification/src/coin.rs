//! The Fiat-Shamir public coin: a deterministic hash-chain transcript that
//! turns prover messages into verifier challenges, query positions and a
//! proof-of-work ("grinding") predicate.
//!
//! Both prover and verifier replay the very same sequence of `reseed` and
//! `draw` calls, so every challenge is pinned down as a function of the
//! transcript history alone; the contracts below state each output exactly
//! in terms of that history.

use vstd::prelude::*;
use vstd::bytes::{spec_u64_to_le_bytes, spec_u64_from_le_bytes, u64_to_le_bytes, u64_from_le_bytes};
use crate::hashing::{sha256, sha256_of, extend_bytes};
use crate::field::{Felt, p};

verus! {

/// The counter after one more draw; it wraps rather than overflows.
pub open spec fn wrap_inc(c: u64) -> u64 {
    if c == u64::MAX {
        0u64
    } else {
        (c + 1) as u64
    }
}

/// The challenge bytes produced by a coin with hash-chain state `seed`
/// at counter value `counter`.
pub open spec fn challenge_bytes(seed: Seq<u8>, counter: u64) -> Seq<u8> {
    sha256_of(seed + spec_u64_to_le_bytes(counter))
}

/// The 64-bit integer challenge read from the first eight challenge bytes.
pub open spec fn challenge_u64(seed: Seq<u8>, counter: u64) -> u64 {
    spec_u64_from_le_bytes(challenge_bytes(seed, counter).take(8))
}

/// The field-element challenge: the integer challenge reduced modulo `p`.
pub open spec fn challenge_felt(seed: Seq<u8>, counter: u64) -> int {
    challenge_u64(seed, counter) as int % p()
}

/// The proof-of-work predicate: the digest of the state and the nonce,
/// read as a 64-bit integer, has at least `difficulty` leading zero bits.
pub open spec fn pow_check(seed: Seq<u8>, nonce: u64, difficulty: u64) -> bool {
    spec_u64_from_le_bytes(sha256_of(seed + spec_u64_to_le_bytes(nonce)).take(8)) <= (u64::MAX as int
        / vstd::arithmetic::power2::pow2(difficulty as nat) as int)
}

/// The distinct query positions drawn by repeated integer challenges
/// reduced modulo `domain_size`, together with the counter afterwards.
/// A draw that repeats an earlier position is discarded; the search stops
/// once `n` positions are found or `attempts` draws have been made.
pub open spec fn positions_rec(
    seed: Seq<u8>,
    counter: u64,
    acc: Seq<u64>,
    n: nat,
    domain_size: u64,
    attempts: nat,
) -> (Seq<u64>, u64)
    decreases attempts,
{
    if acc.len() >= n || attempts == 0 {
        (acc, counter)
    } else {
        let c2 = wrap_inc(counter);
        let v = (challenge_u64(seed, c2) % domain_size) as u64;
        let acc2 = if acc.contains(v) {
            acc
        } else {
            acc.push(v)
        };
        positions_rec(seed, c2, acc2, n, domain_size, (attempts - 1) as nat)
    }
}

/// How many draws `draw_query_positions` makes at most for `n` positions.
pub open spec fn position_attempts(n: nat) -> nat {
    n * 64
}

/// Two coins with identical transcript histories (the same hash-chain
/// state and counter) draw identical challenge bytes, identical field
/// elements, and identical query position sequences.
pub proof fn lemma_draw_determinism(
    seed_a: Seq<u8>,
    counter_a: u64,
    seed_b: Seq<u8>,
    counter_b: u64,
    n: nat,
    domain_size: u64,
)
    requires
        seed_a == seed_b,
        counter_a == counter_b,
    ensures
        challenge_bytes(seed_a, counter_a) == challenge_bytes(seed_b, counter_b),
        challenge_felt(seed_a, counter_a) == challenge_felt(seed_b, counter_b),
        positions_rec(seed_a, counter_a, Seq::empty(), n, domain_size, position_attempts(n))
            == positions_rec(seed_b, counter_b, Seq::empty(), n, domain_size, position_attempts(n)),
{
}

/// The public coin. Reseeding absorbs a prover message into the hash
/// chain; drawing hashes the state together with an advancing counter.
pub struct PublicCoin {
    seed: Vec<u8>,
    counter: u64,
}

impl PublicCoin {
    /// The current hash-chain state.
    pub closed spec fn seed(self) -> Seq<u8> {
        self.seed@
    }

    /// The current draw counter.
    pub closed spec fn counter(self) -> u64 {
        self.counter
    }

    /// Starts a transcript from the serialized public inputs.
    pub fn new(seed_bytes: &Vec<u8>) -> (r: PublicCoin)
        ensures
            r.seed() == sha256_of(seed_bytes@),
            r.counter() == 0,
    {
        PublicCoin { seed: sha256(seed_bytes), counter: 0 }
    }

    /// Absorbs a prover message (for example a commitment root) into the
    /// chain and resets the counter. Reseeding is one-directional: the new
    /// state is the digest of the old state and the message.
    pub fn reseed(&mut self, data: &Vec<u8>)
        ensures
            final(self).seed() == sha256_of(old(self).seed() + data@),
            final(self).counter() == 0,
    {
        let mut buf: Vec<u8> = Vec::new();
        extend_bytes(&mut buf, &self.seed);
        extend_bytes(&mut buf, data);
        assert(buf@ =~= self.seed@ + data@);
        self.seed = sha256(&buf);
        self.counter = 0;
    }

    /// Draws 32 challenge bytes and advances the counter.
    pub fn draw_bytes(&mut self) -> (r: Vec<u8>)
        ensures
            final(self).seed() == old(self).seed(),
            final(self).counter() == wrap_inc(old(self).counter()),
            r@ == challenge_bytes(old(self).seed(), wrap_inc(old(self).counter())),
            r@.len() == 32,
    {
        let next = if self.counter == u64::MAX {
            0
        } else {
            self.counter + 1
        };
        self.counter = next;
        let mut buf: Vec<u8> = Vec::new();
        extend_bytes(&mut buf, &self.seed);
        let ctr_bytes = u64_to_le_bytes(self.counter);
        extend_bytes(&mut buf, &ctr_bytes);
        assert(buf@ =~= self.seed@ + spec_u64_to_le_bytes(next));
        sha256(&buf)
    }

    /// Draws a 64-bit integer challenge.
    pub fn draw_u64(&mut self) -> (r: u64)
        ensures
            final(self).seed() == old(self).seed(),
            final(self).counter() == wrap_inc(old(self).counter()),
            r == challenge_u64(old(self).seed(), wrap_inc(old(self).counter())),
    {
        let bytes = self.draw_bytes();
        let first8 = vstd::slice::slice_subrange(bytes.as_slice(), 0, 8);
        proof {
            assert(bytes@.subrange(0, 8) =~= bytes@.take(8));
        }
        u64_from_le_bytes(first8)
    }

    /// Draws a field-element challenge.
    pub fn draw_felt(&mut self) -> (r: Felt)
        ensures
            final(self).seed() == old(self).seed(),
            final(self).counter() == wrap_inc(old(self).counter()),
            r.val() == challenge_felt(old(self).seed(), wrap_inc(old(self).counter())),
    {
        let v = self.draw_u64();
        Felt::new(v)
    }

    /// Whether `nonce` meets the grinding predicate at `difficulty` for the
    /// coin's current state.
    pub fn check_pow(&self, nonce: u64, difficulty: u64) -> (r: bool)
        requires
            difficulty < 64,
        ensures
            r == pow_check(self.seed(), nonce, difficulty),
    {
        let mut buf: Vec<u8> = Vec::new();
        extend_bytes(&mut buf, &self.seed);
        let nonce_bytes = u64_to_le_bytes(nonce);
        extend_bytes(&mut buf, &nonce_bytes);
        assert(buf@ =~= self.seed@ + spec_u64_to_le_bytes(nonce));
        let digest = sha256(&buf);
        let first8 = vstd::slice::slice_subrange(digest.as_slice(), 0, 8);
        proof {
            assert(digest@.subrange(0, 8) =~= digest@.take(8));
        }
        let v = u64_from_le_bytes(first8);
        let threshold = u64::MAX >> difficulty;
        proof {
            assert(threshold == u64::MAX as int / vstd::arithmetic::power2::pow2(
                difficulty as nat,
            ) as int) by {
                vstd::bits::lemma_u64_shr_is_div(u64::MAX, difficulty);
            }
        }
        v <= threshold
    }

    /// Searches nonces in increasing order for one meeting the grinding
    /// predicate; `None` only if no 64-bit nonce at all meets it.
    pub fn grind(&self, difficulty: u64) -> (r: Option<u64>)
        requires
            difficulty < 64,
        ensures
            r is Some ==> pow_check(self.seed(), r->0, difficulty),
            r is None ==> forall|nonce: u64| !pow_check(self.seed(), nonce, difficulty),
    {
        let mut nonce: u64 = 0;
        loop
            invariant
                difficulty < 64,
                forall|m: u64| m < nonce ==> !pow_check(self.seed(), m, difficulty),
            decreases u64::MAX - nonce,
        {
            if self.check_pow(nonce, difficulty) {
                return Some(nonce);
            }
            if nonce == u64::MAX {
                proof {
                    assert forall|m: u64| !pow_check(self.seed(), m, difficulty) by {
                        if m < u64::MAX {
                        }
                    }
                }
                return None;
            }
            nonce = nonce + 1;
        }
    }

    /// Draws `n` distinct query positions below `domain_size`, in the order
    /// found. The result and the coin afterwards are exactly the transcript
    /// function [`positions_rec`]; the sequence holds no repeats, every
    /// entry is below `domain_size`, and it stops at `n` entries. The
    /// search gives up after `64 * n` draws, so for a domain with fewer
    /// than `n` points — or, with negligible probability, an extreme run
    /// of repeated draws — fewer than `n` positions come back; prover and
    /// verifier replay the same search, so both always agree on them.
    pub fn draw_query_positions(&mut self, n: usize, domain_size: u64) -> (r: Vec<u64>)
        requires
            domain_size > 0,
            n <= 128,
        ensures
            final(self).seed() == old(self).seed(),
            r@ == positions_rec(
                old(self).seed(),
                old(self).counter(),
                Seq::empty(),
                n as nat,
                domain_size,
                position_attempts(n as nat),
            ).0,
            final(self).counter() == positions_rec(
                old(self).seed(),
                old(self).counter(),
                Seq::empty(),
                n as nat,
                domain_size,
                position_attempts(n as nat),
            ).1,
            r@.len() <= n,
            forall|i: int| 0 <= i < r@.len() ==> r@[i] < domain_size,
            forall|i: int, j: int| 0 <= i < j < r@.len() ==> r@[i] != r@[j],
    {
        let ghost seed0 = self.seed();
        let ghost counter0 = self.counter();
        let mut acc: Vec<u64> = Vec::new();
        let mut remaining: u64 = (n as u64) * 64;
        proof {
            assert(Seq::<u64>::empty() =~= acc@);
        }
        while acc.len() < n && remaining > 0
            invariant
                n <= 128,
                domain_size > 0,
                self.seed() == seed0,
                remaining <= position_attempts(n as nat),
                acc@.len() <= n,
                forall|i: int| 0 <= i < acc@.len() ==> acc@[i] < domain_size,
                forall|i: int, j: int| 0 <= i < j < acc@.len() ==> acc@[i] != acc@[j],
                positions_rec(seed0, counter0, Seq::empty(), n as nat, domain_size,
                    position_attempts(n as nat)) == positions_rec(
                    self.seed(),
                    self.counter(),
                    acc@,
                    n as nat,
                    domain_size,
                    remaining as nat,
                ),
            decreases remaining,
        {
            let ghost acc0 = acc@;
            let ghost ctr0 = self.counter();
            let v64 = self.draw_u64();
            let v = v64 % domain_size;
            let mut found = false;
            let m = acc.len();
            for i in 0..m
                invariant
                    m == acc@.len(),
                    found <==> exists|j: int| 0 <= j < i && acc@[j] == v,
                {
                if acc[i] == v {
                    found = true;
                }
            }
            proof {
                assert(found <==> acc@.contains(v));
            }
            if !found {
                acc.push(v);
            }
            remaining = remaining - 1;
            proof {
                assert(positions_rec(seed0, counter0, Seq::empty(), n as nat, domain_size,
                    position_attempts(n as nat)) == positions_rec(
                    self.seed(),
                    self.counter(),
                    acc@,
                    n as nat,
                    domain_size,
                    remaining as nat,
                )) by {
                    assert(positions_rec(self.seed(), ctr0, acc0, n as nat, domain_size,
                        (remaining + 1) as nat) == positions_rec(
                        self.seed(),
                        self.counter(),
                        acc@,
                        n as nat,
                        domain_size,
                        remaining as nat,
                    ));
                }
            }
        }
        proof {
            assert(positions_rec(self.seed(), self.counter(), acc@, n as nat, domain_size,
                remaining as nat).0 == acc@);
        }
        acc
    }
}

} // verus!
