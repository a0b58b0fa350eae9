//! Hash-based vector commitment: a perfect binary Merkle tree over a
//! power-of-two number of leaf digests, with authenticated partial openings.

use vstd::prelude::*;
use crate::hashing::{sha256, sha256_of, bytes_eq, extend_bytes};

verus! {

/// Whether `n` is a positive power of two.
pub open spec fn is_power_of_two(n: int) -> bool
    decreases n,
{
    if n <= 0 {
        false
    } else if n == 1 {
        true
    } else {
        n % 2 == 0 && is_power_of_two(n / 2)
    }
}

/// The view of a vector of digests as a sequence of byte strings.
pub open spec fn digests_view(v: Seq<Vec<u8>>) -> Seq<Seq<u8>> {
    Seq::new(v.len(), |i: int| v[i]@)
}

/// One tree level: adjacent digests hashed pairwise, `hash(left ++ right)`.
pub open spec fn pair_up(level: Seq<Seq<u8>>) -> Seq<Seq<u8>> {
    Seq::new((level.len() / 2) as nat, |i: int| sha256_of(level[2 * i] + level[2 * i + 1]))
}

/// The root of the perfect binary tree whose leaves are `leaves`.
pub open spec fn merkle_root(leaves: Seq<Seq<u8>>) -> Seq<u8>
    decreases leaves.len(),
{
    if leaves.len() == 0 {
        Seq::empty()
    } else if leaves.len() == 1 {
        leaves[0]
    } else {
        merkle_root(pair_up(leaves))
    }
}

/// The authentication path for leaf `i`: one sibling digest per level.
pub open spec fn merkle_path(leaves: Seq<Seq<u8>>, i: int) -> Seq<Seq<u8>>
    decreases leaves.len(),
{
    if leaves.len() <= 1 {
        Seq::empty()
    } else {
        let sib = if i % 2 == 0 {
            leaves[i + 1]
        } else {
            leaves[i - 1]
        };
        seq![sib] + merkle_path(pair_up(leaves), i / 2)
    }
}

/// Whether `path` authenticates `leaf` at position `index` under `root`.
pub open spec fn merkle_verify(root: Seq<u8>, index: int, leaf: Seq<u8>, path: Seq<Seq<u8>>) -> bool
    decreases path.len(),
{
    if path.len() == 0 {
        leaf == root
    } else {
        let parent = if index % 2 == 0 {
            sha256_of(leaf + path[0])
        } else {
            sha256_of(path[0] + leaf)
        };
        merkle_verify(root, index / 2, parent, path.drop_first())
    }
}

/// An honestly produced opening always verifies: for any power-of-two set
/// of leaves and any position, the path for that position authenticates
/// the leaf there under the tree's root.
pub proof fn lemma_open_verifies(leaves: Seq<Seq<u8>>, i: int)
    requires
        is_power_of_two(leaves.len() as int),
        0 <= i < leaves.len(),
    ensures
        merkle_verify(merkle_root(leaves), i, leaves[i], merkle_path(leaves, i)),
    decreases leaves.len(),
{
    if leaves.len() == 1 {
        assert(merkle_path(leaves, i) == Seq::<Seq<u8>>::empty());
    } else {
        let next = pair_up(leaves);
        assert(leaves.len() % 2 == 0);
        assert(is_power_of_two(next.len() as int));
        lemma_open_verifies(next, i / 2);
        let sib = if i % 2 == 0 {
            leaves[i + 1]
        } else {
            leaves[i - 1]
        };
        let path = merkle_path(leaves, i);
        assert(path == seq![sib] + merkle_path(next, i / 2));
        assert(path.len() == 1 + merkle_path(next, i / 2).len());
        assert(path[0] == sib);
        assert(path.drop_first() =~= merkle_path(next, i / 2));
        let parent = if i % 2 == 0 {
            sha256_of(leaves[i] + sib)
        } else {
            sha256_of(sib + leaves[i])
        };
        if i % 2 == 0 {
            assert(next[i / 2] == sha256_of(leaves[2 * (i / 2)] + leaves[2 * (i / 2) + 1]));
            assert(2 * (i / 2) == i);
            assert(parent == next[i / 2]);
        } else {
            assert(next[i / 2] == sha256_of(leaves[2 * (i / 2)] + leaves[2 * (i / 2) + 1]));
            assert(2 * (i / 2) == i - 1);
            assert(parent == next[i / 2]);
        }
        assert(merkle_root(leaves) == merkle_root(next));
    }
}

/// A perfect binary Merkle tree, all levels retained so that any leaf can
/// be opened after construction.
pub struct MerkleTree {
    levels: Vec<Vec<Vec<u8>>>,
}

impl MerkleTree {
    /// The committed leaf digests.
    pub closed spec fn leaves(self) -> Seq<Seq<u8>> {
        digests_view(self.levels@[0]@)
    }

    /// Structural soundness: each level pairs up the one below it, down to
    /// a single root digest.
    pub closed spec fn wf(self) -> bool {
        &&& self.levels@.len() >= 1
        &&& is_power_of_two(self.levels@[0]@.len() as int)
        &&& self.levels@[self.levels@.len() - 1]@.len() == 1
        &&& forall|k: int|
            0 <= k < self.levels@.len() - 1 ==> (#[trigger] self.levels@[k]@.len()) >= 2
                && self.levels@[k]@.len() % 2 == 0
        &&& forall|k: int|
            0 <= k < self.levels@.len() - 1 ==> digests_view(self.levels@[k + 1]@) == pair_up(
                digests_view(#[trigger] self.levels@[k]@),
            )
    }

    /// The number of leaves.
    pub fn num_leaves(&self) -> (r: usize)
        requires
            self.wf(),
        ensures
            r == self.leaves().len(),
    {
        self.levels[0].len()
    }

    proof fn lemma_root_at(self, k: int)
        requires
            self.wf(),
            0 <= k < self.levels@.len(),
        ensures
            merkle_root(digests_view(self.levels@[k]@)) == merkle_root(self.leaves()),
        decreases k,
    {
        if k > 0 {
            self.lemma_root_at(k - 1);
            assert(digests_view(self.levels@[k]@) == pair_up(digests_view(self.levels@[k - 1]@)));
            assert(self.levels@[k - 1]@.len() >= 2);
        }
    }

    /// Builds the tree over `leaves`; the caller pads to a power of two.
    pub fn new(leaves: Vec<Vec<u8>>) -> (r: MerkleTree)
        requires
            is_power_of_two(leaves@.len() as int),
        ensures
            r.wf(),
            r.leaves() == digests_view(leaves@),
    {
        let ghost leaves0 = digests_view(leaves@);
        let mut levels: Vec<Vec<Vec<u8>>> = Vec::new();
        levels.push(leaves);
        while levels[levels.len() - 1].len() > 1
            invariant
                levels@.len() >= 1,
                digests_view(levels@[0]@) == leaves0,
                is_power_of_two(levels@[levels@.len() - 1]@.len() as int),
                forall|k: int|
                    0 <= k < levels@.len() - 1 ==> (#[trigger] levels@[k]@.len()) >= 2
                        && levels@[k]@.len() % 2 == 0,
                forall|k: int|
                    0 <= k < levels@.len() - 1 ==> digests_view(levels@[k + 1]@) == pair_up(
                        digests_view(#[trigger] levels@[k]@),
                    ),
            decreases levels@[levels@.len() - 1]@.len(),
        {
            let top = levels.len() - 1;
            let m = levels[top].len();
            assert(m % 2 == 0);
            let half = m / 2;
            let mut next: Vec<Vec<u8>> = Vec::new();
            for i in 0..half
                invariant
                    levels@.len() >= 1,
                    top == levels@.len() - 1,
                    m == levels@[top as int]@.len(),
                    half == m / 2,
                    m % 2 == 0,
                    next@.len() == i,
                    forall|j: int|
                        0 <= j < i ==> (#[trigger] next@[j]@) == sha256_of(
                            levels@[top as int]@[2 * j]@ + levels@[top as int]@[2 * j + 1]@,
                        ),
            {
                let mut buf: Vec<u8> = Vec::new();
                extend_bytes(&mut buf, &levels[top][2 * i]);
                extend_bytes(&mut buf, &levels[top][2 * i + 1]);
                assert(buf@ =~= levels@[top as int]@[2 * i as int]@ + levels@[top as int]@[2 * i
                    as int + 1]@);
                let h = sha256(&buf);
                next.push(h);
            }
            assert(digests_view(next@) =~= pair_up(digests_view(levels@[top as int]@)));
            levels.push(next);
            assert(levels@[levels@.len() - 2]@.len() >= 2);
            assert(levels@[levels@.len() - 2]@.len() % 2 == 0);
        }
        let r = MerkleTree { levels };
        assert(r.wf());
        r
    }

    /// The root digest: the commitment to the whole leaf sequence.
    pub fn root(&self) -> (r: Vec<u8>)
        requires
            self.wf(),
        ensures
            r@ == merkle_root(self.leaves()),
    {
        proof {
            self.lemma_root_at(self.levels@.len() - 1);
        }
        let top = self.levels.len() - 1;
        let mut out: Vec<u8> = Vec::new();
        extend_bytes(&mut out, &self.levels[top][0]);
        proof {
            assert(out@ =~= self.levels@[top as int]@[0]@);
            assert(digests_view(self.levels@[top as int]@).len() == 1);
            assert(merkle_root(digests_view(self.levels@[top as int]@)) == digests_view(
                self.levels@[top as int]@,
            )[0]);
        }
        out
    }

    /// Opens position `index`: the authentication path of sibling digests.
    #[verifier::rlimit(50)]
    pub fn open(&self, index: usize) -> (path: Vec<Vec<u8>>)
        requires
            self.wf(),
            index < self.leaves().len(),
        ensures
            digests_view(path@) == merkle_path(self.leaves(), index as int),
    {
        let mut path: Vec<Vec<u8>> = Vec::new();
        let mut idx = index;
        let depth = self.levels.len() - 1;
        proof {
            assert(digests_view(path@) + merkle_path(self.leaves(), index as int) =~= merkle_path(
                self.leaves(),
                index as int,
            ));
        }
        for k in 0..depth
            invariant
                self.wf(),
                depth == self.levels@.len() - 1,
                idx < self.levels@[k as int]@.len(),
                merkle_path(self.leaves(), index as int) == digests_view(path@) + merkle_path(
                    digests_view(self.levels@[k as int]@),
                    idx as int,
                ),
        {
            let ghost cur = digests_view(self.levels@[k as int]@);
            assert(cur.len() >= 2);
            assert(cur.len() % 2 == 0);
            let sib_idx = if idx % 2 == 0 {
                idx + 1
            } else {
                idx - 1
            };
            assert(sib_idx < cur.len());
            let mut sib: Vec<u8> = Vec::new();
            extend_bytes(&mut sib, &self.levels[k][sib_idx]);
            assert(sib@ =~= self.levels@[k as int]@[sib_idx as int]@);
            let ghost path0 = path@;
            path.push(sib);
            proof {
                assert(digests_view(self.levels@[k as int + 1]@) == pair_up(cur));
                assert(merkle_path(cur, idx as int) == seq![cur[sib_idx as int]] + merkle_path(
                    pair_up(cur),
                    idx as int / 2,
                ));
                assert(digests_view(path@) =~= digests_view(path0).push(cur[sib_idx as int]));
                assert(digests_view(path0) + merkle_path(cur, idx as int) =~= digests_view(path@)
                    + merkle_path(pair_up(cur), idx as int / 2));
            }
            idx = idx / 2;
        }
        proof {
            assert(self.levels@[depth as int]@.len() == 1);
            assert(merkle_path(digests_view(self.levels@[depth as int]@), idx as int)
                == Seq::<Seq<u8>>::empty());
            assert(digests_view(path@) + Seq::<Seq<u8>>::empty() =~= digests_view(path@));
        }
        path
    }

    /// Checks one opening against a commitment.
    pub fn verify(root: &Vec<u8>, index: usize, leaf: &Vec<u8>, path: &Vec<Vec<u8>>) -> (r: bool)
        ensures
            r == merkle_verify(root@, index as int, leaf@, digests_view(path@)),
    {
        let mut cur: Vec<u8> = Vec::new();
        extend_bytes(&mut cur, leaf);
        assert(cur@ =~= leaf@);
        let mut idx = index;
        let n = path.len();
        proof {
            assert(digests_view(path@).skip(0) =~= digests_view(path@));
        }
        for k in 0..n
            invariant
                n == path@.len(),
                merkle_verify(root@, index as int, leaf@, digests_view(path@)) == merkle_verify(
                    root@,
                    idx as int,
                    cur@,
                    digests_view(path@).skip(k as int),
                ),
        {
            let mut buf: Vec<u8> = Vec::new();
            if idx % 2 == 0 {
                extend_bytes(&mut buf, &cur);
                extend_bytes(&mut buf, &path[k]);
                assert(buf@ =~= cur@ + path@[k as int]@);
            } else {
                extend_bytes(&mut buf, &path[k]);
                extend_bytes(&mut buf, &cur);
                assert(buf@ =~= path@[k as int]@ + cur@);
            }
            let ghost rest = digests_view(path@).skip(k as int);
            proof {
                assert(rest.len() == n - k);
                assert(rest[0] == path@[k as int]@);
                assert(rest.drop_first() =~= digests_view(path@).skip(k as int + 1));
            }
            cur = sha256(&buf);
            idx = idx / 2;
        }
        proof {
            assert(digests_view(path@).skip(n as int) =~= Seq::<Seq<u8>>::empty());
        }
        bytes_eq(&cur, root)
    }
}

} // verus!
