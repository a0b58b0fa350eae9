//! The constraint algebra: symbolic polynomial terms over trace columns
//! (current or next row) and verifier-drawn challenges, evaluated in one
//! pass over a whole evaluation domain.
//!
//! A constraint is a sum of terms; each term is a coefficient times a
//! product of powers of elements. On the extended domain the "next row"
//! reference reads `(i + step) mod n` cyclically, `step` being the blowup
//! factor — valid because the extended domain is a coset of the trace
//! domain scaled by that factor.

use vstd::prelude::*;
use crate::field::{Felt, fadd, fmul, fpow};
use crate::matrix::{Matrix, join_columns};

verus! {

/// One multiplicand of a term: a trace column at the current or the next
/// row, or a verifier-drawn challenge.
#[derive(Clone, Copy, Debug, PartialEq, Eq, Structural)]
pub enum Element {
    /// Trace column at the current row.
    Curr(usize),
    /// Trace column at the next row.
    Next(usize),
    /// A challenge drawn from the public coin.
    Challenge(usize),
}

/// A coefficient times a product of element powers.
pub struct Term {
    pub coeff: Felt,
    pub factors: Vec<(Element, u32)>,
}

/// A sum of terms.
pub struct Constraint {
    pub terms: Vec<Term>,
}

/// The value of one element at row `i` of `cols`, with the next row read
/// cyclically `step` rows further on, and challenges from `challenges`.
pub open spec fn element_value(
    e: Element,
    cols: Seq<Seq<Felt>>,
    challenges: Seq<Felt>,
    i: int,
    step: int,
    n: int,
) -> int {
    match e {
        Element::Curr(c) => cols[c as int][i].val(),
        Element::Next(c) => cols[c as int][(i + step) % n].val(),
        Element::Challenge(k) => challenges[k as int].val(),
    }
}

/// The product of the element powers of a factor list.
pub open spec fn factors_value(
    factors: Seq<(Element, u32)>,
    cols: Seq<Seq<Felt>>,
    challenges: Seq<Felt>,
    i: int,
    step: int,
    n: int,
) -> int
    decreases factors.len(),
{
    if factors.len() == 0 {
        1int
    } else {
        fmul(
            factors_value(factors.drop_last(), cols, challenges, i, step, n),
            fpow(element_value(factors.last().0, cols, challenges, i, step, n), factors.last().1 as nat),
        )
    }
}

/// The value of one term: its coefficient times its factor product.
pub open spec fn term_value(
    t: Term,
    cols: Seq<Seq<Felt>>,
    challenges: Seq<Felt>,
    i: int,
    step: int,
    n: int,
) -> int {
    fmul(t.coeff.val(), factors_value(t.factors@, cols, challenges, i, step, n))
}

/// The value of a sum of terms.
pub open spec fn terms_value(
    terms: Seq<Term>,
    cols: Seq<Seq<Felt>>,
    challenges: Seq<Felt>,
    i: int,
    step: int,
    n: int,
) -> int
    decreases terms.len(),
{
    if terms.len() == 0 {
        0int
    } else {
        fadd(
            terms_value(terms.drop_last(), cols, challenges, i, step, n),
            term_value(terms.last(), cols, challenges, i, step, n),
        )
    }
}

/// The value of a constraint at row `i`.
pub open spec fn constraint_value(
    c: Constraint,
    cols: Seq<Seq<Felt>>,
    challenges: Seq<Felt>,
    i: int,
    step: int,
    n: int,
) -> int {
    terms_value(c.terms@, cols, challenges, i, step, n)
}

/// The total degree of a factor list in the trace columns: the sum of the
/// exponents of its column references (challenges count for nothing).
pub open spec fn factors_degree(factors: Seq<(Element, u32)>) -> int
    decreases factors.len(),
{
    if factors.len() == 0 {
        0int
    } else {
        factors_degree(factors.drop_last()) + (match factors.last().0 {
            Element::Curr(_) => factors.last().1 as int,
            Element::Next(_) => factors.last().1 as int,
            Element::Challenge(_) => 0int,
        })
    }
}

/// The degree of a constraint: the largest degree among its terms.
pub open spec fn constraint_degree(terms: Seq<Term>) -> int
    decreases terms.len(),
{
    if terms.len() == 0 {
        0int
    } else {
        let rest = constraint_degree(terms.drop_last());
        let last = factors_degree(terms.last().factors@);
        if last > rest {
            last
        } else {
            rest
        }
    }
}

/// Whether every column and challenge reference of the factor list is in
/// range.
pub open spec fn factors_in_range(
    factors: Seq<(Element, u32)>,
    num_cols: int,
    num_challenges: int,
) -> bool {
    forall|a: int|
        0 <= a < factors.len() ==> (match (#[trigger] factors[a]).0 {
            Element::Curr(c) => c < num_cols,
            Element::Next(c) => c < num_cols,
            Element::Challenge(k) => k < num_challenges,
        })
}

impl Term {
    /// Whether every reference of the term is in range.
    pub open spec fn in_range(self, num_cols: int, num_challenges: int) -> bool {
        factors_in_range(self.factors@, num_cols, num_challenges)
    }
}

impl Constraint {
    /// Whether every reference of the constraint is in range.
    pub open spec fn in_range(self, num_cols: int, num_challenges: int) -> bool {
        forall|t: int|
            0 <= t < self.terms@.len() ==> (#[trigger] self.terms@[t]).in_range(
                num_cols,
                num_challenges,
            )
    }

    /// Builds a constraint from its terms.
    pub fn new(terms: Vec<Term>) -> (r: Constraint)
        ensures
            r.terms == terms,
    {
        Constraint { terms }
    }

    /// The degree of the constraint in the trace columns, each term's
    /// degree being the sum of its column-reference exponents.
    pub fn degree(&self) -> (r: u64)
        requires
            constraint_degree(self.terms@) <= u64::MAX,
        ensures
            r == constraint_degree(self.terms@),
    {
        let num_terms = self.terms.len();
        let mut best: u64 = 0;
        proof {
            assert(self.terms@.take(0) =~= Seq::<Term>::empty());
            lemma_constraint_degree_prefix(self.terms@, 0);
        }
        for t in 0..num_terms
            invariant
                num_terms == self.terms@.len(),
                constraint_degree(self.terms@) <= u64::MAX,
                best == constraint_degree(self.terms@.take(t as int)),
                constraint_degree(self.terms@.take(t as int)) <= constraint_degree(self.terms@),
        {
            proof {
                lemma_constraint_degree_step(self.terms@, t as int);
                lemma_constraint_degree_prefix(self.terms@, t as int + 1);
                lemma_factors_degree_nonneg(self.terms@[t as int].factors@);
            }
            let term = &self.terms[t];
            let nf = term.factors.len();
            let mut d: u64 = 0;
            proof {
                assert(term.factors@.take(0) =~= Seq::<(Element, u32)>::empty());
                lemma_factors_degree_nonneg(term.factors@);
                assert(factors_degree(term.factors@) <= constraint_degree(self.terms@.take(t as int + 1)));
            }
            for a in 0..nf
                invariant
                    nf == term.factors@.len(),
                    d == factors_degree(term.factors@.take(a as int)),
                    factors_degree(term.factors@.take(a as int)) <= factors_degree(term.factors@),
                    factors_degree(term.factors@) <= u64::MAX,
            {
                proof {
                    lemma_factors_degree_step(term.factors@, a as int);
                    lemma_factors_degree_prefix(term.factors@, a as int + 1);
                }
                let (e, exp) = term.factors[a];
                match e {
                    Element::Curr(_) => {
                        d = d + exp as u64;
                    },
                    Element::Next(_) => {
                        d = d + exp as u64;
                    },
                    Element::Challenge(_) => {
                    },
                }
            }
            proof {
                assert(term.factors@.take(nf as int) =~= term.factors@);
            }
            if d > best {
                best = d;
            }
        }
        proof {
            assert(self.terms@.take(num_terms as int) =~= self.terms@);
        }
        best
    }
}

/// Extending a factor prefix by one entry adds that entry's contribution.
proof fn lemma_factors_degree_step(factors: Seq<(Element, u32)>, a: int)
    requires
        0 <= a < factors.len(),
    ensures
        factors_degree(factors.take(a + 1)) == factors_degree(factors.take(a)) + (
        match factors[a].0 {
            Element::Curr(_) => factors[a].1 as int,
            Element::Next(_) => factors[a].1 as int,
            Element::Challenge(_) => 0int,
        }),
{
    let t = factors.take(a + 1);
    assert(t.drop_last() =~= factors.take(a));
    assert(t.last() == factors[a]);
}

/// A factor list's degree is never negative.
proof fn lemma_factors_degree_nonneg(factors: Seq<(Element, u32)>)
    ensures
        factors_degree(factors) >= 0,
    decreases factors.len(),
{
    if factors.len() > 0 {
        lemma_factors_degree_nonneg(factors.drop_last());
    }
}

/// A prefix never has a larger degree than the whole factor list.
proof fn lemma_factors_degree_prefix(factors: Seq<(Element, u32)>, a: int)
    requires
        0 <= a <= factors.len(),
    ensures
        factors_degree(factors.take(a)) <= factors_degree(factors),
    decreases factors.len() - a,
{
    if a < factors.len() {
        lemma_factors_degree_step(factors, a);
        lemma_factors_degree_prefix(factors, a + 1);
    } else {
        assert(factors.take(a) =~= factors);
    }
}

/// Extending a term prefix by one keeps the running maximum.
proof fn lemma_constraint_degree_step(terms: Seq<Term>, t: int)
    requires
        0 <= t < terms.len(),
    ensures
        constraint_degree(terms.take(t + 1)) == ({
            let rest = constraint_degree(terms.take(t));
            let last = factors_degree(terms[t].factors@);
            if last > rest {
                last
            } else {
                rest
            }
        }),
        constraint_degree(terms.take(t)) <= constraint_degree(terms.take(t + 1)),
{
    let s = terms.take(t + 1);
    assert(s.drop_last() =~= terms.take(t));
    assert(s.last() == terms[t]);
}

/// A term prefix never exceeds the whole constraint's degree.
proof fn lemma_constraint_degree_prefix(terms: Seq<Term>, t: int)
    requires
        0 <= t <= terms.len(),
    ensures
        constraint_degree(terms.take(t)) <= constraint_degree(terms),
    decreases terms.len() - t,
{
    if t < terms.len() {
        lemma_constraint_degree_step(terms, t);
        lemma_constraint_degree_prefix(terms, t + 1);
    } else {
        assert(terms.take(t) =~= terms);
    }
}

/// A group of matrices read as one wide matrix: column `c` of the group
/// is column `c` of the concatenation of the members' columns, in order.
/// This fixed rule — base columns first, in declaration order — routes
/// every constraint reference to its buffer.
pub struct MatrixGroup {
    pub items: Vec<Matrix>,
}

impl MatrixGroup {
    /// The flattened columns of the group.
    pub open spec fn columns(self) -> Seq<Seq<Felt>> {
        join_columns(self.items@)
    }

    /// All members well-formed with the same number of rows.
    pub open spec fn wf(self) -> bool {
        &&& forall|k: int| 0 <= k < self.items@.len() ==> (#[trigger] self.items@[k]).wf()
        &&& forall|k: int|
            0 <= k < self.items@.len() ==> (#[trigger] self.items@[k]).num_rows_spec()
                == self.num_rows_spec()
    }

    /// The shared row count (zero for an empty group).
    pub open spec fn num_rows_spec(self) -> nat {
        if self.items@.len() == 0 {
            0nat
        } else {
            self.items@[0].num_rows_spec()
        }
    }

    /// Builds a group from its members.
    pub fn new(items: Vec<Matrix>) -> (r: MatrixGroup)
        ensures
            r.items == items,
    {
        MatrixGroup { items }
    }

    /// The shared number of rows; all members must agree on it.
    pub fn num_rows(&self) -> (r: usize)
        requires
            self.wf(),
        ensures
            r == self.num_rows_spec(),
    {
        if self.items.len() == 0 {
            return 0;
        }
        self.items[0].num_rows()
    }

    /// The total number of columns across the group.
    pub fn num_cols(&self) -> (r: usize)
        requires
            self.wf(),
            self.columns().len() <= usize::MAX,
        ensures
            r == self.columns().len(),
    {
        let n = self.items.len();
        let mut total: usize = 0;
        proof {
            lemma_join_columns_len(self.items@, 0);
        }
        for k in 0..n
            invariant
                self.wf(),
                n == self.items@.len(),
                self.columns().len() <= usize::MAX,
                total == join_columns(self.items@.take(k as int)).len(),
                join_columns(self.items@.take(k as int)).len() <= self.columns().len(),
        {
            proof {
                lemma_join_take_step(self.items@, k as int);
                lemma_join_take_prefix_len(self.items@, k as int + 1);
            }
            total = total + self.items[k].num_cols();
        }
        proof {
            assert(self.items@.take(n as int) =~= self.items@);
        }
        total
    }

    /// A borrow of group column `index`.
    pub fn get_column(&self, index: usize) -> (r: &Vec<Felt>)
        requires
            self.wf(),
            index < self.columns().len(),
        ensures
            r@ == self.columns()[index as int],
    {
        let n = self.items.len();
        let mut k: usize = 0;
        let mut skipped: usize = 0;
        loop
            invariant
                self.wf(),
                n == self.items@.len(),
                k <= n,
                index < self.columns().len(),
                skipped == join_columns(self.items@.take(k as int)).len(),
                skipped <= index,
            ensures
                k < n,
                skipped == join_columns(self.items@.take(k as int)).len(),
                skipped <= index,
                index - skipped < self.items@[k as int].num_cols_spec(),
            decreases n - k,
        {
            proof {
                if k as int == n {
                    assert(self.items@.take(n as int) =~= self.items@);
                    assert(false);
                }
                lemma_join_take_step(self.items@, k as int);
            }
            let width = self.items[k].num_cols();
            if index - skipped < width {
                break;
            }
            skipped = skipped + width;
            k = k + 1;
        }
        proof {
            lemma_join_column_lookup(self.items@, k as int, index as int);
        }
        self.items[k].col(index - skipped)
    }

    /// Evaluates every constraint, with `challenges` substituted, at every
    /// row of the group, the next-row reference stepping `step` rows
    /// cyclically: one result column per constraint.
    pub fn evaluate_symbolic(
        &self,
        constraints: &Vec<Constraint>,
        challenges: &Vec<Felt>,
        step: usize,
    ) -> (r: Matrix)
        requires
            self.wf(),
            self.num_rows_spec() > 0,
            self.num_rows_spec() <= usize::MAX / 2,
            step < self.num_rows_spec(),
            forall|t: int|
                0 <= t < constraints@.len() ==> (#[trigger] constraints@[t]).in_range(
                    self.columns().len() as int,
                    challenges@.len() as int,
                ),
        ensures
            r.wf(),
            r.num_cols_spec() == constraints@.len(),
            constraints@.len() > 0 ==> r.num_rows_spec() == self.num_rows_spec(),
            forall|t: int, i: int|
                0 <= t < constraints@.len() && 0 <= i < self.num_rows_spec()
                    ==> (#[trigger] r.columns()[t][i]).val() == constraint_value(
                    constraints@[t],
                    self.columns(),
                    challenges@,
                    i,
                    step as int,
                    self.num_rows_spec() as int,
                ),
    {
        let n = self.num_rows();
        let num_constraints = constraints.len();
        let ghost cols = self.columns();
        let ghost nn = self.num_rows_spec() as int;
        let mut out: Vec<Vec<Felt>> = Vec::new();
        for t in 0..num_constraints
            invariant
                self.wf(),
                n == self.num_rows_spec(),
                n > 0,
                n <= usize::MAX / 2,
                step < n,
                cols == self.columns(),
                nn == n as int,
                num_constraints == constraints@.len(),
                forall|a: int|
                    0 <= a < constraints@.len() ==> (#[trigger] constraints@[a]).in_range(
                        cols.len() as int,
                        challenges@.len() as int,
                    ),
                out@.len() == t,
                forall|a: int| 0 <= a < t ==> (#[trigger] out@[a])@.len() == n,
                forall|a: int, i: int|
                    0 <= a < t && 0 <= i < n ==> (#[trigger] out@[a]@[i]).val()
                        == constraint_value(constraints@[a], cols, challenges@, i, step as int, nn),
        {
            let constraint = &constraints[t];
            let mut col: Vec<Felt> = Vec::new();
            for i in 0..n
                invariant
                    self.wf(),
                    n == self.num_rows_spec(),
                    n > 0,
                    n <= usize::MAX / 2,
                    step < n,
                    cols == self.columns(),
                    nn == n as int,
                    t < num_constraints,
                    num_constraints == constraints@.len(),
                    constraint == constraints@[t as int],
                    constraint.in_range(cols.len() as int, challenges@.len() as int),
                    col@.len() == i,
                    forall|a: int|
                        0 <= a < i ==> (#[trigger] col@[a]).val() == constraint_value(
                            constraints@[t as int],
                            cols,
                            challenges@,
                            a,
                            step as int,
                            nn,
                        ),
            {
                let v = self.eval_constraint_at(constraint, challenges, i, step, n);
                col.push(v);
            }
            out.push(col);
        }
        let r = Matrix::new(out);
        r
    }

    /// Evaluates one constraint at one row.
    fn eval_constraint_at(
        &self,
        constraint: &Constraint,
        challenges: &Vec<Felt>,
        i: usize,
        step: usize,
        n: usize,
    ) -> (r: Felt)
        requires
            self.wf(),
            n == self.num_rows_spec(),
            n > 0,
            n <= usize::MAX / 2,
            i < n,
            step < n,
            constraint.in_range(self.columns().len() as int, challenges@.len() as int),
        ensures
            r.val() == constraint_value(
                *constraint,
                self.columns(),
                challenges@,
                i as int,
                step as int,
                n as int,
            ),
    {
        let ghost cols = self.columns();
        proof {
            lemma_join_columns_rows(self.items@, self.num_rows_spec());
        }
        let num_terms = constraint.terms.len();
        let mut sum = Felt::zero();
        proof {
            assert(constraint.terms@.take(0) =~= Seq::<Term>::empty());
        }
        for t in 0..num_terms
            invariant
                self.wf(),
                n == self.num_rows_spec(),
                n > 0,
                n <= usize::MAX / 2,
                i < n,
                step < n,
                cols == self.columns(),
                num_terms == constraint.terms@.len(),
                constraint.in_range(cols.len() as int, challenges@.len() as int),
                sum.val() == terms_value(
                    constraint.terms@.take(t as int),
                    cols,
                    challenges@,
                    i as int,
                    step as int,
                    n as int,
                ),
        {
            let term = &constraint.terms[t];
            let nf = term.factors.len();
            let mut product = Felt::one();
            proof {
                assert(term.factors@.take(0) =~= Seq::<(Element, u32)>::empty());
            }
            for a in 0..nf
                invariant
                    self.wf(),
                    n == self.num_rows_spec(),
                    n > 0,
                    n <= usize::MAX / 2,
                    i < n,
                    step < n,
                    cols == self.columns(),
                    nf == term.factors@.len(),
                    term.in_range(cols.len() as int, challenges@.len() as int),
                    product.val() == factors_value(
                        term.factors@.take(a as int),
                        cols,
                        challenges@,
                        i as int,
                        step as int,
                        n as int,
                    ),
            {
                let (e, exp) = term.factors[a];
                let base = match e {
                    Element::Curr(c) => {
                        let column = self.get_column(c);
                        proof {
                            lemma_join_columns_rows(self.items@, self.num_rows_spec());
                            assert(cols[c as int].len() == n);
                        }
                        column[i]
                    },
                    Element::Next(c) => {
                        let column = self.get_column(c);
                        proof {
                            lemma_join_columns_rows(self.items@, self.num_rows_spec());
                            assert(cols[c as int].len() == n);
                        }
                        column[(i + step) % n]
                    },
                    Element::Challenge(k) => challenges[k],
                };
                proof {
                    assert(base.val() == element_value(
                        term.factors@[a as int].0,
                        cols,
                        challenges@,
                        i as int,
                        step as int,
                        n as int,
                    ));
                }
                let powered = base.pow(exp as u64);
                product = product.mul(powered);
                proof {
                    let tk = term.factors@.take(a as int + 1);
                    assert(tk.drop_last() =~= term.factors@.take(a as int));
                    assert(tk.last() == term.factors@[a as int]);
                }
            }
            proof {
                assert(term.factors@.take(nf as int) =~= term.factors@);
            }
            let tv = term.coeff.mul(product);
            sum = sum.add(tv);
            proof {
                let tk = constraint.terms@.take(t as int + 1);
                assert(tk.drop_last() =~= constraint.terms@.take(t as int));
                assert(tk.last() == constraint.terms@[t as int]);
            }
        }
        proof {
            assert(constraint.terms@.take(num_terms as int) =~= constraint.terms@);
        }
        sum
    }
}

/// The flattened width of an empty prefix is zero.
proof fn lemma_join_columns_len(ms: Seq<Matrix>, k: int)
    requires
        k == 0,
    ensures
        join_columns(ms.take(0)).len() == 0,
{
    assert(ms.take(0) =~= Seq::<Matrix>::empty());
}

/// One more member appends exactly its columns.
proof fn lemma_join_take_step(ms: Seq<Matrix>, k: int)
    requires
        0 <= k < ms.len(),
    ensures
        join_columns(ms.take(k + 1)) == join_columns(ms.take(k)) + ms[k].columns(),
{
    let t = ms.take(k + 1);
    assert(t.drop_last() =~= ms.take(k));
    assert(t.last() == ms[k]);
}

/// A prefix of the group is never wider than the whole group.
proof fn lemma_join_take_prefix_len(ms: Seq<Matrix>, k: int)
    requires
        0 <= k <= ms.len(),
    ensures
        join_columns(ms.take(k)).len() <= join_columns(ms).len(),
    decreases ms.len() - k,
{
    if k < ms.len() {
        lemma_join_take_step(ms, k);
        lemma_join_take_prefix_len(ms, k + 1);
    } else {
        assert(ms.take(k) =~= ms);
    }
}

/// Looking a column up inside member `k` agrees with the flat view.
proof fn lemma_join_column_lookup(ms: Seq<Matrix>, k: int, index: int)
    requires
        0 <= k < ms.len(),
        join_columns(ms.take(k)).len() <= index,
        index - join_columns(ms.take(k)).len() < ms[k].num_cols_spec(),
        index < join_columns(ms).len(),
    ensures
        join_columns(ms)[index] == ms[k].columns()[index - join_columns(ms.take(k)).len()],
{
    lemma_join_lookup_rec(ms, k, index, ms.len() as int);
    assert(ms.take(ms.len() as int) =~= ms);
}

/// Every column of a well-formed group has the group's row count.
proof fn lemma_join_columns_rows(ms: Seq<Matrix>, n: nat)
    requires
        forall|k: int|
            0 <= k < ms.len() ==> (#[trigger] ms[k]).wf() && ms[k].num_rows_spec() == n,
    ensures
        forall|j: int|
            0 <= j < join_columns(ms).len() ==> (#[trigger] join_columns(ms)[j]).len() == n,
    decreases ms.len(),
{
    if ms.len() > 0 {
        let head = ms.drop_last();
        assert(forall|k: int|
            0 <= k < head.len() ==> (#[trigger] head[k]).wf() && head[k].num_rows_spec() == n);
        lemma_join_columns_rows(head, n);
        let last = ms.last();
        assert forall|j: int|
            0 <= j < join_columns(ms).len() implies (#[trigger] join_columns(ms)[j]).len()
            == n by {
            if j < join_columns(head).len() {
                assert(join_columns(ms)[j] == join_columns(head)[j]);
            } else {
                assert(join_columns(ms)[j] == last.columns()[j - join_columns(head).len()]);
                if n == 0 {
                    assert(last.columns()[j - join_columns(head).len()].len() == n);
                }
            }
        }
    }
}

proof fn lemma_join_lookup_rec(ms: Seq<Matrix>, k: int, index: int, upto: int)
    requires
        0 <= k < upto <= ms.len(),
        join_columns(ms.take(k)).len() <= index,
        index - join_columns(ms.take(k)).len() < ms[k].num_cols_spec(),
    ensures
        index < join_columns(ms.take(upto)).len(),
        join_columns(ms.take(upto))[index] == ms[k].columns()[index - join_columns(
            ms.take(k),
        ).len()],
    decreases upto,
{
    if upto == k + 1 {
        lemma_join_take_step(ms, k);
    } else {
        lemma_join_lookup_rec(ms, k, index, upto - 1);
        lemma_join_take_step(ms, upto - 1);
    }
}

} // verus!
