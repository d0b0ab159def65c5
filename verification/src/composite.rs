//! The composite-polynomial model and the prover's round engine.
//!
//! A composite polynomial is a sum of scaled products of multilinear
//! polynomials over a boolean hypercube of `num_variables` dimensions;
//! each multilinear factor is given by its table of `2^num_variables`
//! evaluations, with the variable currently being bound in the lowest
//! position (entries `2k` and `2k+1` are the two boolean settings of it).
//!
//! The prover state owns working copies of all tables.  Binding a
//! variable to a challenge `r` folds every table: entry pair `(2k, 2k+1)`
//! becomes the single entry `a + r * (b - a)`, halving the table.  One
//! round's output is the round polynomial in evaluation form: its values
//! at the integer points `0 ..= max_multiplicands`.

use vstd::prelude::*;
use vstd::arithmetic::power2::pow2;
use crate::scalar::{Scalar, fadd, fmul, fsub};

verus! {

/// The values of a table of scalars.
pub open spec fn table_vals(t: Seq<Scalar>) -> Seq<nat> {
    t.map_values(|s: Scalar| s.value())
}

/// Every scalar of a table is canonical.
pub open spec fn table_wf(t: Seq<Scalar>) -> bool {
    forall|i: int| 0 <= i < t.len() ==> (#[trigger] t[i]).wf()
}

/// The affine interpolation of a table's entry pair `(a, b)` at point `t`:
/// the multilinear-extension fold `a + t * (b - a)`.
pub open spec fn affine_fold(a: nat, b: nat, t: nat) -> nat {
    fadd(a, fmul(t, fsub(b, a)))
}

/// The table after binding the lowest variable to `r`: each entry pair
/// is replaced by its affine interpolation at `r`, halving the length.
pub open spec fn fold_vals(t: Seq<nat>, r: nat) -> Seq<nat> {
    Seq::new(t.len() / 2, |k: int| affine_fold(t[2 * k], t[2 * k + 1], r))
}

/// All of one term's tables, folded on the same challenge.
pub open spec fn fold_tables(tables: Seq<Seq<nat>>, r: nat) -> Seq<Seq<nat>> {
    tables.map_values(|t: Seq<nat>| fold_vals(t, r))
}

/// Product over the first `j` multiplicand tables of their affine
/// interpolation at point `t`, for the boolean assignment (pair) `k`.
pub open spec fn pair_product(tables: Seq<Seq<nat>>, j: int, k: int, t: nat) -> nat
    decreases j,
{
    if j <= 0 {
        1
    } else {
        fmul(
            pair_product(tables, j - 1, k, t),
            affine_fold(tables[j - 1][2 * k], tables[j - 1][2 * k + 1], t),
        )
    }
}

/// Sum over the first `m` boolean assignments of one term's full product
/// at point `t`.
pub open spec fn term_pair_sum(tables: Seq<Seq<nat>>, m: int, t: nat) -> nat
    decreases m,
{
    if m <= 0 {
        0
    } else {
        fadd(
            term_pair_sum(tables, m - 1, t),
            pair_product(tables, tables.len() as int, m - 1, t),
        )
    }
}

/// The round polynomial's value at integer point `t`, summed over the
/// first `e` terms: each term contributes its coefficient times the sum,
/// over the `half` remaining boolean assignments, of its product of
/// affine interpolations.
pub open spec fn round_eval(
    coeffs: Seq<nat>,
    tabs: Seq<Seq<Seq<nat>>>,
    e: int,
    half: int,
    t: nat,
) -> nat
    decreases e,
{
    if e <= 0 {
        0
    } else {
        fadd(
            round_eval(coeffs, tabs, e - 1, half, t),
            fmul(coeffs[e - 1], term_pair_sum(tabs[e - 1], half, t)),
        )
    }
}

/// One product term of a composite polynomial: a scalar coefficient and
/// the evaluation tables of its multilinear factors.
pub struct ProductTerm {
    pub coefficient: Scalar,
    pub multiplicands: Vec<Vec<Scalar>>,
}

impl ProductTerm {
    /// The values of this term's tables.
    pub open spec fn tables(self) -> Seq<Seq<nat>> {
        self.multiplicands@.map_values(|v: Vec<Scalar>| table_vals(v@))
    }

    /// Well-formed for a given table length and factor bound.
    pub open spec fn wf(self, table_len: nat, max_multiplicands: nat) -> bool {
        &&& self.coefficient.wf()
        &&& 1 <= self.multiplicands@.len() <= max_multiplicands
        &&& forall|j: int|
            0 <= j < self.multiplicands@.len() ==> {
                &&& (#[trigger] self.multiplicands@[j])@.len() == table_len
                &&& table_wf(self.multiplicands@[j]@)
            }
    }
}

/// The coefficients of a sequence of terms, as values.
pub open spec fn terms_coeffs(terms: Seq<ProductTerm>) -> Seq<nat> {
    terms.map_values(|p: ProductTerm| p.coefficient.value())
}

/// The tables of a sequence of terms, as values.
pub open spec fn terms_tables(terms: Seq<ProductTerm>) -> Seq<Seq<Seq<nat>>> {
    terms.map_values(|p: ProductTerm| p.tables())
}

/// A sum of scaled products of multilinear polynomials over the boolean
/// hypercube of `num_variables` dimensions.
pub struct CompositePolynomial {
    pub num_variables: usize,
    pub max_multiplicands: usize,
    pub terms: Vec<ProductTerm>,
}

/// The two public dimensions of a composite polynomial: all the verifier
/// ever sees of it.
#[derive(Clone, Copy, Debug)]
pub struct CompositePolynomialInfo {
    pub num_variables: usize,
    pub max_multiplicands: usize,
}

impl CompositePolynomial {
    /// The common length of every evaluation table.
    pub open spec fn table_length(self) -> nat {
        pow2(self.num_variables as nat)
    }

    pub open spec fn wf(self) -> bool {
        &&& 1 <= self.max_multiplicands < usize::MAX
        &&& forall|e: int|
            0 <= e < self.terms@.len() ==> (#[trigger] self.terms@[e]).wf(
                self.table_length(),
                self.max_multiplicands as nat,
            )
    }

    /// An empty composite polynomial over the given hypercube.
    pub fn new(num_variables: usize, max_multiplicands: usize) -> (r: CompositePolynomial)
        requires
            1 <= max_multiplicands < usize::MAX,
        ensures
            r.wf(),
            r.num_variables == num_variables,
            r.max_multiplicands == max_multiplicands,
            r.terms@.len() == 0,
    {
        CompositePolynomial { num_variables, max_multiplicands, terms: Vec::new() }
    }

    /// Add one product term.  Every table must have exactly
    /// `2^num_variables` entries and the factor count must respect
    /// `max_multiplicands`; anything else is a caller error.
    pub fn add_product(&mut self, coefficient: Scalar, multiplicands: Vec<Vec<Scalar>>)
        requires
            old(self).wf(),
            coefficient.wf(),
            1 <= multiplicands@.len() <= old(self).max_multiplicands,
            forall|j: int|
                0 <= j < multiplicands@.len() ==> {
                    &&& (#[trigger] multiplicands@[j])@.len() == old(self).table_length()
                    &&& table_wf(multiplicands@[j]@)
                },
        ensures
            final(self).wf(),
            final(self).num_variables == old(self).num_variables,
            final(self).max_multiplicands == old(self).max_multiplicands,
            final(self).terms@ == old(self).terms@.push(
                ProductTerm { coefficient, multiplicands },
            ),
    {
        self.terms.push(ProductTerm { coefficient, multiplicands });
    }

    /// The public dimensions, for the verifier.
    pub fn info(&self) -> (r: CompositePolynomialInfo)
        ensures
            r.num_variables == self.num_variables,
            r.max_multiplicands == self.max_multiplicands,
    {
        CompositePolynomialInfo {
            num_variables: self.num_variables,
            max_multiplicands: self.max_multiplicands,
        }
    }
}

/// The prover's working state: its own copies of all evaluation tables,
/// folded once per bound variable.  `round` counts the variables bound
/// so far, so every table currently has `2^(num_variables - round)`
/// entries.
pub struct ProverState {
    pub terms: Vec<ProductTerm>,
    pub num_variables: usize,
    pub max_multiplicands: usize,
    pub round: usize,
}

impl ProverState {
    /// The current length of every table.
    pub open spec fn table_length(self) -> nat {
        pow2((self.num_variables - self.round) as nat)
    }

    pub open spec fn wf(self) -> bool {
        &&& 1 <= self.max_multiplicands < usize::MAX
        &&& self.round <= self.num_variables
        &&& forall|e: int|
            0 <= e < self.terms@.len() ==> (#[trigger] self.terms@[e]).wf(
                self.table_length(),
                self.max_multiplicands as nat,
            )
    }

    /// Fresh prover state: working copies of the polynomial's tables,
    /// with no variable bound yet.
    pub fn create(polynomial: &CompositePolynomial) -> (r: ProverState)
        requires
            polynomial.wf(),
        ensures
            r.wf(),
            r.round == 0,
            r.num_variables == polynomial.num_variables,
            r.max_multiplicands == polynomial.max_multiplicands,
            r.terms@.len() == polynomial.terms@.len(),
            terms_coeffs(r.terms@) =~= terms_coeffs(polynomial.terms@),
            terms_tables(r.terms@) =~~= terms_tables(polynomial.terms@),
    {
        let mut terms: Vec<ProductTerm> = Vec::new();
        let mut e: usize = 0;
        while e < polynomial.terms.len()
            invariant
                polynomial.wf(),
                e <= polynomial.terms@.len(),
                terms@.len() == e,
                forall|i: int|
                    0 <= i < e ==> (#[trigger] terms@[i]).wf(
                        polynomial.table_length(),
                        polynomial.max_multiplicands as nat,
                    ),
                forall|i: int|
                    0 <= i < e ==> (#[trigger] terms@[i]).coefficient
                        == polynomial.terms@[i].coefficient,
                forall|i: int|
                    0 <= i < e ==> (#[trigger] terms@[i]).tables() =~~= polynomial.terms@[i].tables(),
            decreases polynomial.terms@.len() - e,
        {
            let term = copy_term(&polynomial.terms[e]);
            terms.push(term);
            e = e + 1;
        }
        let r = ProverState {
            terms,
            num_variables: polynomial.num_variables,
            max_multiplicands: polynomial.max_multiplicands,
            round: 0,
        };
        proof {
            assert(r.table_length() == polynomial.table_length());
            assert(terms_coeffs(r.terms@) =~= terms_coeffs(polynomial.terms@));
            assert(terms_tables(r.terms@) =~~= terms_tables(polynomial.terms@));
        }
        r
    }
}

/// A deep copy of one table (scalars are plain copies).
fn copy_table(t: &Vec<Scalar>) -> (r: Vec<Scalar>)
    ensures
        r@ =~= t@,
{
    let mut r: Vec<Scalar> = Vec::new();
    let mut i: usize = 0;
    while i < t.len()
        invariant
            i <= t@.len(),
            r@ =~= t@.take(i as int),
        decreases t@.len() - i,
    {
        r.push(t[i]);
        i = i + 1;
    }
    r
}

/// A deep copy of one product term.
fn copy_term(p: &ProductTerm) -> (r: ProductTerm)
    ensures
        r.coefficient == p.coefficient,
        r.multiplicands@.len() == p.multiplicands@.len(),
        forall|j: int|
            0 <= j < p.multiplicands@.len() ==> (#[trigger] r.multiplicands@[j])@
                == p.multiplicands@[j]@,
        r.tables() =~~= p.tables(),
        forall|tl: nat, mm: nat| p.wf(tl, mm) ==> r.wf(tl, mm),
{
    let mut multiplicands: Vec<Vec<Scalar>> = Vec::new();
    let mut j: usize = 0;
    while j < p.multiplicands.len()
        invariant
            j <= p.multiplicands@.len(),
            multiplicands@.len() == j,
            forall|i: int|
                0 <= i < j ==> (#[trigger] multiplicands@[i])@ == p.multiplicands@[i]@,
        decreases p.multiplicands@.len() - j,
    {
        let table = copy_table(&p.multiplicands[j]);
        multiplicands.push(table);
        j = j + 1;
    }
    let r = ProductTerm { coefficient: p.coefficient, multiplicands };
    proof {
        assert(r.tables() =~~= p.tables());
    }
    r
}

/// One folded table: entry pair `(2k, 2k+1)` becomes
/// `t[2k] + r * (t[2k+1] - t[2k])`.
fn fold_table(t: &Vec<Scalar>, r: &Scalar) -> (res: Vec<Scalar>)
    requires
        table_wf(t@),
        r.wf(),
        t@.len() % 2 == 0,
    ensures
        res@.len() == t@.len() / 2,
        table_wf(res@),
        table_vals(res@) =~= fold_vals(table_vals(t@), r.value()),
{
    let half = t.len() / 2;
    let mut res: Vec<Scalar> = Vec::new();
    let mut k: usize = 0;
    while k < half
        invariant
            half == t@.len() / 2,
            t@.len() <= usize::MAX,
            t@.len() % 2 == 0,
            table_wf(t@),
            r.wf(),
            k <= half,
            res@.len() == k,
            table_wf(res@),
            forall|i: int|
                0 <= i < k ==> (#[trigger] res@[i]).value() == affine_fold(
                    t@[2 * i].value(),
                    t@[2 * i + 1].value(),
                    r.value(),
                ),
        decreases half - k,
    {
        proof {
            assert(t@.len() == 2 * (t@.len() / 2));
            assert(2 * (k as int) + 1 < t@.len());
        }
        let a = t[2 * k];
        let b = t[2 * k + 1];
        let folded = a.add(&r.mul(&b.sub(&a)));
        res.push(folded);
        k = k + 1;
    }
    proof {
        assert(table_vals(res@) =~= fold_vals(table_vals(t@), r.value()));
    }
    res
}

/// All tables of all terms, folded on the same challenge.
pub open spec fn fold_state_tables(tabs: Seq<Seq<Seq<nat>>>, r: nat) -> Seq<Seq<Seq<nat>>> {
    tabs.map_values(|ts: Seq<Seq<nat>>| fold_tables(ts, r))
}

/// The terms' tables after binding one variable per challenge, in order.
pub open spec fn bound_tables(tabs: Seq<Seq<Seq<nat>>>, challenges: Seq<nat>) -> Seq<Seq<Seq<nat>>>
    decreases challenges.len(),
{
    if challenges.len() == 0 {
        tabs
    } else {
        fold_state_tables(bound_tables(tabs, challenges.drop_last()), challenges.last())
    }
}

/// The round polynomial of the current prover state, at integer point `t`.
pub open spec fn state_round_eval(s: ProverState, t: nat) -> nat {
    round_eval(
        terms_coeffs(s.terms@),
        terms_tables(s.terms@),
        s.terms@.len() as int,
        (s.table_length() / 2) as int,
        t,
    )
}

proof fn lemma_pow2_halves(k: nat)
    requires
        k >= 1,
    ensures
        pow2(k) == 2 * pow2((k - 1) as nat),
        pow2(k) % 2 == 0,
        pow2(k) / 2 == pow2((k - 1) as nat),
{
    vstd::arithmetic::power2::lemma2_to64();
    vstd::arithmetic::power2::lemma_pow2_adds(1, (k - 1) as nat);
}

/// Bind the current variable to challenge `c`: fold every table of every
/// term, halving all table lengths.
pub fn fold_state(state: &mut ProverState, c: &Scalar)
    requires
        old(state).wf(),
        c.wf(),
        old(state).round < old(state).num_variables,
    ensures
        final(state).wf(),
        final(state).round == old(state).round + 1,
        final(state).num_variables == old(state).num_variables,
        final(state).max_multiplicands == old(state).max_multiplicands,
        final(state).terms@.len() == old(state).terms@.len(),
        terms_coeffs(final(state).terms@) =~= terms_coeffs(old(state).terms@),
        terms_tables(final(state).terms@) =~~= fold_state_tables(
            terms_tables(old(state).terms@),
            c.value(),
        ),
{
    proof {
        lemma_pow2_halves((old(state).num_variables - old(state).round) as nat);
    }
    let ghost old_len = old(state).table_length();
    let mut new_terms: Vec<ProductTerm> = Vec::new();
    let mut e: usize = 0;
    while e < state.terms.len()
        invariant
            *state == *old(state),
            state.wf(),
            c.wf(),
            state.round < state.num_variables,
            old_len == state.table_length(),
            old_len % 2 == 0,
            e <= state.terms@.len(),
            new_terms@.len() == e,
            forall|i: int|
                0 <= i < e ==> (#[trigger] new_terms@[i]).wf(
                    old_len / 2,
                    state.max_multiplicands as nat,
                ),
            forall|i: int|
                0 <= i < e ==> (#[trigger] new_terms@[i]).coefficient == state.terms@[i].coefficient,
            forall|i: int|
                0 <= i < e ==> (#[trigger] new_terms@[i]).tables() =~~= fold_tables(
                    state.terms@[i].tables(),
                    c.value(),
                ),
        decreases state.terms@.len() - e,
    {
        let mut multiplicands: Vec<Vec<Scalar>> = Vec::new();
        let mut j: usize = 0;
        while j < state.terms[e].multiplicands.len()
            invariant
                *state == *old(state),
                state.wf(),
                c.wf(),
                old_len == state.table_length(),
                old_len % 2 == 0,
                e < state.terms@.len(),
                j <= state.terms@[e as int].multiplicands@.len(),
                multiplicands@.len() == j,
                forall|i: int|
                    0 <= i < j ==> {
                        &&& (#[trigger] multiplicands@[i])@.len() == old_len / 2
                        &&& table_wf(multiplicands@[i]@)
                        &&& table_vals(multiplicands@[i]@) =~= fold_vals(
                            table_vals(state.terms@[e as int].multiplicands@[i]@),
                            c.value(),
                        )
                    },
            decreases state.terms@[e as int].multiplicands@.len() - j,
        {
            let folded = fold_table(&state.terms[e].multiplicands[j], c);
            multiplicands.push(folded);
            j = j + 1;
        }
        let term = ProductTerm { coefficient: state.terms[e].coefficient, multiplicands };
        proof {
            assert(term.tables() =~~= fold_tables(state.terms@[e as int].tables(), c.value()));
        }
        new_terms.push(term);
        e = e + 1;
    }
    state.terms = new_terms;
    state.round = state.round + 1;
    proof {
        lemma_pow2_halves((state.num_variables - state.round + 1) as nat);
        assert(state.table_length() == old_len / 2);
        assert(terms_coeffs(state.terms@) =~= terms_coeffs(old(state).terms@));
        assert(terms_tables(state.terms@) =~~= fold_state_tables(
            terms_tables(old(state).terms@),
            c.value(),
        ));
    }
}

/// The round polynomial in evaluation form: its values at the integer
/// points `0 ..= max_multiplicands`.
pub fn compute_round_evaluations(state: &ProverState) -> (evals: Vec<Scalar>)
    requires
        state.wf(),
        state.round < state.num_variables,
    ensures
        evals@.len() == state.max_multiplicands + 1,
        forall|t: int|
            0 <= t < evals@.len() ==> {
                &&& (#[trigger] evals@[t]).wf()
                &&& evals@[t].value() == state_round_eval(*state, t as nat)
            },
{
    proof {
        lemma_pow2_halves((state.num_variables - state.round) as nat);
    }
    let ghost cs = terms_coeffs(state.terms@);
    let ghost tabs = terms_tables(state.terms@);
    let ghost nterms = state.terms@.len() as int;
    let ghost hh = (state.table_length() / 2) as int;
    let npoints: usize = state.max_multiplicands + 1;
    let mut evals: Vec<Scalar> = Vec::new();
    let mut t: usize = 0;
    while t < npoints
        invariant
            state.wf(),
            state.round < state.num_variables,
            cs == terms_coeffs(state.terms@),
            tabs == terms_tables(state.terms@),
            nterms == state.terms@.len() as int,
            hh == (state.table_length() / 2) as int,
            state.table_length() % 2 == 0,
            npoints == state.max_multiplicands + 1,
            t <= npoints,
            evals@.len() == t,
            forall|i: int|
                0 <= i < t ==> {
                    &&& (#[trigger] evals@[i]).wf()
                    &&& evals@[i].value() == round_eval(cs, tabs, nterms, hh, i as nat)
                },
        decreases npoints - t,
    {
        let t_scalar = Scalar::from_u64(t as u64);
        let mut acc = Scalar::from_u64(0);
        let mut e: usize = 0;
        while e < state.terms.len()
            invariant
                state.wf(),
                state.round < state.num_variables,
                cs == terms_coeffs(state.terms@),
                tabs == terms_tables(state.terms@),
                nterms == state.terms@.len() as int,
                hh == (state.table_length() / 2) as int,
                state.table_length() % 2 == 0,
                t_scalar.wf(),
                t_scalar.value() == t as nat,
                e <= state.terms@.len(),
                acc.wf(),
                acc.value() == round_eval(cs, tabs, e as int, hh, t as nat),
            decreases state.terms@.len() - e,
        {
            let half: usize = state.terms[e].multiplicands[0].len() / 2;
            proof {
                assert(state.terms@[e as int].multiplicands@[0]@.len() == state.table_length());
                assert(half as int == hh);
            }
            let mut term_sum = Scalar::from_u64(0);
            let mut k: usize = 0;
            while k < half
                invariant
                    state.wf(),
                    state.round < state.num_variables,
                    tabs == terms_tables(state.terms@),
                    state.table_length() % 2 == 0,
                    state.table_length() <= usize::MAX,
                    t_scalar.wf(),
                    t_scalar.value() == t as nat,
                    e < state.terms@.len(),
                    half as int == (state.table_length() / 2) as int,
                    k <= half,
                    term_sum.wf(),
                    term_sum.value() == term_pair_sum(tabs[e as int], k as int, t as nat),
                decreases half - k,
            {
                let nmult: usize = state.terms[e].multiplicands.len();
                let mut prod = Scalar::from_u64(1);
                let mut j: usize = 0;
                while j < nmult
                    invariant
                        state.wf(),
                        state.round < state.num_variables,
                        tabs == terms_tables(state.terms@),
                        state.table_length() % 2 == 0,
                        state.table_length() <= usize::MAX,
                        t_scalar.wf(),
                        t_scalar.value() == t as nat,
                        e < state.terms@.len(),
                        nmult == state.terms@[e as int].multiplicands@.len(),
                        half as int == (state.table_length() / 2) as int,
                        k < half,
                        j <= nmult,
                        prod.wf(),
                        prod.value() == pair_product(tabs[e as int], j as int, k as int, t as nat),
                    decreases nmult - j,
                {
                    proof {
                        assert(state.terms@[e as int].multiplicands@[j as int]@.len()
                            == state.table_length());
                        assert(state.table_length() == 2 * (state.table_length() / 2));
                        assert(2 * (k as int) + 1 < state.table_length());
                    }
                    let a = state.terms[e].multiplicands[j][2 * k];
                    let b = state.terms[e].multiplicands[j][2 * k + 1];
                    let aff = a.add(&t_scalar.mul(&b.sub(&a)));
                    proof {
                        assert(tabs[e as int][j as int] == table_vals(
                            state.terms@[e as int].multiplicands@[j as int]@,
                        ));
                        assert(tabs[e as int][j as int][2 * (k as int)] == a.value());
                        assert(tabs[e as int][j as int][2 * (k as int) + 1] == b.value());
                    }
                    prod = prod.mul(&aff);
                    j = j + 1;
                }
                proof {
                    assert(tabs[e as int].len() == state.terms@[e as int].multiplicands@.len());
                }
                term_sum = term_sum.add(&prod);
                k = k + 1;
            }
            acc = acc.add(&state.terms[e].coefficient.mul(&term_sum));
            proof {
                assert(cs[e as int] == state.terms@[e as int].coefficient.value());
            }
            e = e + 1;
        }
        evals.push(acc);
        t = t + 1;
    }
    evals
}

/// Product over the first `j` multiplicand tables of their entry at
/// hypercube point `x`.
pub open spec fn point_product(tables: Seq<Seq<nat>>, j: int, x: int) -> nat
    decreases j,
{
    if j <= 0 {
        1
    } else {
        fmul(point_product(tables, j - 1, x), tables[j - 1][x])
    }
}

/// Sum over the first `m` hypercube points of one term's full product.
pub open spec fn hyper_sum(tables: Seq<Seq<nat>>, m: int) -> nat
    decreases m,
{
    if m <= 0 {
        0
    } else {
        fadd(hyper_sum(tables, m - 1), point_product(tables, tables.len() as int, m - 1))
    }
}

/// The composite polynomial's total over the first `m` hypercube points,
/// summed over its first `e` terms.
pub open spec fn composite_hyper_sum(
    coeffs: Seq<nat>,
    tabs: Seq<Seq<Seq<nat>>>,
    e: int,
    m: int,
) -> nat
    decreases e,
{
    if e <= 0 {
        0
    } else {
        fadd(
            composite_hyper_sum(coeffs, tabs, e - 1, m),
            fmul(coeffs[e - 1], hyper_sum(tabs[e - 1], m)),
        )
    }
}

/// Every entry of every table is a reduced residue, and every table has
/// length `2 * m`.
pub open spec fn tables_bounded(tables: Seq<Seq<nat>>, m: int) -> bool {
    &&& forall|j: int| 0 <= j < tables.len() ==> (#[trigger] tables[j]).len() == 2 * m
    &&& forall|j: int, x: int|
        0 <= j < tables.len() && 0 <= x < tables[j].len() ==> #[trigger] tables[j][x]
            < crate::scalar::group_order()
}

/// The affine interpolation at 0 and 1 lands on the pair's two entries,
/// so a term's pair product at those points is its plain product at the
/// corresponding hypercube points.
proof fn lemma_pair_product_boundary(tables: Seq<Seq<nat>>, j: int, k: int, m: int)
    requires
        tables_bounded(tables, m),
        0 <= k < m,
        0 <= j <= tables.len(),
    ensures
        pair_product(tables, j, k, 0) == point_product(tables, j, 2 * k),
        pair_product(tables, j, k, 1) == point_product(tables, j, 2 * k + 1),
    decreases j,
{
    if j > 0 {
        lemma_pair_product_boundary(tables, j - 1, k, m);
        let a = tables[j - 1][2 * k];
        let b = tables[j - 1][2 * k + 1];
        assert(tables[j - 1].len() == 2 * m && a < crate::scalar::group_order());
        assert(b < crate::scalar::group_order());
        crate::scalar::lemma_fmul_zero(fsub(b, a));
        crate::scalar::lemma_fadd_zero(a);
        assert(affine_fold(a, b, 0) == a);
        crate::scalar::lemma_affine_at_one(a, b);
        assert(affine_fold(a, b, 1) == b);
    }
}

/// Splitting the hypercube into entry pairs: one term's pair sums at 0
/// and 1 together cover its plain sum over all `2 * m` points.
#[verifier::rlimit(100)]
proof fn lemma_term_pair_sum_boundary(tables: Seq<Seq<nat>>, m_part: int, m: int)
    requires
        tables_bounded(tables, m),
        0 <= m_part <= m,
    ensures
        fadd(term_pair_sum(tables, m_part, 0), term_pair_sum(tables, m_part, 1)) == hyper_sum(
            tables,
            2 * m_part,
        ),
    decreases m_part,
{
    if m_part <= 0 {
        crate::scalar::lemma_fadd_zero(0);
    } else {
        lemma_term_pair_sum_boundary(tables, m_part - 1, m);
        lemma_pair_product_boundary(tables, tables.len() as int, m_part - 1, m);
        let s0 = term_pair_sum(tables, m_part - 1, 0);
        let s1 = term_pair_sum(tables, m_part - 1, 1);
        let pa = point_product(tables, tables.len() as int, 2 * (m_part - 1));
        let pb = point_product(tables, tables.len() as int, 2 * m_part - 1);
        assert(term_pair_sum(tables, m_part, 0) == fadd(s0, pa));
        assert(term_pair_sum(tables, m_part, 1) == fadd(s1, pb));
        assert(hyper_sum(tables, 2 * m_part) == fadd(hyper_sum(tables, 2 * m_part - 1), pb));
        assert(hyper_sum(tables, 2 * m_part - 1) == fadd(hyper_sum(tables, 2 * (m_part - 1)), pa));
        assert(hyper_sum(tables, 2 * (m_part - 1)) == fadd(s0, s1));
        // fadd(fadd(s0, pa), fadd(s1, pb)) == fadd(fadd(fadd(s0, s1), pa), pb)
        crate::scalar::lemma_fadd_assoc(fadd(s0, pa), s1, pb);
        assert(fadd(fadd(s0, pa), fadd(s1, pb)) == fadd(fadd(fadd(s0, pa), s1), pb));
        crate::scalar::lemma_fadd_assoc(s0, pa, s1);
        assert(fadd(pa, s1) == fadd(s1, pa));
        crate::scalar::lemma_fadd_assoc(s0, s1, pa);
        assert(fadd(fadd(s0, pa), s1) == fadd(fadd(s0, s1), pa));
    }
}

/// Folding preserves reduced entries and halves every table: tables of
/// length `2^(k+1)` with reduced entries, bound on `cs.len() <= k`
/// challenges, still have reduced entries and length `2^(k+1-cs.len())`.
pub proof fn lemma_bound_tables_bounded(tabs: Seq<Seq<Seq<nat>>>, cs: Seq<nat>, k: nat)
    requires
        cs.len() <= k,
        forall|i: int|
            0 <= i < tabs.len() ==> tables_bounded(#[trigger] tabs[i], pow2(k) as int),
    ensures
        bound_tables(tabs, cs).len() == tabs.len(),
        forall|i: int|
            0 <= i < tabs.len() ==> tables_bounded(
                #[trigger] bound_tables(tabs, cs)[i],
                pow2((k - cs.len()) as nat) as int,
            ),
    decreases cs.len(),
{
    if cs.len() > 0 {
        lemma_bound_tables_bounded(tabs, cs.drop_last(), k);
        let prev = bound_tables(tabs, cs.drop_last());
        let cur = bound_tables(tabs, cs);
        let m_prev = pow2((k - (cs.len() - 1)) as nat) as int;
        let m_cur = pow2((k - cs.len()) as nat) as int;
        lemma_pow2_halves((k - (cs.len() - 1)) as nat);
        assert(m_prev == 2 * m_cur);
        assert(cur == fold_state_tables(prev, cs.last()));
        assert forall|i: int| 0 <= i < tabs.len() implies tables_bounded(
            #[trigger] cur[i],
            m_cur,
        ) by {
            assert(tables_bounded(prev[i], m_prev));
            assert(cur[i] == fold_tables(prev[i], cs.last()));
            assert(cur[i].len() == prev[i].len());
            assert forall|j: int| 0 <= j < cur[i].len() implies (#[trigger] cur[i][j]).len()
                == 2 * m_cur by {
                assert(cur[i][j] == fold_vals(prev[i][j], cs.last()));
                assert(prev[i][j].len() == 2 * m_prev);
            }
            assert forall|j: int, x: int|
                0 <= j < cur[i].len() && 0 <= x < cur[i][j].len() implies #[trigger] cur[i][j][x]
                < crate::scalar::group_order() by {
                assert(cur[i][j] == fold_vals(prev[i][j], cs.last()));
                assert(cur[i][j][x] == affine_fold(
                    prev[i][j][2 * x],
                    prev[i][j][2 * x + 1],
                    cs.last(),
                ));
            }
        }
    }
}

/// The sumcheck boundary identity: the round polynomial's values at 0
/// and 1 sum to the composite polynomial's total over the whole
/// hypercube.  This is the algebraic fact behind the verifier's first
/// round-sum check: an honest first round message passes it exactly when
/// the claimed sum is the true total.
pub proof fn lemma_round_eval_boundary_sum(
    coeffs: Seq<nat>,
    tabs: Seq<Seq<Seq<nat>>>,
    e: int,
    m: int,
)
    requires
        0 <= m,
        forall|i: int| 0 <= i < e ==> tables_bounded(#[trigger] tabs[i], m),
        0 <= e <= tabs.len(),
        e <= coeffs.len(),
    ensures
        fadd(round_eval(coeffs, tabs, e, m, 0), round_eval(coeffs, tabs, e, m, 1))
            == composite_hyper_sum(coeffs, tabs, e, 2 * m),
    decreases e,
{
    if e <= 0 {
        crate::scalar::lemma_fadd_zero(0);
    } else {
        lemma_round_eval_boundary_sum(coeffs, tabs, e - 1, m);
        lemma_term_pair_sum_boundary(tabs[e - 1], m, m);
        let s0 = round_eval(coeffs, tabs, e - 1, m, 0);
        let s1 = round_eval(coeffs, tabs, e - 1, m, 1);
        let c = coeffs[e - 1];
        let t0 = term_pair_sum(tabs[e - 1], m, 0);
        let t1 = term_pair_sum(tabs[e - 1], m, 1);
        crate::scalar::lemma_fmul_distributes(c, t0, t1);
        // fadd(fadd(s0, c*t0), fadd(s1, c*t1)) == fadd(fadd(s0, s1), c*fadd(t0, t1))
        let a = fmul(c, t0);
        let b = fmul(c, t1);
        crate::scalar::lemma_fadd_assoc(s0, a, fadd(s1, b));
        crate::scalar::lemma_fadd_assoc(a, s1, b);
        assert(fadd(a, s1) == fadd(s1, a));
        crate::scalar::lemma_fadd_assoc(s1, a, b);
        crate::scalar::lemma_fadd_assoc(s0, fadd(s1, a), b);
        crate::scalar::lemma_fadd_assoc(s0, s1, a);
        crate::scalar::lemma_fadd_assoc(fadd(s0, s1), a, b);
    }
}

/// Folding and evaluating commute on one assignment: the product over a
/// term's folded tables at assignment `k` equals the product of affine
/// interpolations of the unfolded entry pairs.
proof fn lemma_point_product_folded(tables: Seq<Seq<nat>>, c: nat, j: int, k: int, m: int)
    requires
        tables_bounded(tables, m),
        0 <= k < m,
        0 <= j <= tables.len(),
    ensures
        point_product(fold_tables(tables, c), j, k) == pair_product(tables, j, k, c),
    decreases j,
{
    if j > 0 {
        lemma_point_product_folded(tables, c, j - 1, k, m);
        assert(fold_tables(tables, c)[j - 1] == fold_vals(tables[j - 1], c));
        assert(tables[j - 1].len() == 2 * m);
        assert(fold_vals(tables[j - 1], c)[k] == affine_fold(
            tables[j - 1][2 * k],
            tables[j - 1][2 * k + 1],
            c,
        ));
    }
}

/// One term's pair sum at point `c` is its plain sum over the folded
/// tables' hypercube.
proof fn lemma_hyper_sum_folded(tables: Seq<Seq<nat>>, c: nat, m_part: int, m: int)
    requires
        tables_bounded(tables, m),
        0 <= m_part <= m,
    ensures
        hyper_sum(fold_tables(tables, c), m_part) == term_pair_sum(tables, m_part, c),
    decreases m_part,
{
    if m_part > 0 {
        lemma_hyper_sum_folded(tables, c, m_part - 1, m);
        lemma_point_product_folded(tables, c, tables.len() as int, m_part - 1, m);
        assert(fold_tables(tables, c).len() == tables.len());
    }
}

/// The round polynomial evaluated at any point `c` is the composite
/// polynomial's total over the hypercube that remains once the current
/// variable is bound to `c`: evaluating a round and folding the state on
/// the same point agree.
pub proof fn lemma_round_eval_is_folded_total(
    coeffs: Seq<nat>,
    tabs: Seq<Seq<Seq<nat>>>,
    e: int,
    m: int,
    c: nat,
)
    requires
        0 <= m,
        forall|i: int| 0 <= i < e ==> tables_bounded(#[trigger] tabs[i], m),
        0 <= e <= tabs.len(),
        e <= coeffs.len(),
    ensures
        round_eval(coeffs, tabs, e, m, c) == composite_hyper_sum(
            coeffs,
            fold_state_tables(tabs, c),
            e,
            m,
        ),
    decreases e,
{
    if e > 0 {
        lemma_round_eval_is_folded_total(coeffs, tabs, e - 1, m, c);
        lemma_hyper_sum_folded(tabs[e - 1], c, m, m);
        assert(fold_state_tables(tabs, c)[e - 1] == fold_tables(tabs[e - 1], c));
    }
}

/// One prover round: if `r` carries the previous round's challenge, first
/// bind that variable by folding every table on it; then output the round
/// polynomial in evaluation form.  `r` is `None` only on the first round.
pub fn prove_round(state: &mut ProverState, r: &Option<Scalar>) -> (evals: Vec<Scalar>)
    requires
        old(state).wf(),
        match *r {
            Some(c) => c.wf() && old(state).round + 2 <= old(state).num_variables,
            None => old(state).round == 0 && old(state).num_variables >= 1,
        },
    ensures
        final(state).wf(),
        final(state).num_variables == old(state).num_variables,
        final(state).max_multiplicands == old(state).max_multiplicands,
        final(state).terms@.len() == old(state).terms@.len(),
        final(state).round < final(state).num_variables,
        match *r {
            Some(c) => {
                &&& final(state).round == old(state).round + 1
                &&& terms_coeffs(final(state).terms@) =~= terms_coeffs(old(state).terms@)
                &&& terms_tables(final(state).terms@) =~~= fold_state_tables(
                    terms_tables(old(state).terms@),
                    c.value(),
                )
            },
            None => *final(state) == *old(state),
        },
        evals@.len() == final(state).max_multiplicands + 1,
        forall|t: int|
            0 <= t < evals@.len() ==> {
                &&& (#[trigger] evals@[t]).wf()
                &&& evals@[t].value() == state_round_eval(*final(state), t as nat)
            },
{
    match r {
        Some(c) => {
            fold_state(state, c);
        },
        None => {},
    }
    compute_round_evaluations(state)
}

} // verus!
