//! Univariate interpolation: evaluate, at an arbitrary scalar, the unique
//! polynomial of degree below the sample count that passes through the
//! given values at the consecutive integer points `0, 1, 2, ...`.
//!
//! When the evaluation point coincides with a sample point the stored
//! value is returned directly (the general formula would divide by zero
//! there).  Otherwise the Lagrange value is computed in time linear in
//! the number of samples: one pass of prefix products of `(x - j)`, one
//! pass of factorials, and one accumulation pass that maintains the
//! suffix product, with the denominator `prod_{j != i} (i - j)` obtained
//! as `i! * (n-i)!` with sign `(-1)^(n-i)`.

use vstd::prelude::*;
use vstd::arithmetic::div_mod::{
    lemma_mul_mod_noop_left, lemma_mul_mod_noop_right, lemma_small_mod,
};
use crate::scalar::{Scalar, fadd, fmul, fsub, group_order};
use crate::composite::{table_vals, table_wf};

verus! {

/// The multiplicative inverse of a residue, where one exists; zero
/// otherwise (the group order is prime, so only zero lacks an inverse).
pub open spec fn finv(a: nat) -> nat {
    if exists|b: nat| b < group_order() && fmul(a, b) == 1 {
        choose|b: nat| b < group_order() && fmul(a, b) == 1
    } else {
        0
    }
}

/// `prod_{lo <= j < hi} (x - j)` in the field, peeling the lower bound.
pub open spec fn prod_from(x: nat, lo: int, hi: int) -> nat
    decreases hi - lo,
{
    if lo >= hi {
        1
    } else {
        fmul(fsub(x, lo as nat), prod_from(x, lo + 1, hi))
    }
}

/// `prod_{0 <= j < m} (x - j)` in the field, peeling the upper bound.
pub open spec fn prod_upto(x: nat, m: int) -> nat
    decreases m,
{
    if m <= 0 {
        1
    } else {
        fmul(prod_upto(x, m - 1), fsub(x, (m - 1) as nat))
    }
}

/// `k!` in the field.
pub open spec fn fact_field(k: nat) -> nat
    decreases k,
{
    if k == 0 {
        1
    } else {
        fmul(fact_field((k - 1) as nat), k)
    }
}

/// `prod_{j != i, 0 <= j <= n} (i - j)` in the field: the first `i`
/// factors are `i!`, the remaining `n - i` are `(-1)^(n-i) * (n-i)!`.
pub open spec fn lagrange_den(i: int, n: int) -> nat {
    let d = fmul(fact_field(i as nat), fact_field((n - i) as nat));
    if (n - i) % 2 == 1 {
        fsub(0, d)
    } else {
        d
    }
}

/// Term `i` of the Lagrange sum:
/// `evals[i] * prod_{j != i} (x - j) / prod_{j != i} (i - j)`.
pub open spec fn lagrange_term(evals: Seq<nat>, x: nat, i: int) -> nat {
    fmul(
        evals[i],
        fmul(
            fmul(prod_upto(x, i), prod_from(x, i + 1, evals.len() as int)),
            finv(lagrange_den(i, evals.len() as int - 1)),
        ),
    )
}

/// The Lagrange sum over terms `i0 ..`, peeling the front.
pub open spec fn lagrange_sum_from(evals: Seq<nat>, x: nat, i0: int) -> nat
    decreases evals.len() - i0,
{
    if i0 < 0 || i0 >= evals.len() {
        0
    } else {
        fadd(lagrange_term(evals, x, i0), lagrange_sum_from(evals, x, i0 + 1))
    }
}

/// The value at `x` of the interpolating polynomial through
/// `(0, evals[0]), ..., (n, evals[n])`: the stored value where `x` is a
/// sample point, the Lagrange sum elsewhere.
#[verifier::opaque]
pub open spec fn interpolate_spec(evals: Seq<nat>, x: nat) -> nat {
    if x < evals.len() {
        evals[x as int]
    } else {
        lagrange_sum_from(evals, x, 0)
    }
}

/// Interpolation is exact at every sample point: asking for the value at
/// sample index `k` returns the stored sample itself.
pub proof fn lemma_interpolate_exact_at_samples(evals: Seq<nat>, k: nat)
    requires
        k < evals.len(),
    ensures
        interpolate_spec(evals, k) == evals[k as int],
{
    reveal(interpolate_spec);
}

/// Modular multiplication is associative.
proof fn lemma_fmul_assoc(a: nat, b: nat, c: nat)
    ensures
        fmul(a, fmul(b, c)) == fmul(fmul(a, b), c),
{
    let m = group_order() as int;
    lemma_mul_mod_noop_right(a as int, (b * c) as int, m);
    lemma_mul_mod_noop_left((a * b) as int, c as int, m);
    assert(a * (b * c) == (a * b) * c) by (nonlinear_arith);
}

/// A residue below the group order with `a * w == 1` is the unique such
/// witness, hence it is `finv(a)`.
proof fn lemma_finv_unique(a: nat, w: nat)
    requires
        w < group_order(),
        fmul(a, w) == 1,
    ensures
        finv(a) == w,
{
    assert(exists|b: nat| b < group_order() && fmul(a, b) == 1);
    let b = choose|b: nat| b < group_order() && fmul(a, b) == 1;
    assert(b < group_order() && fmul(a, b) == 1);
    // w == w * (a * b) == (w * a) * b == b
    assert(fmul(w, fmul(a, b)) == fmul(w, 1));
    lemma_small_mod(w, group_order());
    assert(w * 1 == w) by (nonlinear_arith);
    assert(fmul(w, 1) == w);
    lemma_fmul_assoc(w, a, b);
    assert(w * a == a * w) by (nonlinear_arith);
    assert(fmul(w, a) == fmul(a, w));
    assert(fmul(fmul(w, a), b) == fmul(1, b));
    lemma_small_mod(b, group_order());
    assert(1 * b == b) by (nonlinear_arith);
    assert(fmul(1, b) == b);
}

/// Zero has no inverse, so `finv(0) == 0`.
proof fn lemma_finv_zero()
    ensures
        finv(0) == 0,
{
    assert forall|b: nat| !(b < group_order() && fmul(0, b) == 1) by {
        assert(0 * b == 0);
        lemma_small_mod(0, group_order());
    }
}

/// Evaluate at `x` the polynomial given by its values at `0, 1, ..., n`.
pub fn interpolate_uni_poly(evals: &Vec<Scalar>, x: &Scalar) -> (r: Scalar)
    requires
        table_wf(evals@),
        x.wf(),
        1 <= evals@.len(),
    ensures
        r.wf(),
        r.value() == interpolate_spec(table_vals(evals@), x.value()),
{
    proof {
        reveal(interpolate_spec);
    }
    let ghost vals = table_vals(evals@);
    let len: usize = evals.len();
    let xv = *x;
    // Sample-point case: return the stored value, avoiding the division
    // by zero the general formula would hit.
    let mut k: usize = 0;
    while k < len
        invariant
            table_wf(evals@),
            x.wf(),
            xv == *x,
            vals == table_vals(evals@),
            len == evals@.len(),
            1 <= len,
            k <= len,
            x.value() >= k as nat,
        decreases len - k,
    {
        let node = Scalar::from_u64(k as u64);
        if xv.equals(&node) {
            proof {
                reveal(interpolate_spec);
            }
            return evals[k];
        }
        k = k + 1;
    }
    // General case: x is none of the sample points.
    let zero = Scalar::from_u64(0);
    let one = Scalar::from_u64(1);
    let n: usize = len - 1;

    // Differences x - j and prefix products prod_{j < i} (x - j).
    let mut diffs: Vec<Scalar> = Vec::new();
    let mut prefix: Vec<Scalar> = Vec::new();
    prefix.push(one);
    let mut i: usize = 0;
    while i < len
        invariant
            x.wf(),
            xv == *x,
            len >= 1,
            i <= len,
            diffs@.len() == i,
            prefix@.len() == i + 1,
            forall|j: int|
                0 <= j < i ==> (#[trigger] diffs@[j]).wf() && diffs@[j].value() == fsub(
                    x.value(),
                    j as nat,
                ),
            forall|j: int|
                0 <= j <= i ==> (#[trigger] prefix@[j]).wf() && prefix@[j].value() == prod_upto(
                    x.value(),
                    j,
                ),
        decreases len - i,
    {
        let node = Scalar::from_u64(i as u64);
        let d = xv.sub(&node);
        let p = prefix[i].mul(&d);
        diffs.push(d);
        prefix.push(p);
        i = i + 1;
    }

    // Factorials 0!, 1!, ..., n! in the field.
    let mut facts: Vec<Scalar> = Vec::new();
    facts.push(one);
    let mut f: usize = 1;
    while f < len
        invariant
            f >= 1,
            f <= len,
            facts@.len() == f,
            forall|j: int|
                0 <= j < f ==> (#[trigger] facts@[j]).wf() && facts@[j].value() == fact_field(
                    j as nat,
                ),
        decreases len - f,
    {
        let fk = facts[f - 1].mul(&Scalar::from_u64(f as u64));
        facts.push(fk);
        f = f + 1;
    }

    // Accumulate terms from the highest sample down, maintaining the
    // suffix product prod_{j > i} (x - j).
    let mut suffix = one;
    let mut sum = zero;
    let mut ii: usize = len;
    while ii > 0
        invariant
            x.wf(),
            xv == *x,
            vals == table_vals(evals@),
            table_wf(evals@),
            len == evals@.len(),
            1 <= len,
            n == len - 1,
            ii <= len,
            diffs@.len() == len,
            prefix@.len() == len + 1,
            facts@.len() == len,
            zero.wf(),
            zero.value() == 0,
            forall|j: int|
                0 <= j < len ==> (#[trigger] diffs@[j]).wf() && diffs@[j].value() == fsub(
                    x.value(),
                    j as nat,
                ),
            forall|j: int|
                0 <= j <= len ==> (#[trigger] prefix@[j]).wf() && prefix@[j].value() == prod_upto(
                    x.value(),
                    j,
                ),
            forall|j: int|
                0 <= j < len ==> (#[trigger] facts@[j]).wf() && facts@[j].value() == fact_field(
                    j as nat,
                ),
            suffix.wf(),
            suffix.value() == prod_from(x.value(), ii as int, len as int),
            sum.wf(),
            sum.value() == lagrange_sum_from(vals, x.value(), ii as int),
        decreases ii,
    {
        let idx = ii - 1;
        // Signed denominator idx! * (n - idx)! * (-1)^(n - idx).
        let mut den = facts[idx].mul(&facts[n - idx]);
        if (n - idx) % 2 == 1 {
            den = zero.sub(&den);
        }
        let inv = if den.equals(&zero) {
            proof {
                lemma_finv_zero();
            }
            zero
        } else {
            let w = den.invert();
            proof {
                lemma_finv_unique(den.value(), w.value());
            }
            w
        };
        proof {
            assert(inv.value() == finv(lagrange_den(idx as int, n as int)));
        }
        let ps = prefix[idx].mul(&suffix);
        let psi = ps.mul(&inv);
        let term = evals[idx].mul(&psi);
        sum = term.add(&sum);
        suffix = diffs[idx].mul(&suffix);
        ii = idx;
    }
    sum
}

} // verus!
