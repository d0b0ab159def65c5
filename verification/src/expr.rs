//! The expression-evaluation framework: expression nodes that take part
//! in both the prover-side witness construction and the verifier-side
//! algebraic check.
//!
//! Every node offers the same capability set: `count` declares its
//! resource footprint, `prover_evaluate` produces its concrete output
//! column and may register polynomial terms with the proof builder,
//! `verifier_evaluate` produces the claimed multilinear-extension
//! evaluation of that column at the sumcheck challenge point, and
//! `get_column_references` records which committed columns it reads.
//! The sumcheck protocol certifies, in aggregate, that the two sides are
//! consistent.

use vstd::prelude::*;
use std::collections::HashSet;
use crate::scalar::Scalar;
use crate::composite::ProductTerm;

verus! {

/// Identifies one committed database column, so the verifier knows which
/// commitment openings it must obtain.
#[derive(Clone, Copy, Debug, PartialEq, Eq, Hash, Structural)]
pub struct ColumnRef {
    pub table_id: u64,
    pub column_id: u64,
}

/// Resource tally computed by a first pass over the expression tree,
/// shared read-only by the evaluation passes.
#[derive(Clone, Copy, Debug, PartialEq, Eq, Structural)]
pub struct ProofCounts {
    /// Length of every output column: the size of the boolean hypercube.
    pub table_length: usize,
    /// Sumcheck terms the expression tree will register.
    pub sumcheck_terms: usize,
}

/// Prover-side shared state: the polynomial terms the expression nodes
/// register, feeding the composite polynomial the sumcheck proof covers.
pub struct ProofBuilder {
    pub sumcheck_terms: Vec<ProductTerm>,
}

/// The multilinear-extension evaluations the verifier has precomputed at
/// the sumcheck challenge point.
#[derive(Clone, Copy, Debug)]
pub struct SumcheckMleEvaluations {
    /// The MLE of the all-ones column, evaluated at the challenge point.
    pub one_evaluation: Scalar,
}

/// Verifier-side shared state: cached helper evaluations, so nodes never
/// recompute from committed data.
#[derive(Clone, Copy, Debug)]
pub struct VerificationBuilder {
    pub mle_evaluations: SumcheckMleEvaluations,
}

/// Provable logical constant expression.
///
/// It represents queries whose where-clause is a literal boolean, such as
/// an always-true filter, without any custom machinery: the prover's
/// output column is the literal repeated, and its multilinear extension
/// is the literal times the extension of the all-ones column.
#[derive(Clone, Copy, Debug, PartialEq, Eq, Structural)]
pub struct ConstBoolExpr {
    value: bool,
}

impl ConstBoolExpr {
    /// The literal this expression holds.
    pub closed spec fn literal(self) -> bool {
        self.value
    }

    /// Create a constant boolean expression.
    pub fn new(value: bool) -> (r: ConstBoolExpr)
        ensures
            r.literal() == value,
    {
        ConstBoolExpr { value }
    }

    /// A constant expression needs no sumcheck terms: the tally is left
    /// untouched.
    pub fn count(&self, counts: &mut ProofCounts)
        ensures
            *final(counts) == *old(counts),
    {
    }

    /// The prover's output column: the literal, repeated over the whole
    /// table.  No polynomial terms are registered.
    pub fn prover_evaluate(&self, builder: &mut ProofBuilder, counts: &ProofCounts) -> (col: Vec<
        bool,
    >)
        ensures
            final(builder).sumcheck_terms@ == old(builder).sumcheck_terms@,
            col@.len() == counts.table_length,
            forall|i: int| 0 <= i < col@.len() ==> col@[i] == self.literal(),
    {
        let mut col: Vec<bool> = Vec::new();
        let mut i: usize = 0;
        while i < counts.table_length
            invariant
                i <= counts.table_length,
                col@.len() == i,
                forall|j: int| 0 <= j < i ==> col@[j] == self.literal(),
            decreases counts.table_length - i,
        {
            col.push(self.value);
            i = i + 1;
        }
        col
    }

    /// The claimed MLE evaluation of the output column at the challenge
    /// point: the cached all-ones evaluation for a true literal, zero for
    /// a false one (the extension of a constant column is the literal
    /// times the extension of the all-ones column).
    pub fn verifier_evaluate(&self, builder: &mut VerificationBuilder, _counts: &ProofCounts) -> (r:
        Scalar)
        ensures
            *final(builder) == *old(builder),
            self.literal() ==> r == old(builder).mle_evaluations.one_evaluation,
            !self.literal() ==> r.wf() && r.value() == 0,
    {
        if self.value {
            builder.mle_evaluations.one_evaluation
        } else {
            Scalar::from_u64(0)
        }
    }

    /// A constant expression reads no committed columns: the set is left
    /// untouched.
    pub fn get_column_references(&self, columns: &mut HashSet<ColumnRef>)
        ensures
            *final(columns) == *old(columns),
    {
    }
}

} // verus!
