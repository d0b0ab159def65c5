use std::collections::HashSet;

use proof_of_sql::composite::CompositePolynomial;
use proof_of_sql::expr::{
    ColumnRef, ConstBoolExpr, ProofBuilder, ProofCounts, SumcheckMleEvaluations,
    VerificationBuilder,
};
use proof_of_sql::interpolate::interpolate_uni_poly;
use proof_of_sql::scalar::Scalar;
use proof_of_sql::sumcheck::{ProofError, SumcheckProof};
use proof_of_sql::transcript::Transcript;

fn s(x: u64) -> Scalar {
    Scalar::from_u64(x)
}

/// The boolean column [1, 1, 1, 0] as a scalar table over the 2-variable
/// hypercube, and the composite polynomial with the single term equal to
/// its square.
fn example_polynomial() -> CompositePolynomial {
    let table = vec![s(1), s(1), s(1), s(0)];
    let mut polynomial = CompositePolynomial::new(2, 2);
    polynomial.add_product(s(1), vec![table.clone(), table]);
    polynomial
}

fn prove_example(label: u64) -> (SumcheckProof, Vec<Scalar>) {
    let polynomial = example_polynomial();
    let mut transcript = Transcript::new(label);
    let mut evaluation_point = vec![s(0), s(0)];
    let proof = SumcheckProof::create(&mut transcript, &mut evaluation_point, &polynomial);
    (proof, evaluation_point)
}

fn verify_example(label: u64, proof: &SumcheckProof, claimed: u64) -> Result<Vec<Scalar>, ProofError> {
    let polynomial = example_polynomial();
    let mut transcript = Transcript::new(label);
    match proof.verify_without_evaluation(&mut transcript, polynomial.info(), &s(claimed)) {
        Ok(subclaim) => Ok(subclaim.evaluation_point),
        Err(e) => Err(e),
    }
}

#[test]
fn scalar_add_sub_mul() {
    assert!(s(2).add(&s(3)).equals(&s(5)));
    assert!(s(5).sub(&s(3)).equals(&s(2)));
    assert!(s(2).mul(&s(3)).equals(&s(6)));
    assert!(!s(2).add(&s(3)).equals(&s(6)));
    // Subtraction wraps around the group order.
    let wrapped = s(0).sub(&s(1));
    assert!(!wrapped.equals(&s(0)));
    assert!(wrapped.add(&s(1)).equals(&s(0)));
}

#[test]
fn scalar_invert() {
    let two = s(2);
    let inv = two.invert();
    assert!(!inv.equals(&two));
    assert!(two.mul(&inv).equals(&s(1)));
}

#[test]
fn scalar_byte_round_trip() {
    let seven = s(7);
    let bytes = seven.as_bytes();
    assert_eq!(bytes[0], 7);
    assert!(bytes[1..].iter().all(|&b| b == 0));
    assert!(Scalar::from_bytes_mod_order(bytes).equals(&seven));
}

#[test]
fn scalar_from_bytes_reduces() {
    // The little-endian encoding of the group order itself reduces to 0.
    let ell: [u8; 32] = [
        0xed, 0xd3, 0xf5, 0x5c, 0x1a, 0x63, 0x12, 0x58, 0xd6, 0x9c, 0xf7, 0xa2, 0xde, 0xf9, 0xde,
        0x14, 0x00, 0x00, 0x00, 0x00, 0x00, 0x00, 0x00, 0x00, 0x00, 0x00, 0x00, 0x00, 0x00, 0x00,
        0x00, 0x10,
    ];
    assert!(Scalar::from_bytes_mod_order(ell).equals(&s(0)));
    let mut ell_plus_two = ell;
    ell_plus_two[0] = 0xef;
    assert!(Scalar::from_bytes_mod_order(ell_plus_two).equals(&s(2)));
}

#[test]
fn transcript_is_deterministic() {
    let mut t1 = Transcript::new(99);
    let mut t2 = Transcript::new(99);
    t1.append_u64(5);
    t1.append_scalar(&s(11));
    t2.append_u64(5);
    t2.append_scalar(&s(11));
    let c1 = t1.scalar_challenge();
    let c2 = t2.scalar_challenge();
    assert!(c1.equals(&c2));
}

#[test]
fn interpolate_exact_at_sample_points() {
    // f(t) = t^2 + 1 sampled at 0, 1, 2.
    let evals = vec![s(1), s(2), s(5)];
    for k in 0..3u64 {
        let r = interpolate_uni_poly(&evals, &s(k));
        assert!(r.equals(&evals[k as usize]));
    }
}

#[test]
fn interpolate_matches_direct_evaluation() {
    // f(t) = 3t^2 + 2t + 7 sampled at 0, 1, 2: values 7, 12, 23.
    let evals = vec![s(7), s(12), s(23)];
    // f(5) = 75 + 10 + 7 = 92, and f(9) = 243 + 18 + 7 = 268.
    assert!(interpolate_uni_poly(&evals, &s(5)).equals(&s(92)));
    assert!(interpolate_uni_poly(&evals, &s(9)).equals(&s(268)));
}

#[test]
fn interpolate_linear() {
    // f(t) = 4t + 1 sampled at 0, 1.
    let evals = vec![s(1), s(5)];
    assert!(interpolate_uni_poly(&evals, &s(10)).equals(&s(41)));
    assert!(interpolate_uni_poly(&evals, &s(1)).equals(&s(5)));
}

#[test]
fn sumcheck_end_to_end_accepts_true_sum() {
    // One term, the square of [1, 1, 1, 0]: total sum 1+1+1+0 = 3.
    let (proof, evaluation_point) = prove_example(7);
    let verified_point = verify_example(7, &proof, 3).expect("honest proof must verify");
    assert_eq!(verified_point.len(), 2);
    assert_eq!(evaluation_point.len(), 2);
    for (a, b) in verified_point.iter().zip(evaluation_point.iter()) {
        assert!(a.equals(b));
    }
}

#[test]
fn round_sum_identity_holds_in_honest_proof() {
    // Round 0's values at 0 and 1 sum to the claimed total; round 1's sum
    // to the previous round polynomial evaluated at the first challenge.
    let (proof, evaluation_point) = prove_example(13);
    let round0_sum = proof.evaluations[0][0].add(&proof.evaluations[0][1]);
    assert!(round0_sum.equals(&s(3)));
    let carried = interpolate_uni_poly(&proof.evaluations[0], &evaluation_point[0]);
    let round1_sum = proof.evaluations[1][0].add(&proof.evaluations[1][1]);
    assert!(round1_sum.equals(&carried));
}

#[test]
fn sumcheck_rejects_wrong_claimed_sum() {
    let (proof, _) = prove_example(7);
    let result = verify_example(7, &proof, 4);
    assert!(matches!(result, Err(ProofError::RoundSumMismatch)));
}

#[test]
fn sumcheck_rejects_tampered_round_evaluation() {
    let (mut proof, _) = prove_example(21);
    let bumped = proof.evaluations[0][0].add(&s(1));
    proof.evaluations[0][0] = bumped;
    let result = verify_example(21, &proof, 3);
    assert!(matches!(result, Err(ProofError::RoundSumMismatch)));
}

#[test]
fn sumcheck_rejects_tampered_later_round() {
    let (mut proof, _) = prove_example(21);
    let bumped = proof.evaluations[1][1].add(&s(1));
    proof.evaluations[1][1] = bumped;
    assert!(verify_example(21, &proof, 3).is_err());
}

#[test]
fn sumcheck_rejects_wrong_round_count() {
    let (mut proof, _) = prove_example(3);
    proof.evaluations.pop();
    let result = verify_example(3, &proof, 3);
    assert!(matches!(result, Err(ProofError::InvalidRoundCount)));
}

#[test]
fn sumcheck_rejects_wrong_round_length() {
    let (mut proof, _) = prove_example(3);
    proof.evaluations[0].push(s(0));
    let result = verify_example(3, &proof, 3);
    assert!(matches!(result, Err(ProofError::RoundLengthMismatch)));
}

#[test]
fn const_bool_verifier_evaluate() {
    let one_evaluation = s(42);
    let mut builder = VerificationBuilder {
        mle_evaluations: SumcheckMleEvaluations { one_evaluation },
    };
    let counts = ProofCounts { table_length: 4, sumcheck_terms: 0 };
    let t = ConstBoolExpr::new(true).verifier_evaluate(&mut builder, &counts);
    assert!(t.equals(&one_evaluation));
    let f = ConstBoolExpr::new(false).verifier_evaluate(&mut builder, &counts);
    assert!(f.equals(&s(0)));
}

#[test]
fn const_bool_prover_evaluate_fills_column() {
    let mut builder = ProofBuilder { sumcheck_terms: Vec::new() };
    let counts = ProofCounts { table_length: 5, sumcheck_terms: 0 };
    let col = ConstBoolExpr::new(true).prover_evaluate(&mut builder, &counts);
    assert_eq!(col, vec![true; 5]);
    assert!(builder.sumcheck_terms.is_empty());
    let col = ConstBoolExpr::new(false).prover_evaluate(&mut builder, &counts);
    assert_eq!(col, vec![false; 5]);
}

#[test]
fn const_bool_counts_and_columns_untouched() {
    let mut counts = ProofCounts { table_length: 8, sumcheck_terms: 2 };
    ConstBoolExpr::new(true).count(&mut counts);
    assert_eq!(counts, ProofCounts { table_length: 8, sumcheck_terms: 2 });
    let mut columns: HashSet<ColumnRef> = HashSet::new();
    columns.insert(ColumnRef { table_id: 1, column_id: 2 });
    ConstBoolExpr::new(false).get_column_references(&mut columns);
    assert_eq!(columns.len(), 1);
    assert!(columns.contains(&ColumnRef { table_id: 1, column_id: 2 }));
}
