//! The sumcheck protocol: non-interactive prover and verifier.
//!
//! The prover runs `num_variables` rounds.  Each round it sends the round
//! polynomial in evaluation form, absorbs it into the transcript, and
//! binds the round's variable to the challenge the transcript returns.
//! The verifier replays the same absorption sequence, so it derives the
//! same challenges, and checks each round against the running claim: the
//! round polynomial's values at 0 and 1 must sum to the claim carried in,
//! and the claim carried out is the round polynomial at the challenge.
//! On success it returns a [`Subclaim`] — the evaluation point and the
//! final expected evaluation — which still has to be checked against the
//! committed data by a downstream commitment opening.

use vstd::prelude::*;
use vstd::arithmetic::power2::pow2;
use crate::scalar::{Scalar, fadd, group_order};
use crate::transcript::{Transcript, mix_u64, mix_scalars, challenge_value, CHALLENGE_TAG};
use crate::composite::{
    CompositePolynomial, CompositePolynomialInfo, ProverState, prove_round, bound_tables,
    composite_hyper_sum, fold_state_tables, lemma_bound_tables_bounded,
    lemma_round_eval_boundary_sum, lemma_round_eval_is_folded_total, round_eval, table_vals,
    table_wf, tables_bounded, terms_coeffs, terms_tables,
};
use crate::interpolate::{interpolate_uni_poly, interpolate_spec};

verus! {

/// A verification failure: exactly the outcomes an adversarial or
/// corrupted proof can trigger.
#[derive(Clone, Copy, Debug, PartialEq, Eq, Structural)]
pub enum ProofError {
    /// The proof does not hold one round per variable.
    InvalidRoundCount,
    /// A round holds the wrong number of evaluations.
    RoundLengthMismatch,
    /// A round's values at 0 and 1 do not sum to the claim carried in.
    RoundSumMismatch,
}

/// The verifier's output: an evaluation point (one challenge per
/// variable, in round order) and the expected evaluation of the composite
/// polynomial there.  This is a claim, not yet proof of correctness
/// against the committed data.
pub struct Subclaim {
    pub evaluation_point: Vec<Scalar>,
    pub expected_evaluation: Scalar,
}

/// A sumcheck proof: round `i` holds the `max_multiplicands + 1`
/// evaluations of round `i`'s univariate polynomial at `0, 1, ...`.
pub struct SumcheckProof {
    pub evaluations: Vec<Vec<Scalar>>,
}

/// Every scalar of every round is canonical.
pub open spec fn proof_wf(rounds: Seq<Vec<Scalar>>) -> bool {
    forall|i: int| 0 <= i < rounds.len() ==> table_wf((#[trigger] rounds[i])@)
}

/// Transcript state after the opening message: both dimensions, then one
/// discarded challenge that keeps messages grouped for downstream
/// implementations.
pub open spec fn framed_state(s0: u64, max_multiplicands: u64, num_variables: u64) -> u64 {
    mix_u64(mix_u64(mix_u64(s0, max_multiplicands), num_variables), CHALLENGE_TAG)
}

/// Transcript state once the first `i` rounds have been absorbed and
/// their challenges drawn, starting from the framed state `s1`.
pub open spec fn state_before_round(s1: u64, rounds: Seq<Vec<Scalar>>, i: int) -> u64
    decreases i,
{
    if i <= 0 {
        s1
    } else {
        mix_u64(mix_scalars(state_before_round(s1, rounds, i - 1), rounds[i - 1]@), CHALLENGE_TAG)
    }
}

/// The challenge bound to round `i`: drawn right after round `i`'s
/// evaluations are absorbed.
pub open spec fn round_challenge(s1: u64, rounds: Seq<Vec<Scalar>>, i: int) -> nat {
    challenge_value(mix_scalars(state_before_round(s1, rounds, i), rounds[i]@))
}

/// The first `i` round challenges.
pub open spec fn round_challenges_prefix(s1: u64, rounds: Seq<Vec<Scalar>>, i: int) -> Seq<nat> {
    Seq::new(i as nat, |j: int| round_challenge(s1, rounds, j))
}

/// The claim carried into round `i`: the claimed sum before round 0,
/// afterwards the previous round polynomial evaluated at its challenge.
pub open spec fn expected_before_round(
    s1: u64,
    rounds: Seq<Vec<Scalar>>,
    claimed: nat,
    i: int,
) -> nat {
    if i <= 0 {
        claimed
    } else {
        interpolate_spec(table_vals(rounds[i - 1]@), round_challenge(s1, rounds, i - 1))
    }
}

/// Round `i` passes both verifier checks: it has `max_multiplicands + 1`
/// evaluations, and its values at 0 and 1 sum to the claim carried in.
pub open spec fn round_ok(
    s1: u64,
    rounds: Seq<Vec<Scalar>>,
    claimed: nat,
    mm: nat,
    i: int,
) -> bool {
    &&& rounds[i]@.len() == mm + 1
    &&& fadd(rounds[i]@[0].value(), rounds[i]@[1].value()) == expected_before_round(
        s1,
        rounds,
        claimed,
        i,
    )
}

/// The first `i` rounds all pass their checks.
pub open spec fn rounds_ok_before(
    s1: u64,
    rounds: Seq<Vec<Scalar>>,
    claimed: nat,
    mm: nat,
    i: int,
) -> bool {
    forall|j: int| 0 <= j < i ==> #[trigger] round_ok(s1, rounds, claimed, mm, j)
}

/// Every round passes its checks.
pub open spec fn all_rounds_ok(s1: u64, rounds: Seq<Vec<Scalar>>, claimed: nat, mm: nat) -> bool {
    rounds_ok_before(s1, rounds, claimed, mm, rounds.len() as int)
}

/// The honest prover's message for round `i`: the round polynomial of the
/// composite polynomial with its first `i` variables bound to the round
/// challenges, evaluated at integer point `t`.
pub open spec fn honest_round_message(
    polynomial: CompositePolynomial,
    s1: u64,
    rounds: Seq<Vec<Scalar>>,
    i: int,
    t: nat,
) -> nat {
    round_eval(
        terms_coeffs(polynomial.terms@),
        bound_tables(terms_tables(polynomial.terms@), round_challenges_prefix(s1, rounds, i)),
        polynomial.terms@.len() as int,
        pow2((polynomial.num_variables - i - 1) as nat) as int,
        t,
    )
}

/// The transcript replay only reads the rounds already absorbed: two
/// proofs that agree on their first `i` rounds put the transcript in the
/// same state before round `i`.
proof fn lemma_state_prefix_stable(
    s1: u64,
    r1: Seq<Vec<Scalar>>,
    r2: Seq<Vec<Scalar>>,
    i: int,
)
    requires
        i <= r1.len(),
        i <= r2.len(),
        forall|j: int| 0 <= j < i ==> r1[j] == r2[j],
    ensures
        state_before_round(s1, r1, i) == state_before_round(s1, r2, i),
    decreases i,
{
    if i > 0 {
        lemma_state_prefix_stable(s1, r1, r2, i - 1);
    }
}

impl SumcheckProof {
    /// Run the prover: `num_variables` rounds of `prove_round`, each
    /// absorbed into the transcript, each followed by drawing the round's
    /// challenge into the evaluation-point buffer.  The returned proof
    /// holds the honest round messages, and the buffer holds exactly the
    /// challenges a verifier replaying this transcript will derive.
    pub fn create(
        transcript: &mut Transcript,
        evaluation_point: &mut Vec<Scalar>,
        polynomial: &CompositePolynomial,
    ) -> (proof: SumcheckProof)
        requires
            polynomial.wf(),
            old(evaluation_point)@.len() == polynomial.num_variables,
        ensures
            ({
                let s1 = framed_state(
                    old(transcript)@,
                    polynomial.max_multiplicands as u64,
                    polynomial.num_variables as u64,
                );
                let rounds = proof.evaluations@;
                let nv = polynomial.num_variables as int;
                &&& rounds.len() == nv
                &&& proof_wf(rounds)
                &&& forall|i: int|
                    0 <= i < nv ==> (#[trigger] rounds[i])@.len()
                        == polynomial.max_multiplicands + 1
                &&& forall|i: int, t: int|
                    0 <= i < nv && 0 <= t < polynomial.max_multiplicands + 1 ==> (#[trigger] (
                    rounds[i]@[t])).value() == honest_round_message(
                        *polynomial,
                        s1,
                        rounds,
                        i,
                        t as nat,
                    )
                &&& final(evaluation_point)@.len() == nv
                &&& forall|i: int|
                    0 <= i < nv ==> (#[trigger] final(evaluation_point)@[i]).wf()
                        && final(evaluation_point)@[i].value() == round_challenge(s1, rounds, i)
                &&& final(transcript)@ == state_before_round(s1, rounds, nv)
            }),
    {
        let ghost s0 = old(transcript)@;
        transcript.append_u64(polynomial.max_multiplicands as u64);
        transcript.append_u64(polynomial.num_variables as u64);
        // Drawn and discarded: keeps transcript messages grouped for
        // downstream implementations.
        let _framing = transcript.scalar_challenge();
        let ghost s1 = framed_state(
            s0,
            polynomial.max_multiplicands as u64,
            polynomial.num_variables as u64,
        );
        let nv = polynomial.num_variables;
        let ghost coeffs0 = terms_coeffs(polynomial.terms@);
        let ghost tabs0 = terms_tables(polynomial.terms@);
        let mut state = ProverState::create(polynomial);
        proof {
            assert(terms_coeffs(state.terms@) == coeffs0);
            assert(terms_tables(state.terms@) == tabs0);
            assert(round_challenges_prefix(s1, Seq::<Vec<Scalar>>::empty(), 0)
                =~= Seq::<nat>::empty());
        }
        let mut evaluations: Vec<Vec<Scalar>> = Vec::new();
        let mut point: Vec<Scalar> = Vec::new();
        let mut r_opt: Option<Scalar> = None;
        let mut k: usize = 0;
        while k < nv
            invariant
                polynomial.wf(),
                nv == polynomial.num_variables,
                s1 == framed_state(s0, polynomial.max_multiplicands as u64, nv as u64),
                coeffs0 == terms_coeffs(polynomial.terms@),
                tabs0 == terms_tables(polynomial.terms@),
                state.wf(),
                state.num_variables == nv,
                state.max_multiplicands == polynomial.max_multiplicands,
                state.terms@.len() == polynomial.terms@.len(),
                terms_coeffs(state.terms@) == coeffs0,
                k <= nv,
                evaluations@.len() == k,
                point@.len() == k,
                state.round == if k == 0 { 0int } else { k - 1 },
                match r_opt {
                    Some(c) => k >= 1 && c == point@[k - 1],
                    None => k == 0,
                },
                transcript@ == state_before_round(s1, evaluations@, k as int),
                forall|j: int|
                    0 <= j < k ==> (#[trigger] point@[j]).wf() && point@[j].value()
                        == round_challenge(s1, evaluations@, j),
                forall|j: int|
                    0 <= j < k ==> (#[trigger] evaluations@[j])@.len()
                        == polynomial.max_multiplicands + 1 && table_wf(evaluations@[j]@),
                terms_tables(state.terms@) == bound_tables(
                    tabs0,
                    round_challenges_prefix(s1, evaluations@, state.round as int),
                ),
                forall|j: int, t: int|
                    0 <= j < k && 0 <= t < polynomial.max_multiplicands + 1 ==> (#[trigger] (
                    evaluations@[j]@[t])).value() == honest_round_message(
                        *polynomial,
                        s1,
                        evaluations@,
                        j,
                        t as nat,
                    ),
            decreases nv - k,
        {
            let ghost evals_before = evaluations@;
            let ghost state_before = state;
            let evals = prove_round(&mut state, &r_opt);
            proof {
                // After the optional fold, exactly k variables are bound.
                assert(state.round == k as int);
                if k > 0 {
                    let cs_prev = round_challenges_prefix(s1, evals_before, k - 1);
                    let cs_now = round_challenges_prefix(s1, evals_before, k as int);
                    assert(cs_now.drop_last() =~= cs_prev);
                    assert(cs_now.last() == round_challenge(s1, evals_before, k - 1));
                    assert(terms_tables(state.terms@) =~~= fold_state_tables(
                        bound_tables(tabs0, cs_prev),
                        cs_now.last(),
                    ));
                    assert(terms_tables(state.terms@) == bound_tables(tabs0, cs_now));
                } else {
                    assert(round_challenges_prefix(s1, evals_before, 0) =~= Seq::<nat>::empty());
                }
                vstd::arithmetic::power2::lemma_pow2_adds(1, (nv - k - 1) as nat);
                vstd::arithmetic::power2::lemma2_to64();
                assert(state.table_length() == pow2((nv - k) as nat));
                assert(pow2((nv - k) as nat) / 2 == pow2((nv - k - 1) as nat));
            }
            transcript.append_scalars(&evals);
            let c = transcript.scalar_challenge();
            evaluations.push(evals);
            point.push(c);
            proof {
                let e_new = evaluations@;
                assert(forall|j: int| 0 <= j < k ==> e_new[j] == evals_before[j]);
                lemma_state_prefix_stable(s1, evals_before, e_new, k as int);
                assert forall|j: int| 0 <= j <= k implies state_before_round(s1, e_new, j)
                    == state_before_round(s1, evals_before, j) by {
                    lemma_state_prefix_stable(s1, evals_before, e_new, j);
                }
                assert(e_new[k as int] == evals);
                assert(c.value() == round_challenge(s1, e_new, k as int));
                assert forall|j: int| 0 <= j <= k implies round_challenges_prefix(s1, e_new, j)
                    =~= round_challenges_prefix(s1, evals_before, j) by {
                    assert forall|jj: int| 0 <= jj < j implies round_challenge(s1, e_new, jj)
                        == round_challenge(s1, evals_before, jj) by {
                        lemma_state_prefix_stable(s1, evals_before, e_new, jj);
                    }
                }
            }
            r_opt = Some(c);
            k = k + 1;
        }
        *evaluation_point = point;
        SumcheckProof { evaluations }
    }

    /// Run the verifier without the final data check: replay the prover's
    /// transcript absorption, derive the challenges, and check every
    /// round against the running claim.  Succeeds exactly when the proof
    /// has one round per variable and every round passes its shape and
    /// round-sum checks; each failure returns its own error.  The
    /// subclaim still has to be validated against commitment openings.
    #[verifier::rlimit(100)]
    #[verifier::loop_isolation(false)]
    pub fn verify_without_evaluation(
        &self,
        transcript: &mut Transcript,
        polynomial_info: CompositePolynomialInfo,
        claimed_sum: &Scalar,
    ) -> (r: Result<Subclaim, ProofError>)
        requires
            proof_wf(self.evaluations@),
            claimed_sum.wf(),
            1 <= polynomial_info.max_multiplicands < usize::MAX,
        ensures
            ({
                let s1 = framed_state(
                    old(transcript)@,
                    polynomial_info.max_multiplicands as u64,
                    polynomial_info.num_variables as u64,
                );
                let rounds = self.evaluations@;
                let nv = polynomial_info.num_variables as int;
                let mm = polynomial_info.max_multiplicands as nat;
                let claimed = claimed_sum.value();
                &&& (r is Ok <==> rounds.len() == nv && all_rounds_ok(s1, rounds, claimed, mm))
                &&& match r {
                    Ok(sub) => {
                        &&& sub.evaluation_point@.len() == nv
                        &&& forall|i: int|
                            0 <= i < nv ==> (#[trigger] sub.evaluation_point@[i]).wf()
                                && sub.evaluation_point@[i].value() == round_challenge(
                                s1,
                                rounds,
                                i,
                            )
                        &&& sub.expected_evaluation.wf()
                        &&& sub.expected_evaluation.value() == expected_before_round(
                            s1,
                            rounds,
                            claimed,
                            nv,
                        )
                    },
                    Err(e) => match e {
                        ProofError::InvalidRoundCount => rounds.len() != nv,
                        ProofError::RoundLengthMismatch => rounds.len() == nv && exists|i: int|
                            0 <= i < nv && #[trigger] rounds_ok_before(s1, rounds, claimed, mm, i)
                                && rounds[i]@.len() != mm + 1,
                        ProofError::RoundSumMismatch => rounds.len() == nv && exists|i: int|
                            0 <= i < nv && #[trigger] rounds_ok_before(s1, rounds, claimed, mm, i)
                                && rounds[i]@.len() == mm + 1 && fadd(
                                rounds[i]@[0].value(),
                                rounds[i]@[1].value(),
                            ) != expected_before_round(s1, rounds, claimed, i),
                    },
                }
            }),
    {
        let ghost s0 = old(transcript)@;
        transcript.append_u64(polynomial_info.max_multiplicands as u64);
        transcript.append_u64(polynomial_info.num_variables as u64);
        // Same framing draw as the prover, discarded.
        let _framing = transcript.scalar_challenge();
        let ghost s1 = framed_state(
            s0,
            polynomial_info.max_multiplicands as u64,
            polynomial_info.num_variables as u64,
        );
        let ghost rounds = self.evaluations@;
        let ghost claimed = claimed_sum.value();
        let ghost mm_s = polynomial_info.max_multiplicands as nat;
        let nv = polynomial_info.num_variables;
        if self.evaluations.len() != nv {
            return Err(ProofError::InvalidRoundCount);
        }
        // Replay the absorption sequence and derive every challenge.
        let mut evaluation_point: Vec<Scalar> = Vec::new();
        let mut i: usize = 0;
        while i < nv
            invariant
                proof_wf(rounds),
                rounds == self.evaluations@,
                rounds.len() == nv,
                i <= nv,
                evaluation_point@.len() == i,
                transcript@ == state_before_round(s1, rounds, i as int),
                forall|j: int|
                    0 <= j < i ==> (#[trigger] evaluation_point@[j]).wf()
                        && evaluation_point@[j].value() == round_challenge(s1, rounds, j),
            decreases nv - i,
        {
            transcript.append_scalars(&self.evaluations[i]);
            let c = transcript.scalar_challenge();
            evaluation_point.push(c);
            i = i + 1;
        }
        // Check every round against the running claim.
        let mut expected = *claimed_sum;
        let mut round: usize = 0;
        while round < nv
            invariant
                proof_wf(rounds),
                rounds == self.evaluations@,
                rounds.len() == nv,
                claimed == claimed_sum.value(),
                mm_s == polynomial_info.max_multiplicands as nat,
                1 <= polynomial_info.max_multiplicands < usize::MAX,
                evaluation_point@.len() == nv,
                forall|j: int|
                    0 <= j < nv ==> (#[trigger] evaluation_point@[j]).wf()
                        && evaluation_point@[j].value() == round_challenge(s1, rounds, j),
                round <= nv,
                expected.wf(),
                expected.value() == expected_before_round(s1, rounds, claimed, round as int),
                rounds_ok_before(s1, rounds, claimed, mm_s, round as int),
            decreases nv - round,
        {
            let round_len = self.evaluations[round].len();
            if round_len != polynomial_info.max_multiplicands + 1 {
                proof {
                    let w = round as int;
                    assert(rounds_ok_before(s1, rounds, claimed, mm_s, w)
                        && rounds[w]@.len() != mm_s + 1);
                    if all_rounds_ok(s1, rounds, claimed, mm_s) {
                        assert(round_ok(s1, rounds, claimed, mm_s, w));
                    }
                }
                return Err(ProofError::RoundLengthMismatch);
            }
            let opening_sum = self.evaluations[round][0].add(&self.evaluations[round][1]);
            if !expected.equals(&opening_sum) {
                proof {
                    let w = round as int;
                    assert(rounds_ok_before(s1, rounds, claimed, mm_s, w)
                        && rounds[w]@.len() == mm_s + 1
                        && fadd(rounds[w]@[0].value(), rounds[w]@[1].value())
                            != expected_before_round(s1, rounds, claimed, w));
                    if all_rounds_ok(s1, rounds, claimed, mm_s) {
                        assert(round_ok(s1, rounds, claimed, mm_s, w));
                    }
                }
                return Err(ProofError::RoundSumMismatch);
            }
            expected = interpolate_uni_poly(&self.evaluations[round], &evaluation_point[round]);
            proof {
                assert(round_ok(s1, rounds, claimed, mm_s, round as int));
            }
            round = round + 1;
        }
        Ok(Subclaim { evaluation_point, expected_evaluation: expected })
    }
}

/// Round-sum identity: in any proof every round of which passes the
/// verifier's checks, round `i`'s values at 0 and 1 sum exactly to the
/// claim carried into round `i` — the claimed sum before round 0, the
/// previous round polynomial at its challenge afterwards.
pub proof fn lemma_round_sum_identity(
    s1: u64,
    rounds: Seq<Vec<Scalar>>,
    claimed: nat,
    mm: nat,
    i: int,
)
    requires
        all_rounds_ok(s1, rounds, claimed, mm),
        0 <= i < rounds.len(),
    ensures
        fadd(rounds[i]@[0].value(), rounds[i]@[1].value()) == expected_before_round(
            s1,
            rounds,
            claimed,
            i,
        ),
{
    assert(round_ok(s1, rounds, claimed, mm, i));
}

/// A well-formed composite polynomial's tables all have reduced entries
/// and length `2 * 2^(num_variables - 1)`.
proof fn lemma_polynomial_tables_bounded(polynomial: CompositePolynomial)
    requires
        polynomial.wf(),
        polynomial.num_variables >= 1,
    ensures
        forall|i: int|
            0 <= i < polynomial.terms@.len() ==> tables_bounded(
                #[trigger] terms_tables(polynomial.terms@)[i],
                pow2((polynomial.num_variables - 1) as nat) as int,
            ),
{
    let nv = polynomial.num_variables as nat;
    let tabs = terms_tables(polynomial.terms@);
    let e = polynomial.terms@.len() as int;
    let m = pow2((nv - 1) as nat) as int;
    vstd::arithmetic::power2::lemma2_to64();
    vstd::arithmetic::power2::lemma_pow2_adds(1, (nv - 1) as nat);
    assert(pow2(nv) == 2 * pow2((nv - 1) as nat));
    assert forall|i: int| 0 <= i < e implies tables_bounded(#[trigger] tabs[i], m) by {
        let term = polynomial.terms@[i];
        assert(term.wf(polynomial.table_length(), polynomial.max_multiplicands as nat));
        assert forall|j: int| 0 <= j < tabs[i].len() implies (#[trigger] tabs[i][j]).len()
            == 2 * m by {
            assert(tabs[i][j] == table_vals(term.multiplicands@[j]@));
            assert(term.multiplicands@[j]@.len() == pow2(nv));
        }
        assert forall|j: int, x: int|
            0 <= j < tabs[i].len() && 0 <= x < tabs[i][j].len() implies #[trigger] tabs[i][j][x]
            < group_order() by {
            assert(tabs[i][j] == table_vals(term.multiplicands@[j]@));
            assert(tabs[i][j][x] == term.multiplicands@[j]@[x].value());
            assert(term.multiplicands@[j]@[x].wf());
        }
    }
}

/// Completeness of every round's sum check against the honest prover: a
/// round-`i` message that carries the honest values (as `create`
/// guarantees of every round) has its evaluations at 0 and 1 summing to
/// the total, over the remaining hypercube, of the composite polynomial
/// with its first `i` variables bound to the round challenges.
pub proof fn lemma_honest_round_sums_to_bound_total(
    polynomial: CompositePolynomial,
    s1: u64,
    rounds: Seq<Vec<Scalar>>,
    i: int,
)
    requires
        polynomial.wf(),
        0 <= i < polynomial.num_variables,
        i < rounds.len(),
        rounds[i]@.len() >= 2,
        rounds[i]@[0].value() == honest_round_message(polynomial, s1, rounds, i, 0),
        rounds[i]@[1].value() == honest_round_message(polynomial, s1, rounds, i, 1),
    ensures
        fadd(rounds[i]@[0].value(), rounds[i]@[1].value()) == composite_hyper_sum(
            terms_coeffs(polynomial.terms@),
            bound_tables(terms_tables(polynomial.terms@), round_challenges_prefix(s1, rounds, i)),
            polynomial.terms@.len() as int,
            pow2((polynomial.num_variables - i) as nat) as int,
        ),
{
    let nv = polynomial.num_variables as int;
    let coeffs = terms_coeffs(polynomial.terms@);
    let tabs = terms_tables(polynomial.terms@);
    let e = polynomial.terms@.len() as int;
    let cs = round_challenges_prefix(s1, rounds, i);
    let btabs = bound_tables(tabs, cs);
    let k = (nv - 1) as nat;
    lemma_polynomial_tables_bounded(polynomial);
    assert(cs.len() == i);
    lemma_bound_tables_bounded(tabs, cs, k);
    vstd::arithmetic::power2::lemma2_to64();
    vstd::arithmetic::power2::lemma_pow2_adds(1, (nv - i - 1) as nat);
    assert(pow2((nv - i) as nat) == 2 * pow2((nv - i - 1) as nat));
    lemma_round_eval_boundary_sum(coeffs, btabs, e, pow2((nv - i - 1) as nat) as int);
}

/// The honest prover's running claim: round `i`'s polynomial, evaluated
/// directly at round `i`'s challenge, is the composite polynomial's total
/// with `i + 1` variables bound — exactly the claim the next round's sum
/// check is held against.  (The verifier obtains this value by
/// interpolating round `i`'s samples at the challenge; that the
/// interpolation agrees with direct evaluation is the Lagrange exactness
/// this library does not prove.)
pub proof fn lemma_honest_round_at_challenge_is_next_total(
    polynomial: CompositePolynomial,
    s1: u64,
    rounds: Seq<Vec<Scalar>>,
    i: int,
)
    requires
        polynomial.wf(),
        0 <= i,
        i + 1 < polynomial.num_variables,
        i < rounds.len(),
    ensures
        honest_round_message(polynomial, s1, rounds, i, round_challenge(s1, rounds, i))
            == composite_hyper_sum(
            terms_coeffs(polynomial.terms@),
            bound_tables(
                terms_tables(polynomial.terms@),
                round_challenges_prefix(s1, rounds, i + 1),
            ),
            polynomial.terms@.len() as int,
            pow2((polynomial.num_variables - i - 1) as nat) as int,
        ),
{
    let nv = polynomial.num_variables as int;
    let coeffs = terms_coeffs(polynomial.terms@);
    let tabs = terms_tables(polynomial.terms@);
    let e = polynomial.terms@.len() as int;
    let c = round_challenge(s1, rounds, i);
    let cs = round_challenges_prefix(s1, rounds, i);
    let cs_next = round_challenges_prefix(s1, rounds, i + 1);
    let btabs = bound_tables(tabs, cs);
    let m = pow2((nv - i - 1) as nat) as int;
    assert(cs_next.drop_last() =~= cs);
    assert(cs_next.last() == c);
    assert(bound_tables(tabs, cs_next) == fold_state_tables(btabs, c));
    lemma_polynomial_tables_bounded(polynomial);
    lemma_bound_tables_bounded(tabs, cs, (nv - 1) as nat);
    lemma_round_eval_is_folded_total(coeffs, btabs, e, m, c);
}

/// The honest prover's round-sum chain: for consecutive honest rounds,
/// round `i + 1`'s values at 0 and 1 sum to round `i`'s polynomial
/// evaluated directly at round `i`'s challenge — the running expected
/// value carried from round `i` into round `i + 1`.
pub proof fn lemma_honest_round_chain(
    polynomial: CompositePolynomial,
    s1: u64,
    rounds: Seq<Vec<Scalar>>,
    i: int,
)
    requires
        polynomial.wf(),
        0 <= i,
        i + 1 < polynomial.num_variables,
        i + 1 < rounds.len(),
        rounds[i + 1]@.len() >= 2,
        rounds[i + 1]@[0].value() == honest_round_message(polynomial, s1, rounds, i + 1, 0),
        rounds[i + 1]@[1].value() == honest_round_message(polynomial, s1, rounds, i + 1, 1),
    ensures
        fadd(rounds[i + 1]@[0].value(), rounds[i + 1]@[1].value()) == honest_round_message(
            polynomial,
            s1,
            rounds,
            i,
            round_challenge(s1, rounds, i),
        ),
{
    lemma_honest_round_sums_to_bound_total(polynomial, s1, rounds, i + 1);
    lemma_honest_round_at_challenge_is_next_total(polynomial, s1, rounds, i);
}

/// Completeness at the protocol's opening check: in a proof whose first
/// round carries the honest prover's messages, the values sent for
/// points 0 and 1 sum exactly to the composite polynomial's true total
/// over the whole boolean hypercube.  The verifier's round-0 sum check
/// therefore passes precisely when the claimed sum is that true total.
pub proof fn lemma_honest_first_round_sums_to_total(
    polynomial: CompositePolynomial,
    s1: u64,
    rounds: Seq<Vec<Scalar>>,
)
    requires
        polynomial.wf(),
        polynomial.num_variables >= 1,
        rounds.len() >= 1,
        rounds[0]@.len() >= 2,
        rounds[0]@[0].value() == honest_round_message(polynomial, s1, rounds, 0, 0),
        rounds[0]@[1].value() == honest_round_message(polynomial, s1, rounds, 0, 1),
    ensures
        fadd(rounds[0]@[0].value(), rounds[0]@[1].value()) == composite_hyper_sum(
            terms_coeffs(polynomial.terms@),
            terms_tables(polynomial.terms@),
            polynomial.terms@.len() as int,
            pow2(polynomial.num_variables as nat) as int,
        ),
{
    lemma_honest_round_sums_to_bound_total(polynomial, s1, rounds, 0);
    assert(round_challenges_prefix(s1, rounds, 0) =~= Seq::<nat>::empty());
    assert(bound_tables(
        terms_tables(polynomial.terms@),
        round_challenges_prefix(s1, rounds, 0),
    ) == terms_tables(polynomial.terms@));
}

/// Modular addition cancels: reduced residues with the same sum against a
/// common addend are equal.
proof fn lemma_fadd_cancel(a: nat, b: nat, c: nat)
    requires
        a < group_order(),
        b < group_order(),
        fadd(a, c) == fadd(b, c),
    ensures
        a == b,
{
    let m = group_order() as int;
    vstd::arithmetic::div_mod::lemma_fundamental_div_mod((a + c) as int, m);
    vstd::arithmetic::div_mod::lemma_fundamental_div_mod((b + c) as int, m);
    let qa = (a + c) as int / m;
    let qb = (b + c) as int / m;
    assert(a - b == m * (qa - qb));
    assert(-m < a - b < m);
    assert((qa - qb == 0) || (a - b >= m) || (a - b <= -m)) by (nonlinear_arith)
        requires
            a - b == m * (qa - qb),
            m > 0,
    ;
}

/// Tampering with a first-round opening evaluation is always caught: if a
/// proof passes all checks and a second proof differs from it exactly in
/// the value of round 0's evaluation at 0 (or at 1), the second proof
/// fails the round-sum check, whatever the transcript does.
pub proof fn lemma_tampered_opening_rejected(
    s1: u64,
    rounds: Seq<Vec<Scalar>>,
    tampered: Seq<Vec<Scalar>>,
    claimed: nat,
    mm: nat,
)
    requires
        all_rounds_ok(s1, rounds, claimed, mm),
        rounds.len() > 0,
        tampered.len() == rounds.len(),
        tampered[0]@.len() == rounds[0]@.len(),
        rounds[0]@.len() >= 2,
        rounds[0]@[0].wf(),
        rounds[0]@[1].wf(),
        tampered[0]@[0].wf(),
        tampered[0]@[1].wf(),
        ((tampered[0]@[0].value() != rounds[0]@[0].value() && tampered[0]@[1] == rounds[0]@[1])
            || (tampered[0]@[1].value() != rounds[0]@[1].value()
                && tampered[0]@[0] == rounds[0]@[0])),
    ensures
        !all_rounds_ok(s1, tampered, claimed, mm),
{
    assert(round_ok(s1, rounds, claimed, mm, 0));
    if all_rounds_ok(s1, tampered, claimed, mm) {
        assert(round_ok(s1, tampered, claimed, mm, 0));
        let a0 = rounds[0]@[0].value();
        let a1 = rounds[0]@[1].value();
        let b0 = tampered[0]@[0].value();
        let b1 = tampered[0]@[1].value();
        assert(fadd(a0, a1) == claimed && fadd(b0, b1) == claimed);
        if b0 != a0 {
            lemma_fadd_cancel(a0, b0, a1);
        } else {
            assert(fadd(a0, a1) == fadd(a1, a0) && fadd(a0, b1) == fadd(b1, a0));
            lemma_fadd_cancel(a1, b1, a0);
        }
    }
}

} // verus!
