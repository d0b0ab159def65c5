//! Fiat-Shamir transcript: a deterministic randomness source for the
//! non-interactive sumcheck protocol.
//!
//! The transcript absorbs protocol messages (integers and scalars, the
//! scalars in big-endian byte order) into a running state and derives
//! challenge scalars from that state.  Determinism is the one property
//! the protocol needs: prover and verifier that absorb the same message
//! sequence derive the same challenges.  The view of a transcript is its
//! state word, and every operation's contract pins the new state and any
//! derived challenge as functions of the old state, so agreement between
//! the two parties is provable, not assumed.

use vstd::prelude::*;
use crate::scalar::Scalar;

verus! {

/// Domain-separation tag mixed into the state when a challenge is drawn.
pub const CHALLENGE_TAG: u64 = 0x43;

/// Multiplier used when a message word is absorbed.
pub const MIX_MULTIPLIER: u64 = 0x100000001b3;

/// The state after absorbing one message word.
pub open spec fn mix_u64(s: u64, x: u64) -> u64 {
    (((s as int) * (MIX_MULTIPLIER as int) + (x as int)) % 0x10000000000000000) as u64
}

/// The state after absorbing a byte sequence in big-endian order
/// (highest-index byte first).
pub open spec fn mix_bytes_be(s: u64, bs: Seq<u8>) -> u64
    decreases bs.len(),
{
    if bs.len() == 0 {
        s
    } else {
        mix_bytes_be(mix_u64(s, bs.last() as u64), bs.drop_last())
    }
}

/// The state after absorbing one scalar: its canonical encoding is mixed
/// in big-endian byte order.
pub open spec fn mix_scalar(s: u64, sc: Scalar) -> u64 {
    mix_bytes_be(s, sc.encoding())
}

/// The state after absorbing a sequence of scalars, in order.
pub open spec fn mix_scalars(s: u64, v: Seq<Scalar>) -> u64
    decreases v.len(),
{
    if v.len() == 0 {
        s
    } else {
        mix_scalars(mix_scalar(s, v[0]), v.skip(1))
    }
}

/// The value of the challenge drawn from state `s`.
pub open spec fn challenge_value(s: u64) -> nat {
    s as nat
}

/// A Fiat-Shamir transcript.  One instance belongs to exactly one proof
/// session (one run of the prover or of the verifier) and is mutated in
/// sequence by that party alone.
pub struct Transcript {
    state: u64,
}

impl View for Transcript {
    type V = u64;

    closed spec fn view(&self) -> u64 {
        self.state
    }
}

impl Transcript {
    /// A fresh transcript seeded with a caller-chosen domain label.
    pub fn new(label: u64) -> (r: Transcript)
        ensures
            r@ == label,
    {
        Transcript { state: label }
    }

    /// Absorb one integer message word.
    pub fn append_u64(&mut self, x: u64)
        ensures
            final(self)@ == mix_u64(old(self)@, x),
    {
        proof {
            assert((self.state as int) * (MIX_MULTIPLIER as int)
                <= 0xffffffffffffffff * (MIX_MULTIPLIER as int)) by (nonlinear_arith)
                requires
                    self.state <= 0xffffffffffffffff,
            ;
        }
        let wide: u128 = (self.state as u128) * (MIX_MULTIPLIER as u128) + (x as u128);
        self.state = (wide % 0x10000000000000000u128) as u64;
    }

    /// Absorb one scalar, mixing its canonical encoding in big-endian
    /// byte order.
    pub fn append_scalar(&mut self, sc: &Scalar)
        ensures
            final(self)@ == mix_scalar(old(self)@, *sc),
    {
        let ghost enc = sc.encoding();
        proof {
            sc.encoding_len();
            assert(enc.take(32) =~= enc);
        }
        let mut j: usize = 0;
        while j < 32
            invariant
                j <= 32,
                enc == sc.encoding(),
                enc.len() == 32,
                mix_bytes_be(old(self)@, enc) == mix_bytes_be(self@, enc.take(32 - j)),
            decreases 32 - j,
        {
            let ghost m = 32 - j as int;
            proof {
                assert(enc.take(m).len() == m);
                assert(enc.take(m).last() == enc[m - 1]);
                assert(enc.take(m).drop_last() =~= enc.take(m - 1));
            }
            let b = sc.byte_at(31 - j);
            self.append_u64(b as u64);
            j = j + 1;
        }
        proof {
            assert(enc.take(0) =~= Seq::<u8>::empty());
        }
    }

    /// Absorb a sequence of scalars, in order.
    pub fn append_scalars(&mut self, v: &Vec<Scalar>)
        ensures
            final(self)@ == mix_scalars(old(self)@, v@),
    {
        proof {
            assert(v@.skip(0) =~= v@);
        }
        let mut i: usize = 0;
        while i < v.len()
            invariant
                i <= v.len(),
                mix_scalars(old(self)@, v@) == mix_scalars(self@, v@.skip(i as int)),
            decreases v.len() - i,
        {
            proof {
                assert(v@.skip(i as int)[0] == v@[i as int]);
                assert(v@.skip(i as int).skip(1) =~= v@.skip(i + 1));
            }
            self.append_scalar(&v[i]);
            i = i + 1;
        }
    }

    /// Derive one challenge scalar from the current state, then advance
    /// the state so that successive challenges differ.
    pub fn scalar_challenge(&mut self) -> (r: Scalar)
        ensures
            r.wf(),
            r.value() == challenge_value(old(self)@),
            final(self)@ == mix_u64(old(self)@, CHALLENGE_TAG),
    {
        let c = Scalar::from_u64(self.state);
        self.append_u64(CHALLENGE_TAG);
        c
    }
}

} // verus!
