//! Elements of the prime field used by the protocol: the scalar field of
//! curve25519 (integers modulo the group order `GROUP_ORDER`).
//!
//! A [`Scalar`] holds the canonical 32-byte little-endian encoding of its
//! value; the arithmetic itself is done by `curve25519_dalek`, whose
//! results are always reduced, so every `Scalar` ever constructed is
//! canonical (its value is below `GROUP_ORDER`).

use vstd::prelude::*;

verus! {

/// The order of the curve25519 scalar field:
/// `2^252 + 27742317777372353535851937790883648493`, a prime.
pub open spec fn group_order() -> nat {
    0x1000000000000000000000000000000014def9dea2f79cd65812631a5cf5d3ednat
}

/// Field addition on residues modulo `group_order()`.
pub open spec fn fadd(a: nat, b: nat) -> nat {
    (((a + b) as int % group_order() as int) as nat)
}

/// Field multiplication on residues modulo `group_order()`.
pub open spec fn fmul(a: nat, b: nat) -> nat {
    (((a * b) as int % group_order() as int) as nat)
}

/// Field subtraction on residues modulo `group_order()`: the unique
/// residue `r` with `fadd(b, r) == a % group_order()`.
pub open spec fn fsub(a: nat, b: nat) -> nat {
    (((a as int + group_order() as int - (b as int % group_order() as int))
        % group_order() as int) as nat)
}

/// The value encoded by a little-endian byte sequence.
pub open spec fn le_bytes_to_nat(s: Seq<u8>) -> nat
    decreases s.len(),
{
    if s.len() == 0 {
        0
    } else {
        (s[0] + 256 * le_bytes_to_nat(s.skip(1))) as nat
    }
}

/// An element of the scalar field, stored as its canonical
/// little-endian 32-byte encoding.
#[derive(Clone, Copy, Debug)]
pub struct Scalar {
    bytes: [u8; 32],
}

impl Scalar {
    /// The field element this scalar encodes.
    pub closed spec fn value(self) -> nat {
        le_bytes_to_nat(self.bytes@)
    }

    /// The canonical little-endian encoding of this scalar.
    pub closed spec fn encoding(self) -> Seq<u8> {
        self.bytes@
    }

    /// The encoding is canonical: the value is a reduced residue.
    pub open spec fn wf(self) -> bool {
        self.value() < group_order()
    }

    /// Relies on `curve25519_dalek::scalar::Scalar::from(u64)` producing
    /// the scalar representing that integer, and on `to_bytes` returning
    /// the canonical little-endian encoding.
    #[verifier::external_body]
    pub fn from_u64(x: u64) -> (r: Scalar)
        ensures
            r.value() == x as nat,
            r.wf(),
    {
        let s = curve25519_dalek::scalar::Scalar::from(x);
        Scalar { bytes: s.to_bytes() }
    }

    /// Relies on `curve25519_dalek`'s `Add for Scalar` computing the sum
    /// modulo the group order, on `from_bytes_mod_order` reading a
    /// little-endian encoding, and on `to_bytes` being canonical.
    #[verifier::external_body]
    pub fn add(&self, other: &Scalar) -> (r: Scalar)
        ensures
            r.value() == fadd(self.value(), other.value()),
            r.wf(),
    {
        let a = curve25519_dalek::scalar::Scalar::from_bytes_mod_order(self.bytes);
        let b = curve25519_dalek::scalar::Scalar::from_bytes_mod_order(other.bytes);
        Scalar { bytes: (a + b).to_bytes() }
    }

    /// Relies on `curve25519_dalek`'s `Sub for Scalar` computing the
    /// difference modulo the group order.
    #[verifier::external_body]
    pub fn sub(&self, other: &Scalar) -> (r: Scalar)
        ensures
            r.value() == fsub(self.value(), other.value()),
            r.wf(),
    {
        let a = curve25519_dalek::scalar::Scalar::from_bytes_mod_order(self.bytes);
        let b = curve25519_dalek::scalar::Scalar::from_bytes_mod_order(other.bytes);
        Scalar { bytes: (a - b).to_bytes() }
    }

    /// Relies on `curve25519_dalek`'s `Mul for Scalar` computing the
    /// product modulo the group order.
    #[verifier::external_body]
    pub fn mul(&self, other: &Scalar) -> (r: Scalar)
        ensures
            r.value() == fmul(self.value(), other.value()),
            r.wf(),
    {
        let a = curve25519_dalek::scalar::Scalar::from_bytes_mod_order(self.bytes);
        let b = curve25519_dalek::scalar::Scalar::from_bytes_mod_order(other.bytes);
        Scalar { bytes: (a * b).to_bytes() }
    }

    /// Relies on `curve25519_dalek::scalar::Scalar::invert`, which returns
    /// the multiplicative inverse of a nonzero scalar (its documentation
    /// requires the argument to be nonzero).
    #[verifier::external_body]
    pub fn invert(&self) -> (r: Scalar)
        requires
            self.wf(),
            self.value() != 0,
        ensures
            r.wf(),
            fmul(self.value(), r.value()) == 1,
    {
        let a = curve25519_dalek::scalar::Scalar::from_bytes_mod_order(self.bytes);
        Scalar { bytes: a.invert().to_bytes() }
    }

    /// Relies on `curve25519_dalek::scalar::Scalar::from_bytes_mod_order`:
    /// it reduces a 256-bit little-endian integer modulo the group order.
    #[verifier::external_body]
    pub fn from_bytes_mod_order(bytes: [u8; 32]) -> (r: Scalar)
        ensures
            r.wf(),
            r.value() == le_bytes_to_nat(bytes@) % group_order(),
    {
        let s = curve25519_dalek::scalar::Scalar::from_bytes_mod_order(bytes);
        Scalar { bytes: s.to_bytes() }
    }

    /// The canonical little-endian encoding, as plain bytes.
    pub fn as_bytes(&self) -> (r: [u8; 32])
        ensures
            r@ == self.encoding(),
    {
        self.bytes
    }

    /// One byte of the canonical little-endian encoding.
    pub fn byte_at(&self, i: usize) -> (r: u8)
        requires
            i < 32,
        ensures
            r == self.encoding()[i as int],
    {
        self.bytes[i]
    }

    /// The canonical encoding always has 32 bytes.
    pub proof fn encoding_len(self)
        ensures
            self.encoding().len() == 32,
    {
    }

    /// Whether two scalars encode the same field element.
    pub fn equals(&self, other: &Scalar) -> (r: bool)
        requires
            self.wf(),
            other.wf(),
        ensures
            r <==> self.value() == other.value(),
    {
        let mut i: usize = 0;
        while i < 32
            invariant
                i <= 32,
                forall|j: int| 0 <= j < i ==> self.bytes@[j] == other.bytes@[j],
            decreases 32 - i,
        {
            if self.bytes[i] != other.bytes[i] {
                proof {
                    if self.value() == other.value() {
                        lemma_le_bytes_to_nat_injective(self.bytes@, other.bytes@);
                        assert(self.bytes@[i as int] == other.bytes@[i as int]);
                    }
                }
                return false;
            }
            i = i + 1;
        }
        proof {
            assert(self.bytes@ =~= other.bytes@);
        }
        true
    }
}

/// Field addition is associative.
pub proof fn lemma_fadd_assoc(a: nat, b: nat, c: nat)
    ensures
        fadd(a, fadd(b, c)) == fadd(fadd(a, b), c),
{
    let m = group_order() as int;
    vstd::arithmetic::div_mod::lemma_mod_twice((b + c) as int, m);
    vstd::arithmetic::div_mod::lemma_add_mod_noop(a as int, (b + c) as int, m);
    vstd::arithmetic::div_mod::lemma_mod_twice(a as int, m);
    vstd::arithmetic::div_mod::lemma_add_mod_noop(a as int, ((b + c) as int % m), m);
    vstd::arithmetic::div_mod::lemma_mod_twice((a + b) as int, m);
    vstd::arithmetic::div_mod::lemma_add_mod_noop((a + b) as int, c as int, m);
    vstd::arithmetic::div_mod::lemma_mod_twice(c as int, m);
    vstd::arithmetic::div_mod::lemma_add_mod_noop(((a + b) as int % m), c as int, m);
}

/// Adding the reduced zero leaves a reduced residue unchanged.
pub proof fn lemma_fadd_zero(a: nat)
    requires
        a < group_order(),
    ensures
        fadd(a, 0) == a,
{
    vstd::arithmetic::div_mod::lemma_small_mod(a, group_order());
}

/// Multiplying by zero gives zero.
pub proof fn lemma_fmul_zero(b: nat)
    ensures
        fmul(0, b) == 0,
{
    assert(0 * b == 0) by (nonlinear_arith);
    vstd::arithmetic::div_mod::lemma_small_mod(0, group_order());
}

/// Multiplying by one reduces.
pub proof fn lemma_fmul_one(b: nat)
    ensures
        fmul(1, b) == b % group_order(),
{
    assert(1 * b == b) by (nonlinear_arith);
}

/// The affine step at one lands on the second endpoint:
/// `a + 1 * (b - a) == b` in the field, for reduced `a` and `b`.
pub proof fn lemma_affine_at_one(a: nat, b: nat)
    requires
        a < group_order(),
        b < group_order(),
    ensures
        fadd(a, fmul(1, fsub(b, a))) == b,
{
    let m = group_order() as int;
    lemma_fmul_one(fsub(b, a));
    vstd::arithmetic::div_mod::lemma_mod_twice((b + group_order() - (a as int % m)) as int, m);
    assert(fmul(1, fsub(b, a)) == fsub(b, a));
    vstd::arithmetic::div_mod::lemma_small_mod(a, group_order());
    // a + ((b + L - a) % L) reduces to b modulo L.
    vstd::arithmetic::div_mod::lemma_add_mod_noop(a as int, (b + group_order() - a) as int, m);
    vstd::arithmetic::div_mod::lemma_mod_twice(a as int, m);
    vstd::arithmetic::div_mod::lemma_add_mod_noop(a as int, ((b + group_order() - a) as int % m), m);
    assert((a + (b + group_order() - a)) as int == (b + group_order()) as int);
    vstd::arithmetic::div_mod::lemma_mod_multiples_vanish(1, b as int, m);
    vstd::arithmetic::div_mod::lemma_small_mod(b, group_order());
}

/// Field multiplication distributes over field addition.
pub proof fn lemma_fmul_distributes(c: nat, x: nat, y: nat)
    ensures
        fmul(c, fadd(x, y)) == fadd(fmul(c, x), fmul(c, y)),
{
    let m = group_order() as int;
    vstd::arithmetic::div_mod::lemma_mul_mod_noop_right(c as int, (x + y) as int, m);
    assert(c * (x + y) == c * x + c * y) by (nonlinear_arith);
    vstd::arithmetic::div_mod::lemma_add_mod_noop((c * x) as int, (c * y) as int, m);
    vstd::arithmetic::div_mod::lemma_mod_twice((c * x) as int, m);
    vstd::arithmetic::div_mod::lemma_mod_twice((c * y) as int, m);
    vstd::arithmetic::div_mod::lemma_add_mod_noop(((c * x) as int % m), ((c * y) as int % m), m);
}

/// Equal-length little-endian encodings with equal values are identical:
/// the encoding map is injective.
pub proof fn lemma_le_bytes_to_nat_injective(a: Seq<u8>, b: Seq<u8>)
    requires
        a.len() == b.len(),
        le_bytes_to_nat(a) == le_bytes_to_nat(b),
    ensures
        a =~= b,
    decreases a.len(),
{
    if a.len() > 0 {
        let va = le_bytes_to_nat(a);
        let vb = le_bytes_to_nat(b);
        assert(va == a[0] + 256 * le_bytes_to_nat(a.skip(1)));
        assert(vb == b[0] + 256 * le_bytes_to_nat(b.skip(1)));
        assert(a[0] == va % 256 && le_bytes_to_nat(a.skip(1)) == va / 256) by {
            lemma_le_digit(a[0] as nat, le_bytes_to_nat(a.skip(1)));
        }
        assert(b[0] == vb % 256 && le_bytes_to_nat(b.skip(1)) == vb / 256) by {
            lemma_le_digit(b[0] as nat, le_bytes_to_nat(b.skip(1)));
        }
        lemma_le_bytes_to_nat_injective(a.skip(1), b.skip(1));
        assert forall|i: int| 0 <= i < a.len() implies a[i] == b[i] by {
            if i > 0 {
                assert(a[i] == a.skip(1)[i - 1]);
                assert(b[i] == b.skip(1)[i - 1]);
            }
        }
        assert(a =~= b);
    } else {
        assert(a =~= b);
    }
}

proof fn lemma_le_digit(d: nat, rest: nat)
    requires
        d < 256,
    ensures
        (d + 256 * rest) % 256 == d,
        (d + 256 * rest) / 256 == rest,
{
    vstd::arithmetic::div_mod::lemma_fundamental_div_mod_converse(
        (d + 256 * rest) as int,
        256,
        rest as int,
        d as int,
    );
}

} // verus!
