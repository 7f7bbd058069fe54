//! The capability interface of a prime field: constants, arithmetic,
//! inversion, sampling support and a fixed-width little-endian byte layout.
//! Every generic protocol in this crate takes the field as a type parameter
//! bounded by this trait.

use vstd::prelude::*;

use crate::bytes::{le_nat, nat_to_le_bytes, pow256};

verus! {

/// A prime field. `value` is the residue a field element denotes, always
/// below `modulus` for well-formed elements; `size_spec` is the width of
/// the little-endian byte encoding.
pub trait Field: Sized + Copy {
    spec fn modulus() -> nat;

    spec fn value(self) -> nat;

    spec fn wf(self) -> bool;

    spec fn size_spec() -> nat;

    /// The unique well-formed element denoting `n % modulus`.
    spec fn from_nat(n: nat) -> Self;

    /// The modulus is a prime above 1 and fits the byte width, which is
    /// at most 32.
    proof fn lemma_modulus()
        ensures
            Self::modulus() >= 2,
            Self::modulus() <= pow256(Self::size_spec()),
            1 <= Self::size_spec() <= 32,
    ;

    /// A well-formed element's residue lies below the modulus.
    proof fn lemma_wf_bound(a: Self)
        requires
            a.wf(),
        ensures
            a.value() < Self::modulus(),
    ;

    proof fn lemma_from_nat(n: nat)
        ensures
            Self::from_nat(n).wf(),
            Self::from_nat(n).value() == n % Self::modulus(),
    ;

    /// Well-formed elements are determined by their residue.
    proof fn lemma_value_injective(a: Self, b: Self)
        requires
            a.wf(),
            b.wf(),
            a.value() == b.value(),
        ensures
            a == b,
    ;

    fn zero() -> (r: Self)
        ensures
            r.wf(),
            r.value() == 0,
    ;

    fn one() -> (r: Self)
        ensures
            r.wf(),
            r.value() == 1,
    ;

    fn add(self, rhs: Self) -> (r: Self)
        requires
            self.wf(),
            rhs.wf(),
        ensures
            r.wf(),
            r.value() == (self.value() + rhs.value()) % Self::modulus(),
    ;

    fn sub(self, rhs: Self) -> (r: Self)
        requires
            self.wf(),
            rhs.wf(),
        ensures
            r.wf(),
            r.value() as int == (self.value() + Self::modulus() - rhs.value()) % (Self::modulus() as int),
    ;

    fn neg(self) -> (r: Self)
        requires
            self.wf(),
        ensures
            r.wf(),
            r.value() as int == (Self::modulus() - self.value()) % (Self::modulus() as int),
    ;

    fn mul(self, rhs: Self) -> (r: Self)
        requires
            self.wf(),
            rhs.wf(),
        ensures
            r.wf(),
            r.value() == (self.value() * rhs.value()) % Self::modulus(),
    ;

    /// The multiplicative inverse of a nonzero element.
    fn invert(self) -> (r: Self)
        requires
            self.wf(),
            self.value() != 0,
        ensures
            r.wf(),
            (self.value() * r.value()) % Self::modulus() == 1,
    ;

    /// Reduction of an arbitrary 128-bit word into the field; the bridge
    /// from pseudo-random words to deterministic field values.
    fn from_u128(x: u128) -> (r: Self)
        ensures
            r.wf(),
            r.value() == x as nat % Self::modulus(),
    ;

    fn size() -> (r: usize)
        ensures
            r as nat == Self::size_spec(),
    ;

    /// The fixed-width little-endian encoding of this element.
    fn to_bytes(&self) -> (r: Vec<u8>)
        requires
            self.wf(),
        ensures
            r@ == nat_to_le_bytes(self.value(), Self::size_spec()),
            r@.len() == Self::size_spec(),
            le_nat(r@) == self.value(),
    ;

    /// Reads a fixed-width little-endian encoding, reducing modulo the
    /// field order; infallible for well-sized byte strings.
    fn from_bytes(buf: &[u8]) -> (r: Self)
        requires
            buf@.len() == Self::size_spec(),
        ensures
            r.wf(),
            r.value() == le_nat(buf@) % Self::modulus(),
    ;
}

/// Adding the zero element leaves a field element unchanged: a sum `r` of
/// `a` and a zero `z` is `a` itself.
pub proof fn lemma_add_zero_identity<F: Field>(a: F, z: F, r: F)
    requires
        a.wf(),
        z.wf(),
        z.value() == 0,
        r.wf(),
        r.value() == (a.value() + z.value()) % F::modulus(),
    ensures
        r == a,
{
    F::lemma_modulus();
    F::lemma_wf_bound(a);
    vstd::arithmetic::div_mod::lemma_small_mod(a.value(), F::modulus());
    F::lemma_value_injective(r, a);
}

/// Adding the negation of an element gives the zero element.
pub proof fn lemma_add_neg_is_zero<F: Field>(a: F, n: F, s: F)
    requires
        a.wf(),
        n.wf(),
        n.value() as int == (F::modulus() - a.value()) % (F::modulus() as int),
        s.wf(),
        s.value() == (a.value() + n.value()) % F::modulus(),
    ensures
        s.value() == 0,
        s == F::from_nat(0),
{
    F::lemma_modulus();
    F::lemma_wf_bound(a);
    let m = F::modulus();
    vstd::arithmetic::div_mod::lemma_mod_self_0(m as int);
    if a.value() == 0 {
        vstd::arithmetic::div_mod::lemma_small_mod(0, m);
    } else {
        vstd::arithmetic::div_mod::lemma_small_mod((m - a.value()) as nat, m);
    }
    F::lemma_from_nat(0);
    vstd::arithmetic::div_mod::lemma_small_mod(0, m);
    F::lemma_value_injective(s, F::from_nat(0));
}

/// Multiplying by the one element leaves a field element unchanged.
pub proof fn lemma_mul_one_identity<F: Field>(a: F, o: F, r: F)
    requires
        a.wf(),
        o.wf(),
        o.value() == 1,
        r.wf(),
        r.value() == (a.value() * o.value()) % F::modulus(),
    ensures
        r == a,
{
    F::lemma_modulus();
    F::lemma_wf_bound(a);
    vstd::arithmetic::div_mod::lemma_small_mod(a.value(), F::modulus());
    F::lemma_value_injective(r, a);
}

/// Multiplying a nonzero element by its inverse gives the one element.
pub proof fn lemma_mul_inverse_is_one<F: Field>(a: F, i: F, r: F)
    requires
        a.wf(),
        i.wf(),
        (a.value() * i.value()) % F::modulus() == 1,
        r.wf(),
        r.value() == (a.value() * i.value()) % F::modulus(),
    ensures
        r.value() == 1,
        r == F::from_nat(1),
{
    F::lemma_modulus();
    F::lemma_from_nat(1);
    vstd::arithmetic::div_mod::lemma_small_mod(1, F::modulus());
    F::lemma_value_injective(r, F::from_nat(1));
}

/// Serialize then deserialize is the identity on well-formed elements.
pub proof fn lemma_codec_round_trip<F: Field>(a: F, b: F)
    requires
        a.wf(),
        b.wf(),
        b.value() == le_nat(nat_to_le_bytes(a.value(), F::size_spec())) % F::modulus(),
    ensures
        b == a,
{
    F::lemma_modulus();
    F::lemma_wf_bound(a);
    crate::bytes::lemma_pow256_pos(F::size_spec());
    crate::bytes::lemma_le_nat_of_nat_to_le_bytes_small(a.value(), F::size_spec());
    vstd::arithmetic::div_mod::lemma_small_mod(a.value(), F::modulus());
    F::lemma_value_injective(b, a);
}

} // verus!
