//! The Curve25519 scalar field: residues modulo the group order
//! `l = 2^252 + 27742317777372353535851937790883648493`. An element is held
//! as four 64-bit limbs of its canonical value; the modular operations
//! themselves are carried out by `curve25519_dalek` behind trusted wrappers
//! whose contracts speak of little-endian byte values.

use vstd::arithmetic::div_mod::{
    lemma_add_mod_noop, lemma_mod_bound, lemma_mod_breakdown, lemma_mul_mod_noop, lemma_small_mod,
};
use vstd::prelude::*;

use curve25519_dalek::scalar::Scalar;

use crate::bytes::{
    le_nat, lemma_le_nat_append, lemma_le_nat_bound, lemma_le_nat_injective,
    lemma_le_nat_of_nat_to_le_bytes_small, lemma_nat_to_le_bytes_len, lemma_pow256_add,
    lemma_pow256_values, nat_to_le_bytes, pow256, push_le_bytes, read_le_bytes,
};
use crate::field::Field;

verus! {

/// The order of the Curve25519 scalar group, a prime.
pub open spec fn ell() -> nat {
    0x1000000000000000000000000000000014def9dea2f79cd65812631a5cf5d3ednat
}

/// An element of the Curve25519 scalar field, canonical (below `ell()`),
/// split little-endian into four 64-bit limbs.
#[derive(Clone, Copy, PartialEq, Eq, Structural, Debug)]
pub struct Fp25519 {
    l0: u64,
    l1: u64,
    l2: u64,
    l3: u64,
}

/// Relies on `curve25519_dalek::Scalar`: `from_bytes_mod_order` reduces a
/// 32-byte little-endian value modulo the group order, addition is modular,
/// and `to_bytes` returns the canonical little-endian encoding.
#[verifier::external_body]
fn scalar_add_bytes(a: &[u8], b: &[u8]) -> (r: Vec<u8>)
    requires
        a@.len() == 32,
        b@.len() == 32,
    ensures
        r@.len() == 32,
        le_nat(r@) == (le_nat(a@) % ell() + le_nat(b@) % ell()) % ell(),
{
    let x = Scalar::from_bytes_mod_order(a.try_into().unwrap());
    let y = Scalar::from_bytes_mod_order(b.try_into().unwrap());
    (x + y).to_bytes().to_vec()
}

/// Relies on `curve25519_dalek::Scalar`: subtraction of reduced scalars is
/// modular; see `scalar_add_bytes` for the byte conventions.
#[verifier::external_body]
fn scalar_sub_bytes(a: &[u8], b: &[u8]) -> (r: Vec<u8>)
    requires
        a@.len() == 32,
        b@.len() == 32,
    ensures
        r@.len() == 32,
        le_nat(r@) as int == (le_nat(a@) % ell() + ell() - le_nat(b@) % ell()) % (ell() as int),
{
    let x = Scalar::from_bytes_mod_order(a.try_into().unwrap());
    let y = Scalar::from_bytes_mod_order(b.try_into().unwrap());
    (x - y).to_bytes().to_vec()
}

/// Relies on `curve25519_dalek::Scalar`: multiplication of reduced scalars
/// is modular; see `scalar_add_bytes` for the byte conventions.
#[verifier::external_body]
fn scalar_mul_bytes(a: &[u8], b: &[u8]) -> (r: Vec<u8>)
    requires
        a@.len() == 32,
        b@.len() == 32,
    ensures
        r@.len() == 32,
        le_nat(r@) == ((le_nat(a@) % ell()) * (le_nat(b@) % ell())) % ell(),
{
    let x = Scalar::from_bytes_mod_order(a.try_into().unwrap());
    let y = Scalar::from_bytes_mod_order(b.try_into().unwrap());
    (x * y).to_bytes().to_vec()
}

/// Relies on `curve25519_dalek::Scalar::invert`: for a nonzero reduced
/// scalar it returns the multiplicative inverse modulo the group order.
#[verifier::external_body]
fn scalar_invert_bytes(a: &[u8]) -> (r: Vec<u8>)
    requires
        a@.len() == 32,
        le_nat(a@) % ell() != 0,
    ensures
        r@.len() == 32,
        le_nat(r@) < ell(),
        ((le_nat(a@) % ell()) * le_nat(r@)) % ell() == 1,
{
    let x = Scalar::from_bytes_mod_order(a.try_into().unwrap());
    x.invert().to_bytes().to_vec()
}

/// Relies on `curve25519_dalek::Scalar::from_bytes_mod_order`: reduction of
/// a 32-byte little-endian value modulo the group order.
#[verifier::external_body]
fn scalar_reduce_bytes(a: &[u8]) -> (r: Vec<u8>)
    requires
        a@.len() == 32,
    ensures
        r@.len() == 32,
        le_nat(r@) == le_nat(a@) % ell(),
{
    let x = Scalar::from_bytes_mod_order(a.try_into().unwrap());
    x.to_bytes().to_vec()
}

/// Relies on `rand_core::RngCore::fill_bytes`: fills a buffer with bytes
/// from the random source; nothing is promised of the values.
#[verifier::external_body]
fn fill_random_bytes<R: rand_core::RngCore>(rng: &mut R) -> (r: Vec<u8>)
    ensures
        r@.len() == 32,
{
    let mut b = [0u8; 32];
    rng.fill_bytes(&mut b);
    b.to_vec()
}

impl Fp25519 {
    /// Reads a canonical little-endian 32-byte value into limbs.
    fn from_le_slice(buf: &[u8]) -> (r: Self)
        requires
            buf@.len() == 32,
            le_nat(buf@) < ell(),
        ensures
            r.wf(),
            r.value() == le_nat(buf@),
    {
        let l0 = read_le_bytes(buf, 0, 8) as u64;
        let l1 = read_le_bytes(buf, 8, 8) as u64;
        let l2 = read_le_bytes(buf, 16, 8) as u64;
        let l3 = read_le_bytes(buf, 24, 8) as u64;
        let r = Fp25519 { l0, l1, l2, l3 };
        proof {
            lemma_pow256_values();
            let s0 = buf@.subrange(0, 8);
            let s1 = buf@.subrange(8, 16);
            let s2 = buf@.subrange(16, 24);
            let s3 = buf@.subrange(24, 32);
            lemma_le_nat_bound(s0);
            lemma_le_nat_bound(s1);
            lemma_le_nat_bound(s2);
            lemma_le_nat_bound(s3);
            assert(buf@ =~= s0 + s1 + s2 + s3);
            lemma_le_nat_append(s2, s3);
            lemma_le_nat_append(s1, s2 + s3);
            lemma_le_nat_append(s0, s1 + (s2 + s3));
            assert((s0 + (s1 + (s2 + s3))) =~= s0 + s1 + s2 + s3);
            lemma_pow256_add(8, 8);
            lemma_pow256_add(8, 16);
            assert(le_nat(buf@) == le_nat(s0) + pow256(8) * (le_nat(s1) + pow256(8) * (le_nat(s2)
                + pow256(8) * le_nat(s3))));
            assert(pow256(8) * (le_nat(s1) + pow256(8) * (le_nat(s2) + pow256(8) * le_nat(s3)))
                == pow256(8) * le_nat(s1) + pow256(16) * le_nat(s2) + pow256(24) * le_nat(s3))
                by (nonlinear_arith)
                requires
                    pow256(16) == pow256(8) * pow256(8),
                    pow256(24) == pow256(8) * pow256(16),
            ;
        }
        r
    }

    /// Uniform sampling: fresh random bytes reduced modulo the group order,
    /// statistically indistinguishable from uniform.
    pub fn sample<R: rand_core::RngCore>(rng: &mut R) -> (r: Self)
        ensures
            r.wf(),
    {
        let raw = fill_random_bytes(rng);
        Self::from_bytes(raw.as_slice())
    }

    /// Builds a field element from two 128-bit pseudo-random words by
    /// little-endian concatenation and modular reduction: the bridge from
    /// shared randomness to per-(step, record) field values.
    pub fn from_random(lo: u128, hi: u128) -> (r: Self)
        ensures
            r.wf(),
            r.value() == (lo as nat + pow256(16) * (hi as nat)) % ell(),
    {
        let mut raw: Vec<u8> = Vec::new();
        push_le_bytes(&mut raw, lo, 16);
        push_le_bytes(&mut raw, hi, 16);
        proof {
            lemma_pow256_values();
            let a = nat_to_le_bytes(lo as nat, 16);
            let b = nat_to_le_bytes(hi as nat, 16);
            lemma_nat_to_le_bytes_len(lo as nat, 16);
            lemma_nat_to_le_bytes_len(hi as nat, 16);
            lemma_le_nat_of_nat_to_le_bytes_small(lo as nat, 16);
            lemma_le_nat_of_nat_to_le_bytes_small(hi as nat, 16);
            lemma_le_nat_append(a, b);
            assert(raw@ =~= a + b);
        }
        Self::from_bytes(raw.as_slice())
    }
}

impl Field for Fp25519 {
    open spec fn modulus() -> nat {
        ell()
    }

    closed spec fn value(self) -> nat {
        self.l0 as nat + pow256(8) * (self.l1 as nat) + pow256(16) * (self.l2 as nat) + pow256(24)
            * (self.l3 as nat)
    }

    closed spec fn wf(self) -> bool {
        self.value() < ell()
    }

    open spec fn size_spec() -> nat {
        32
    }

    closed spec fn from_nat(n: nat) -> Self {
        let m = n % ell();
        Fp25519 {
            l0: (m % pow256(8)) as u64,
            l1: ((m / pow256(8)) % pow256(8)) as u64,
            l2: ((m / pow256(16)) % pow256(8)) as u64,
            l3: (m / pow256(24)) as u64,
        }
    }

    proof fn lemma_modulus() {
        lemma_pow256_values();
    }

    proof fn lemma_wf_bound(a: Self) {
    }

    proof fn lemma_from_nat(n: nat) {
        lemma_pow256_values();
        let m = n % ell();
        lemma_mod_bound(n as int, ell() as int);
        let r = Self::from_nat(n);
        lemma_limb_decomposition(m);
        lemma_small_mod(r.value(), ell());
    }

    proof fn lemma_value_injective(a: Self, b: Self) {
        lemma_pow256_values();
        lemma_limbs_of_value(a);
        lemma_limbs_of_value(b);
    }

    fn zero() -> (r: Self) {
        let r = Fp25519 { l0: 0, l1: 0, l2: 0, l3: 0 };
        proof {
            lemma_pow256_values();
        }
        r
    }

    fn one() -> (r: Self) {
        let r = Fp25519 { l0: 1, l1: 0, l2: 0, l3: 0 };
        proof {
            lemma_pow256_values();
        }
        r
    }

    fn add(self, rhs: Self) -> (r: Self) {
        let a = self.to_bytes();
        let b = rhs.to_bytes();
        let c = scalar_add_bytes(a.as_slice(), b.as_slice());
        proof {
            lemma_small_mod(self.value(), ell());
            lemma_small_mod(rhs.value(), ell());
            lemma_mod_bound((self.value() + rhs.value()) as int, ell() as int);
        }
        Self::from_le_slice(c.as_slice())
    }

    fn sub(self, rhs: Self) -> (r: Self) {
        let a = self.to_bytes();
        let b = rhs.to_bytes();
        let c = scalar_sub_bytes(a.as_slice(), b.as_slice());
        proof {
            lemma_small_mod(self.value(), ell());
            lemma_small_mod(rhs.value(), ell());
            lemma_mod_bound((self.value() + ell() - rhs.value()) as int, ell() as int);
        }
        Self::from_le_slice(c.as_slice())
    }

    fn neg(self) -> (r: Self) {
        let z = Self::zero();
        z.sub(self)
    }

    fn mul(self, rhs: Self) -> (r: Self) {
        let a = self.to_bytes();
        let b = rhs.to_bytes();
        let c = scalar_mul_bytes(a.as_slice(), b.as_slice());
        proof {
            lemma_small_mod(self.value(), ell());
            lemma_small_mod(rhs.value(), ell());
            lemma_mod_bound((self.value() * rhs.value()) as int, ell() as int);
        }
        Self::from_le_slice(c.as_slice())
    }

    fn invert(self) -> (r: Self) {
        let a = self.to_bytes();
        proof {
            lemma_small_mod(self.value(), ell());
        }
        let c = scalar_invert_bytes(a.as_slice());
        Self::from_le_slice(c.as_slice())
    }

    fn from_u128(x: u128) -> (r: Self) {
        let r = Self::from_random(x, 0);
        proof {
            lemma_pow256_values();
        }
        r
    }

    fn size() -> (r: usize) {
        32
    }

    fn to_bytes(&self) -> (r: Vec<u8>) {
        let mut out: Vec<u8> = Vec::new();
        push_le_bytes(&mut out, self.l0 as u128, 8);
        push_le_bytes(&mut out, self.l1 as u128, 8);
        push_le_bytes(&mut out, self.l2 as u128, 8);
        push_le_bytes(&mut out, self.l3 as u128, 8);
        proof {
            lemma_pow256_values();
            let a0 = nat_to_le_bytes(self.l0 as nat, 8);
            let a1 = nat_to_le_bytes(self.l1 as nat, 8);
            let a2 = nat_to_le_bytes(self.l2 as nat, 8);
            let a3 = nat_to_le_bytes(self.l3 as nat, 8);
            lemma_nat_to_le_bytes_len(self.l0 as nat, 8);
            lemma_nat_to_le_bytes_len(self.l1 as nat, 8);
            lemma_nat_to_le_bytes_len(self.l2 as nat, 8);
            lemma_nat_to_le_bytes_len(self.l3 as nat, 8);
            lemma_le_nat_of_nat_to_le_bytes_small(self.l0 as nat, 8);
            lemma_le_nat_of_nat_to_le_bytes_small(self.l1 as nat, 8);
            lemma_le_nat_of_nat_to_le_bytes_small(self.l2 as nat, 8);
            lemma_le_nat_of_nat_to_le_bytes_small(self.l3 as nat, 8);
            assert(out@ =~= a0 + (a1 + (a2 + a3)));
            lemma_le_nat_append(a2, a3);
            lemma_le_nat_append(a1, a2 + a3);
            lemma_le_nat_append(a0, a1 + (a2 + a3));
            lemma_pow256_add(8, 8);
            lemma_pow256_add(8, 16);
            assert(pow256(8) * (self.l1 as nat + pow256(8) * (self.l2 as nat + pow256(8)
                * (self.l3 as nat))) == pow256(8) * (self.l1 as nat) + pow256(16)
                * (self.l2 as nat) + pow256(24) * (self.l3 as nat))
                by (nonlinear_arith)
                requires
                    pow256(16) == pow256(8) * pow256(8),
                    pow256(24) == pow256(8) * pow256(16),
            ;
            assert(le_nat(out@) == self.value());
            lemma_le_nat_bound(out@);
            lemma_nat_to_le_bytes_len(self.value(), 32);
            lemma_le_nat_of_nat_to_le_bytes_small(self.value(), 32);
            lemma_le_nat_injective(out@, nat_to_le_bytes(self.value(), 32));
        }
        out
    }

    fn from_bytes(buf: &[u8]) -> (r: Self) {
        let c = scalar_reduce_bytes(buf);
        proof {
            lemma_mod_bound(le_nat(buf@) as int, ell() as int);
        }
        Self::from_le_slice(c.as_slice())
    }
}

/// The four limb projections of `m` recompose to `m` when `m < pow256(32)`.
proof fn lemma_limb_decomposition(m: nat)
    requires
        m < pow256(32),
    ensures
        ({
            let l0 = m % pow256(8);
            let l1 = (m / pow256(8)) % pow256(8);
            let l2 = (m / pow256(16)) % pow256(8);
            let l3 = m / pow256(24);
            &&& l0 < pow256(8)
            &&& l1 < pow256(8)
            &&& l2 < pow256(8)
            &&& l3 < pow256(8)
            &&& l0 + pow256(8) * l1 + pow256(16) * l2 + pow256(24) * l3 == m
        }),
{
    lemma_pow256_values();
    let p8 = pow256(8);
    let p16 = pow256(16);
    let p24 = pow256(24);
    let p32 = pow256(32);
    lemma_pow256_add(8, 8);
    lemma_pow256_add(16, 8);
    lemma_pow256_add(24, 8);
    assert(p24 == 0x1000000000000000000000000000000000000000000000000nat);
    let l0 = m % p8;
    let l1 = (m / p8) % p8;
    let l2 = (m / p16) % p8;
    let l3 = m / p24;
    lemma_mod_bound(m as int, p8 as int);
    lemma_mod_bound((m / p8) as int, p8 as int);
    lemma_mod_bound((m / p16) as int, p8 as int);
    assert(l3 < p8) by (nonlinear_arith)
        requires m < p32, p32 == p24 * p8, p24 > 0, l3 == m / p24;
    assert((m / p8) / p8 == m / p16) by (nonlinear_arith)
        requires p16 == p8 * p8, p8 > 0;
    assert((m / p16) / p8 == m / p24) by (nonlinear_arith)
        requires p24 == p16 * p8, p16 > 0, p8 > 0;
    lemma_mod_breakdown(m as int, p8 as int, p8 as int);
    assert(m % p16 == p8 * ((m / p8) % p8) + m % p8);
    lemma_mod_breakdown(m as int, p16 as int, p8 as int);
    assert(m % p24 == p16 * ((m / p16) % p8) + m % p16);
    lemma_mod_breakdown(m as int, p24 as int, p8 as int);
    assert(m % p32 == p24 * ((m / p24) % p8) + m % p24);
    lemma_small_mod(m, p32);
    lemma_small_mod(l3, p8);
}

/// The limbs of a canonical element are the limb projections of its value.
proof fn lemma_limbs_of_value(a: Fp25519)
    ensures
        a.l0 as nat == a.value() % pow256(8),
        a.l1 as nat == (a.value() / pow256(8)) % pow256(8),
        a.l2 as nat == (a.value() / pow256(16)) % pow256(8),
        a.l3 as nat == a.value() / pow256(24),
{
    lemma_pow256_values();
    let p8 = pow256(8);
    let p16 = pow256(16);
    let p24 = pow256(24);
    lemma_pow256_add(8, 8);
    lemma_pow256_add(16, 8);
    let v = a.value();
    assert(v % p8 == a.l0 as nat && v / p8 == a.l1 as nat + p8 * (a.l2 as nat) + p16
        * (a.l3 as nat)) by (nonlinear_arith)
        requires
            v == a.l0 as nat + p8 * (a.l1 as nat) + (p8 * p8) * (a.l2 as nat) + (p8 * (p8 * p8))
                * (a.l3 as nat),
            p16 == p8 * p8,
            p24 == p8 * p16,
            (a.l0 as nat) < p8,
            p8 == 0x10000000000000000,
    ;
    assert((v / p8) % p8 == a.l1 as nat && (v / p8) / p8 == a.l2 as nat + p8 * (a.l3 as nat))
        by (nonlinear_arith)
        requires
            v / p8 == a.l1 as nat + p8 * (a.l2 as nat) + (p8 * p8) * (a.l3 as nat),
            p16 == p8 * p8,
            (a.l1 as nat) < p8,
            p8 == 0x10000000000000000,
    ;
    assert((v / p16) % p8 == a.l2 as nat && (v / p16) / p8 == a.l3 as nat) by (nonlinear_arith)
        requires
            v / p16 == a.l2 as nat + p8 * (a.l3 as nat),
            (a.l2 as nat) < p8,
            p8 == 0x10000000000000000,
    ;
    assert((v / p8) / p8 == v / p16) by (nonlinear_arith)
        requires p16 == p8 * p8, p8 > 0;
    assert((v / p16) / p8 == v / p24) by (nonlinear_arith)
        requires p24 == p16 * p8, p16 > 0, p8 > 0;
}

} // verus!
