//! Replicated 2-of-3 secret sharing. A secret `x` is split into three
//! additive shares `a1 + a2 + a3 = x (mod p)`; helper `i` holds the ordered
//! pair `(a_i, a_{i+1})`, so adjacent helpers agree on one coordinate.
//! All local arithmetic is coordinate-wise and preserves that invariant
//! without interaction.

use vstd::arithmetic::div_mod::{
    lemma_add_mod_noop, lemma_mod_bound, lemma_mul_mod_noop_left, lemma_small_mod,
};
use vstd::prelude::*;

use crate::field::Field;
use crate::role::Role;

verus! {

/// The two additive shares a helper holds of one secret.
#[derive(Clone, Copy, Debug)]
pub struct Replicated<F: Field> {
    left: F,
    right: F,
}

/// The reconstructed secret of a triple of replicated shares: the sum of
/// the first coordinates modulo the field order.
pub open spec fn reconstruct3<F: Field>(
    s0: Replicated<F>,
    s1: Replicated<F>,
    s2: Replicated<F>,
) -> nat {
    (s0.spec_left().value() + s1.spec_left().value() + s2.spec_left().value()) % F::modulus()
}

/// Adjacent helpers agree on one coordinate: the three pairs form a cyclic
/// covering of the additive shares `(a1, a2, a3)`.
pub open spec fn triple_cyclic<F: Field>(
    s0: Replicated<F>,
    s1: Replicated<F>,
    s2: Replicated<F>,
) -> bool {
    &&& s0.spec_right() == s1.spec_left()
    &&& s1.spec_right() == s2.spec_left()
    &&& s2.spec_right() == s0.spec_left()
}

pub open spec fn triple_wf<F: Field>(
    s0: Replicated<F>,
    s1: Replicated<F>,
    s2: Replicated<F>,
) -> bool {
    s0.wf() && s1.wf() && s2.wf()
}

/// A well-formed cyclic triple that reconstructs to `x`.
pub open spec fn is_sharing_of<F: Field>(
    s0: Replicated<F>,
    s1: Replicated<F>,
    s2: Replicated<F>,
    x: nat,
) -> bool {
    &&& triple_wf(s0, s1, s2)
    &&& triple_cyclic(s0, s1, s2)
    &&& reconstruct3(s0, s1, s2) == x
}

/// `c` holds the coordinate-wise modular sum of `a` and `b`.
pub open spec fn is_share_add<F: Field>(
    c: Replicated<F>,
    a: Replicated<F>,
    b: Replicated<F>,
) -> bool {
    &&& c.spec_left().value() == (a.spec_left().value() + b.spec_left().value()) % F::modulus()
    &&& c.spec_right().value() == (a.spec_right().value() + b.spec_right().value()) % F::modulus()
    &&& c.wf()
}

/// `c` holds the coordinate-wise modular difference of `a` and `b`.
pub open spec fn is_share_sub<F: Field>(
    c: Replicated<F>,
    a: Replicated<F>,
    b: Replicated<F>,
) -> bool {
    &&& c.spec_left().value() as int == (a.spec_left().value() + F::modulus()
        - b.spec_left().value()) % (F::modulus() as int)
    &&& c.spec_right().value() as int == (a.spec_right().value() + F::modulus()
        - b.spec_right().value()) % (F::modulus() as int)
    &&& c.wf()
}

/// `c` holds the coordinate-wise negation of `a`.
pub open spec fn is_share_neg<F: Field>(c: Replicated<F>, a: Replicated<F>) -> bool {
    &&& c.spec_left().value() as int == (F::modulus() - a.spec_left().value()) % (
    F::modulus() as int)
    &&& c.spec_right().value() as int == (F::modulus() - a.spec_right().value()) % (
    F::modulus() as int)
    &&& c.wf()
}

/// `c` holds `a` scaled coordinate-wise by the public scalar `k`.
pub open spec fn is_share_scalar_mul<F: Field>(
    c: Replicated<F>,
    a: Replicated<F>,
    k: F,
) -> bool {
    &&& c.spec_left().value() == (a.spec_left().value() * k.value()) % F::modulus()
    &&& c.spec_right().value() == (a.spec_right().value() * k.value()) % F::modulus()
    &&& c.wf()
}

impl<F: Field> Replicated<F> {
    pub closed spec fn spec_left(self) -> F {
        self.left
    }

    pub closed spec fn spec_right(self) -> F {
        self.right
    }

    pub open spec fn wf(self) -> bool {
        self.spec_left().wf() && self.spec_right().wf()
    }

    pub fn new(left: F, right: F) -> (r: Self)
        ensures
            r.spec_left() == left,
            r.spec_right() == right,
    {
        Replicated { left, right }
    }

    pub fn left(&self) -> (r: F)
        ensures
            r == self.spec_left(),
    {
        self.left
    }

    pub fn right(&self) -> (r: F)
        ensures
            r == self.spec_right(),
    {
        self.right
    }

    pub fn as_tuple(&self) -> (r: (F, F))
        ensures
            r.0 == self.spec_left(),
            r.1 == self.spec_right(),
    {
        (self.left, self.right)
    }

    /// The canonical replicated sharing of the constant one: the three
    /// helpers hold `(1,0)`, `(0,0)` and `(0,1)` respectively.
    pub fn one(helper_role: Role) -> (r: Self)
        ensures
            r.wf(),
            r.spec_left().value() == if helper_role == Role::H1 { 1nat } else { 0nat },
            r.spec_right().value() == if helper_role == Role::H3 { 1nat } else { 0nat },
    {
        let z = F::zero();
        let o = F::one();
        match helper_role {
            Role::H1 => Replicated { left: o, right: z },
            Role::H2 => Replicated { left: z, right: z },
            Role::H3 => Replicated { left: z, right: o },
        }
    }

    pub fn add(&self, rhs: &Self) -> (r: Self)
        requires
            self.wf(),
            rhs.wf(),
        ensures
            is_share_add(r, *self, *rhs),
    {
        Replicated { left: self.left.add(rhs.left), right: self.right.add(rhs.right) }
    }

    pub fn sub(&self, rhs: &Self) -> (r: Self)
        requires
            self.wf(),
            rhs.wf(),
        ensures
            is_share_sub(r, *self, *rhs),
    {
        Replicated { left: self.left.sub(rhs.left), right: self.right.sub(rhs.right) }
    }

    pub fn neg(&self) -> (r: Self)
        requires
            self.wf(),
        ensures
            is_share_neg(r, *self),
    {
        Replicated { left: self.left.neg(), right: self.right.neg() }
    }

    /// Multiplication by a public scalar, coordinate-wise.
    pub fn scalar_mul(&self, k: F) -> (r: Self)
        requires
            self.wf(),
            k.wf(),
        ensures
            is_share_scalar_mul(r, *self, k),
    {
        Replicated { left: self.left.mul(k), right: self.right.mul(k) }
    }
}

/// The share with the given coordinates, for specifications.
pub closed spec fn share_of<F: Field>(left: F, right: F) -> Replicated<F> {
    Replicated { left, right }
}

/// `share_of` picks out exactly the coordinates it is given.
pub broadcast proof fn lemma_share_of<F: Field>(left: F, right: F)
    ensures
        (#[trigger] share_of(left, right)).spec_left() == left,
        share_of(left, right).spec_right() == right,
{
}

/// Shares agree when their coordinates do.
pub proof fn lemma_share_ext<F: Field>(a: Replicated<F>, b: Replicated<F>)
    requires
        a.spec_left() == b.spec_left(),
        a.spec_right() == b.spec_right(),
    ensures
        a == b,
{
}

impl<F: Field> crate::gateway::Message for Replicated<F> {
    open spec fn size_spec() -> nat {
        2 * F::size_spec()
    }

    open spec fn m_wf(self) -> bool {
        self.wf()
    }

    open spec fn encode_spec(self) -> Seq<u8> {
        crate::bytes::nat_to_le_bytes(self.spec_left().value(), F::size_spec())
            + crate::bytes::nat_to_le_bytes(self.spec_right().value(), F::size_spec())
    }

    open spec fn decode_spec(s: Seq<u8>) -> Self {
        share_of(
            F::from_nat(crate::bytes::le_nat(s.take(F::size_spec() as int))),
            F::from_nat(crate::bytes::le_nat(s.skip(F::size_spec() as int))),
        )
    }

    proof fn lemma_size() {
        F::lemma_modulus();
    }

    proof fn lemma_encode(self) {
        F::lemma_modulus();
        F::lemma_wf_bound(self.spec_left());
        F::lemma_wf_bound(self.spec_right());
        let w = F::size_spec();
        let a = crate::bytes::nat_to_le_bytes(self.spec_left().value(), w);
        let b = crate::bytes::nat_to_le_bytes(self.spec_right().value(), w);
        crate::bytes::lemma_nat_to_le_bytes_len(self.spec_left().value(), w);
        crate::bytes::lemma_nat_to_le_bytes_len(self.spec_right().value(), w);
        crate::bytes::lemma_le_nat_of_nat_to_le_bytes_small(self.spec_left().value(), w);
        crate::bytes::lemma_le_nat_of_nat_to_le_bytes_small(self.spec_right().value(), w);
        assert((a + b).take(w as int) =~= a);
        assert((a + b).skip(w as int) =~= b);
        F::lemma_from_nat(self.spec_left().value());
        F::lemma_from_nat(self.spec_right().value());
        lemma_small_mod(self.spec_left().value(), F::modulus());
        lemma_small_mod(self.spec_right().value(), F::modulus());
        lemma_share_of(
            F::from_nat(self.spec_left().value()),
            F::from_nat(self.spec_right().value()),
        );
        F::lemma_value_injective(F::from_nat(self.spec_left().value()), self.spec_left());
        F::lemma_value_injective(F::from_nat(self.spec_right().value()), self.spec_right());
        lemma_share_ext(Self::decode_spec(self.encode_spec()), self);
    }

    proof fn lemma_decode(s: Seq<u8>) {
        F::lemma_from_nat(crate::bytes::le_nat(s.take(F::size_spec() as int)));
        F::lemma_from_nat(crate::bytes::le_nat(s.skip(F::size_spec() as int)));
        lemma_share_of(
            F::from_nat(crate::bytes::le_nat(s.take(F::size_spec() as int))),
            F::from_nat(crate::bytes::le_nat(s.skip(F::size_spec() as int))),
        );
    }

    fn size() -> (r: usize) {
        proof {
            F::lemma_modulus();
        }
        2 * F::size()
    }

    fn write_bytes(&self, out: &mut Vec<u8>) {
        let la = self.left.to_bytes();
        let lb = self.right.to_bytes();
        let mut i: usize = 0;
        let ghost base = out@;
        while i < la.len()
            invariant
                i <= la@.len(),
                out@ =~= base + la@.take(i as int),
            decreases la@.len() - i,
        {
            out.push(la[i]);
            proof {
                assert(out@ =~= base + la@.take(i as int + 1));
            }
            i = i + 1;
        }
        proof {
            assert(out@ =~= base + la@);
        }
        let ghost base2 = out@;
        let mut j: usize = 0;
        while j < lb.len()
            invariant
                j <= lb@.len(),
                out@ =~= base2 + lb@.take(j as int),
            decreases lb@.len() - j,
        {
            out.push(lb[j]);
            proof {
                assert(out@ =~= base2 + lb@.take(j as int + 1));
            }
            j = j + 1;
        }
        proof {
            assert(out@ =~= base2 + lb@);
            assert(out@ =~= base + (la@ + lb@));
        }
    }

    fn read_bytes(buf: &[u8]) -> (r: Self) {
        proof {
            F::lemma_modulus();
        }
        let w = F::size();
        let left = F::from_bytes(vstd::slice::slice_subrange(buf, 0, w));
        let right = F::from_bytes(vstd::slice::slice_subrange(buf, w, 2 * w));
        proof {
            let s = buf@;
            F::lemma_from_nat(crate::bytes::le_nat(s.take(F::size_spec() as int)));
            F::lemma_from_nat(crate::bytes::le_nat(s.skip(F::size_spec() as int)));
            assert(s.subrange(0, w as int) =~= s.take(F::size_spec() as int));
            assert(s.subrange(w as int, 2 * w as int) =~= s.skip(F::size_spec() as int));
            F::lemma_value_injective(
                left,
                F::from_nat(crate::bytes::le_nat(s.take(F::size_spec() as int))),
            );
            F::lemma_value_injective(
                right,
                F::from_nat(crate::bytes::le_nat(s.skip(F::size_spec() as int))),
            );
            lemma_share_of(
                F::from_nat(crate::bytes::le_nat(s.take(F::size_spec() as int))),
                F::from_nat(crate::bytes::le_nat(s.skip(F::size_spec() as int))),
            );
            lemma_share_ext(
                share_of(left, right),
                Self::decode_spec(buf@),
            );
        }
        Replicated { left, right }
    }
}

/// Relies on `rand_core::RngCore::next_u64`: one machine word from the
/// random source; nothing is promised of the value.
#[verifier::external_body]
fn next_random_u64<R: rand_core::RngCore>(rng: &mut R) -> (r: u64)
{
    rng.next_u64()
}

/// Draws a 128-bit word from the random source.
fn next_random_u128<R: rand_core::RngCore>(rng: &mut R) -> (r: u128) {
    let lo = next_random_u64(rng);
    let hi = next_random_u64(rng);
    (lo as u128) + (hi as u128) * 0x10000000000000000
}

/// Shares `input` into three replicated secret shares using the provided
/// random source: the share triple is well formed, cyclic, and
/// reconstructs to `input`.
pub fn share<F: Field, R: rand_core::RngCore>(input: F, rng: &mut R) -> (r: (
    Replicated<F>,
    Replicated<F>,
    Replicated<F>,
))
    requires
        input.wf(),
    ensures
        is_sharing_of(r.0, r.1, r.2, input.value()),
{
    let w1 = next_random_u128(rng);
    let w2 = next_random_u128(rng);
    let x1 = F::from_u128(w1);
    let x2 = F::from_u128(w2);
    let x3 = input.sub(x1.add(x2));
    proof {
        F::lemma_modulus();
        let m = F::modulus() as int;
        let v = input.value() as int;
        let s = x1.value() as int + x2.value() as int;
        let t = x3.value() as int;
        F::lemma_wf_bound(input);
        lemma_mod_bound(s, m);
        assert(t == (v + m - s % m) % m);
        lemma_mod_bound(v + m - s % m, m);
        lemma_small_mod(t as nat, m as nat);
        // (s + t) % m == (s % m + t % m) % m == (s % m + t) % m == (s + (v + m - s % m)) % m
        lemma_add_mod_noop(s, t, m);
        lemma_add_mod_noop(s, v + m - s % m, m);
        // s + (v + m - s % m) == v + m * (1 + s / m)
        vstd::arithmetic::div_mod::lemma_fundamental_div_mod(s, m);
        assert(s + (v + m - s % m) == v + m * (1 + s / m)) by (nonlinear_arith)
            requires s == m * (s / m) + s % m;
        vstd::arithmetic::div_mod::lemma_mod_multiples_vanish(1 + s / m, v, m);
        lemma_small_mod(v as nat, m as nat);
        assert((s + t) % m == v);
    }
    (Replicated::new(x1, x2), Replicated::new(x2, x3), Replicated::new(x3, x1))
}

/// The canonical one-shares of the three helpers form a sharing of one.
pub proof fn lemma_one_shares_are_sharing<F: Field>(
    s0: Replicated<F>,
    s1: Replicated<F>,
    s2: Replicated<F>,
)
    requires
        triple_wf(s0, s1, s2),
        s0.spec_left().value() == 1,
        s0.spec_right().value() == 0,
        s1.spec_left().value() == 0,
        s1.spec_right().value() == 0,
        s2.spec_left().value() == 0,
        s2.spec_right().value() == 1,
    ensures
        is_sharing_of(s0, s1, s2, 1),
{
    F::lemma_modulus();
    F::lemma_value_injective(s0.spec_right(), s1.spec_left());
    F::lemma_value_injective(s1.spec_right(), s2.spec_left());
    F::lemma_value_injective(s2.spec_right(), s0.spec_left());
    lemma_small_mod(1, F::modulus());
}

/// Folding three residues into a modular sum.
pub proof fn lemma_mod_sum3(p: nat, q: nat, r: nat, m: nat)
    requires
        m > 0,
    ensures
        (p % m + q % m + r % m) % m == (p + q + r) % m,
{
    let mi = m as int;
    lemma_mod_bound(r as int, mi);
    lemma_small_mod(r % m, m);
    // (A + r % m) % m == (A % m + r % m) % m, for A the sum of the first
    // two residues
    lemma_add_mod_noop((p % m + q % m) as int, (r % m) as int, mi);
    lemma_add_mod_noop(p as int, q as int, mi);
    lemma_add_mod_noop((p + q) as int, r as int, mi);
}

/// Helpers adding their shares of `x` and `y` coordinate-wise obtain a
/// sharing of `x + y`: the local sum is well formed, cyclic and
/// reconstructs to the modular sum of the secrets.
pub proof fn lemma_add_preserves_sharing<F: Field>(
    a0: Replicated<F>,
    a1: Replicated<F>,
    a2: Replicated<F>,
    b0: Replicated<F>,
    b1: Replicated<F>,
    b2: Replicated<F>,
    c0: Replicated<F>,
    c1: Replicated<F>,
    c2: Replicated<F>,
    x: nat,
    y: nat,
)
    requires
        is_sharing_of(a0, a1, a2, x),
        is_sharing_of(b0, b1, b2, y),
        is_share_add(c0, a0, b0),
        is_share_add(c1, a1, b1),
        is_share_add(c2, a2, b2),
    ensures
        is_sharing_of(c0, c1, c2, (x + y) % F::modulus()),
{
    F::lemma_modulus();
    let m = F::modulus();
    F::lemma_value_injective(c0.spec_right(), c1.spec_left());
    F::lemma_value_injective(c1.spec_right(), c2.spec_left());
    F::lemma_value_injective(c2.spec_right(), c0.spec_left());
    let sa = a0.spec_left().value() + a1.spec_left().value() + a2.spec_left().value();
    let sb = b0.spec_left().value() + b1.spec_left().value() + b2.spec_left().value();
    lemma_mod_sum3(
        a0.spec_left().value() + b0.spec_left().value(),
        a1.spec_left().value() + b1.spec_left().value(),
        a2.spec_left().value() + b2.spec_left().value(),
        m,
    );
    lemma_add_mod_noop(sa as int, sb as int, m as int);
}

/// Helpers subtracting their shares coordinate-wise obtain a sharing of
/// the modular difference of the secrets.
pub proof fn lemma_sub_preserves_sharing<F: Field>(
    a0: Replicated<F>,
    a1: Replicated<F>,
    a2: Replicated<F>,
    b0: Replicated<F>,
    b1: Replicated<F>,
    b2: Replicated<F>,
    c0: Replicated<F>,
    c1: Replicated<F>,
    c2: Replicated<F>,
    x: nat,
    y: nat,
)
    requires
        is_sharing_of(a0, a1, a2, x),
        is_sharing_of(b0, b1, b2, y),
        is_share_sub(c0, a0, b0),
        is_share_sub(c1, a1, b1),
        is_share_sub(c2, a2, b2),
    ensures
        is_sharing_of(c0, c1, c2, (((x + F::modulus()) - y) % (F::modulus() as int)) as nat),
{
    F::lemma_modulus();
    let m = F::modulus();
    let mi = m as int;
    F::lemma_value_injective(c0.spec_right(), c1.spec_left());
    F::lemma_value_injective(c1.spec_right(), c2.spec_left());
    F::lemma_value_injective(c2.spec_right(), c0.spec_left());
    let p0 = a0.spec_left().value();
    let p1 = a1.spec_left().value();
    let p2 = a2.spec_left().value();
    let q0 = b0.spec_left().value();
    let q1 = b1.spec_left().value();
    let q2 = b2.spec_left().value();
    F::lemma_wf_bound(b0.spec_left());
    F::lemma_wf_bound(b1.spec_left());
    F::lemma_wf_bound(b2.spec_left());
    let sa = p0 + p1 + p2;
    let sb = q0 + q1 + q2;
    lemma_mod_sum3((p0 + m - q0) as nat, (p1 + m - q1) as nat, (p2 + m - q2) as nat, m);
    vstd::arithmetic::div_mod::lemma_fundamental_div_mod(sa as int, mi);
    vstd::arithmetic::div_mod::lemma_fundamental_div_mod(sb as int, mi);
    lemma_mod_bound(sa as int, mi);
    lemma_mod_bound(sb as int, mi);
    // sa + 3m - sb == (sa % m + m - sb % m) + m * (2 + sa / m - sb / m)
    assert(sa + 3 * mi - sb == ((sa as int) % mi + mi - (sb as int) % mi) + mi * (2 + (sa as int)
        / mi - (sb as int) / mi)) by (nonlinear_arith)
        requires
            sa as int == mi * ((sa as int) / mi) + (sa as int) % mi,
            sb as int == mi * ((sb as int) / mi) + (sb as int) % mi,
    ;
    vstd::arithmetic::div_mod::lemma_mod_multiples_vanish(
        2 + (sa as int) / mi - (sb as int) / mi,
        (sa as int) % mi + mi - (sb as int) % mi,
        mi,
    );
    assert((p0 + m - q0) + (p1 + m - q1) + (p2 + m - q2) == sa + 3 * mi - sb);
}

/// Helpers scaling their shares of `x` by a public `k` coordinate-wise
/// obtain a sharing of `x * k`.
pub proof fn lemma_scalar_mul_preserves_sharing<F: Field>(
    a0: Replicated<F>,
    a1: Replicated<F>,
    a2: Replicated<F>,
    c0: Replicated<F>,
    c1: Replicated<F>,
    c2: Replicated<F>,
    k: F,
    x: nat,
)
    requires
        is_sharing_of(a0, a1, a2, x),
        is_share_scalar_mul(c0, a0, k),
        is_share_scalar_mul(c1, a1, k),
        is_share_scalar_mul(c2, a2, k),
    ensures
        is_sharing_of(c0, c1, c2, (x * k.value()) % F::modulus()),
{
    F::lemma_modulus();
    let m = F::modulus();
    F::lemma_value_injective(c0.spec_right(), c1.spec_left());
    F::lemma_value_injective(c1.spec_right(), c2.spec_left());
    F::lemma_value_injective(c2.spec_right(), c0.spec_left());
    let p = a0.spec_left().value();
    let q = a1.spec_left().value();
    let r = a2.spec_left().value();
    let kv = k.value();
    lemma_mod_sum3(p * kv, q * kv, r * kv, m);
    assert(p * kv + q * kv + r * kv == (p + q + r) * kv) by (nonlinear_arith);
    lemma_mul_mod_noop_left((p + q + r) as int, kv as int, m as int);
}

/// Helpers negating their shares of `x` coordinate-wise obtain a sharing
/// of `-x`.
pub proof fn lemma_neg_preserves_sharing<F: Field>(
    a0: Replicated<F>,
    a1: Replicated<F>,
    a2: Replicated<F>,
    c0: Replicated<F>,
    c1: Replicated<F>,
    c2: Replicated<F>,
    x: nat,
)
    requires
        is_sharing_of(a0, a1, a2, x),
        is_share_neg(c0, a0),
        is_share_neg(c1, a1),
        is_share_neg(c2, a2),
    ensures
        is_sharing_of(c0, c1, c2, ((F::modulus() - x) % (F::modulus() as int)) as nat),
{
    F::lemma_modulus();
    let m = F::modulus();
    F::lemma_value_injective(c0.spec_right(), c1.spec_left());
    F::lemma_value_injective(c1.spec_right(), c2.spec_left());
    F::lemma_value_injective(c2.spec_right(), c0.spec_left());
    let p = a0.spec_left().value();
    let q = a1.spec_left().value();
    let r = a2.spec_left().value();
    F::lemma_wf_bound(a0.spec_left());
    F::lemma_wf_bound(a1.spec_left());
    F::lemma_wf_bound(a2.spec_left());
    let sa = p + q + r;
    lemma_mod_sum3((m - p) as nat, (m - q) as nat, (m - r) as nat, m);
    // 3m - sa == (m - sa % m) + m * (2 - sa / m)
    vstd::arithmetic::div_mod::lemma_fundamental_div_mod(sa as int, m as int);
    lemma_mod_bound(sa as int, m as int);
    assert(3 * (m as int) - sa == ((m as int) - (sa as int) % (m as int)) + (m as int) * (2 - (
    sa as int) / (m as int))) by (nonlinear_arith)
        requires sa as int == (m as int) * ((sa as int) / (m as int)) + (sa as int) % (m as int);
    vstd::arithmetic::div_mod::lemma_mod_multiples_vanish(
        2 - (sa as int) / (m as int),
        (m as int) - (sa as int) % (m as int),
        m as int,
    );
    assert((m - p) + (m - q) + (m - r) == 3 * (m as int) - sa);
    lemma_mod_bound(((m as int) - (sa as int) % (m as int)), m as int);
}

/// Validates that the three replicated shares are mutually consistent and
/// reconstructs the secret.
pub fn validate_and_reconstruct<T: Field>(input: (Replicated<T>, Replicated<T>, Replicated<T>)) -> (
    r: T)
    requires
        triple_wf(input.0, input.1, input.2),
        triple_cyclic(input.0, input.1, input.2),
    ensures
        r.wf(),
        r.value() == reconstruct3(input.0, input.1, input.2),
{
    let lhs = input.0.left().add(input.1.left()).add(input.2.left());
    proof {
        T::lemma_modulus();
        let m = T::modulus();
        let a = input.0.spec_left().value();
        let b = input.1.spec_left().value();
        let c = input.2.spec_left().value();
        T::lemma_wf_bound(input.2.spec_left());
        lemma_small_mod(c, m);
        lemma_add_mod_noop((a + b) as int, c as int, m as int);
        lemma_small_mod((a + b) % m, m);
        lemma_add_mod_noop(((a + b) % m) as int, c as int, m as int);
    }
    lhs
}

} // verus!
