//! Malicious-secure sharing: a replicated share of `x` paired with a
//! replicated share of `r * x`, for a global secret randomization scalar
//! `r`. Local arithmetic lifts pointwise to both components, so every
//! sum, difference and public-scalar multiple of malicious shares keeps
//! the two components consistent under reconstruction. Extracting the
//! plain `x` component is routed through a wrapper type so that every
//! downgrade site is explicit.

use vstd::arithmetic::div_mod::{
    lemma_add_mod_noop, lemma_mod_bound, lemma_mul_mod_noop_right, lemma_small_mod,
};
use vstd::prelude::*;

use crate::field::Field;
use crate::replicated::{
    is_share_add, is_share_neg, is_share_scalar_mul, is_share_sub, is_sharing_of,
    lemma_add_preserves_sharing, lemma_neg_preserves_sharing, lemma_scalar_mul_preserves_sharing,
    lemma_sub_preserves_sharing, Replicated,
};
use crate::role::Role;

verus! {

/// A malicious-secure share: the `x` component and the authenticated
/// `r * x` companion.
#[derive(Clone, Copy, Debug)]
pub struct MaliciousReplicated<F: Field> {
    x: Replicated<F>,
    rx: Replicated<F>,
}

/// Marks code that is authorized to strip the authentication companion
/// off a malicious share. Reading the carried value spells the downgrade
/// out at the call site.
pub struct UnauthorizedDowngradeWrapper<T> {
    inner: T,
}

impl<T> UnauthorizedDowngradeWrapper<T> {
    pub closed spec fn spec_inner(self) -> T {
        self.inner
    }

    pub fn new(inner: T) -> (r: Self)
        ensures
            r.spec_inner() == inner,
    {
        UnauthorizedDowngradeWrapper { inner }
    }

    /// The downgrade itself: only call where the protocol design allows
    /// the plain semi-honest share to escape.
    pub fn access_without_downgrade(self) -> (r: T)
        ensures
            r == self.spec_inner(),
    {
        self.inner
    }
}

/// The three helpers' malicious shares jointly hold `x` under the global
/// randomization secret `r`: the `x` components form a sharing of `x` and
/// the companions a sharing of `r * x`.
pub open spec fn is_malicious_sharing_of<F: Field>(
    m0: MaliciousReplicated<F>,
    m1: MaliciousReplicated<F>,
    m2: MaliciousReplicated<F>,
    r: nat,
    x: nat,
) -> bool {
    &&& is_sharing_of(m0.spec_x(), m1.spec_x(), m2.spec_x(), x)
    &&& is_sharing_of(m0.spec_rx(), m1.spec_rx(), m2.spec_rx(), (r * x) % F::modulus())
}

impl<F: Field> MaliciousReplicated<F> {
    pub closed spec fn spec_x(self) -> Replicated<F> {
        self.x
    }

    pub closed spec fn spec_rx(self) -> Replicated<F> {
        self.rx
    }

    pub open spec fn wf(self) -> bool {
        self.spec_x().wf() && self.spec_rx().wf()
    }

    pub fn new(x: Replicated<F>, rx: Replicated<F>) -> (r: Self)
        ensures
            r.spec_x() == x,
            r.spec_rx() == rx,
    {
        Self { x, rx }
    }

    pub fn x(&self) -> (r: UnauthorizedDowngradeWrapper<Replicated<F>>)
        ensures
            r.spec_inner() == self.spec_x(),
    {
        UnauthorizedDowngradeWrapper::new(self.x)
    }

    pub fn rx(&self) -> (r: &Replicated<F>)
        ensures
            r == &self.spec_rx(),
    {
        &self.rx
    }

    /// The malicious share of the constant one: the canonical replicated
    /// share of one for this role, paired with the provided share of `r`.
    pub fn one(helper_role: Role, r_share: Replicated<F>) -> (r: Self)
        ensures
            r.spec_x().wf(),
            r.spec_x().spec_left().value() == if helper_role == Role::H1 { 1nat } else { 0nat },
            r.spec_x().spec_right().value() == if helper_role == Role::H3 { 1nat } else { 0nat },
            r.spec_rx() == r_share,
    {
        Self::new(Replicated::one(helper_role), r_share)
    }

    pub fn add(&self, rhs: &Self) -> (r: Self)
        requires
            self.wf(),
            rhs.wf(),
        ensures
            is_share_add(r.spec_x(), self.spec_x(), rhs.spec_x()),
            is_share_add(r.spec_rx(), self.spec_rx(), rhs.spec_rx()),
    {
        Self { x: self.x.add(&rhs.x), rx: self.rx.add(&rhs.rx) }
    }

    pub fn sub(&self, rhs: &Self) -> (r: Self)
        requires
            self.wf(),
            rhs.wf(),
        ensures
            is_share_sub(r.spec_x(), self.spec_x(), rhs.spec_x()),
            is_share_sub(r.spec_rx(), self.spec_rx(), rhs.spec_rx()),
    {
        Self { x: self.x.sub(&rhs.x), rx: self.rx.sub(&rhs.rx) }
    }

    pub fn neg(&self) -> (r: Self)
        requires
            self.wf(),
        ensures
            is_share_neg(r.spec_x(), self.spec_x()),
            is_share_neg(r.spec_rx(), self.spec_rx()),
    {
        Self { x: self.x.neg(), rx: self.rx.neg() }
    }

    /// Multiplication by a public scalar, applied to both components.
    pub fn mul(&self, rhs: F) -> (r: Self)
        requires
            self.wf(),
            rhs.wf(),
        ensures
            is_share_scalar_mul(r.spec_x(), self.spec_x(), rhs),
            is_share_scalar_mul(r.spec_rx(), self.spec_rx(), rhs),
    {
        Self { x: self.x.scalar_mul(rhs), rx: self.rx.scalar_mul(rhs) }
    }
}

/// Malicious shares assembled from a sharing of `x` and a sharing of
/// `r * x` are a malicious sharing of `x`.
pub proof fn lemma_malicious_components<F: Field>(
    m0: MaliciousReplicated<F>,
    m1: MaliciousReplicated<F>,
    m2: MaliciousReplicated<F>,
    r: nat,
    x: nat,
)
    requires
        is_sharing_of(m0.spec_x(), m1.spec_x(), m2.spec_x(), x),
        is_sharing_of(m0.spec_rx(), m1.spec_rx(), m2.spec_rx(), (r * x) % F::modulus()),
    ensures
        is_malicious_sharing_of(m0, m1, m2, r, x),
{
}

/// The pointwise sum of malicious sharings of `x` and `y` is a malicious
/// sharing of `x + y`: both components stay consistent.
pub proof fn lemma_malicious_add_preserves<F: Field>(
    a0: MaliciousReplicated<F>,
    a1: MaliciousReplicated<F>,
    a2: MaliciousReplicated<F>,
    b0: MaliciousReplicated<F>,
    b1: MaliciousReplicated<F>,
    b2: MaliciousReplicated<F>,
    c0: MaliciousReplicated<F>,
    c1: MaliciousReplicated<F>,
    c2: MaliciousReplicated<F>,
    r: nat,
    x: nat,
    y: nat,
)
    requires
        is_malicious_sharing_of(a0, a1, a2, r, x),
        is_malicious_sharing_of(b0, b1, b2, r, y),
        is_share_add(c0.spec_x(), a0.spec_x(), b0.spec_x()),
        is_share_add(c1.spec_x(), a1.spec_x(), b1.spec_x()),
        is_share_add(c2.spec_x(), a2.spec_x(), b2.spec_x()),
        is_share_add(c0.spec_rx(), a0.spec_rx(), b0.spec_rx()),
        is_share_add(c1.spec_rx(), a1.spec_rx(), b1.spec_rx()),
        is_share_add(c2.spec_rx(), a2.spec_rx(), b2.spec_rx()),
    ensures
        is_malicious_sharing_of(c0, c1, c2, r, (x + y) % F::modulus()),
{
    F::lemma_modulus();
    let m = F::modulus();
    lemma_add_preserves_sharing(
        a0.spec_x(), a1.spec_x(), a2.spec_x(),
        b0.spec_x(), b1.spec_x(), b2.spec_x(),
        c0.spec_x(), c1.spec_x(), c2.spec_x(),
        x, y,
    );
    lemma_add_preserves_sharing(
        a0.spec_rx(), a1.spec_rx(), a2.spec_rx(),
        b0.spec_rx(), b1.spec_rx(), b2.spec_rx(),
        c0.spec_rx(), c1.spec_rx(), c2.spec_rx(),
        (r * x) % m, (r * y) % m,
    );
    // ((r x) % m + (r y) % m) % m == (r * ((x + y) % m)) % m
    lemma_add_mod_noop((r * x) as int, (r * y) as int, m as int);
    assert(r * x + r * y == r * (x + y)) by (nonlinear_arith);
    lemma_mul_mod_noop_right(r as int, (x + y) as int, m as int);
}

/// The pointwise difference of malicious sharings of `x` and `y` is a
/// malicious sharing of `x - y`: both components stay consistent.
pub proof fn lemma_malicious_sub_preserves<F: Field>(
    a0: MaliciousReplicated<F>,
    a1: MaliciousReplicated<F>,
    a2: MaliciousReplicated<F>,
    b0: MaliciousReplicated<F>,
    b1: MaliciousReplicated<F>,
    b2: MaliciousReplicated<F>,
    c0: MaliciousReplicated<F>,
    c1: MaliciousReplicated<F>,
    c2: MaliciousReplicated<F>,
    r: nat,
    x: nat,
    y: nat,
)
    requires
        is_malicious_sharing_of(a0, a1, a2, r, x),
        is_malicious_sharing_of(b0, b1, b2, r, y),
        is_share_sub(c0.spec_x(), a0.spec_x(), b0.spec_x()),
        is_share_sub(c1.spec_x(), a1.spec_x(), b1.spec_x()),
        is_share_sub(c2.spec_x(), a2.spec_x(), b2.spec_x()),
        is_share_sub(c0.spec_rx(), a0.spec_rx(), b0.spec_rx()),
        is_share_sub(c1.spec_rx(), a1.spec_rx(), b1.spec_rx()),
        is_share_sub(c2.spec_rx(), a2.spec_rx(), b2.spec_rx()),
    ensures
        is_malicious_sharing_of(
            c0, c1, c2, r,
            (((x + F::modulus()) - y) % (F::modulus() as int)) as nat,
        ),
{
    F::lemma_modulus();
    let m = F::modulus();
    let mi = m as int;
    lemma_sub_preserves_sharing(
        a0.spec_x(), a1.spec_x(), a2.spec_x(),
        b0.spec_x(), b1.spec_x(), b2.spec_x(),
        c0.spec_x(), c1.spec_x(), c2.spec_x(),
        x, y,
    );
    lemma_sub_preserves_sharing(
        a0.spec_rx(), a1.spec_rx(), a2.spec_rx(),
        b0.spec_rx(), b1.spec_rx(), b2.spec_rx(),
        c0.spec_rx(), c1.spec_rx(), c2.spec_rx(),
        (r * x) % m, (r * y) % m,
    );
    // ((r x) % m + m - (r y) % m) % m == (r * ((x + m - y) % m)) % m
    let d = ((x + m) - y) % mi;
    lemma_mod_bound((x + m - y) as int, mi);
    lemma_mul_mod_noop_right(r as int, (x + m - y) as int, mi);
    assert(r * ((x + m) - y) == r * x + r * m - r * y) by (nonlinear_arith);
    vstd::arithmetic::div_mod::lemma_fundamental_div_mod((r * x) as int, mi);
    vstd::arithmetic::div_mod::lemma_fundamental_div_mod((r * y) as int, mi);
    lemma_mod_bound((r * x) as int, mi);
    lemma_mod_bound((r * y) as int, mi);
    let u = (r * x) as int;
    let v = (r * y) as int;
    let kx = u / mi;
    let ky = v / mi;
    let t = kx - ky + r - 1;
    // u + r m - v == (u % m + m - v % m) + m t
    assert(mi * t == mi * kx - mi * ky + mi * (r as int) - mi) by (nonlinear_arith)
        requires t == kx - ky + (r as int) - 1;
    assert((r as int) * mi == mi * (r as int)) by (nonlinear_arith);
    assert(u + (r as int) * mi - v == (u % mi + mi - v % mi) + mi * t) by (nonlinear_arith)
        requires
            u == mi * kx + u % mi,
            v == mi * ky + v % mi,
            mi * t == mi * kx - mi * ky + mi * (r as int) - mi,
            (r as int) * mi == mi * (r as int),
    ;
    vstd::arithmetic::div_mod::lemma_mod_multiples_vanish(t, u % mi + mi - v % mi, mi);
    lemma_mul_mod_noop_right(r as int, d, mi);
}

/// The pointwise public-scalar multiple of a malicious sharing of `x` is
/// a malicious sharing of `x * k`: both components stay consistent.
pub proof fn lemma_malicious_scalar_mul_preserves<F: Field>(
    a0: MaliciousReplicated<F>,
    a1: MaliciousReplicated<F>,
    a2: MaliciousReplicated<F>,
    c0: MaliciousReplicated<F>,
    c1: MaliciousReplicated<F>,
    c2: MaliciousReplicated<F>,
    k: F,
    r: nat,
    x: nat,
)
    requires
        is_malicious_sharing_of(a0, a1, a2, r, x),
        is_share_scalar_mul(c0.spec_x(), a0.spec_x(), k),
        is_share_scalar_mul(c1.spec_x(), a1.spec_x(), k),
        is_share_scalar_mul(c2.spec_x(), a2.spec_x(), k),
        is_share_scalar_mul(c0.spec_rx(), a0.spec_rx(), k),
        is_share_scalar_mul(c1.spec_rx(), a1.spec_rx(), k),
        is_share_scalar_mul(c2.spec_rx(), a2.spec_rx(), k),
    ensures
        is_malicious_sharing_of(c0, c1, c2, r, (x * k.value()) % F::modulus()),
{
    F::lemma_modulus();
    let m = F::modulus();
    let kv = k.value();
    lemma_scalar_mul_preserves_sharing(
        a0.spec_x(), a1.spec_x(), a2.spec_x(),
        c0.spec_x(), c1.spec_x(), c2.spec_x(),
        k, x,
    );
    lemma_scalar_mul_preserves_sharing(
        a0.spec_rx(), a1.spec_rx(), a2.spec_rx(),
        c0.spec_rx(), c1.spec_rx(), c2.spec_rx(),
        k, (r * x) % m,
    );
    // (((r x) % m) * kv) % m == (r * ((x kv) % m)) % m
    vstd::arithmetic::div_mod::lemma_mul_mod_noop_left((r * x) as int, kv as int, m as int);
    assert((r * x) * kv == r * (x * kv)) by (nonlinear_arith);
    lemma_mul_mod_noop_right(r as int, (x * kv) as int, m as int);
}

} // verus!
