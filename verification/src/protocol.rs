//! The local arithmetic of the replicated multiplication protocol, and
//! bit-wise AND over bit-decomposed vectors. Multiplication costs one
//! round of interaction: helper `i` computes
//! `d_i = a_i b_i + a_i b_{i+1} + a_{i+1} b_i + z_i` from its two
//! coordinates and a zero-share `z_i`, sends `d_i` to its predecessor,
//! receives `d_{i+1}` from its successor, and keeps `(d_i, d_{i+1})` as
//! its share of the product. The network exchange is the caller's; the
//! arithmetic and its correctness live here.

use vstd::arithmetic::div_mod::{
    lemma_add_mod_noop, lemma_mod_bound, lemma_mul_mod_noop, lemma_small_mod,
};
use vstd::prelude::*;

use crate::error::Error;
use crate::field::Field;
use crate::replicated::{
    is_sharing_of, lemma_mod_sum3, reconstruct3, triple_cyclic, triple_wf, Replicated,
};

verus! {

/// The largest supported width of a bit-decomposed vector.
pub const MAX_BITS: usize = 8;

/// The value helper `i` computes locally in one product round, before
/// reduction: both own coordinate products plus the two cross terms and
/// the zero-share.
pub open spec fn product_round_value<F: Field>(a: Replicated<F>, b: Replicated<F>, z: F) -> nat {
    a.spec_left().value() * b.spec_left().value() + a.spec_left().value()
        * b.spec_right().value() + a.spec_right().value() * b.spec_left().value() + z.value()
}

/// Computes this helper's share `d_i` of the product round.
pub fn multiply_share_of_product<F: Field>(a: &Replicated<F>, b: &Replicated<F>, z: F) -> (d: F)
    requires
        a.wf(),
        b.wf(),
        z.wf(),
    ensures
        d.wf(),
        d.value() == product_round_value(*a, *b, z) % F::modulus(),
{
    let t1 = a.left().mul(b.left());
    let t2 = a.left().mul(b.right());
    let t3 = a.right().mul(b.left());
    let s1 = t1.add(t2);
    let s2 = s1.add(t3);
    let d = s2.add(z);
    proof {
        F::lemma_modulus();
        let m = F::modulus() as int;
        let p1 = a.spec_left().value() * b.spec_left().value();
        let p2 = a.spec_left().value() * b.spec_right().value();
        let p3 = a.spec_right().value() * b.spec_left().value();
        let zv = z.value() as int;
        lemma_mul_mod_noop(
            a.spec_left().value() as int,
            b.spec_left().value() as int,
            m,
        );
        lemma_mul_mod_noop(
            a.spec_left().value() as int,
            b.spec_right().value() as int,
            m,
        );
        lemma_mul_mod_noop(
            a.spec_right().value() as int,
            b.spec_left().value() as int,
            m,
        );
        F::lemma_wf_bound(a.spec_left());
        F::lemma_wf_bound(a.spec_right());
        F::lemma_wf_bound(b.spec_left());
        F::lemma_wf_bound(b.spec_right());
        F::lemma_wf_bound(z);
        lemma_small_mod(a.spec_left().value(), F::modulus());
        lemma_small_mod(a.spec_right().value(), F::modulus());
        lemma_small_mod(b.spec_left().value(), F::modulus());
        lemma_small_mod(b.spec_right().value(), F::modulus());
        // fold the three products and the zero-share under one reduction
        lemma_add_mod_noop(p1 as int, p2 as int, m);
        lemma_add_mod_noop((p1 + p2) as int, p3 as int, m);
        lemma_mod_bound((p1 + p2) as int, m);
        lemma_small_mod((p1 + p2) % F::modulus(), F::modulus());
        lemma_add_mod_noop(((p1 + p2) % F::modulus()) as int, p3 as int, m);
        lemma_add_mod_noop((p1 + p2 + p3) as int, zv, m);
        lemma_mod_bound((p1 + p2 + p3) as int, m);
        lemma_small_mod((p1 + p2 + p3) % F::modulus(), F::modulus());
        lemma_add_mod_noop(((p1 + p2 + p3) % F::modulus()) as int, zv, m);
        lemma_small_mod(z.value(), F::modulus());
    }
    d
}

/// One whole product round, run for all three helpers at once: given
/// cyclic sharings of `x` and `y` and a zero-share triple, the three
/// output pairs form a sharing of `x * y`. A real deployment exchanges
/// the `d` values over the network; the correctness of the arithmetic is
/// the same either way.
pub fn simulate_multiply<F: Field>(
    a0: Replicated<F>,
    a1: Replicated<F>,
    a2: Replicated<F>,
    b0: Replicated<F>,
    b1: Replicated<F>,
    b2: Replicated<F>,
    z0: F,
    z1: F,
    z2: F,
) -> (r: (Replicated<F>, Replicated<F>, Replicated<F>))
    requires
        triple_wf(a0, a1, a2),
        triple_cyclic(a0, a1, a2),
        triple_wf(b0, b1, b2),
        triple_cyclic(b0, b1, b2),
        z0.wf(),
        z1.wf(),
        z2.wf(),
        (z0.value() + z1.value() + z2.value()) % F::modulus() == 0,
    ensures
        is_sharing_of(
            r.0,
            r.1,
            r.2,
            (reconstruct3(a0, a1, a2) * reconstruct3(b0, b1, b2)) % F::modulus(),
        ),
{
    let d0 = multiply_share_of_product(&a0, &b0, z0);
    let d1 = multiply_share_of_product(&a1, &b1, z1);
    let d2 = multiply_share_of_product(&a2, &b2, z2);
    proof {
        F::lemma_modulus();
        let m = F::modulus();
        let mi = m as int;
        let x1 = a0.spec_left().value();
        let x2 = a1.spec_left().value();
        let x3 = a2.spec_left().value();
        let y1 = b0.spec_left().value();
        let y2 = b1.spec_left().value();
        let y3 = b2.spec_left().value();
        let zs = z0.value() + z1.value() + z2.value();
        let u0 = product_round_value(a0, b0, z0);
        let u1 = product_round_value(a1, b1, z1);
        let u2 = product_round_value(a2, b2, z2);
        lemma_mod_sum3(u0, u1, u2, m);
        assert(u0 + u1 + u2 == (x1 + x2 + x3) * (y1 + y2 + y3) + zs) by (nonlinear_arith)
            requires
                u0 == x1 * y1 + x1 * y2 + x2 * y1 + z0.value(),
                u1 == x2 * y2 + x2 * y3 + x3 * y2 + z1.value(),
                u2 == x3 * y3 + x3 * y1 + x1 * y3 + z2.value(),
                zs == z0.value() + z1.value() + z2.value(),
        ;
        let s = (x1 + x2 + x3) * (y1 + y2 + y3);
        lemma_add_mod_noop(s as int, zs as int, mi);
        lemma_mod_bound(s as int, mi);
        lemma_small_mod(s % m, m);
        lemma_add_mod_noop((s % m) as int, zs as int, mi);
        lemma_add_mod_noop((s % m) as int, (zs % m) as int, mi);
        lemma_small_mod((s % m) as nat, m);
        lemma_mul_mod_noop((x1 + x2 + x3) as int, (y1 + y2 + y3) as int, mi);
        lemma_mod_bound((reconstruct3(a0, a1, a2) * reconstruct3(b0, b1, b2)) as int, mi);
        lemma_small_mod(
            ((reconstruct3(a0, a1, a2) * reconstruct3(b0, b1, b2)) % m) as nat,
            m,
        );
    }
    (Replicated::new(d0, d1), Replicated::new(d1, d2), Replicated::new(d2, d0))
}

/// All shares of a bit-decomposed vector are well formed.
pub open spec fn bits_wf<F: Field>(v: Seq<Replicated<F>>) -> bool {
    forall|i: int| 0 <= i < v.len() ==> (#[trigger] v[i]).wf()
}

/// Matrix bit-wise AND for bit-decomposed vectors: this helper's local
/// product-round shares, one per bit, each under its own zero-share so
/// that each bit lives in its own cryptographic domain. Succeeds exactly
/// on aligned vectors of at most `MAX_BITS` bits; mismatched lengths and
/// oversized vectors are fatal.
pub fn bool_and_8_bit<F: Field>(
    a: &Vec<Replicated<F>>,
    b: &Vec<Replicated<F>>,
    z: &Vec<F>,
) -> (r: Result<Vec<F>, Error>)
    requires
        bits_wf(a@),
        bits_wf(b@),
        forall|i: int| 0 <= i < z@.len() ==> (#[trigger] z@[i]).wf(),
        z@.len() == a@.len(),
    ensures
        (r is Ok) <==> (a@.len() == b@.len() && a@.len() <= MAX_BITS),
        a@.len() != b@.len() ==> r == Err::<Vec<F>, Error>(
            Error::MismatchedBitLengths { left: a@.len() as usize, right: b@.len() as usize },
        ),
        a@.len() == b@.len() && a@.len() > MAX_BITS ==> r == Err::<Vec<F>, Error>(
            Error::TooManyBits { len: a@.len() as usize },
        ),
        r matches Ok(v) ==> v@.len() == a@.len() && (forall|i: int|
            0 <= i < v@.len() ==> (#[trigger] v@[i]).wf() && v@[i].value() == product_round_value(
                a@[i],
                b@[i],
                z@[i],
            ) % F::modulus()),
{
    if a.len() != b.len() {
        return Err(Error::MismatchedBitLengths { left: a.len(), right: b.len() });
    }
    if a.len() > MAX_BITS {
        return Err(Error::TooManyBits { len: a.len() });
    }
    let mut out: Vec<F> = Vec::new();
    let mut i: usize = 0;
    while i < a.len()
        invariant
            i <= a@.len(),
            a@.len() == b@.len(),
            z@.len() == a@.len(),
            bits_wf(a@),
            bits_wf(b@),
            forall|k: int| 0 <= k < z@.len() ==> (#[trigger] z@[k]).wf(),
            out@.len() == i,
            forall|k: int|
                0 <= k < i ==> (#[trigger] out@[k]).wf() && out@[k].value()
                    == product_round_value(a@[k], b@[k], z@[k]) % F::modulus(),
        decreases a@.len() - i,
    {
        let d = multiply_share_of_product(&a[i], &b[i], z[i]);
        out.push(d);
        i = i + 1;
    }
    Ok(out)
}

/// Pairs this helper's own `d` values with those received from its
/// successor into the new replicated shares, bit by bit.
pub fn bool_and_assemble<F: Field>(d_own: &Vec<F>, d_recv: &Vec<F>) -> (r: Result<
    Vec<Replicated<F>>,
    Error,
>)
    ensures
        (r is Ok) <==> d_own@.len() == d_recv@.len(),
        d_own@.len() != d_recv@.len() ==> r == Err::<Vec<Replicated<F>>, Error>(
            Error::MismatchedBitLengths {
                left: d_own@.len() as usize,
                right: d_recv@.len() as usize,
            },
        ),
        r matches Ok(v) ==> v@.len() == d_own@.len() && (forall|i: int|
            0 <= i < v@.len() ==> (#[trigger] v@[i]).spec_left() == d_own@[i]
                && v@[i].spec_right() == d_recv@[i]),
{
    if d_own.len() != d_recv.len() {
        return Err(Error::MismatchedBitLengths { left: d_own.len(), right: d_recv.len() });
    }
    let mut out: Vec<Replicated<F>> = Vec::new();
    let mut i: usize = 0;
    while i < d_own.len()
        invariant
            i <= d_own@.len(),
            d_own@.len() == d_recv@.len(),
            out@.len() == i,
            forall|k: int|
                0 <= k < i ==> (#[trigger] out@[k]).spec_left() == d_own@[k] && out@[k].spec_right()
                    == d_recv@[k],
        decreases d_own@.len() - i,
    {
        out.push(Replicated::new(d_own[i], d_recv[i]));
        i = i + 1;
    }
    Ok(out)
}

} // verus!
