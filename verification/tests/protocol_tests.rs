use ipa_core::error::Error;
use ipa_core::field::Field;
use ipa_core::fp31::Fp31;
use ipa_core::protocol::{bool_and_8_bit, bool_and_assemble, simulate_multiply};
use ipa_core::replicated::{share, validate_and_reconstruct, Replicated};
use rand::Rng;

fn share3(x: Fp31, rng: &mut rand::rngs::ThreadRng) -> [Replicated<Fp31>; 3] {
    let (s0, s1, s2) = share(x, rng);
    [s0, s1, s2]
}

/// A zero-share triple: pairwise differences of fresh randomness, summing
/// to zero.
fn zero_shares(rng: &mut rand::rngs::ThreadRng) -> [Fp31; 3] {
    let r1 = Fp31::from_u128(rng.gen::<u128>());
    let r2 = Fp31::from_u128(rng.gen::<u128>());
    let r3 = Fp31::from_u128(rng.gen::<u128>());
    [r1.sub(r2), r2.sub(r3), r3.sub(r1)]
}

#[test]
fn replicated_multiplication() {
    let mut rng = rand::thread_rng();
    let x = Fp31::from_u128(7);
    let y = Fp31::from_u128(11);
    let sx = share3(x, &mut rng);
    let sy = share3(y, &mut rng);
    let z = zero_shares(&mut rng);
    let (p0, p1, p2) = simulate_multiply(
        sx[0], sx[1], sx[2], sy[0], sy[1], sy[2], z[0], z[1], z[2],
    );
    assert_eq!(validate_and_reconstruct((p0, p1, p2)), Fp31::from_u128(77));
}

#[test]
fn bitwise_and_of_bit_vectors() {
    let mut rng = rand::thread_rng();
    let a_bits = [1u128, 0, 1, 1];
    let b_bits = [1u128, 1, 1, 0];
    let expected = [1u128, 0, 1, 0];

    // per-helper bit-decomposed vectors
    let mut a: [Vec<Replicated<Fp31>>; 3] = [Vec::new(), Vec::new(), Vec::new()];
    let mut b: [Vec<Replicated<Fp31>>; 3] = [Vec::new(), Vec::new(), Vec::new()];
    let mut z: [Vec<Fp31>; 3] = [Vec::new(), Vec::new(), Vec::new()];
    for i in 0..4 {
        let sa = share3(Fp31::from_u128(a_bits[i]), &mut rng);
        let sb = share3(Fp31::from_u128(b_bits[i]), &mut rng);
        let sz = zero_shares(&mut rng);
        for h in 0..3 {
            a[h].push(sa[h]);
            b[h].push(sb[h]);
            z[h].push(sz[h]);
        }
    }

    // each helper computes its product-round values, one per bit, under
    // its own zero-share
    let d: Vec<Vec<Fp31>> =
        (0..3).map(|h| bool_and_8_bit(&a[h], &b[h], &z[h]).unwrap()).collect();

    // helper h receives the successor's values and keeps the pairs
    let out: Vec<Vec<Replicated<Fp31>>> =
        (0..3).map(|h| bool_and_assemble(&d[h], &d[(h + 1) % 3]).unwrap()).collect();

    for i in 0..4 {
        let bit = validate_and_reconstruct((out[0][i], out[1][i], out[2][i]));
        assert_eq!(bit, Fp31::from_u128(expected[i]));
    }
}

#[test]
fn bitwise_and_rejects_mismatched_lengths() {
    let mut rng = rand::thread_rng();
    let sa = share3(Fp31::one(), &mut rng);
    let sb = share3(Fp31::one(), &mut rng);
    let a = vec![sa[0], sa[0]];
    let b = vec![sb[0]];
    let z = vec![Fp31::zero(), Fp31::zero()];
    assert_eq!(
        bool_and_8_bit(&a, &b, &z),
        Err(Error::MismatchedBitLengths { left: 2, right: 1 })
    );
}

#[test]
fn bitwise_and_rejects_too_many_bits() {
    let mut rng = rand::thread_rng();
    let sa = share3(Fp31::one(), &mut rng);
    let a = vec![sa[0]; 9];
    let b = vec![sa[0]; 9];
    let z = vec![Fp31::zero(); 9];
    assert_eq!(bool_and_8_bit(&a, &b, &z), Err(Error::TooManyBits { len: 9 }));
}

#[test]
fn assemble_rejects_mismatched_lengths() {
    let own = vec![Fp31::one()];
    let recv: Vec<Fp31> = Vec::new();
    assert!(matches!(
        bool_and_assemble(&own, &recv),
        Err(Error::MismatchedBitLengths { left: 1, right: 0 })
    ));
}
