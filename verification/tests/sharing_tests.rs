use ipa_core::field::Field;
use rand::Rng;
use ipa_core::fp31::Fp31;
use ipa_core::malicious::MaliciousReplicated;
use ipa_core::replicated::{share, validate_and_reconstruct, Replicated};
use ipa_core::role::Role;

fn share3(x: Fp31, rng: &mut rand::rngs::ThreadRng) -> [Replicated<Fp31>; 3] {
    let (s0, s1, s2) = share(x, rng);
    [s0, s1, s2]
}

#[test]
fn share_reconstructs() {
    let mut rng = rand::thread_rng();
    let x = Fp31::from_u128(7);
    let s = share3(x, &mut rng);
    assert_eq!(validate_and_reconstruct((s[0], s[1], s[2])), x);
}

#[test]
fn share_is_cyclic() {
    let mut rng = rand::thread_rng();
    let x = Fp31::from_u128(11);
    let s = share3(x, &mut rng);
    // adjacent helpers agree on one coordinate
    assert_eq!(s[0].right(), s[1].left());
    assert_eq!(s[1].right(), s[2].left());
    assert_eq!(s[2].right(), s[0].left());
    // the three additive shares sum to the secret either way around
    let lefts = s[0].left().add(s[1].left()).add(s[2].left());
    let rights = s[0].right().add(s[1].right()).add(s[2].right());
    assert_eq!(lefts, x);
    assert_eq!(rights, x);
}

#[test]
fn local_add_homomorphism() {
    let mut rng = rand::thread_rng();
    let x = Fp31::from_u128(9);
    let y = Fp31::from_u128(25);
    let sx = share3(x, &mut rng);
    let sy = share3(y, &mut rng);
    let sum = [sx[0].add(&sy[0]), sx[1].add(&sy[1]), sx[2].add(&sy[2])];
    assert_eq!(validate_and_reconstruct((sum[0], sum[1], sum[2])), x.add(y));
}

#[test]
fn local_scalar_mul_homomorphism() {
    let mut rng = rand::thread_rng();
    let x = Fp31::from_u128(9);
    let k = Fp31::from_u128(13);
    let sx = share3(x, &mut rng);
    let scaled = [sx[0].scalar_mul(k), sx[1].scalar_mul(k), sx[2].scalar_mul(k)];
    assert_eq!(validate_and_reconstruct((scaled[0], scaled[1], scaled[2])), x.mul(k));
}

#[test]
fn local_neg_homomorphism() {
    let mut rng = rand::thread_rng();
    let x = Fp31::from_u128(21);
    let sx = share3(x, &mut rng);
    let neg = [sx[0].neg(), sx[1].neg(), sx[2].neg()];
    assert_eq!(validate_and_reconstruct((neg[0], neg[1], neg[2])), x.neg());
}

#[test]
fn one_shares_reconstruct_to_one() {
    let ones: [Replicated<Fp31>; 3] = [
        Replicated::one(Role::H1),
        Replicated::one(Role::H2),
        Replicated::one(Role::H3),
    ];
    assert_eq!(validate_and_reconstruct((ones[0], ones[1], ones[2])), Fp31::one());
}

#[test]
fn malicious_components_reconstruct() {
    let mut rng = rand::thread_rng();
    let r = Fp31::from_u128(5);
    let x = Fp31::from_u128(8);
    let sx = share3(x, &mut rng);
    let srx = share3(r.mul(x), &mut rng);
    let ms: Vec<MaliciousReplicated<Fp31>> =
        (0..3).map(|i| MaliciousReplicated::new(sx[i], srx[i])).collect();
    let xs = (
        ms[0].x().access_without_downgrade(),
        ms[1].x().access_without_downgrade(),
        ms[2].x().access_without_downgrade(),
    );
    let rxs = (*ms[0].rx(), *ms[1].rx(), *ms[2].rx());
    assert_eq!(validate_and_reconstruct(xs), x);
    assert_eq!(validate_and_reconstruct(rxs), r.mul(x));
}

#[test]
fn test_local_operations() {
    let mut rng = rand::thread_rng();

    let a = Fp31::from_u128(rng.gen::<u128>());
    let b = Fp31::from_u128(rng.gen::<u128>());
    let c = Fp31::from_u128(rng.gen::<u128>());
    let d = Fp31::from_u128(rng.gen::<u128>());
    let e = Fp31::from_u128(rng.gen::<u128>());
    let f = Fp31::from_u128(rng.gen::<u128>());
    // Randomization constant
    let r = Fp31::from_u128(rng.gen::<u128>());

    let a_shared = share3(a, &mut rng);
    let b_shared = share3(b, &mut rng);
    let c_shared = share3(c, &mut rng);
    let d_shared = share3(d, &mut rng);
    let e_shared = share3(e, &mut rng);
    let f_shared = share3(f, &mut rng);
    // Randomization constant
    let r_shared = share3(r, &mut rng);

    let ra = a.mul(r);
    let rb = b.mul(r);
    let rc = c.mul(r);
    let rd = d.mul(r);
    let re = e.mul(r);
    let rf = f.mul(r);

    let ra_shared = share3(ra, &mut rng);
    let rb_shared = share3(rb, &mut rng);
    let rc_shared = share3(rc, &mut rng);
    let rd_shared = share3(rd, &mut rng);
    let re_shared = share3(re, &mut rng);
    let rf_shared = share3(rf, &mut rng);

    let roles = [Role::H1, Role::H2, Role::H3];
    let mut results = Vec::with_capacity(3);

    for i in 0..3 {
        let helper_role = roles[i];

        let malicious_a = MaliciousReplicated::new(a_shared[i], ra_shared[i]);
        let malicious_b = MaliciousReplicated::new(b_shared[i], rb_shared[i]);
        let malicious_c = MaliciousReplicated::new(c_shared[i], rc_shared[i]);
        let malicious_d = MaliciousReplicated::new(d_shared[i], rd_shared[i]);
        let malicious_e = MaliciousReplicated::new(e_shared[i], re_shared[i]);
        let malicious_f = MaliciousReplicated::new(f_shared[i], rf_shared[i]);

        let malicious_a_plus_b = malicious_a.add(&malicious_b);
        let malicious_c_minus_d = malicious_c.sub(&malicious_d);
        let malicious_1_minus_e =
            MaliciousReplicated::one(helper_role, r_shared[i]).sub(&malicious_e);
        let malicious_2f = malicious_f.mul(Fp31::from_u128(2));

        let mut temp = malicious_a_plus_b
            .neg()
            .sub(&malicious_c_minus_d)
            .sub(&malicious_1_minus_e);
        temp = temp.mul(Fp31::from_u128(6));
        results.push(temp.add(&malicious_2f));
    }

    let correct = a
        .add(b)
        .neg()
        .sub(c.sub(d))
        .sub(Fp31::one().sub(e))
        .mul(Fp31::from_u128(6))
        .add(Fp31::from_u128(2).mul(f));

    assert_eq!(
        validate_and_reconstruct((
            results[0].x().access_without_downgrade(),
            results[1].x().access_without_downgrade(),
            results[2].x().access_without_downgrade(),
        )),
        correct,
    );
    assert_eq!(
        validate_and_reconstruct((*results[0].rx(), *results[1].rx(), *results[2].rx())),
        correct.mul(r),
    );
}
