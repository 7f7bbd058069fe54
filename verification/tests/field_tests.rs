use ipa_core::field::Field;
use ipa_core::fp25519::Fp25519;
use ipa_core::fp31::Fp31;

fn fp25519_from_le(bytes: [u8; 32]) -> Fp25519 {
    Fp25519::from_bytes(&bytes)
}

///test serialize and deserialize
#[test]
fn serde_25519() {
    let mut rng = rand::thread_rng();
    let input = Fp25519::sample(&mut rng);
    let a = input.to_bytes();
    assert_eq!(a.len(), 32);
    let output = Fp25519::from_bytes(a.as_slice());
    assert_eq!(input, output);
}

///test simple arithmetics to check that the scalar wrappers are used correctly
#[test]
fn simple_arithmetics_25519() {
    let a = fp25519_from_le([
        0x02, 0x00, 0x00, 0x00, 0x00, 0x00, 0x00, 0x00, 0x00, 0x00, 0x00, 0x00, 0x00, 0x00, 0x00,
        0x00, 0x00, 0x00, 0x00, 0x00, 0x00, 0x00, 0x00, 0x00, 0x00, 0x00, 0x00, 0x00, 0x00, 0x00,
        0x00, 0x00,
    ]);
    let b = fp25519_from_le([
        0x03, 0x00, 0x00, 0x00, 0x00, 0x00, 0x00, 0x00, 0x00, 0x00, 0x00, 0x00, 0x00, 0x00, 0x00,
        0x00, 0x00, 0x00, 0x00, 0x00, 0x00, 0x00, 0x00, 0x00, 0x00, 0x00, 0x00, 0x00, 0x00, 0x00,
        0x00, 0x00,
    ]);
    let d = fp25519_from_le([
        0x05, 0x00, 0x00, 0x00, 0x00, 0x00, 0x00, 0x00, 0x00, 0x00, 0x00, 0x00, 0x00, 0x00, 0x00,
        0x00, 0x00, 0x00, 0x00, 0x00, 0x00, 0x00, 0x00, 0x00, 0x00, 0x00, 0x00, 0x00, 0x00, 0x00,
        0x00, 0x00,
    ]);
    let e = fp25519_from_le([
        0x06, 0x00, 0x00, 0x00, 0x00, 0x00, 0x00, 0x00, 0x00, 0x00, 0x00, 0x00, 0x00, 0x00, 0x00,
        0x00, 0x00, 0x00, 0x00, 0x00, 0x00, 0x00, 0x00, 0x00, 0x00, 0x00, 0x00, 0x00, 0x00, 0x00,
        0x00, 0x00,
    ]);
    let cc = b.sub(a);
    let dc = a.add(b);
    let ec = a.mul(b);
    assert_eq!(cc, Fp25519::one());
    assert_eq!(dc, d);
    assert_eq!(ec, e);
}

///test random field element generation (!= 0)
#[test]
fn simple_random_25519() {
    let mut rng = rand::thread_rng();
    assert_ne!(Fp25519::zero(), Fp25519::sample(&mut rng));
}

///test inversion for field elements
#[test]
fn invert_25519() {
    let mut rng = rand::thread_rng();
    let a = Fp25519::sample(&mut rng);
    let ia = a.invert();
    assert_eq!(a.mul(ia), Fp25519::one());
}

#[test]
fn deserialize_reduces_25519() {
    // an over-sized value reduces modulo the group order: its canonical
    // encoding differs from the raw bytes but round-trips from then on
    let raw = [0xffu8; 32];
    let x = Fp25519::from_bytes(&raw);
    let canonical = x.to_bytes();
    assert_ne!(canonical.as_slice(), &raw[..]);
    let y = Fp25519::from_bytes(canonical.as_slice());
    assert_eq!(x, y);
}

#[test]
fn from_random_25519() {
    // the low word alone embeds untouched: 7 stays 7
    let x = Fp25519::from_random(7, 0);
    assert_eq!(x, Fp25519::from_u128(7));
    // the high word shifts by 2^128
    let y = Fp25519::from_random(0, 1);
    let mut bytes = vec![0u8; 32];
    bytes[16] = 1;
    assert_eq!(y, Fp25519::from_bytes(bytes.as_slice()));
}

#[test]
fn fp31_add_zero_and_one() {
    for v in 0..31u128 {
        let a = Fp31::from_u128(v);
        assert_eq!(a.add(Fp31::zero()), a);
        assert_eq!(a.mul(Fp31::one()), a);
        assert_eq!(a.add(a.neg()), Fp31::zero());
    }
}

#[test]
fn fp31_exact_arithmetic() {
    let a = Fp31::from_u128(2);
    let b = Fp31::from_u128(3);
    assert_eq!(a.add(b), Fp31::from_u128(5));
    assert_eq!(a.mul(b), Fp31::from_u128(6));
    assert_eq!(b.sub(a), Fp31::one());
    assert_eq!(a.sub(b), Fp31::from_u128(30));
    assert_eq!(Fp31::from_u128(29).add(Fp31::from_u128(5)), Fp31::from_u128(3));
    assert_eq!(Fp31::from_u128(77), Fp31::from_u128(15));
}

#[test]
fn fp31_all_inverses() {
    for v in 1..31u128 {
        let a = Fp31::from_u128(v);
        assert_eq!(a.mul(a.invert()), Fp31::one());
    }
}

#[test]
fn fp31_codec_round_trip() {
    for v in 0..31u128 {
        let a = Fp31::from_u128(v);
        let bytes = a.to_bytes();
        assert_eq!(bytes.len(), 1);
        assert_eq!(Fp31::from_bytes(bytes.as_slice()), a);
    }
    // an over-sized byte reduces
    assert_eq!(Fp31::from_bytes(&[62u8]), Fp31::zero());
}
