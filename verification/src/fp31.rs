//! The prime field of order 31: a one-byte field used for tests and
//! low-rate protocols. All arithmetic is carried out on `u8` residues.

use vstd::prelude::*;

use crate::bytes::{le_nat, nat_to_le_bytes, lemma_pow256_values};
use crate::field::Field;

verus! {

#[derive(Clone, Copy, PartialEq, Eq, Structural, Debug, Hash)]
pub struct Fp31 {
    v: u8,
}

impl Field for Fp31 {
    closed spec fn modulus() -> nat {
        31
    }

    closed spec fn value(self) -> nat {
        self.v as nat
    }

    closed spec fn wf(self) -> bool {
        self.v < 31
    }

    closed spec fn size_spec() -> nat {
        1
    }

    closed spec fn from_nat(n: nat) -> Self {
        Fp31 { v: (n % 31) as u8 }
    }

    proof fn lemma_modulus() {
        lemma_pow256_values();
    }

    proof fn lemma_wf_bound(a: Self) {
    }

    proof fn lemma_from_nat(n: nat) {
    }

    proof fn lemma_value_injective(a: Self, b: Self) {
    }

    fn zero() -> (r: Self) {
        Fp31 { v: 0 }
    }

    fn one() -> (r: Self) {
        Fp31 { v: 1 }
    }

    fn add(self, rhs: Self) -> (r: Self) {
        Fp31 { v: (self.v + rhs.v) % 31 }
    }

    fn sub(self, rhs: Self) -> (r: Self) {
        Fp31 { v: (self.v + 31 - rhs.v) % 31 }
    }

    fn neg(self) -> (r: Self) {
        Fp31 { v: (31 - self.v) % 31 }
    }

    fn mul(self, rhs: Self) -> (r: Self) {
        proof {
            assert((self.v as int) * (rhs.v as int) <= 30 * 30) by (nonlinear_arith)
                requires self.v < 31, rhs.v < 31;
        }
        let w: u16 = (self.v as u16) * (rhs.v as u16);
        Fp31 { v: (w % 31) as u8 }
    }

    fn invert(self) -> (r: Self) {
        let i: u8 = match self.v {
            1 => 1,
            2 => 16,
            3 => 21,
            4 => 8,
            5 => 25,
            6 => 26,
            7 => 9,
            8 => 4,
            9 => 7,
            10 => 28,
            11 => 17,
            12 => 13,
            13 => 12,
            14 => 20,
            15 => 29,
            16 => 2,
            17 => 11,
            18 => 19,
            19 => 18,
            20 => 14,
            21 => 3,
            22 => 24,
            23 => 27,
            24 => 22,
            25 => 5,
            26 => 6,
            27 => 23,
            28 => 10,
            29 => 15,
            30 => 30,
            _ => 1,
        };
        Fp31 { v: i }
    }

    fn from_u128(x: u128) -> (r: Self) {
        Fp31 { v: (x % 31) as u8 }
    }

    fn size() -> (r: usize) {
        1
    }

    fn to_bytes(&self) -> (r: Vec<u8>) {
        let mut out: Vec<u8> = Vec::new();
        out.push(self.v);
        proof {
            assert(nat_to_le_bytes(self.value() / 256, 0) == Seq::<u8>::empty());
            assert(self.value() % 256 == self.v as nat);
            assert(nat_to_le_bytes(self.value(), 1) =~= seq![self.v]);
            assert(out@ =~= seq![self.v]);
            assert(out@.skip(1) =~= Seq::<u8>::empty());
            assert(le_nat(Seq::<u8>::empty()) == 0);
            assert(le_nat(out@) == self.v as nat);
        }
        out
    }

    fn from_bytes(buf: &[u8]) -> (r: Self) {
        let b: u8 = buf[0];
        proof {
            assert(buf@.skip(1) =~= Seq::<u8>::empty());
            assert(le_nat(Seq::<u8>::empty()) == 0);
            assert(le_nat(buf@) == b as nat);
        }
        Fp31 { v: b % 31 }
    }
}

} // verus!
