//! Little-endian byte encodings of unbounded naturals, together with the
//! lemmas that relate encoding, decoding and concatenation. Field elements
//! and message payloads are all laid out with these functions.

use vstd::prelude::*;

verus! {

/// 256 raised to `n`: the number of distinct `n`-byte strings.
pub open spec fn pow256(n: nat) -> nat
    decreases n,
{
    if n == 0 {
        1
    } else {
        256 * pow256((n - 1) as nat)
    }
}

/// The natural number denoted by a little-endian byte string.
pub open spec fn le_nat(s: Seq<u8>) -> nat
    decreases s.len(),
{
    if s.len() == 0 {
        0
    } else {
        s[0] as nat + 256 * le_nat(s.skip(1))
    }
}

/// The `len`-byte little-endian encoding of `n % pow256(len)`.
pub open spec fn nat_to_le_bytes(n: nat, len: nat) -> Seq<u8>
    decreases len,
{
    if len == 0 {
        Seq::empty()
    } else {
        seq![(n % 256) as u8] + nat_to_le_bytes(n / 256, (len - 1) as nat)
    }
}

pub proof fn lemma_pow256_pos(n: nat)
    ensures
        pow256(n) >= 1,
    decreases n,
{
    if n > 0 {
        lemma_pow256_pos((n - 1) as nat);
    }
}

pub proof fn lemma_pow256_add(a: nat, b: nat)
    ensures
        pow256(a + b) == pow256(a) * pow256(b),
    decreases a,
{
    if a == 0 {
        assert(pow256(0) == 1);
    } else {
        lemma_pow256_add((a - 1) as nat, b);
        assert(pow256(a + b) == 256 * pow256((a + b - 1) as nat));
        assert(pow256(a) == 256 * pow256((a - 1) as nat));
        assert(256 * (pow256((a - 1) as nat) * pow256(b)) == (256 * pow256((a - 1) as nat))
            * pow256(b)) by (nonlinear_arith);
    }
}

pub proof fn lemma_le_nat_bound(s: Seq<u8>)
    ensures
        le_nat(s) < pow256(s.len()),
    decreases s.len(),
{
    if s.len() > 0 {
        lemma_le_nat_bound(s.skip(1));
        assert(s[0] as nat <= 255);
        assert(256 * le_nat(s.skip(1)) <= 256 * (pow256((s.len() - 1) as nat) - 1))
            by (nonlinear_arith)
            requires le_nat(s.skip(1)) <= pow256((s.len() - 1) as nat) - 1;
    }
}

pub proof fn lemma_le_nat_append(a: Seq<u8>, b: Seq<u8>)
    ensures
        le_nat(a + b) == le_nat(a) + pow256(a.len()) * le_nat(b),
    decreases a.len(),
{
    if a.len() == 0 {
        assert(a + b =~= b);
        assert(pow256(0) == 1);
    } else {
        lemma_le_nat_append(a.skip(1), b);
        assert((a + b).skip(1) =~= a.skip(1) + b);
        assert(le_nat(a) == a[0] as nat + 256 * le_nat(a.skip(1)));
        assert(pow256(a.len()) == 256 * pow256((a.len() - 1) as nat));
        assert(le_nat(a + b) == a[0] as nat + 256 * (le_nat(a.skip(1)) + pow256(
            (a.len() - 1) as nat,
        ) * le_nat(b)));
        assert(256 * (le_nat(a.skip(1)) + pow256((a.len() - 1) as nat) * le_nat(b)) == 256 * le_nat(
            a.skip(1),
        ) + (256 * pow256((a.len() - 1) as nat)) * le_nat(b)) by (nonlinear_arith);
    }
}

/// Equal little-endian values of equal width are the same byte string.
pub proof fn lemma_le_nat_injective(a: Seq<u8>, b: Seq<u8>)
    requires
        a.len() == b.len(),
        le_nat(a) == le_nat(b),
    ensures
        a =~= b,
    decreases a.len(),
{
    if a.len() > 0 {
        assert(le_nat(a) % 256 == a[0] as nat) by {
            assert((a[0] as nat + 256 * le_nat(a.skip(1))) % 256 == a[0] as nat)
                by (nonlinear_arith)
                requires a[0] < 256;
        }
        assert(le_nat(b) % 256 == b[0] as nat) by {
            assert((b[0] as nat + 256 * le_nat(b.skip(1))) % 256 == b[0] as nat)
                by (nonlinear_arith)
                requires b[0] < 256;
        }
        assert(le_nat(a) / 256 == le_nat(a.skip(1))) by (nonlinear_arith)
            requires le_nat(a) == a[0] as nat + 256 * le_nat(a.skip(1)), a[0] < 256;
        assert(le_nat(b) / 256 == le_nat(b.skip(1))) by (nonlinear_arith)
            requires le_nat(b) == b[0] as nat + 256 * le_nat(b.skip(1)), b[0] < 256;
        lemma_le_nat_injective(a.skip(1), b.skip(1));
        assert forall|i: int| 0 <= i < a.len() implies a[i] == b[i] by {
            if i > 0 {
                assert(a[i] == a.skip(1)[i - 1]);
                assert(b[i] == b.skip(1)[i - 1]);
            }
        }
    }
}

pub proof fn lemma_nat_to_le_bytes_len(n: nat, len: nat)
    ensures
        nat_to_le_bytes(n, len).len() == len,
    decreases len,
{
    if len > 0 {
        lemma_nat_to_le_bytes_len(n / 256, (len - 1) as nat);
    }
}

/// Decoding an encoding gives the value back, reduced to the width.
pub proof fn lemma_le_nat_of_nat_to_le_bytes(n: nat, len: nat)
    ensures
        le_nat(nat_to_le_bytes(n, len)) == n % pow256(len),
    decreases len,
{
    if len == 0 {
        assert(n % 1 == 0) by (nonlinear_arith);
    } else {
        lemma_le_nat_of_nat_to_le_bytes(n / 256, (len - 1) as nat);
        let s = nat_to_le_bytes(n, len);
        assert(s.skip(1) =~= nat_to_le_bytes(n / 256, (len - 1) as nat));
        assert(le_nat(s) == n % 256 + 256 * ((n / 256) % pow256((len - 1) as nat)));
        lemma_pow256_pos((len - 1) as nat);
        vstd::arithmetic::div_mod::lemma_mod_breakdown(
            n as int,
            256,
            pow256((len - 1) as nat) as int,
        );
        assert(n % (256 * pow256((len - 1) as nat)) == 256 * ((n / 256) % pow256((len - 1) as nat))
            + n % 256);
    }
}

/// An encoding of a value that fits the width decodes to the value itself.
pub proof fn lemma_le_nat_of_nat_to_le_bytes_small(n: nat, len: nat)
    requires
        n < pow256(len),
    ensures
        le_nat(nat_to_le_bytes(n, len)) == n,
{
    lemma_le_nat_of_nat_to_le_bytes(n, len);
    assert(n % pow256(len) == n) by (nonlinear_arith)
        requires n < pow256(len);
}

/// Peeling the most significant byte off an encoding.
pub proof fn lemma_nat_to_le_bytes_snoc(n: nat, len: nat)
    ensures
        nat_to_le_bytes(n, len + 1) =~= nat_to_le_bytes(n, len) + seq![
            ((n / pow256(len)) % 256) as u8,
        ],
    decreases len,
{
    if len == 0 {
        assert(pow256(0) == 1);
        assert(n / 1 == n) by (nonlinear_arith);
        assert(nat_to_le_bytes(n / 256, 0) == Seq::<u8>::empty());
        assert(nat_to_le_bytes(n, 1) =~= seq![(n % 256) as u8]);
    } else {
        lemma_nat_to_le_bytes_snoc(n / 256, (len - 1) as nat);
        lemma_pow256_pos((len - 1) as nat);
        assert((n / 256) / pow256((len - 1) as nat) == n / (256 * pow256((len - 1) as nat)))
            by (nonlinear_arith)
            requires pow256((len - 1) as nat) >= 1;
        assert(pow256(len) == 256 * pow256((len - 1) as nat));
    }
}

/// Appends the `count`-byte little-endian encoding of `x` to `out`.
pub fn push_le_bytes(out: &mut Vec<u8>, x: u128, count: usize)
    ensures
        final(out)@ =~= old(out)@ + nat_to_le_bytes(x as nat, count as nat),
{
    let mut rest: u128 = x;
    let mut j: usize = 0;
    proof {
        assert(pow256(0) == 1);
        assert(out@ =~= old(out)@ + nat_to_le_bytes(x as nat, 0));
    }
    while j < count
        invariant
            j <= count,
            rest as nat == x as nat / pow256(j as nat),
            out@ =~= old(out)@ + nat_to_le_bytes(x as nat, j as nat),
        decreases count - j,
    {
        let b: u8 = (rest % 256) as u8;
        proof {
            lemma_pow256_pos(j as nat);
            lemma_pow256_add(j as nat, 1);
            lemma_nat_to_le_bytes_snoc(x as nat, j as nat);
            assert((x as nat / pow256(j as nat)) % 256 == b as nat);
            assert((x as nat / pow256(j as nat)) / 256 == x as nat / (pow256(j as nat) * 256))
                by (nonlinear_arith)
                requires pow256(j as nat) >= 1;
            assert(pow256(1) == 256 * pow256(0));
            assert(pow256(0) == 1);
            assert(pow256(j as nat + 1) == pow256(j as nat) * (256 * 1));
        }
        out.push(b);
        rest = rest / 256;
        j = j + 1;
    }
}

pub proof fn lemma_pow256_le(a: nat, b: nat)
    requires
        a <= b,
    ensures
        pow256(a) <= pow256(b),
    decreases b,
{
    if a < b {
        lemma_pow256_le(a, (b - 1) as nat);
        lemma_pow256_pos((b - 1) as nat);
    }
}

/// The widths that the fields of this crate use, written out.
pub proof fn lemma_pow256_values()
    ensures
        pow256(1) == 0x100,
        pow256(2) == 0x10000,
        pow256(4) == 0x100000000,
        pow256(8) == 0x10000000000000000,
        pow256(15) == 0x1000000000000000000000000000000,
        pow256(16) == 0x100000000000000000000000000000000,
        pow256(32) == 0x10000000000000000000000000000000000000000000000000000000000000000,
{
    assert(pow256(0) == 1);
    assert(pow256(1) == 0x100);
    assert(pow256(2) == 0x10000);
    lemma_pow256_add(2, 2);
    lemma_pow256_add(4, 4);
    lemma_pow256_add(8, 8);
    lemma_pow256_add(8, 7);
    assert(pow256(7) == 0x100000000000000) by {
        lemma_pow256_add(4, 2);
        assert(pow256(6) == 0x1000000000000);
    }
    lemma_pow256_add(16, 16);
    assert(pow256(32) == pow256(16) * pow256(16));
    assert(0x100000000000000000000000000000000nat * 0x100000000000000000000000000000000nat
        == 0x10000000000000000000000000000000000000000000000000000000000000000nat)
        by (nonlinear_arith);
}

/// Reads `count <= 16` bytes of `buf` starting at `start` as a
/// little-endian natural.
pub fn read_le_bytes(buf: &[u8], start: usize, count: usize) -> (r: u128)
    requires
        start + count <= buf@.len(),
        count <= 16,
    ensures
        r as nat == le_nat(buf@.subrange(start as int, start as int + count as int)),
{
    let blen: usize = buf.len();
    let mut acc: u128 = 0;
    let mut j: usize = count;
    proof {
        assert(buf@.subrange(start as int + count as int, start as int + count as int)
            =~= Seq::empty());
        assert(pow256(0) == 1);
    }
    while j > 0
        invariant
            j <= count,
            count <= 16,
            start + count <= buf@.len(),
            blen == buf@.len(),
            acc as nat == le_nat(
                buf@.subrange(start as int + j as int, start as int + count as int),
            ),
            (acc as nat) < pow256((count - j) as nat),
        decreases j,
    {
        j = j - 1;
        let b: u8 = buf[start + j];
        proof {
            let s = buf@.subrange(start as int + j as int, start as int + count as int);
            assert(s[0] == buf@[start as int + j as int]);
            assert(s.skip(1) =~= buf@.subrange(
                start as int + j as int + 1,
                start as int + count as int,
            ));
            lemma_pow256_le((count - j - 1) as nat, 15);
            lemma_pow256_values();
        }
        acc = (b as u128) + 256 * acc;
    }
    acc
}

} // verus!
