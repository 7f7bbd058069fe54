//! The row types that flow through the attribution protocols, and the
//! byte layout of the aggregated output row: for a breakdown key of `B`
//! bits and a share encoding of `S` bytes, a row is `(B + 1) * S` bytes,
//! the `B` share-sized breakdown-key blocks followed by the credit.

use vstd::prelude::*;

use crate::field::Field;
use crate::gateway::Message;
use crate::malicious::{MaliciousReplicated, UnauthorizedDowngradeWrapper};
use crate::replicated::Replicated;

verus! {

/// An XOR sharing of a short bit array: each party holds two of three
/// masks whose bitwise XOR is the plaintext.
#[derive(Clone, Copy, PartialEq, Eq, Structural, Debug)]
pub struct XorShare {
    pub left: u64,
    pub right: u64,
}

impl XorShare {
    pub fn new(left: u64, right: u64) -> (r: Self)
        ensures
            r.left == left,
            r.right == right,
    {
        XorShare { left, right }
    }

    /// Addition in GF(2): coordinate-wise XOR.
    pub fn add(&self, rhs: &Self) -> (r: Self)
        ensures
            r.left == self.left ^ rhs.left,
            r.right == self.right ^ rhs.right,
    {
        XorShare { left: self.left ^ rhs.left, right: self.right ^ rhs.right }
    }
}

/// Input row of the attribution-window protocol, over plain shares.
pub struct ApplyAttributionWindowInputRow<F: Field> {
    pub timestamp: Replicated<F>,
    pub is_trigger_report: Replicated<F>,
    pub helper_bit: Replicated<F>,
    pub breakdown_key: XorShare,
    pub trigger_value: Replicated<F>,
}

/// Input row of the attribution-window protocol, after modulus
/// conversion: the breakdown key is bit-decomposed into shares of `T`.
pub struct MCApplyAttributionWindowInputRow<T> {
    pub timestamp: T,
    pub is_trigger_report: T,
    pub helper_bit: T,
    pub breakdown_key: Vec<T>,
    pub trigger_value: T,
}

impl<T> MCApplyAttributionWindowInputRow<T> {
    pub fn new(
        timestamp: T,
        is_trigger_report: T,
        helper_bit: T,
        breakdown_key: Vec<T>,
        trigger_value: T,
    ) -> (r: Self)
        ensures
            r.timestamp == timestamp,
            r.is_trigger_report == is_trigger_report,
            r.helper_bit == helper_bit,
            r.breakdown_key == breakdown_key,
            r.trigger_value == trigger_value,
    {
        Self { timestamp, is_trigger_report, helper_bit, breakdown_key, trigger_value }
    }
}

/// Input row of the credit-accumulation protocol, over plain shares.
pub struct AccumulateCreditInputRow<F: Field> {
    pub is_trigger_report: Replicated<F>,
    pub helper_bit: Replicated<F>,
    pub breakdown_key: XorShare,
    pub trigger_value: Replicated<F>,
}

/// Input row of the credit-accumulation protocol, after modulus
/// conversion.
pub struct MCAccumulateCreditInputRow<T> {
    pub is_trigger_report: T,
    pub helper_bit: T,
    pub breakdown_key: Vec<T>,
    pub trigger_value: T,
}

impl<T> MCAccumulateCreditInputRow<T> {
    pub fn new(is_trigger_report: T, helper_bit: T, breakdown_key: Vec<T>, trigger_value: T) -> (r:
        Self)
        ensures
            r.is_trigger_report == is_trigger_report,
            r.helper_bit == helper_bit,
            r.breakdown_key == breakdown_key,
            r.trigger_value == trigger_value,
    {
        Self { is_trigger_report, helper_bit, breakdown_key, trigger_value }
    }
}

/// Output row of the credit-capping protocol.
pub struct MCCreditCappingOutputRow<T> {
    pub breakdown_key: Vec<T>,
    pub credit: T,
}

impl<T> MCCreditCappingOutputRow<T> {
    pub fn new(breakdown_key: Vec<T>, credit: T) -> (r: Self)
        ensures
            r.breakdown_key == breakdown_key,
            r.credit == credit,
    {
        Self { breakdown_key, credit }
    }
}

/// Input row of the credit-aggregation protocol, over plain shares.
pub struct AggregateCreditInputRow<F: Field> {
    pub breakdown_key: XorShare,
    pub credit: Replicated<F>,
}

/// Capped credits together with the aggregation bit.
pub struct MCCappedCreditsWithAggregationBit<T> {
    pub helper_bit: T,
    pub aggregation_bit: T,
    pub breakdown_key: Vec<T>,
    pub credit: T,
}

impl<T> MCCappedCreditsWithAggregationBit<T> {
    pub fn new(helper_bit: T, aggregation_bit: T, breakdown_key: Vec<T>, credit: T) -> (r: Self)
        ensures
            r.helper_bit == helper_bit,
            r.aggregation_bit == aggregation_bit,
            r.breakdown_key == breakdown_key,
            r.credit == credit,
    {
        Self { helper_bit, aggregation_bit, breakdown_key, credit }
    }
}

/// The aggregated output row: the bit-decomposed breakdown key and the
/// credit.
pub struct MCAggregateCreditOutputRow<T> {
    pub breakdown_key: Vec<T>,
    pub credit: T,
}

/// The concatenated encodings of a sequence of shares.
pub open spec fn encode_shares<T: Message>(s: Seq<T>) -> Seq<u8>
    decreases s.len(),
{
    if s.len() == 0 {
        Seq::empty()
    } else {
        s[0].encode_spec() + encode_shares(s.skip(1))
    }
}

pub proof fn lemma_encode_shares_len<T: Message>(s: Seq<T>)
    requires
        forall|i: int| 0 <= i < s.len() ==> (#[trigger] s[i]).m_wf(),
    ensures
        encode_shares(s).len() == s.len() * T::size_spec(),
    decreases s.len(),
{
    if s.len() == 0 {
    } else {
        s[0].lemma_encode();
        lemma_encode_shares_len(s.skip(1));
        assert((s.len() - 1) * T::size_spec() + T::size_spec() == s.len() * T::size_spec())
            by (nonlinear_arith);
    }
}

/// The encoding of share `i` stands at offset `i * size`.
pub proof fn lemma_encode_shares_chunk<T: Message>(s: Seq<T>, i: int)
    requires
        forall|k: int| 0 <= k < s.len() ==> (#[trigger] s[k]).m_wf(),
        0 <= i < s.len(),
    ensures
        encode_shares(s).subrange(
            i * T::size_spec(),
            (i + 1) * T::size_spec(),
        ) == s[i].encode_spec(),
    decreases i,
{
    lemma_encode_shares_len(s);
    let w = T::size_spec() as int;
    assert(0 <= i * w && (i + 1) * w <= s.len() * w) by (nonlinear_arith)
        requires 0 <= i < s.len(), w >= 0;
    assert(encode_shares(s) == s[0].encode_spec() + encode_shares(s.skip(1)));
    s[0].lemma_encode();
    lemma_encode_shares_len(s.skip(1));
    let a = s[0].encode_spec();
    let b = encode_shares(s.skip(1));
    assert(a.len() == w);
    assert(b.len() == (s.len() - 1) * w);
    if i == 0 {
        assert(i * w == 0 && (i + 1) * w == w) by (nonlinear_arith)
            requires i == 0;
        assert(encode_shares(s).subrange(0, w) =~= a);
    } else {
        lemma_encode_shares_chunk(s.skip(1), i - 1);
        assert(s.skip(1)[i - 1] == s[i]);
        assert((i - 1) * w == i * w - w) by (nonlinear_arith);
        assert(i * w >= w) by (nonlinear_arith)
            requires i >= 1, w >= 0;
        assert((i + 1) * w <= s.len() * w) by (nonlinear_arith)
            requires i + 1 <= s.len(), w >= 0;
        assert(i * w <= (s.len() - 1) * w) by (nonlinear_arith)
            requires i <= s.len() - 1, w >= 0;
        assert((i + 1) * w == i * w + w && i * w == (i - 1) * w + w) by (nonlinear_arith);
        let lhs = encode_shares(s).subrange(i * w, (i + 1) * w);
        let rhs = b.subrange((i - 1) * w, i * w);
        assert(lhs.len() == w && rhs.len() == w);
        assert forall|j: int| 0 <= j < w implies (#[trigger] lhs[j]) == rhs[j] by {
            assert(lhs[j] == encode_shares(s)[i * w + j]);
            assert(rhs[j] == b[(i - 1) * w + j]);
            assert(encode_shares(s)[i * w + j] == (a + b)[i * w + j]);
            assert((a + b)[i * w + j] == b[i * w + j - a.len()]);
            assert((i - 1) * w + j == i * w + j - w);
        }
        assert(lhs =~= rhs);
    }
}

impl<T: Message> MCAggregateCreditOutputRow<T> {
    pub fn new(breakdown_key: Vec<T>, credit: T) -> (r: Self)
        ensures
            r.breakdown_key == breakdown_key,
            r.credit == credit,
    {
        Self { breakdown_key, credit }
    }

    pub open spec fn row_wf(self) -> bool {
        (forall|i: int| 0 <= i < self.breakdown_key@.len() ==> (
        #[trigger] self.breakdown_key@[i]).m_wf()) && self.credit.m_wf()
    }

    /// The byte layout of this row: the breakdown-key blocks, then the
    /// credit.
    pub open spec fn encode_row(self) -> Seq<u8> {
        encode_shares(self.breakdown_key@) + self.credit.encode_spec()
    }

    /// Writes the row out: `(B + 1) * S` bytes, the breakdown-key blocks
    /// followed by the credit.
    pub fn serialize(&self) -> (r: Vec<u8>)
        requires
            self.row_wf(),
        ensures
            r@ == self.encode_row(),
            r@.len() == (self.breakdown_key@.len() + 1) * T::size_spec(),
    {
        let mut out: Vec<u8> = Vec::new();
        let mut i: usize = 0;
        proof {
            assert(encode_shares(self.breakdown_key@.take(0)) =~= Seq::<u8>::empty());
            assert(out@ =~= encode_shares(self.breakdown_key@.take(0)));
        }
        while i < self.breakdown_key.len()
            invariant
                i <= self.breakdown_key@.len(),
                self.row_wf(),
                out@ == encode_shares(self.breakdown_key@.take(i as int)),
            decreases self.breakdown_key@.len() - i,
        {
            self.breakdown_key[i].write_bytes(&mut out);
            proof {
                lemma_encode_shares_snoc(self.breakdown_key@, i as int);
            }
            i = i + 1;
        }
        proof {
            assert(self.breakdown_key@.take(self.breakdown_key@.len() as int)
                =~= self.breakdown_key@);
        }
        self.credit.write_bytes(&mut out);
        proof {
            lemma_encode_shares_len(self.breakdown_key@);
            self.credit.lemma_encode();
            assert((self.breakdown_key@.len() + 1) * T::size_spec() == self.breakdown_key@.len()
                * T::size_spec() + T::size_spec()) by (nonlinear_arith);
        }
        out
    }

    /// Reads a row of `bk_bits` breakdown-key blocks and a credit from
    /// exactly `(bk_bits + 1) * S` bytes.
    pub fn deserialize(buf: &[u8], bk_bits: usize) -> (r: Self)
        requires
            buf@.len() == (bk_bits + 1) * T::size_spec(),
        ensures
            r.breakdown_key@.len() == bk_bits,
            forall|i: int|
                0 <= i < bk_bits ==> (#[trigger] r.breakdown_key@[i]) == T::decode_spec(
                    buf@.subrange(i * T::size_spec(), (i + 1) * T::size_spec()),
                ),
            r.credit == T::decode_spec(
                buf@.subrange(
                    bk_bits * T::size_spec(),
                    (bk_bits + 1) * T::size_spec(),
                ),
            ),
            r.row_wf(),
    {
        proof {
            T::lemma_size();
        }
        let w = T::size();
        let blen = buf.len();
        proof {
            assert((bk_bits + 1) * (w as int) == blen as int);
        }
        let mut breakdown_key: Vec<T> = Vec::new();
        let mut i: usize = 0;
        while i < bk_bits
            invariant
                i <= bk_bits,
                w as nat == T::size_spec(),
                w >= 1,
                blen as int == (bk_bits + 1) * (w as int),
                buf@.len() == (bk_bits + 1) * T::size_spec(),
                breakdown_key@.len() == i,
                forall|k: int|
                    0 <= k < i ==> (#[trigger] breakdown_key@[k]) == T::decode_spec(
                        buf@.subrange(k * T::size_spec(), (k + 1) * T::size_spec()),
                    ) && breakdown_key@[k].m_wf(),
            decreases bk_bits - i,
        {
            proof {
                assert((i + 1) * (w as int) <= (bk_bits + 1) * (w as int)) by (nonlinear_arith)
                    requires i + 1 <= bk_bits + 1, w >= 1;
                assert(i * (w as int) >= 0) by (nonlinear_arith)
                    requires i >= 0, w >= 1;
                assert((i + 1) * (w as int) == i * (w as int) + w) by (nonlinear_arith);
            }
            let part = T::read_bytes(vstd::slice::slice_subrange(buf, i * w, (i + 1) * w));
            proof {
                T::lemma_decode(buf@.subrange(i as int * T::size_spec(), (i as int + 1)
                    * T::size_spec()));
            }
            breakdown_key.push(part);
            i = i + 1;
        }
        proof {
            assert((bk_bits + 1) * (w as int) == bk_bits * (w as int) + w) by (nonlinear_arith);
            assert(bk_bits * (w as int) >= 0) by (nonlinear_arith)
                requires bk_bits >= 0, w >= 1;
            assert((bk_bits + 1) as int <= blen as int) by (nonlinear_arith)
                requires blen as int == (bk_bits + 1) * (w as int), w >= 1, bk_bits >= 0;
        }
        let credit = T::read_bytes(vstd::slice::slice_subrange(buf, bk_bits * w, (bk_bits + 1) * w));
        proof {
            T::lemma_decode(buf@.subrange(bk_bits as int * T::size_spec(), (bk_bits as int + 1)
                * T::size_spec()));
        }
        Self { breakdown_key, credit }
    }

    /// Splits a byte string into consecutive rows. The input length must
    /// be a whole number of rows.
    pub fn from_byte_slice(from: &[u8], bk_bits: usize) -> (r: Vec<Self>)
        requires
            T::size_spec() * (bk_bits + 1) != 0,
            (from@.len() as int) % ((T::size_spec() * (bk_bits + 1)) as int) == 0,
        ensures
            r@.len() as int == (from@.len() as int) / ((T::size_spec() * (bk_bits + 1)) as int),
            forall|k: int|
                0 <= k < r@.len() ==> {
                    let sz = T::size_spec() * (bk_bits + 1);
                    let chunk = from@.subrange(k * sz, (k + 1) * sz);
                    (#[trigger] r@[k]).breakdown_key@.len() == bk_bits && r@[k].credit
                        == T::decode_spec(
                        chunk.subrange(bk_bits * T::size_spec(), (bk_bits + 1) * T::size_spec()),
                    ) && (forall|i: int|
                        0 <= i < bk_bits ==> (#[trigger] r@[k].breakdown_key@[i])
                            == T::decode_spec(
                            chunk.subrange(i * T::size_spec(), (i + 1) * T::size_spec()),
                        ))
                },
    {
        proof {
            T::lemma_size();
        }
        let w = T::size();
        let row_size: usize = {
            proof {
                assert((bk_bits + 1) * (w as int) == (w as int) * (bk_bits + 1))
                    by (nonlinear_arith);
                assert((w as int) * (bk_bits + 1) <= from@.len() || from@.len() < (w as int) * (
                bk_bits + 1)) by (nonlinear_arith);
            }
            if from.len() == 0 {
                proof {
                    vstd::arithmetic::div_mod::lemma_div_of0((T::size_spec() * (bk_bits as nat
                        + 1)) as int);
                }
                return Vec::new();
            }
            // a nonzero multiple of the row size is at least the row size
            proof {
                lemma_nonzero_multiple_bound(from@.len() as int, (T::size_spec() * (bk_bits as nat
                    + 1)) as int);
                assert((T::size_spec() * (bk_bits + 1)) as int == (w as int) * (bk_bits + 1));
                assert((bk_bits + 1) as int <= (w as int) * (bk_bits + 1)) by (nonlinear_arith)
                    requires w >= 1, bk_bits >= 0;
            }
            w * (bk_bits + 1)
        };
        let flen = from.len();
        let count: usize = flen / row_size;
        let mut out: Vec<Self> = Vec::new();
        let mut k: usize = 0;
        proof {
            vstd::arithmetic::div_mod::lemma_fundamental_div_mod(
                from@.len() as int,
                row_size as int,
            );
        }
        while k < count
            invariant
                k <= count,
                w as nat == T::size_spec(),
                w >= 1,
                row_size as nat == T::size_spec() * (bk_bits + 1),
                row_size >= 1,
                count as int == (from@.len() as int) / (row_size as int),
                flen == from@.len(),
                from@.len() == count * row_size,
                out@.len() == k,
                forall|kk: int|
                    0 <= kk < k ==> {
                        let sz = T::size_spec() * (bk_bits + 1);
                        let chunk = from@.subrange(kk * sz, (kk + 1) * sz);
                        (#[trigger] out@[kk]).breakdown_key@.len() == bk_bits && out@[kk].credit
                            == T::decode_spec(
                            chunk.subrange(
                                bk_bits * T::size_spec(),
                                (bk_bits + 1) * T::size_spec(),
                            ),
                        ) && (forall|i: int|
                            0 <= i < bk_bits ==> (#[trigger] out@[kk].breakdown_key@[i])
                                == T::decode_spec(
                                chunk.subrange(i * T::size_spec(), (i + 1) * T::size_spec()),
                            ))
                    },
            decreases count - k,
        {
            proof {
                assert((k + 1) * (row_size as int) <= count * (row_size as int))
                    by (nonlinear_arith)
                    requires k + 1 <= count, row_size >= 1;
                assert(k * (row_size as int) >= 0) by (nonlinear_arith)
                    requires k >= 0, row_size >= 1;
                assert((k + 1) * (row_size as int) == k * (row_size as int) + row_size)
                    by (nonlinear_arith);
                assert((bk_bits + 1) * (w as int) == row_size) by (nonlinear_arith)
                    requires row_size as nat == T::size_spec() * (bk_bits + 1), w as nat
                        == T::size_spec();
            }
            let chunk = vstd::slice::slice_subrange(from, k * row_size, (k + 1) * row_size);
            let row = Self::deserialize(chunk, bk_bits);
            out.push(row);
            k = k + 1;
        }
        out
    }
}

/// Serializing a row and reading it back gives the row itself: a `back`
/// row whose fields decode the chunks of `row`'s byte layout, as
/// `deserialize` ensures of its result, equals `row`.
pub proof fn lemma_row_codec_round_trip<T: Message>(
    row: MCAggregateCreditOutputRow<T>,
    back: MCAggregateCreditOutputRow<T>,
)
    requires
        row.row_wf(),
        back.breakdown_key@.len() == row.breakdown_key@.len(),
        forall|i: int|
            0 <= i < back.breakdown_key@.len() ==> (#[trigger] back.breakdown_key@[i])
                == T::decode_spec(
                row.encode_row().subrange(i * T::size_spec(), (i + 1) * T::size_spec()),
            ),
        back.credit == T::decode_spec(
            row.encode_row().subrange(
                (row.breakdown_key@.len() * T::size_spec()) as int,
                ((row.breakdown_key@.len() + 1) * T::size_spec()) as int,
            ),
        ),
    ensures
        back.breakdown_key@ == row.breakdown_key@,
        back.credit == row.credit,
{
    let bk = row.breakdown_key@;
    let n = bk.len() as int;
    let w = T::size_spec() as int;
    let body = encode_shares(bk);
    let tail = row.credit.encode_spec();
    lemma_encode_shares_len(bk);
    row.credit.lemma_encode();
    assert(row.encode_row() == body + tail);
    assert forall|i: int| 0 <= i < n implies (#[trigger] back.breakdown_key@[i]) == bk[i] by {
        lemma_encode_shares_chunk(bk, i);
        assert((i + 1) * w <= n * w) by (nonlinear_arith)
            requires i + 1 <= n, w >= 0;
        assert(i * w >= 0) by (nonlinear_arith)
            requires i >= 0, w >= 0;
        assert((i + 1) * w == i * w + w) by (nonlinear_arith);
        assert forall|j: int|
            i * w <= j < (i + 1) * w implies (#[trigger] row.encode_row()[j]) == body[j] by {
            assert((body + tail)[j] == body[j]);
        }
        assert(row.encode_row().subrange(i * w, (i + 1) * w) =~= body.subrange(i * w, (i + 1)
            * w));
        bk[i].lemma_encode();
    }
    assert(back.breakdown_key@ =~= bk);
    assert((n + 1) * w == n * w + w) by (nonlinear_arith);
    assert(n * w >= 0) by (nonlinear_arith)
        requires n >= 0, w >= 0;
    assert(row.encode_row().subrange(n * w, (n + 1) * w) =~= tail);
}

/// A nonzero multiple of `d` is at least `d`.
proof fn lemma_nonzero_multiple_bound(x: int, d: int)
    requires
        d >= 1,
        x % d == 0,
        x >= 1,
    ensures
        x >= d,
        x / d >= 1,
{
    vstd::arithmetic::div_mod::lemma_fundamental_div_mod(x, d);
    assert(x == d * (x / d));
    assert(x / d >= 1) by (nonlinear_arith)
        requires x == d * (x / d), d >= 1, x >= 1;
    assert(d * (x / d) >= d) by (nonlinear_arith)
        requires x / d >= 1, d >= 1;
}

/// Appending one share's encoding extends the encoded prefix.
proof fn lemma_encode_shares_snoc<T: Message>(s: Seq<T>, i: int)
    requires
        forall|k: int| 0 <= k < s.len() ==> (#[trigger] s[k]).m_wf(),
        0 <= i < s.len(),
    ensures
        encode_shares(s.take(i + 1)) == encode_shares(s.take(i)) + s[i].encode_spec(),
    decreases i,
{
    if i == 0 {
        assert(s.take(1) =~= seq![s[0]]);
        assert(s.take(1)[0] == s[0]);
        assert(s.take(1).skip(1) =~= Seq::<T>::empty());
        assert(encode_shares(s.take(0)) =~= Seq::<u8>::empty());
        assert(encode_shares(s.take(1)) == s.take(1)[0].encode_spec() + encode_shares(
            s.take(1).skip(1),
        ));
        assert(s[0].encode_spec() + Seq::<u8>::empty() =~= s[0].encode_spec());
        assert(encode_shares(s.take(0)) + s[0].encode_spec() =~= s[0].encode_spec());
    } else {
        lemma_encode_shares_snoc(s.skip(1), i - 1);
        assert(s.take(i + 1)[0] == s[0]);
        assert(s.take(i + 1).skip(1) =~= s.skip(1).take(i));
        assert(s.take(i)[0] == s[0]);
        assert(s.take(i).skip(1) =~= s.skip(1).take(i - 1));
        assert(s.skip(1)[i - 1] == s[i]);
        assert(encode_shares(s.take(i + 1)) == s[0].encode_spec() + encode_shares(
            s.skip(1).take(i),
        ));
        assert(encode_shares(s.take(i)) == s[0].encode_spec() + encode_shares(
            s.skip(1).take(i - 1),
        ));
        assert(s[0].encode_spec() + (encode_shares(s.skip(1).take(i - 1)) + s[i].encode_spec())
            =~= (s[0].encode_spec() + encode_shares(s.skip(1).take(i - 1))) + s[i].encode_spec());
    }
}

impl<F: Field> MCCappedCreditsWithAggregationBit<MaliciousReplicated<F>> {
    /// Strips the authentication companions off every share of this row.
    /// Only authorized downgrade sites may open the result.
    pub fn downgrade(self) -> (r: UnauthorizedDowngradeWrapper<
        MCCappedCreditsWithAggregationBit<Replicated<F>>,
    >)
        ensures
            ({
                let inner = r.spec_inner();
                &&& inner.helper_bit == self.helper_bit.spec_x()
                &&& inner.aggregation_bit == self.aggregation_bit.spec_x()
                &&& inner.credit == self.credit.spec_x()
                &&& inner.breakdown_key@.len() == self.breakdown_key@.len()
                &&& forall|i: int|
                    0 <= i < inner.breakdown_key@.len() ==> (#[trigger] inner.breakdown_key@[i])
                        == self.breakdown_key@[i].spec_x()
            }),
    {
        let mut breakdown_key: Vec<Replicated<F>> = Vec::new();
        let mut i: usize = 0;
        while i < self.breakdown_key.len()
            invariant
                i <= self.breakdown_key@.len(),
                breakdown_key@.len() == i,
                forall|k: int|
                    0 <= k < i ==> (#[trigger] breakdown_key@[k])
                        == self.breakdown_key@[k].spec_x(),
            decreases self.breakdown_key@.len() - i,
        {
            breakdown_key.push(self.breakdown_key[i].x().access_without_downgrade());
            i = i + 1;
        }
        UnauthorizedDowngradeWrapper::new(
            MCCappedCreditsWithAggregationBit::new(
                self.helper_bit.x().access_without_downgrade(),
                self.aggregation_bit.x().access_without_downgrade(),
                breakdown_key,
                self.credit.x().access_without_downgrade(),
            ),
        )
    }
}

impl<F: Field> MCAggregateCreditOutputRow<MaliciousReplicated<F>> {
    /// Strips the authentication companions off every share of this row.
    /// Only authorized downgrade sites may open the result.
    pub fn downgrade(self) -> (r: UnauthorizedDowngradeWrapper<
        MCAggregateCreditOutputRow<Replicated<F>>,
    >)
        ensures
            ({
                let inner = r.spec_inner();
                &&& inner.credit == self.credit.spec_x()
                &&& inner.breakdown_key@.len() == self.breakdown_key@.len()
                &&& forall|i: int|
                    0 <= i < inner.breakdown_key@.len() ==> (#[trigger] inner.breakdown_key@[i])
                        == self.breakdown_key@[i].spec_x()
            }),
    {
        let mut breakdown_key: Vec<Replicated<F>> = Vec::new();
        let mut i: usize = 0;
        while i < self.breakdown_key.len()
            invariant
                i <= self.breakdown_key@.len(),
                breakdown_key@.len() == i,
                forall|k: int|
                    0 <= k < i ==> (#[trigger] breakdown_key@[k])
                        == self.breakdown_key@[k].spec_x(),
            decreases self.breakdown_key@.len() - i,
        {
            breakdown_key.push(self.breakdown_key[i].x().access_without_downgrade());
            i = i + 1;
        }
        UnauthorizedDowngradeWrapper::new(
            MCAggregateCreditOutputRow { breakdown_key, credit: self.credit.x().access_without_downgrade() },
        )
    }
}

/// The child steps a row is reshared under: every field of a resharable
/// row travels in its own narrowed cryptographic domain.
#[derive(Clone, Copy, PartialEq, Eq, Structural, Debug, Hash)]
pub enum AttributionResharableStep {
    IsTriggerReport,
    HelperBit,
    BreakdownKey,
    TriggerValue,
    AggregationBit,
}

impl AttributionResharableStep {
    pub open spec fn spec_name(self) -> Seq<char> {
        match self {
            AttributionResharableStep::IsTriggerReport => "is_trigger_report"@,
            AttributionResharableStep::HelperBit => "helper_bit"@,
            AttributionResharableStep::BreakdownKey => "breakdown_key"@,
            AttributionResharableStep::TriggerValue => "trigger_value"@,
            AttributionResharableStep::AggregationBit => "aggregation_bit"@,
        }
    }

    /// The step name this variant narrows under.
    pub fn as_ref(&self) -> (r: &'static str)
        ensures
            r@ == self.spec_name(),
    {
        match self {
            AttributionResharableStep::IsTriggerReport => "is_trigger_report",
            AttributionResharableStep::HelperBit => "helper_bit",
            AttributionResharableStep::BreakdownKey => "breakdown_key",
            AttributionResharableStep::TriggerValue => "trigger_value",
            AttributionResharableStep::AggregationBit => "aggregation_bit",
        }
    }
}

} // verus!
