use ipa_core::attribution::{
    AttributionResharableStep, MCAccumulateCreditInputRow, MCAggregateCreditOutputRow,
    MCCappedCreditsWithAggregationBit, XorShare,
};
use ipa_core::field::Field;
use ipa_core::fp31::Fp31;
use ipa_core::gateway::Message;
use ipa_core::malicious::MaliciousReplicated;
use ipa_core::replicated::{share, Replicated};
use rand::Rng;

fn share3(x: Fp31, rng: &mut rand::rngs::ThreadRng) -> [Replicated<Fp31>; 3] {
    let (s0, s1, s2) = share(x, rng);
    [s0, s1, s2]
}

fn assert_same_share(a: &Replicated<Fp31>, b: &Replicated<Fp31>) {
    assert_eq!(a.left(), b.left());
    assert_eq!(a.right(), b.right());
}

#[test]
fn share_codec_round_trip() {
    let mut rng = rand::thread_rng();
    let s = share3(Fp31::from_u128(19), &mut rng)[0];
    let mut out: Vec<u8> = Vec::new();
    s.write_bytes(&mut out);
    assert_eq!(out.len(), 2);
    let back = <Replicated<Fp31>>::read_bytes(out.as_slice());
    assert_same_share(&s, &back);
}

#[test]
fn row_serialize_layout() {
    let mut rng = rand::thread_rng();
    let bk: Vec<Replicated<Fp31>> = (0..3)
        .map(|v| share3(Fp31::from_u128(v as u128), &mut rng)[0])
        .collect();
    let credit = share3(Fp31::from_u128(17), &mut rng)[1];
    let row = MCAggregateCreditOutputRow::new(bk.clone(), credit);
    let bytes = row.serialize();
    // (B + 1) * S bytes: the breakdown-key blocks, then the credit
    assert_eq!(bytes.len(), (3 + 1) * 2);
    for (i, part) in bk.iter().enumerate() {
        let mut one: Vec<u8> = Vec::new();
        part.write_bytes(&mut one);
        assert_eq!(&bytes[i * 2..(i + 1) * 2], one.as_slice());
    }
    let mut last: Vec<u8> = Vec::new();
    credit.write_bytes(&mut last);
    assert_eq!(&bytes[6..8], last.as_slice());
}

#[test]
fn row_codec_round_trip() {
    let mut rng = rand::thread_rng();
    let bk: Vec<Replicated<Fp31>> = (0..4)
        .map(|_| share3(Fp31::from_u128(rng.gen::<u128>()), &mut rng)[0])
        .collect();
    let credit = share3(Fp31::from_u128(5), &mut rng)[2];
    let row = MCAggregateCreditOutputRow::new(bk.clone(), credit);
    let bytes = row.serialize();
    let back = MCAggregateCreditOutputRow::<Replicated<Fp31>>::deserialize(bytes.as_slice(), 4);
    assert_eq!(back.breakdown_key.len(), 4);
    for i in 0..4 {
        assert_same_share(&back.breakdown_key[i], &bk[i]);
    }
    assert_same_share(&back.credit, &credit);
}

#[test]
fn rows_from_byte_slice() {
    let mut rng = rand::thread_rng();
    let mut buffer: Vec<u8> = Vec::new();
    let mut rows: Vec<MCAggregateCreditOutputRow<Replicated<Fp31>>> = Vec::new();
    for v in 0..3u128 {
        let bk: Vec<Replicated<Fp31>> = (0..2)
            .map(|b| share3(Fp31::from_u128(v + b as u128), &mut rng)[0])
            .collect();
        let credit = share3(Fp31::from_u128(v), &mut rng)[0];
        let row = MCAggregateCreditOutputRow::new(bk, credit);
        buffer.extend_from_slice(row.serialize().as_slice());
        rows.push(row);
    }
    let parsed =
        MCAggregateCreditOutputRow::<Replicated<Fp31>>::from_byte_slice(buffer.as_slice(), 2);
    assert_eq!(parsed.len(), 3);
    for (row, original) in parsed.iter().zip(rows.iter()) {
        assert_same_share(&row.credit, &original.credit);
        for (a, b) in row.breakdown_key.iter().zip(original.breakdown_key.iter()) {
            assert_same_share(a, b);
        }
    }
}

#[test]
fn xor_share_adds_bitwise() {
    let a = XorShare::new(0b1011, 0b0110);
    let b = XorShare::new(0b1110, 0b0011);
    let c = a.add(&b);
    assert_eq!(c.left, 0b0101);
    assert_eq!(c.right, 0b0101);
}

#[test]
fn downgrade_strips_companions() {
    let mut rng = rand::thread_rng();
    let x = share3(Fp31::from_u128(3), &mut rng);
    let rx = share3(Fp31::from_u128(12), &mut rng);
    let mk = |i: usize| MaliciousReplicated::new(x[i], rx[i]);
    let row = MCCappedCreditsWithAggregationBit::new(
        mk(0),
        mk(1),
        vec![mk(2), mk(0)],
        mk(1),
    );
    let plain = row.downgrade().access_without_downgrade();
    assert_same_share(&plain.helper_bit, &x[0]);
    assert_same_share(&plain.aggregation_bit, &x[1]);
    assert_same_share(&plain.breakdown_key[0], &x[2]);
    assert_same_share(&plain.breakdown_key[1], &x[0]);
    assert_same_share(&plain.credit, &x[1]);
}

#[test]
fn resharable_step_names() {
    assert_eq!(AttributionResharableStep::IsTriggerReport.as_ref(), "is_trigger_report");
    assert_eq!(AttributionResharableStep::HelperBit.as_ref(), "helper_bit");
    assert_eq!(AttributionResharableStep::BreakdownKey.as_ref(), "breakdown_key");
    assert_eq!(AttributionResharableStep::TriggerValue.as_ref(), "trigger_value");
    assert_eq!(AttributionResharableStep::AggregationBit.as_ref(), "aggregation_bit");
}

#[test]
fn accumulate_row_keeps_fields() {
    let mut rng = rand::thread_rng();
    let s = share3(Fp31::from_u128(1), &mut rng);
    let row = MCAccumulateCreditInputRow::new(s[0], s[1], vec![s[2]], s[0]);
    assert_same_share(&row.is_trigger_report, &s[0]);
    assert_same_share(&row.helper_bit, &s[1]);
    assert_same_share(&row.breakdown_key[0], &s[2]);
    assert_same_share(&row.trigger_value, &s[0]);
}
