use poc_prover::data::{hash_limbs, hash_to_field, record_to_field, records_to_field, Record};
use poc_prover::error::Error;
use poc_prover::field::FieldElement;

const VITALIK: &str = "0xd8da6bf26964af9d7eed9e03e53415d37aa96045";

fn row(address: &str, amount: &str) -> Record {
    Record { address: address.to_string(), amount: amount.to_string() }
}

#[test]
fn digest_limbs_read_the_digest_as_one_big_endian_integer() {
    let mut h = [0u8; 32];
    for (i, b) in h.iter_mut().enumerate() {
        *b = i as u8;
    }
    assert_eq!(
        hash_limbs(&h),
        [0x18191a1b1c1d1e1f, 0x1011121314151617, 0x08090a0b0c0d0e0f, 0x0001020304050607]
    );
    let mut one = [0u8; 32];
    one[31] = 1;
    assert_eq!(hash_limbs(&one), [1, 0, 0, 0]);
    one[31] = 0;
    one[0] = 0x80;
    assert_eq!(hash_limbs(&one), [0, 0, 0, 0x8000000000000000]);
}

#[test]
fn digest_below_the_field_order_is_kept() {
    let mut h = [0u8; 32];
    for (i, b) in h.iter_mut().enumerate() {
        *b = i as u8;
    }
    assert_eq!(hash_to_field(&h).limbs(), hash_limbs(&h));
    assert_eq!(hash_to_field(&[0u8; 32]), FieldElement::zero());
}

#[test]
fn digest_above_the_field_order_is_reduced() {
    assert_eq!(
        hash_to_field(&[0xffu8; 32]).limbs(),
        [0xac96341c4ffffffa, 0x36fc76959f60cd29, 0x666ea36f7879462e, 0x0e0a77c19a07df2f]
    );
    let mut h = [0u8; 32];
    for (i, b) in h.iter_mut().enumerate() {
        *b = 0xe0 + i as u8;
    }
    assert_eq!(
        hash_to_field(&h).limbs(),
        [0xe97224ac3cfdfefb, 0x502251d20e1034b2, 0x07a8d411e6e88d7b, 0x1f50a918601f6641]
    );
}

#[test]
fn record_is_the_reduced_digest_of_its_encoding() {
    let e = record_to_field("0x1111111111111111111111111111111111111111", "1000").unwrap();
    assert_eq!(
        e.limbs(),
        [0xd515221f974ec092, 0x91ecd0559e74e031, 0x668ca85addaa97a2, 0x090dd2a8cffd60c4]
    );
    let e = record_to_field(VITALIK, "123456789").unwrap();
    assert_eq!(
        e.limbs(),
        [0x044161118194caea, 0x3924c6dee8ac0583, 0x308721b5e66cfabd, 0x28c1c8c27f170edb]
    );
    let zero = record_to_field("0000000000000000000000000000000000000000", "0").unwrap();
    assert_eq!(
        zero.limbs(),
        [0x74b26929c7ba5fb2, 0xb29b2bb845ddeefe, 0x1993d420ba93e87e, 0x1c053d5dd362f350]
    );
}

#[test]
fn amount_may_fill_all_256_bits_and_no_more() {
    let max = "115792089237316195423570985008687907853269984665640564039457584007913129639935";
    let e = record_to_field(VITALIK, max).unwrap();
    assert_eq!(
        e.limbs(),
        [0xf3332f198488a85f, 0x5a32eeb7b6fce2c5, 0xcb50b00cff5a2080, 0x130b8f437a228e03]
    );
    let over = "115792089237316195423570985008687907853269984665640564039457584007913129639936";
    assert_eq!(record_to_field(VITALIK, over).err(), Some(Error::Parse));
}

#[test]
fn amount_is_read_as_a_decimal_numeral() {
    let a = record_to_field(VITALIK, "123456789").unwrap();
    assert_eq!(record_to_field(VITALIK, "000123456789").unwrap(), a);
    assert_eq!(record_to_field(VITALIK, "").unwrap(), record_to_field(VITALIK, "0").unwrap());
    for bad in ["12a", "-1", "1.5", " 12", "0x10", "1e3", "１２"] {
        assert_eq!(record_to_field(VITALIK, bad).err(), Some(Error::Parse));
    }
}

#[test]
fn malformed_address_is_a_parse_error() {
    for bad in ["", "0x", "0x1234", "zz11111111111111111111111111111111111111", "0xd8da6bf26964af9d7eed9e03e53415d37aa9604500"] {
        assert_eq!(record_to_field(bad, "1").err(), Some(Error::Parse));
    }
    assert_eq!(
        record_to_field(&VITALIK[2..], "7").unwrap(),
        record_to_field(VITALIK, "7").unwrap()
    );
}

#[test]
fn rows_keep_their_order() {
    let rows = vec![row(VITALIK, "123456789"), row("0x1111111111111111111111111111111111111111", "1000")];
    let v = records_to_field(&rows).unwrap();
    assert_eq!(v.len(), 2);
    assert_eq!(v[0], record_to_field(VITALIK, "123456789").unwrap());
    assert_eq!(v[1].limbs()[0], 0xd515221f974ec092);
    let swapped = vec![row("0x1111111111111111111111111111111111111111", "1000"), row(VITALIK, "123456789")];
    let s = records_to_field(&swapped).unwrap();
    assert_eq!(s[0], v[1]);
    assert_eq!(s[1], v[0]);
    assert_eq!(records_to_field(&vec![]).unwrap(), vec![]);
}

#[test]
fn one_malformed_row_fails_the_whole_batch() {
    let rows = vec![row(VITALIK, "1"), row(VITALIK, "x"), row(VITALIK, "3")];
    assert_eq!(records_to_field(&rows).err(), Some(Error::Parse));
}
