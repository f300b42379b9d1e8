use poc_prover::field::{limbs_equal, limbs_less, limbs_zero, scalar_modulus_limbs, FieldElement};

#[test]
fn modulus_limbs_are_the_field_order() {
    assert_eq!(
        scalar_modulus_limbs(),
        [0x43e1f593f0000001, 0x2833e84879b97091, 0xb85045b68181585d, 0x30644e72e131a029]
    );
}

#[test]
fn from_limbs_accepts_exactly_the_reduced_values() {
    let m = scalar_modulus_limbs();
    assert_eq!(FieldElement::from_limbs(m), None);
    let below = [m[0] - 1, m[1], m[2], m[3]];
    assert_eq!(FieldElement::from_limbs(below).unwrap().limbs(), below);
    let above = [m[0] + 1, m[1], m[2], m[3]];
    assert_eq!(FieldElement::from_limbs(above), None);
    assert_eq!(FieldElement::from_limbs([u64::MAX; 4]), None);
    assert_eq!(FieldElement::from_limbs([u64::MAX, u64::MAX, u64::MAX, 0]).unwrap().limbs()[3], 0);
    assert_eq!(FieldElement::from_limbs([7, 0, 0, 0]), Some(FieldElement::from_u64(7)));
}

#[test]
fn limb_order_goes_by_the_top_limb_first() {
    assert!(limbs_less(&[9, 9, 9, 1], &[0, 0, 0, 2]));
    assert!(!limbs_less(&[0, 0, 0, 2], &[9, 9, 9, 1]));
    assert!(limbs_less(&[9, 9, 1, 5], &[0, 0, 2, 5]));
    assert!(limbs_less(&[9, 1, 3, 5], &[0, 2, 3, 5]));
    assert!(limbs_less(&[1, 2, 3, 5], &[2, 2, 3, 5]));
    assert!(!limbs_less(&[1, 2, 3, 5], &[1, 2, 3, 5]));
    assert!(limbs_equal(&[1, 2, 3, 5], &[1, 2, 3, 5]));
    assert!(!limbs_equal(&[1, 2, 3, 5], &[1, 2, 4, 5]));
    assert!(limbs_zero(&[0; 4]));
    assert!(!limbs_zero(&[0, 0, 1, 0]));
}

#[test]
fn power_is_repeated_multiplication() {
    let three = FieldElement::from_u64(3);
    assert_eq!(three.pow(0), FieldElement::from_u64(1));
    assert_eq!(three.pow(1), three);
    assert_eq!(three.pow(4), FieldElement::from_u64(81));
    assert_eq!(FieldElement::from_u64(2).pow(64).limbs(), [0, 1, 0, 0]);
    assert_eq!(FieldElement::zero().pow(0), FieldElement::one());
    assert_eq!(FieldElement::zero().pow(5), FieldElement::zero());
}

#[test]
fn subtraction_wraps_below_zero() {
    let five = FieldElement::from_u64(5);
    let seven = FieldElement::from_u64(7);
    assert_eq!(seven.sub(&five), FieldElement::from_u64(2));
    assert_eq!(five.sub(&five), FieldElement::zero());
    let m = scalar_modulus_limbs();
    assert_eq!(five.sub(&seven).limbs(), [m[0] - 2, m[1], m[2], m[3]]);
    assert!(five.equals(&FieldElement::from_u64(5)));
    assert!(!five.equals(&seven));
    assert!(five.sub(&five).is_zero());
}
