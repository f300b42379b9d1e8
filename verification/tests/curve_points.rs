use poc_prover::curve::{G1Point, G2Point};
use poc_prover::field::FieldElement;

#[test]
fn generator_coordinates_are_accepted() {
    let g = G1Point::generator();
    assert_eq!(g.x(), [1, 0, 0, 0]);
    assert_eq!(g.y(), [2, 0, 0, 0]);
    assert!(!g.is_infinity());
    assert_eq!(G1Point::new([1, 0, 0, 0], [2, 0, 0, 0], false), Some(g));
    assert_eq!(G1Point::new([1, 0, 0, 0], [3, 0, 0, 0], false), None);
}

#[test]
fn g2_generator_round_trips_through_its_coordinates() {
    let g = G2Point::generator();
    let (x0, x1) = g.x();
    let (y0, y1) = g.y();
    assert_eq!(G2Point::new(x0, x1, y0, y1, false), Some(g));
    assert_eq!(G2Point::new(x0, x1, y0, x1, false), None);
}

#[test]
fn subtracting_a_point_from_itself_gives_infinity() {
    let g = G1Point::generator();
    let two = g.mul(&FieldElement::from_u64(2));
    let o = two.sub(&two);
    assert!(o.is_infinity());
    assert_eq!(G1Point::new([0; 4], [0; 4], true), Some(o));
    let h = G2Point::generator().mul(&FieldElement::from_u64(5));
    assert!(h.sub(&h).is_infinity());
}

#[test]
fn addition_and_scalar_multiplication_agree() {
    let g = G1Point::generator();
    let two = g.mul(&FieldElement::from_u64(2));
    let three = g.mul(&FieldElement::from_u64(3));
    assert_eq!(g.add(&g), two);
    assert_eq!(two.add(&g), three);
    assert_eq!(three.sub(&g), two);
    assert_ne!(three.sub(&g), three);
    assert_ne!(g.mul(&FieldElement::from_u64(3)), g);
    assert!(g.equals(&G1Point::generator()));
    assert!(!g.equals(&two));
    let o = g.sub(&g);
    assert_eq!(g.add(&o), g);
    assert_eq!(g.mul(&FieldElement::zero()), o);
}

#[test]
fn second_group_differences_and_multiples_agree() {
    let h = G2Point::generator();
    let five = h.mul(&FieldElement::from_u64(5));
    let three = h.mul(&FieldElement::from_u64(3));
    let two = h.mul(&FieldElement::from_u64(2));
    assert_eq!(five.sub(&three), two);
    assert_ne!(five.sub(&three), five);
    assert_ne!(h.mul(&FieldElement::from_u64(5)), h);
    assert!(h.equals(&G2Point::generator()));
    assert!(!h.equals(&two));
}

#[test]
fn points_off_the_curve_or_unreduced_are_refused() {
    let q = [0x3c208c16d87cfd47u64, 0x97816a916871ca8d, 0xb85045b68181585d, 0x30644e72e131a029];
    assert_eq!(G1Point::new(q, [2, 0, 0, 0], false), None);
    assert_eq!(G1Point::new([1, 0, 0, 0], q, false), None);
    assert_eq!(G1Point::new([1, 0, 0, 0], [2, 0, 0, 0], true), None);
    assert_eq!(G1Point::new([0; 4], [0; 4], false), None);
    let minus_two = [q[0] - 2, q[1], q[2], q[3]];
    let neg = G1Point::new([1, 0, 0, 0], minus_two, false).unwrap();
    assert!(neg.add(&G1Point::generator()).is_infinity());
    assert_eq!(G2Point::new([0; 4], [0; 4], [0; 4], [0; 4], true).map(|p| p.is_infinity()), Some(true));
    assert_eq!(G2Point::new([1, 0, 0, 0], [0; 4], [2, 0, 0, 0], [0; 4], false), None);
    assert_eq!(G2Point::new(q, [0; 4], [0; 4], [0; 4], false), None);
}
