use poc_prover::commit::{commit, srs_from_secret, CommitmentScheme};
use poc_prover::curve::{G1Point, G2Point};
use poc_prover::error::Error;
use poc_prover::field::FieldElement;
use poc_prover::poly::{domain_generator, poly, Polynomial};

fn new_srs() -> (Vec<G1Point>, Vec<G2Point>) {
    let x: Vec<u64> = vec![1, 3, 9, 27, 81, 243, 729, 2187];
    let g1 = x
        .iter()
        .map(|x| G1Point::generator().mul(&FieldElement::from_u64(*x)))
        .collect::<Vec<G1Point>>();
    let g2 = vec![
        G2Point::generator(),
        G2Point::generator().mul(&FieldElement::from_u64(x[1])),
    ];
    (g1, g2)
}

fn sample_values() -> Vec<FieldElement> {
    vec![
        FieldElement::from_u64(12u64),
        FieldElement::from_u64(123u64),
        FieldElement::from_u64(1234u64),
        FieldElement::from_u64(12345u64),
        FieldElement::from_u64(123456u64),
        FieldElement::from_u64(1234567u64),
        FieldElement::from_u64(12345678u64),
        FieldElement::from_u64(123456789u64),
    ]
}

fn sample_scheme() -> CommitmentScheme {
    let f = poly(sample_values()).unwrap();
    let w = domain_generator(8).unwrap();
    CommitmentScheme::setup(f, w, new_srs().0, new_srs().1).unwrap()
}

#[test]
fn test_commitment_scheme() {
    let points = sample_values();

    let f = poly(points).unwrap();
    let w = domain_generator(8).unwrap();
    let cs = CommitmentScheme::setup(f, w, new_srs().0, new_srs().1).unwrap();

    let commit = cs.commit();

    for i in 0..8 {
        let (y, proof) = cs.open(i).unwrap();

        assert!(cs.verify(commit, y, proof, i))
    }
}

#[test]
fn opening_returns_the_committed_values() {
    let cs = sample_scheme();
    let values = sample_values();
    for i in 0..8u64 {
        let (y, _) = cs.open(i).unwrap();
        assert_eq!(y, values[i as usize]);
    }
}

#[test]
fn commit_is_repeatable() {
    let cs = sample_scheme();
    let again = sample_scheme();
    assert_eq!(cs.commit(), cs.commit());
    assert_eq!(cs.commit(), again.commit());
}

#[test]
fn commitment_is_the_generator_times_the_value_at_the_secret() {
    let f = poly(sample_values()).unwrap();
    let at_secret = f.evaluate(&FieldElement::from_u64(3));
    let c = commit(&f, &new_srs().0);
    assert_eq!(c, G1Point::generator().mul(&at_secret));
}

#[test]
fn tampered_value_is_rejected() {
    let cs = sample_scheme();
    let c = cs.commit();
    for i in 0..8u64 {
        let (y, proof) = cs.open(i).unwrap();
        let other = y.sub(&FieldElement::from_u64(1));
        assert!(cs.verify(c, y, proof, i));
        assert!(!cs.verify(c, other, proof, i));
        assert!(!cs.verify(c, FieldElement::from_u64(0), proof, i));
    }
}

#[test]
fn proof_for_another_index_is_rejected() {
    let cs = sample_scheme();
    let c = cs.commit();
    for j in 0..8u64 {
        let (y, proof) = cs.open(j).unwrap();
        for i in 0..8u64 {
            assert_eq!(cs.verify(c, y, proof, i), i == j);
        }
    }
}

#[test]
fn index_wraps_around_the_domain() {
    let cs = sample_scheme();
    let c = cs.commit();
    let (y, proof) = cs.open(11).unwrap();
    assert_eq!(y, sample_values()[3]);
    assert!(cs.verify(c, y, proof, 3));
    assert!(cs.verify(c, y, proof, 11));
}

#[test]
fn setup_rejects_a_short_reference_string() {
    let f = poly(sample_values()).unwrap();
    let w = domain_generator(8).unwrap();
    let (mut g1, g2) = new_srs();
    g1.pop();
    assert_eq!(f.len(), 8);
    let r = CommitmentScheme::setup(f, w, g1, g2);
    assert_eq!(r.err(), Some(Error::SetupSize));
}

#[test]
fn setup_rejects_a_long_reference_string() {
    let f = poly(sample_values()).unwrap();
    let w = domain_generator(8).unwrap();
    let (g1, g2) = srs_from_secret(&FieldElement::from_u64(3), 9);
    let r = CommitmentScheme::setup(f, w, g1, g2);
    assert_eq!(r.err(), Some(Error::SetupSize));
}

#[test]
fn setup_rejects_a_malformed_second_group() {
    let w = domain_generator(8).unwrap();
    let (g1, mut g2) = new_srs();
    g2.pop();
    let r = CommitmentScheme::setup(poly(sample_values()).unwrap(), w, g1, g2);
    assert_eq!(r.err(), Some(Error::SetupSize));
    let (g1, mut g2) = new_srs();
    g2.push(G2Point::generator());
    let r = CommitmentScheme::setup(poly(sample_values()).unwrap(), w, g1, g2);
    assert_eq!(r.err(), Some(Error::SetupSize));
}

#[test]
fn flipping_one_value_changes_the_commitment() {
    let (g1, _) = new_srs();
    let base = commit(&poly(sample_values()).unwrap(), &g1);
    for k in 0..8 {
        let mut values = sample_values();
        values[k] = values[k].sub(&FieldElement::from_u64(1));
        let f = poly(values).unwrap();
        if f.len() == 8 {
            assert_ne!(commit(&f, &g1), base);
        }
    }
}

#[test]
fn swapping_two_values_changes_the_commitment() {
    let (g1, _) = new_srs();
    let base = commit(&poly(sample_values()).unwrap(), &g1);
    let mut values = sample_values();
    values.swap(2, 5);
    assert_ne!(commit(&poly(values).unwrap(), &g1), base);
}

#[test]
fn secret_powers_match_the_hand_built_string() {
    let (g1, g2) = srs_from_secret(&FieldElement::from_u64(3), 8);
    assert_eq!(g1, new_srs().0);
    assert_eq!(g2, new_srs().1);
    assert_eq!(g1[0], G1Point::generator());
    let (empty, two) = srs_from_secret(&FieldElement::from_u64(7), 0);
    assert!(empty.is_empty());
    assert_eq!(two.len(), 2);
}

#[test]
fn constant_polynomial_opens_with_the_point_at_infinity() {
    let f = Polynomial::from_coefficients(vec![FieldElement::from_u64(5)]);
    let w = domain_generator(1).unwrap();
    let (g1, g2) = srs_from_secret(&FieldElement::from_u64(3), 1);
    let cs = CommitmentScheme::setup(f, w, g1, g2).unwrap();
    let c = cs.commit();
    let (y, proof) = cs.open(0).unwrap();
    assert_eq!(y, FieldElement::from_u64(5));
    assert!(proof.is_infinity());
    assert!(cs.verify(c, y, proof, 0));
}

#[test]
fn commitment_is_the_sum_of_coefficient_times_power() {
    let (g1, _) = new_srs();
    let f = Polynomial::from_coefficients(vec![
        FieldElement::from_u64(5),
        FieldElement::from_u64(0),
        FieldElement::from_u64(7),
    ]);
    let mut sum = G1Point::generator().sub(&G1Point::generator());
    for (c, g) in f.coeffs().iter().zip(g1.iter()) {
        sum = sum.add(&g.mul(c));
    }
    assert_eq!(commit(&f, &g1), sum);
    // 5 + 7 * 9 = 68
    assert_eq!(commit(&f, &g1), G1Point::generator().mul(&FieldElement::from_u64(68)));
    let copy = f.clone();
    assert_eq!(copy, f);
    assert_eq!(commit(&copy, &g1), sum);
}

#[test]
fn test_generate_mock_srs() {
    let tau = FieldElement::from_u64(0x1234_5678_9abc_def1);
    let (g1, g2) = srs_from_secret(&tau, 100);
    assert_eq!(g1.len(), 100);
    assert_eq!(g2.len(), 2);
    assert_eq!(g1[0], G1Point::generator());
    assert_eq!(g1[1], G1Point::generator().mul(&tau));
    assert_eq!(g1[99], G1Point::generator().mul(&tau.pow(99)));
    assert_eq!(g1[2], g1[1].mul(&tau));
    assert_eq!(g2[0], G2Point::generator());
    assert_eq!(g2[1], G2Point::generator().mul(&tau));
}
