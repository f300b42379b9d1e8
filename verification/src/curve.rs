use crate::field::{limbs_equal, limbs_less, limbs_value, limbs_zero, FieldElement};
use ark_bn254::{Bn254, Fq2, Fr, G1Affine, G1Projective, G2Affine};
use ark_ec::{pairing::Pairing, AffineRepr, CurveGroup, VariableBaseMSM};
use ark_ff::{BigInt, Field, PrimeField};
use vstd::prelude::*;

verus! {

/// Order of the base field of BN254.
pub open spec fn base_modulus() -> nat {
    21888242871839275222246405745257275088696311157297823662689037894645226208583nat
}

/// The base field order as limbs.
pub fn base_modulus_limbs() -> (r: [u64; 4])
    ensures
        limbs_value(r@) == base_modulus(),
{
    [0x3c208c16d87cfd47u64, 0x97816a916871ca8du64, 0xb85045b68181585du64, 0x30644e72e131a029u64]
}

/// Affine coordinates of a point of the first group.
pub struct AffineG1 {
    pub x: nat,
    pub y: nat,
    pub infinity: bool,
}

/// Affine coordinates of a point of the second group, over the quadratic
/// extension `Fq[u] / (u^2 + 1)`: `x = x0 + x1 u`, `y = y0 + y1 u`.
pub struct AffineG2 {
    pub x0: nat,
    pub x1: nat,
    pub y0: nat,
    pub y1: nat,
    pub infinity: bool,
}

/// The curve equation `y^2 = x^3 + 3` of the first group; the point at
/// infinity counts as on the curve.
pub open spec fn g1_on_curve(p: AffineG1) -> bool {
    p.infinity || (p.y * p.y) % base_modulus() == (p.x * p.x * p.x + 3) % base_modulus()
}

pub open spec fn twist_b0() -> int {
    19485874751759354771024239261021720505790618469301721065564631296452457478373int
}

pub open spec fn twist_b1() -> int {
    266929791119991161246907387137283842545076965332900288569378510910307636690int
}

/// The twist equation `y^2 = x^3 + 3 / (u + 9)` of the second group, written
/// out by real and imaginary part.
pub open spec fn g2_on_curve(p: AffineG2) -> bool {
    let q = base_modulus() as int;
    let (x0, x1, y0, y1) = (p.x0 as int, p.x1 as int, p.y0 as int, p.y1 as int);
    p.infinity || ((y0 * y0 - y1 * y1) % q == (x0 * x0 * x0 - 3 * x0 * x1 * x1 + twist_b0()) % q
        && (2 * y0 * y1) % q == (3 * x0 * x0 * x1 - x1 * x1 * x1 + twist_b1()) % q)
}

/// What the subgroup test of the first group answers for a point on the curve.
pub uninterp spec fn g1_in_subgroup_value(p: AffineG1) -> bool;

/// What the subgroup test of the second group answers for a point on the twist.
pub uninterp spec fn g2_in_subgroup_value(p: AffineG2) -> bool;

/// The affine form of `s * p` in the first group.
pub uninterp spec fn g1_mul_value(p: AffineG1, s: nat) -> AffineG1;

/// The affine form of `a - b` in the first group.
pub uninterp spec fn g1_sub_value(a: AffineG1, b: AffineG1) -> AffineG1;

/// The affine form of `a + b` in the first group.
pub uninterp spec fn g1_add_value(a: AffineG1, b: AffineG1) -> AffineG1;

/// The affine form of `s * q` in the second group.
pub uninterp spec fn g2_mul_value(q: AffineG2, s: nat) -> AffineG2;

/// The affine form of `a - b` in the second group.
pub uninterp spec fn g2_sub_value(a: AffineG2, b: AffineG2) -> AffineG2;

/// The pairing of `p` and `q`, as the limbs of its twelve base field
/// coordinates.
pub uninterp spec fn pairing_value(p: AffineG1, q: AffineG2) -> Seq<u64>;

/// The point at infinity, the neutral element.
pub open spec fn g1_identity_coords() -> AffineG1 {
    AffineG1 { x: 0, y: 0, infinity: true }
}

/// The sum of the first `k` products `scalars[j] * bases[j]`, added up from
/// the neutral element in the order of the indices.
pub open spec fn g1_inner_product(bases: Seq<AffineG1>, scalars: Seq<nat>, k: nat) -> AffineG1
    decreases k,
{
    if k == 0 {
        g1_identity_coords()
    } else {
        g1_add_value(
            g1_inner_product(bases, scalars, (k - 1) as nat),
            g1_mul_value(bases[k - 1], scalars[k - 1]),
        )
    }
}

/// The multi-scalar product `sum scalars[j] * bases[j]`, taken over the
/// shorter of the two lengths.
pub open spec fn g1_msm_spec(bases: Seq<AffineG1>, scalars: Seq<nat>) -> AffineG1 {
    g1_inner_product(
        bases,
        scalars,
        if bases.len() <= scalars.len() {
            bases.len()
        } else {
            scalars.len()
        },
    )
}

pub open spec fn g1_generator_coords() -> AffineG1 {
    AffineG1 { x: 1, y: 2, infinity: false }
}

pub open spec fn g2_generator_coords() -> AffineG2 {
    AffineG2 {
        x0: 10857046999023057135944570762232829481370756359578518086990519993285655852781nat,
        x1: 11559732032986387107991004021392285783925812861821192530917403151452391805634nat,
        y0: 8495653923123431417604973247489272438418190587263600148770280649306958101930nat,
        y1: 4082367875863433681332203403145435568316851327593401208105741076214120093531nat,
        infinity: false,
    }
}

/// Coordinates are reduced, infinity is written with zero coordinates, and the
/// point lies on the curve and in the group of prime order.
pub open spec fn g1_valid(p: AffineG1) -> bool {
    &&& p.x < base_modulus()
    &&& p.y < base_modulus()
    &&& p.infinity ==> p.x == 0 && p.y == 0
    &&& g1_on_curve(p)
    &&& g1_in_subgroup_value(p)
}

pub open spec fn g2_valid(p: AffineG2) -> bool {
    &&& p.x0 < base_modulus()
    &&& p.x1 < base_modulus()
    &&& p.y0 < base_modulus()
    &&& p.y1 < base_modulus()
    &&& p.infinity ==> p.x0 == 0 && p.x1 == 0 && p.y0 == 0 && p.y1 == 0
    &&& g2_on_curve(p)
    &&& g2_in_subgroup_value(p)
}

/// A point of the first pairing group.
#[derive(Clone, Copy, PartialEq, Eq, Debug)]
pub struct G1Point {
    pub(crate) x: [u64; 4],
    pub(crate) y: [u64; 4],
    pub(crate) infinity: bool,
}

/// A point of the second pairing group.
#[derive(Clone, Copy, PartialEq, Eq, Debug)]
pub struct G2Point {
    pub(crate) x0: [u64; 4],
    pub(crate) x1: [u64; 4],
    pub(crate) y0: [u64; 4],
    pub(crate) y1: [u64; 4],
    pub(crate) infinity: bool,
}

impl View for G1Point {
    type V = AffineG1;

    closed spec fn view(&self) -> AffineG1 {
        AffineG1 { x: limbs_value(self.x@), y: limbs_value(self.y@), infinity: self.infinity }
    }
}

impl View for G2Point {
    type V = AffineG2;

    closed spec fn view(&self) -> AffineG2 {
        AffineG2 {
            x0: limbs_value(self.x0@),
            x1: limbs_value(self.x1@),
            y0: limbs_value(self.y0@),
            y1: limbs_value(self.y1@),
            infinity: self.infinity,
        }
    }
}

pub open spec fn g1_views(s: Seq<G1Point>) -> Seq<AffineG1> {
    Seq::new(s.len(), |i: int| s[i]@)
}

pub open spec fn g2_views(s: Seq<G2Point>) -> Seq<AffineG2> {
    Seq::new(s.len(), |i: int| s[i]@)
}

impl G1Point {
    #[verifier::type_invariant]
    pub open spec fn valid(self) -> bool {
        g1_valid(self@)
    }

    /// The point with the given affine coordinates, if they name a point of
    /// the group.
    pub fn new(x: [u64; 4], y: [u64; 4], infinity: bool) -> (r: Option<G1Point>)
        ensures
            r is Some <==> g1_valid(
                AffineG1 { x: limbs_value(x@), y: limbs_value(y@), infinity },
            ),
            r matches Some(p) ==> p@ == (AffineG1 {
                x: limbs_value(x@),
                y: limbs_value(y@),
                infinity,
            }),
    {
        let q = base_modulus_limbs();
        if !limbs_less(&x, &q) || !limbs_less(&y, &q) {
            return None;
        }
        if infinity && !(limbs_zero(&x) && limbs_zero(&y)) {
            return None;
        }
        if !g1_is_on_curve(&x, &y, infinity) {
            return None;
        }
        if !g1_is_in_subgroup(&x, &y, infinity) {
            return None;
        }
        Some(G1Point { x, y, infinity })
    }

    /// The fixed generator `(1, 2)`.
    pub fn generator() -> (r: G1Point)
        ensures
            r@ == g1_generator_coords(),
    {
        g1_generator()
    }

    pub fn x(&self) -> (r: [u64; 4])
        ensures
            limbs_value(r@) == self@.x,
    {
        self.x
    }

    pub fn y(&self) -> (r: [u64; 4])
        ensures
            limbs_value(r@) == self@.y,
    {
        self.y
    }

    pub fn is_infinity(&self) -> (r: bool)
        ensures
            r == self@.infinity,
    {
        self.infinity
    }

    pub fn equals(&self, other: &G1Point) -> (r: bool)
        ensures
            r == (self@ == other@),
    {
        limbs_equal(&self.x, &other.x) && limbs_equal(&self.y, &other.y) && self.infinity
            == other.infinity
    }

    /// `s * self`.
    pub fn mul(&self, s: &FieldElement) -> (r: G1Point)
        ensures
            r@ == g1_mul_value(self@, s@),
    {
        g1_mul(self, s)
    }

    /// `self + other`.
    pub fn add(&self, other: &G1Point) -> (r: G1Point)
        ensures
            r@ == g1_add_value(self@, other@),
    {
        g1_add(self, other)
    }

    /// `self - other`.
    pub fn sub(&self, other: &G1Point) -> (r: G1Point)
        ensures
            r@ == g1_sub_value(self@, other@),
    {
        g1_sub(self, other)
    }
}

impl G2Point {
    #[verifier::type_invariant]
    pub open spec fn valid(self) -> bool {
        g2_valid(self@)
    }

    /// The point with the given affine coordinates, if they name a point of
    /// the group.
    pub fn new(x0: [u64; 4], x1: [u64; 4], y0: [u64; 4], y1: [u64; 4], infinity: bool) -> (r:
        Option<G2Point>)
        ensures
            r is Some <==> g2_valid(
                AffineG2 {
                    x0: limbs_value(x0@),
                    x1: limbs_value(x1@),
                    y0: limbs_value(y0@),
                    y1: limbs_value(y1@),
                    infinity,
                },
            ),
            r matches Some(p) ==> p@ == (AffineG2 {
                x0: limbs_value(x0@),
                x1: limbs_value(x1@),
                y0: limbs_value(y0@),
                y1: limbs_value(y1@),
                infinity,
            }),
    {
        let q = base_modulus_limbs();
        if !limbs_less(&x0, &q) || !limbs_less(&x1, &q) || !limbs_less(&y0, &q) || !limbs_less(
            &y1,
            &q,
        ) {
            return None;
        }
        if infinity && !(limbs_zero(&x0) && limbs_zero(&x1) && limbs_zero(&y0) && limbs_zero(&y1)) {
            return None;
        }
        let p = G2Coords { x0, x1, y0, y1, infinity };
        if !g2_is_on_curve(&p) {
            return None;
        }
        if !g2_is_in_subgroup(&p) {
            return None;
        }
        Some(G2Point { x0, x1, y0, y1, infinity })
    }

    /// The fixed generator.
    pub fn generator() -> (r: G2Point)
        ensures
            r@ == g2_generator_coords(),
    {
        g2_generator()
    }

    pub fn x(&self) -> (r: ([u64; 4], [u64; 4]))
        ensures
            limbs_value(r.0@) == self@.x0,
            limbs_value(r.1@) == self@.x1,
    {
        (self.x0, self.x1)
    }

    pub fn y(&self) -> (r: ([u64; 4], [u64; 4]))
        ensures
            limbs_value(r.0@) == self@.y0,
            limbs_value(r.1@) == self@.y1,
    {
        (self.y0, self.y1)
    }

    pub fn is_infinity(&self) -> (r: bool)
        ensures
            r == self@.infinity,
    {
        self.infinity
    }

    pub fn equals(&self, other: &G2Point) -> (r: bool)
        ensures
            r == (self@ == other@),
    {
        limbs_equal(&self.x0, &other.x0) && limbs_equal(&self.x1, &other.x1) && limbs_equal(
            &self.y0,
            &other.y0,
        ) && limbs_equal(&self.y1, &other.y1) && self.infinity == other.infinity
    }

    /// `s * self`.
    pub fn mul(&self, s: &FieldElement) -> (r: G2Point)
        ensures
            r@ == g2_mul_value(self@, s@),
    {
        g2_mul(self, s)
    }

    /// `self - other`.
    pub fn sub(&self, other: &G2Point) -> (r: G2Point)
        ensures
            r@ == g2_sub_value(self@, other@),
    {
        g2_sub(self, other)
    }
}

/// Unchecked coordinates of a candidate point of the second group.
struct G2Coords {
    x0: [u64; 4],
    x1: [u64; 4],
    y0: [u64; 4],
    y1: [u64; 4],
    infinity: bool,
}

impl G2Coords {
    spec fn coords(self) -> AffineG2 {
        AffineG2 {
            x0: limbs_value(self.x0@),
            x1: limbs_value(self.x1@),
            y0: limbs_value(self.y0@),
            y1: limbs_value(self.y1@),
            infinity: self.infinity,
        }
    }

    spec fn reduced(self) -> bool {
        let p = self.coords();
        p.x0 < base_modulus() && p.x1 < base_modulus() && p.y0 < base_modulus() && p.y1
            < base_modulus()
    }
}

/// Calls `is_on_curve` of `ark_ec`'s short Weierstrass `Affine` on BN254 G1.
/// The contract claims that it tests the curve equation and accepts infinity.
#[verifier::external_body]
fn g1_is_on_curve(x: &[u64; 4], y: &[u64; 4], infinity: bool) -> (r: bool)
    requires
        limbs_value(x@) < base_modulus(),
        limbs_value(y@) < base_modulus(),
    ensures
        r == g1_on_curve(AffineG1 { x: limbs_value(x@), y: limbs_value(y@), infinity }),
{
    G1Affine { x: BigInt(*x).into(), y: BigInt(*y).into(), infinity }.is_on_curve()
}

/// Calls `is_in_correct_subgroup_assuming_on_curve` of `ark_ec`'s `Affine` on
/// BN254 G1. The contract names the answer.
#[verifier::external_body]
fn g1_is_in_subgroup(x: &[u64; 4], y: &[u64; 4], infinity: bool) -> (r: bool)
    requires
        limbs_value(x@) < base_modulus(),
        limbs_value(y@) < base_modulus(),
        g1_on_curve(AffineG1 { x: limbs_value(x@), y: limbs_value(y@), infinity }),
    ensures
        r == g1_in_subgroup_value(AffineG1 { x: limbs_value(x@), y: limbs_value(y@), infinity }),
{
    let p = G1Affine { x: BigInt(*x).into(), y: BigInt(*y).into(), infinity };
    p.is_in_correct_subgroup_assuming_on_curve()
}

/// Calls `is_on_curve` of `ark_ec`'s `Affine` on BN254 G2. The contract claims
/// that it tests the twist equation and accepts infinity.
#[verifier::external_body]
fn g2_is_on_curve(p: &G2Coords) -> (r: bool)
    requires
        p.reduced(),
    ensures
        r == g2_on_curve(p.coords()),
{
    let x = Fq2::new(BigInt(p.x0).into(), BigInt(p.x1).into());
    let y = Fq2::new(BigInt(p.y0).into(), BigInt(p.y1).into());
    G2Affine { x, y, infinity: p.infinity }.is_on_curve()
}

/// Calls `is_in_correct_subgroup_assuming_on_curve` of `ark_ec`'s `Affine` on
/// BN254 G2. The contract names the answer.
#[verifier::external_body]
fn g2_is_in_subgroup(p: &G2Coords) -> (r: bool)
    requires
        p.reduced(),
        g2_on_curve(p.coords()),
    ensures
        r == g2_in_subgroup_value(p.coords()),
{
    let x = Fq2::new(BigInt(p.x0).into(), BigInt(p.x1).into());
    let y = Fq2::new(BigInt(p.y0).into(), BigInt(p.y1).into());
    G2Affine { x, y, infinity: p.infinity }.is_in_correct_subgroup_assuming_on_curve()
}

/// Calls `AffineRepr::generator` for BN254 G1. The contract gives the
/// coordinates that `ark_bn254` fixes for it.
#[verifier::external_body]
fn g1_generator() -> (r: G1Point)
    ensures
        r@ == g1_generator_coords(),
{
    let g = G1Affine::generator();
    G1Point { x: g.x.into_bigint().0, y: g.y.into_bigint().0, infinity: g.infinity }
}

/// Calls `AffineRepr::generator` for BN254 G2. The contract gives the
/// coordinates that `ark_bn254` fixes for it.
#[verifier::external_body]
fn g2_generator() -> (r: G2Point)
    ensures
        r@ == g2_generator_coords(),
{
    let g = G2Affine::generator();
    let (x0, x1) = (g.x.c0.into_bigint().0, g.x.c1.into_bigint().0);
    let (y0, y1) = (g.y.c0.into_bigint().0, g.y.c1.into_bigint().0);
    G2Point { x0, x1, y0, y1, infinity: g.infinity }
}

/// Calls the scalar multiplication `Affine * Fr` of `ark_ec` on BN254 G1 and
/// normalises with `into_affine`. The contract names the result. Point and
/// scalar are reduced by the invariants of their types, so the conversions
/// cannot fail.
#[verifier::external_body]
fn g1_mul(p: &G1Point, s: &FieldElement) -> (r: G1Point)
    ensures
        r@ == g1_mul_value(p@, s@),
{
    let a = G1Affine { x: BigInt(p.x).into(), y: BigInt(p.y).into(), infinity: p.infinity };
    let k: Fr = BigInt(s.limbs).into();
    let m = (a * k).into_affine();
    G1Point { x: m.x.into_bigint().0, y: m.y.into_bigint().0, infinity: m.infinity }
}

/// Calls the addition `Affine + Affine` of `ark_ec` on BN254 G1 and
/// normalises with `into_affine`. The contract names the result. Both points
/// are reduced by the invariant of their type.
#[verifier::external_body]
fn g1_add(a: &G1Point, b: &G1Point) -> (r: G1Point)
    ensures
        r@ == g1_add_value(a@, b@),
{
    let p = G1Affine { x: BigInt(a.x).into(), y: BigInt(a.y).into(), infinity: a.infinity };
    let q = G1Affine { x: BigInt(b.x).into(), y: BigInt(b.y).into(), infinity: b.infinity };
    let m = (p + q).into_affine();
    G1Point { x: m.x.into_bigint().0, y: m.y.into_bigint().0, infinity: m.infinity }
}

/// Calls the subtraction `Affine - Affine` of `ark_ec` on BN254 G1 and
/// normalises with `into_affine`. The contract names the result. Both points
/// are reduced by the invariant of their type.
#[verifier::external_body]
fn g1_sub(a: &G1Point, b: &G1Point) -> (r: G1Point)
    ensures
        r@ == g1_sub_value(a@, b@),
{
    let p = G1Affine { x: BigInt(a.x).into(), y: BigInt(a.y).into(), infinity: a.infinity };
    let q = G1Affine { x: BigInt(b.x).into(), y: BigInt(b.y).into(), infinity: b.infinity };
    let m = (p - q).into_affine();
    G1Point { x: m.x.into_bigint().0, y: m.y.into_bigint().0, infinity: m.infinity }
}

/// Calls `VariableBaseMSM::msm_bigint` of `ark_ec` on BN254 G1 and normalises
/// with `into_affine`. The contract claims that the result is the sum of the
/// products of scalar and base, over the shorter of the two lengths. Bases
/// and scalars are reduced by the invariants of their types.
#[verifier::external_body]
pub(crate) fn g1_msm(bases: &[G1Point], scalars: &[FieldElement]) -> (r: G1Point)
    ensures
        r@ == g1_msm_spec(g1_views(bases@), crate::field::values_of(scalars@)),
{
    let b: Vec<G1Affine> = bases.iter().map(
        |p| G1Affine { x: BigInt(p.x).into(), y: BigInt(p.y).into(), infinity: p.infinity },
    ).collect();
    let s: Vec<BigInt<4>> = scalars.iter().map(|c| BigInt(c.limbs)).collect();
    let m = G1Projective::msm_bigint(&b, &s).into_affine();
    G1Point { x: m.x.into_bigint().0, y: m.y.into_bigint().0, infinity: m.infinity }
}

/// Calls the scalar multiplication `Affine * Fr` of `ark_ec` on BN254 G2 and
/// normalises with `into_affine`. The contract names the result. Point and
/// scalar are reduced by the invariants of their types.
#[verifier::external_body]
fn g2_mul(q: &G2Point, s: &FieldElement) -> (r: G2Point)
    ensures
        r@ == g2_mul_value(q@, s@),
{
    let x = Fq2::new(BigInt(q.x0).into(), BigInt(q.x1).into());
    let y = Fq2::new(BigInt(q.y0).into(), BigInt(q.y1).into());
    let k: Fr = BigInt(s.limbs).into();
    let m = (G2Affine { x, y, infinity: q.infinity } * k).into_affine();
    let (x0, x1) = (m.x.c0.into_bigint().0, m.x.c1.into_bigint().0);
    let (y0, y1) = (m.y.c0.into_bigint().0, m.y.c1.into_bigint().0);
    G2Point { x0, x1, y0, y1, infinity: m.infinity }
}

/// Calls the subtraction `Affine - Affine` of `ark_ec` on BN254 G2 and
/// normalises with `into_affine`. The contract names the result. Both points
/// are reduced by the invariant of their type.
#[verifier::external_body]
fn g2_sub(a: &G2Point, b: &G2Point) -> (r: G2Point)
    ensures
        r@ == g2_sub_value(a@, b@),
{
    let f = |v: &G2Point| {
        let x = Fq2::new(BigInt(v.x0).into(), BigInt(v.x1).into());
        let y = Fq2::new(BigInt(v.y0).into(), BigInt(v.y1).into());
        G2Affine { x, y, infinity: v.infinity }
    };
    let m = (f(a) - f(b)).into_affine();
    let (x0, x1) = (m.x.c0.into_bigint().0, m.x.c1.into_bigint().0);
    let (y0, y1) = (m.y.c0.into_bigint().0, m.y.c1.into_bigint().0);
    G2Point { x0, x1, y0, y1, infinity: m.infinity }
}

/// Calls `Pairing::pairing` of `ark_ec` for BN254 and lists the twelve base
/// field coordinates of the result as limbs. The contract names the result.
/// Both points lie in their groups by the invariants of their types, which
/// is what the pairing asks for.
#[verifier::external_body]
pub(crate) fn pairing(p: &G1Point, q: &G2Point) -> (r: Vec<u64>)
    ensures
        r@ == pairing_value(p@, q@),
{
    let a = G1Affine { x: BigInt(p.x).into(), y: BigInt(p.y).into(), infinity: p.infinity };
    let x = Fq2::new(BigInt(q.x0).into(), BigInt(q.x1).into());
    let y = Fq2::new(BigInt(q.y0).into(), BigInt(q.y1).into());
    let e = Bn254::pairing(a, G2Affine { x, y, infinity: q.infinity });
    e.0.to_base_prime_field_elements().flat_map(|c| c.into_bigint().0).collect()
}

} // verus!
