use ark_bn254::Fr;
use ark_ff::{BigInt, Field, PrimeField};
use vstd::arithmetic::div_mod::{
    lemma_mod_bound, lemma_mod_multiples_vanish, lemma_mul_mod_noop_general, lemma_small_mod,
};
use vstd::prelude::*;

verus! {

/// Order of the scalar field of BN254.
pub open spec fn scalar_modulus() -> nat {
    21888242871839275222246405745257275088548364400416034343698204186575808495617nat
}

/// The integer that four little-endian 64-bit limbs stand for.
pub open spec fn limbs_value(l: Seq<u64>) -> nat
    recommends
        l.len() == 4,
{
    (l[0] as nat) + (l[1] as nat) * 0x1_0000_0000_0000_0000nat + (l[2] as nat)
        * 0x1_0000_0000_0000_0000_0000_0000_0000_0000nat + (l[3] as nat)
        * 0x1_0000_0000_0000_0000_0000_0000_0000_0000_0000_0000_0000_0000nat
}

pub open spec fn field_add(a: nat, b: nat) -> nat {
    (a + b) % scalar_modulus()
}

pub open spec fn field_sub(a: nat, b: nat) -> nat {
    ((a as int - b as int) % (scalar_modulus() as int)) as nat
}

pub open spec fn field_mul(a: nat, b: nat) -> nat {
    (a * b) % scalar_modulus()
}

/// `base` raised to `exp` in the scalar field.
pub open spec fn field_pow(base: nat, exp: nat) -> nat
    decreases exp,
{
    if exp == 0 {
        1
    } else {
        field_mul(base, field_pow(base, (exp - 1) as nat))
    }
}

/// The integers that a sequence of elements stands for.
pub open spec fn values_of(s: Seq<FieldElement>) -> Seq<nat> {
    Seq::new(s.len(), |i: int| s[i]@)
}

/// Three limbs stay below `2^192`.
proof fn lemma_low_limbs_bound(l: Seq<u64>)
    requires
        l.len() == 4,
    ensures
        (l[0] as nat) + (l[1] as nat) * 0x1_0000_0000_0000_0000nat + (l[2] as nat)
            * 0x1_0000_0000_0000_0000_0000_0000_0000_0000nat
            < 0x1_0000_0000_0000_0000_0000_0000_0000_0000_0000_0000_0000_0000nat,
        (l[0] as nat) + (l[1] as nat) * 0x1_0000_0000_0000_0000nat
            < 0x1_0000_0000_0000_0000_0000_0000_0000_0000nat,
{
    assert((l[1] as nat) * 0x1_0000_0000_0000_0000nat <= 0xffff_ffff_ffff_ffffnat
        * 0x1_0000_0000_0000_0000nat);
    assert((l[2] as nat) * 0x1_0000_0000_0000_0000_0000_0000_0000_0000nat
        <= 0xffff_ffff_ffff_ffffnat * 0x1_0000_0000_0000_0000_0000_0000_0000_0000nat);
}

/// The order of limb sequences by value is the lexicographic order from the
/// top limb down.
pub proof fn lemma_limbs_order(a: Seq<u64>, b: Seq<u64>)
    requires
        a.len() == 4,
        b.len() == 4,
    ensures
        limbs_value(a) < limbs_value(b) <==> (a[3] < b[3] || (a[3] == b[3] && (a[2] < b[2] || (a[2]
            == b[2] && (a[1] < b[1] || (a[1] == b[1] && a[0] < b[0])))))),
        limbs_value(a) == limbs_value(b) <==> (a[3] == b[3] && a[2] == b[2] && a[1] == b[1] && a[0]
            == b[0]),
{
    lemma_low_limbs_bound(a);
    lemma_low_limbs_bound(b);
    let b1 = 0x1_0000_0000_0000_0000nat;
    let b2 = 0x1_0000_0000_0000_0000_0000_0000_0000_0000nat;
    let b3 = 0x1_0000_0000_0000_0000_0000_0000_0000_0000_0000_0000_0000_0000nat;
    let la = (a[0] as nat) + (a[1] as nat) * b1 + (a[2] as nat) * b2;
    let lb = (b[0] as nat) + (b[1] as nat) * b1 + (b[2] as nat) * b2;
    let ma = (a[0] as nat) + (a[1] as nat) * b1;
    let mb = (b[0] as nat) + (b[1] as nat) * b1;
    assert(limbs_value(a) == la + (a[3] as nat) * b3);
    assert(limbs_value(b) == lb + (b[3] as nat) * b3);
    if a[3] < b[3] {
        assert((a[3] as nat + 1) * b3 <= (b[3] as nat) * b3);
    } else if b[3] < a[3] {
        assert((b[3] as nat + 1) * b3 <= (a[3] as nat) * b3);
    } else if a[2] < b[2] {
        assert((a[2] as nat + 1) * b2 <= (b[2] as nat) * b2);
    } else if b[2] < a[2] {
        assert((b[2] as nat + 1) * b2 <= (a[2] as nat) * b2);
    } else if a[1] < b[1] {
        assert((a[1] as nat + 1) * b1 <= (b[1] as nat) * b1);
    } else if b[1] < a[1] {
        assert((b[1] as nat + 1) * b1 <= (a[1] as nat) * b1);
    }
}

/// Whether `a` is numerically below `b`, both read as little-endian limbs.
pub fn limbs_less(a: &[u64; 4], b: &[u64; 4]) -> (r: bool)
    ensures
        r == (limbs_value(a@) < limbs_value(b@)),
{
    proof {
        lemma_limbs_order(a@, b@);
    }
    if a[3] != b[3] {
        a[3] < b[3]
    } else if a[2] != b[2] {
        a[2] < b[2]
    } else if a[1] != b[1] {
        a[1] < b[1]
    } else {
        a[0] < b[0]
    }
}

/// Whether `a` and `b` stand for the same integer.
pub fn limbs_equal(a: &[u64; 4], b: &[u64; 4]) -> (r: bool)
    ensures
        r == (limbs_value(a@) == limbs_value(b@)),
{
    proof {
        lemma_limbs_order(a@, b@);
    }
    a[0] == b[0] && a[1] == b[1] && a[2] == b[2] && a[3] == b[3]
}

/// Whether `l` stands for zero.
pub fn limbs_zero(l: &[u64; 4]) -> (r: bool)
    ensures
        r == (limbs_value(l@) == 0),
{
    l[0] == 0 && l[1] == 0 && l[2] == 0 && l[3] == 0
}

/// The scalar field order as limbs.
pub fn scalar_modulus_limbs() -> (r: [u64; 4])
    ensures
        limbs_value(r@) == scalar_modulus(),
{
    [0x43e1f593f0000001u64, 0x2833e84879b97091u64, 0xb85045b68181585du64, 0x30644e72e131a029u64]
}

/// An element of the scalar field, held as its canonical integer.
#[derive(Clone, Copy, PartialEq, Eq, Debug)]
pub struct FieldElement {
    pub(crate) limbs: [u64; 4],
}

impl View for FieldElement {
    type V = nat;

    closed spec fn view(&self) -> nat {
        limbs_value(self.limbs@)
    }
}

impl FieldElement {
    /// Every element is held reduced.
    #[verifier::type_invariant]
    pub open spec fn canonical(self) -> bool {
        self@ < scalar_modulus()
    }

    /// The element with the given limbs, if they are below the field order.
    pub fn from_limbs(limbs: [u64; 4]) -> (r: Option<FieldElement>)
        ensures
            r is Some <==> limbs_value(limbs@) < scalar_modulus(),
            r matches Some(e) ==> e@ == limbs_value(limbs@),
    {
        let m = scalar_modulus_limbs();
        if limbs_less(&limbs, &m) {
            Some(FieldElement { limbs })
        } else {
            None
        }
    }

    /// The element that the integer with the given limbs reduces to.
    pub fn from_limbs_reduced(limbs: [u64; 4]) -> (r: FieldElement)
        ensures
            r@ == limbs_value(limbs@) % scalar_modulus(),
    {
        fr_reduce(&limbs)
    }

    pub fn from_u64(v: u64) -> (r: FieldElement)
        ensures
            r@ == v,
    {
        FieldElement { limbs: [v, 0, 0, 0] }
    }

    pub fn zero() -> (r: FieldElement)
        ensures
            r@ == 0,
    {
        FieldElement { limbs: [0, 0, 0, 0] }
    }

    pub fn one() -> (r: FieldElement)
        ensures
            r@ == 1,
    {
        FieldElement { limbs: [1, 0, 0, 0] }
    }

    pub fn is_zero(&self) -> (r: bool)
        ensures
            r == (self@ == 0),
    {
        limbs_zero(&self.limbs)
    }

    /// `self - other` in the field.
    pub fn sub(&self, other: &FieldElement) -> (r: FieldElement)
        ensures
            r@ == field_sub(self@, other@),
    {
        fr_sub(self, other)
    }

    /// The limbs of the element's canonical integer, lowest first.
    pub fn limbs(&self) -> (r: [u64; 4])
        ensures
            limbs_value(r@) == self@,
    {
        self.limbs
    }

    pub fn equals(&self, other: &FieldElement) -> (r: bool)
        ensures
            r == (self@ == other@),
    {
        limbs_equal(&self.limbs, &other.limbs)
    }

    /// `self` raised to `exp`.
    pub fn pow(&self, exp: u64) -> (r: FieldElement)
        ensures
            r@ == field_pow(self@, exp as nat),
    {
        fr_pow(self, exp)
    }
}

/// Powers are reduced.
pub proof fn lemma_pow_range(w: nat, e: nat)
    ensures
        field_pow(w, e) < scalar_modulus(),
    decreases e,
{
    if e > 0 {
        lemma_mod_bound((w * field_pow(w, (e - 1) as nat)) as int, scalar_modulus() as int);
    }
}

/// Multiplication in the field is associative.
pub proof fn lemma_mul_assoc(a: nat, b: nat, c: nat)
    ensures
        field_mul(field_mul(a, b), c) == field_mul(a, field_mul(b, c)),
{
    let m = scalar_modulus() as int;
    lemma_mul_mod_noop_general((a * b) as int, c as int, m);
    lemma_mul_mod_noop_general(a as int, (b * c) as int, m);
    assert((a * b) * c == a * (b * c)) by (nonlinear_arith);
}

/// Multiplication in the field is commutative.
pub proof fn lemma_mul_comm(a: nat, b: nat)
    ensures
        field_mul(a, b) == field_mul(b, a),
{
    assert(a * b == b * a) by (nonlinear_arith);
}

/// One is neutral on reduced values.
pub proof fn lemma_mul_one(a: nat)
    requires
        a < scalar_modulus(),
    ensures
        field_mul(a, 1) == a,
        field_mul(1, a) == a,
{
    assert(a * 1 == a);
    assert(1 * a == a);
    lemma_small_mod(a, scalar_modulus());
}

/// The power of a sum of exponents is the product of the powers.
pub proof fn lemma_pow_add(w: nat, a: nat, b: nat)
    ensures
        field_pow(w, a + b) == field_mul(field_pow(w, a), field_pow(w, b)),
    decreases a,
{
    if a == 0 {
        lemma_pow_range(w, b);
        lemma_mul_one(field_pow(w, b));
    } else {
        lemma_pow_add(w, (a - 1) as nat, b);
        assert(field_pow(w, a + b) == field_mul(w, field_pow(w, (a + b - 1) as nat)));
        lemma_mul_assoc(w, field_pow(w, (a - 1) as nat), field_pow(w, b));
    }
}

/// Adding the value of the empty remainder changes nothing.
pub proof fn lemma_add_zero(p: nat)
    requires
        p < scalar_modulus(),
    ensures
        field_add(p, 0) == p,
{
    lemma_small_mod(p, scalar_modulus());
}

/// Products are reduced.
pub proof fn lemma_mul_range(a: nat, b: nat)
    ensures
        field_mul(a, b) < scalar_modulus(),
{
    lemma_mod_bound((a * b) as int, scalar_modulus() as int);
}

/// Zero annihilates.
pub proof fn lemma_mul_by_zero(a: nat)
    ensures
        field_mul(a, 0) == 0,
{
    assert(a * 0 == 0);
    lemma_small_mod(0, scalar_modulus());
}

/// Two reduced values differ by zero exactly when they are equal.
pub proof fn lemma_sub_zero(a: nat, b: nat)
    requires
        a < scalar_modulus(),
        b < scalar_modulus(),
    ensures
        field_sub(a, b) == 0 <==> a == b,
{
    let m = scalar_modulus() as int;
    if a >= b {
        lemma_small_mod((a - b) as nat, scalar_modulus());
    } else {
        lemma_mod_multiples_vanish(1, a as int - b as int, m);
        lemma_small_mod((m + a - b) as nat, scalar_modulus());
    }
}

/// Calls `ark_ff::Field::pow` on the BN254 scalar field with a one-limb
/// exponent. The contract claims that the result is the modular power. The
/// base is reduced by the invariant of its type, so the conversion cannot
/// fail.
#[verifier::external_body]
fn fr_pow(base: &FieldElement, exp: u64) -> (r: FieldElement)
    ensures
        r@ == field_pow(base@, exp as nat),
{
    let b = Fr::from(BigInt(base.limbs));
    FieldElement { limbs: b.pow([exp]).into_bigint().0 }
}

/// Calls the subtraction of `ark_ff`'s prime field type on the BN254 scalar
/// field. The contract claims that the result is the difference modulo the
/// field order. Both operands are reduced by the invariant of their type.
#[verifier::external_body]
fn fr_sub(a: &FieldElement, b: &FieldElement) -> (r: FieldElement)
    ensures
        r@ == field_sub(a@, b@),
{
    let d = Fr::from(BigInt(a.limbs)) - Fr::from(BigInt(b.limbs));
    FieldElement { limbs: d.into_bigint().0 }
}

/// Calls `PrimeField::from_le_bytes_mod_order` of `ark_ff` on the bytes of the
/// limbs. The contract claims that the result is the integer reduced modulo
/// the field order.
#[verifier::external_body]
fn fr_reduce(limbs: &[u64; 4]) -> (r: FieldElement)
    ensures
        r@ == limbs_value(limbs@) % scalar_modulus(),
{
    let b: Vec<u8> = limbs.iter().flat_map(|l| l.to_le_bytes()).collect();
    FieldElement { limbs: Fr::from_le_bytes_mod_order(&b).into_bigint().0 }
}

} // verus!
