use crate::error::Error;
use crate::field::{
    field_add, field_mul, field_pow, field_sub, lemma_add_zero, lemma_mul_by_zero,
    lemma_mul_range, lemma_sub_zero, scalar_modulus, values_of, FieldElement,
};
use ark_bn254::Fr;
use ark_ff::{BigInt, PrimeField};
use ark_poly::univariate::{DenseOrSparsePolynomial, DensePolynomial};
use ark_poly::{DenseUVPolynomial, EvaluationDomain, Evaluations, GeneralEvaluationDomain};
use vstd::arithmetic::div_mod::{
    lemma_add_mod_noop, lemma_mod_bound, lemma_small_mod, lemma_sub_mod_noop,
};
use vstd::prelude::*;

verus! {

/// The value at `x` of the polynomial with coefficients `c`, lowest power
/// first.
pub open spec fn poly_eval(c: Seq<nat>, x: nat) -> nat
    decreases c.len(),
{
    if c.len() == 0 {
        0
    } else {
        field_add(c[0], field_mul(x, poly_eval(c.skip(1), x)))
    }
}

/// A coefficient sequence in canonical form: not empty, and without a zero
/// on top unless it is the constant term.
pub open spec fn canonical_form(c: Seq<nat>) -> bool {
    c.len() >= 1 && (c.len() >= 2 ==> c.last() != 0)
}

/// The canonical form of `c`: zeros on top are dropped down to the constant
/// term, and the empty sequence becomes the zero constant.
pub open spec fn normal_form(c: Seq<nat>) -> Seq<nat>
    decreases c.len(),
{
    if c.len() == 0 {
        seq![0nat]
    } else if c.len() >= 2 && c.last() == 0 {
        normal_form(c.drop_last())
    } else {
        c
    }
}

/// `c` carries no zero on top.
pub open spec fn trimmed(c: Seq<nat>) -> bool {
    c.len() == 0 || c.last() != 0
}

pub open spec fn is_power_of_two(n: nat) -> bool
    decreases n,
{
    n == 1 || (n > 1 && n % 2 == 0 && is_power_of_two(n / 2))
}

/// The least power of two that is not below `n`.
pub open spec fn next_power_of_two(n: nat) -> nat
    decreases n,
{
    if n <= 1 {
        1
    } else {
        2 * next_power_of_two((n + 1) / 2)
    }
}

/// The largest domain the field offers has `2^28` points.
pub open spec fn max_domain_size() -> nat {
    0x1000_0000
}

/// The sizes for which the field has an evaluation domain of exactly that
/// many points.
pub open spec fn domain_size_ok(n: nat) -> bool {
    is_power_of_two(n) && n <= max_domain_size()
}

/// The generator that the field fixes for its domain of `size` points.
pub uninterp spec fn root_of_unity_value(size: nat) -> nat;

/// `w` has multiplicative order exactly `n`.
pub open spec fn is_primitive_root(w: nat, n: nat) -> bool {
    field_pow(w, n) == 1 && forall|k: nat| 0 < k < n ==> #[trigger] field_pow(w, k) != 1
}

/// `f` takes the value `values[i]` at the `i`-th power of `w`, for every index.
pub open spec fn interpolates(f: Seq<nat>, w: nat, values: Seq<nat>) -> bool {
    forall|i: nat| i < values.len() ==> poly_eval(f, #[trigger] field_pow(w, i)) == values[i as int]
}

/// `q` is the exact quotient of `f - y` by `X - x`: the identity
/// `f(t) - y = q(t) * (t - x)` holds at every `t`.
pub open spec fn is_quotient(f: Seq<nat>, x: nat, y: nat, q: Seq<nat>) -> bool {
    forall|t: nat|
        field_sub(poly_eval(f, t), y) == field_mul(#[trigger] poly_eval(q, t), field_sub(t, x))
}

/// `num = q * den + rem`, stated at every point.
pub open spec fn division_identity(num: Seq<nat>, den: Seq<nat>, q: Seq<nat>, rem: Seq<nat>) -> bool {
    forall|t: nat|
        poly_eval(num, t) == field_add(
            field_mul(#[trigger] poly_eval(q, t), poly_eval(den, t)),
            poly_eval(rem, t),
        )
}

pub proof fn lemma_eval_range(c: Seq<nat>, x: nat)
    ensures
        poly_eval(c, x) < scalar_modulus(),
{
    if c.len() > 0 {
        lemma_mod_bound(
            (c[0] + field_mul(x, poly_eval(c.skip(1), x))) as int,
            scalar_modulus() as int,
        );
    }
}

/// A zero on top does not change the value.
pub proof fn lemma_eval_push_zero(c: Seq<nat>, x: nat)
    ensures
        poly_eval(c.push(0), x) == poly_eval(c, x),
    decreases c.len(),
{
    let d = c.push(0);
    if c.len() == 0 {
        assert(d.skip(1) =~= Seq::<nat>::empty());
        assert(poly_eval(d.skip(1), x) == 0);
        assert(x * 0 == 0);
    } else {
        assert(d.skip(1) =~= c.skip(1).push(0));
        lemma_eval_push_zero(c.skip(1), x);
    }
}

/// The canonical form has the same value everywhere.
pub proof fn lemma_normal_form_eval(c: Seq<nat>, x: nat)
    ensures
        poly_eval(normal_form(c), x) == poly_eval(c, x),
        canonical_form(normal_form(c)),
        normal_form(c).len() <= if c.len() == 0 { 1 } else { c.len() },
    decreases c.len(),
{
    if c.len() == 0 {
        lemma_eval_push_zero(Seq::<nat>::empty(), x);
        assert(Seq::<nat>::empty().push(0) =~= seq![0nat]);
    } else if c.len() >= 2 && c.last() == 0 {
        lemma_normal_form_eval(c.drop_last(), x);
        assert(c =~= c.drop_last().push(0));
        lemma_eval_push_zero(c.drop_last(), x);
    }
}

/// Lowering the constant term by `y` lowers every value by `y`.
pub proof fn lemma_eval_sub_constant(f: Seq<nat>, y: nat, x: nat)
    requires
        f.len() >= 1,
    ensures
        poly_eval(f.update(0, field_sub(f[0], y)), x) == field_sub(poly_eval(f, x), y),
{
    let m = scalar_modulus() as int;
    let g = f.update(0, field_sub(f[0], y));
    assert(g.skip(1) =~= f.skip(1));
    let e = field_mul(x, poly_eval(f.skip(1), x)) as int;
    let a = f[0] as int;
    let b = y as int;
    // poly_eval(g) = ((a - b) % m + e) % m, poly_eval(f) = (a + e) % m
    lemma_add_mod_noop((a - b) % m, e, m);
    lemma_add_mod_noop(a - b, e, m);
    vstd::arithmetic::div_mod::lemma_mod_twice(a - b, m);
    lemma_sub_mod_noop(a + e, b, m);
    lemma_sub_mod_noop((a + e) % m, b, m);
    vstd::arithmetic::div_mod::lemma_mod_twice(a + e, m);
    lemma_mod_bound(a - b, m);
    assert(((a - b) % m + e) % m == (a - b + e) % m);
    assert(((a + e) % m - b) % m == (a + e - b) % m);
}

/// The value of `X - x` at `t` is `t - x`.
pub proof fn lemma_eval_linear(x: nat, t: nat)
    ensures
        poly_eval(seq![field_sub(0, x), 1nat], t) == field_sub(t, x),
{
    let m = scalar_modulus() as int;
    let d = seq![field_sub(0, x), 1nat];
    let one = seq![1nat];
    assert(d.skip(1) =~= one);
    assert(one.skip(1) =~= Seq::<nat>::empty());
    assert(t * 0 == 0);
    assert(poly_eval(one, t) == 1) by {
        assert(poly_eval(one.skip(1), t) == 0);
        lemma_small_mod(1, scalar_modulus());
        lemma_small_mod(0, scalar_modulus());
    }
    assert(t * 1 == t);
    let a = (0 - x as int) % m;
    lemma_mod_bound(0 - x as int, m);
    // poly_eval(d) = (a + (t % m)) % m
    lemma_add_mod_noop(a, t as int, m);
    vstd::arithmetic::div_mod::lemma_mod_twice(0 - x as int, m);
    lemma_add_mod_noop(0 - x as int, t as int, m);
    assert((a + (t as int) % m) % m == (t as int - x as int) % m);
}

/// A power of two is its own next power of two, and nothing else is.
pub proof fn lemma_next_power_of_two(n: nat)
    ensures
        is_power_of_two(n) <==> next_power_of_two(n) == n,
    decreases n,
{
    if n > 1 {
        lemma_next_power_of_two((n + 1) / 2);
    }
}

/// A polynomial over the scalar field in canonical form.
#[derive(PartialEq, Eq, Debug)]
pub struct Polynomial {
    pub(crate) coeffs: Vec<FieldElement>,
}

impl View for Polynomial {
    type V = Seq<nat>;

    closed spec fn view(&self) -> Seq<nat> {
        values_of(self.coeffs@)
    }
}

impl Clone for Polynomial {
    fn clone(&self) -> (r: Self)
        ensures
            r@ == self@,
    {
        proof {
            use_type_invariant(self);
        }
        let mut v: Vec<FieldElement> = Vec::new();
        let mut k: usize = 0;
        while k < self.coeffs.len()
            invariant
                k <= self.coeffs@.len(),
                v@.len() == k,
                forall|j: int| 0 <= j < k ==> v@[j] == self.coeffs@[j],
            decreases self.coeffs@.len() - k,
        {
            v.push(self.coeffs[k]);
            k += 1;
        }
        proof {
            assert(v@ =~= self.coeffs@);
        }
        Polynomial { coeffs: v }
    }
}

impl Polynomial {
    #[verifier::type_invariant]
    pub open spec fn canonical(self) -> bool {
        canonical_form(self@)
    }

    /// The polynomial with the given coefficients, lowest power first,
    /// brought to canonical form.
    pub fn from_coefficients(coeffs: Vec<FieldElement>) -> (r: Polynomial)
        ensures
            r@ == normal_form(values_of(coeffs@)),
    {
        let ghost start = values_of(coeffs@);
        let mut v = coeffs;
        while v.len() >= 2 && v[v.len() - 1].is_zero()
            invariant
                normal_form(values_of(v@)) == normal_form(start),
                v@.len() == 0 ==> start.len() == 0,
            decreases v.len(),
        {
            proof {
                let c = values_of(v@);
                assert(values_of(v@.drop_last()) =~= c.drop_last());
            }
            v.pop();
        }
        if v.len() == 0 {
            v.push(FieldElement::zero());
            proof {
                assert(values_of(v@) =~= seq![0nat]);
                assert(start =~= Seq::<nat>::empty());
            }
        } else {
            proof {
                lemma_normal_form_eval(start, 0);
            }
        }
        Polynomial { coeffs: v }
    }

    pub fn len(&self) -> (r: usize)
        ensures
            r == self@.len(),
            r >= 1,
    {
        proof {
            use_type_invariant(self);
        }
        self.coeffs.len()
    }

    /// The degree: one less than the number of coefficients.
    pub fn degree(&self) -> (r: usize)
        ensures
            r == self@.len() - 1,
    {
        proof {
            use_type_invariant(self);
        }
        self.coeffs.len() - 1
    }

    pub fn coeffs(&self) -> (r: &Vec<FieldElement>)
        ensures
            values_of(r@) == self@,
    {
        &self.coeffs
    }

    /// The value of the polynomial at `x`.
    pub fn evaluate(&self, x: &FieldElement) -> (r: FieldElement)
        ensures
            r@ == poly_eval(self@, x@),
    {
        poly_evaluate(&self.coeffs, x)
    }
}

/// The generator of the evaluation domain of exactly `n` points.
pub fn domain_generator(n: usize) -> (r: Result<FieldElement, Error>)
    ensures
        r is Ok <==> domain_size_ok(n as nat),
        r matches Ok(w) ==> w@ == root_of_unity_value(n as nat) && is_primitive_root(
            w@,
            n as nat,
        ),
        r matches Err(e) ==> e == Error::Domain,
{
    proof {
        lemma_next_power_of_two(n as nat);
    }
    match domain_parameters(n) {
        Some((size, w)) => {
            if size == n {
                Ok(w)
            } else {
                Err(Error::Domain)
            }
        },
        None => Err(Error::Domain),
    }
}

/// The polynomial of degree below `n` through the `n` given values, taken at
/// the successive powers of the domain generator.
pub fn poly(points: Vec<FieldElement>) -> (r: Result<Polynomial, Error>)
    ensures
        r is Ok <==> domain_size_ok(points@.len()),
        r matches Ok(f) ==> f@.len() <= points@.len() && interpolates(
            f@,
            root_of_unity_value(points@.len()),
            values_of(points@),
        ),
        r matches Err(e) ==> e == Error::Domain,
{
    let n = points.len();
    match domain_generator(n) {
        Ok(_) => {
            let c = interpolate(&points);
            let f = Polynomial::from_coefficients(c);
            proof {
                let w = root_of_unity_value(n as nat);
                assert forall|i: nat| i < values_of(points@).len() implies poly_eval(
                    f@,
                    #[trigger] field_pow(w, i),
                ) == values_of(points@)[i as int] by {
                    lemma_normal_form_eval(values_of(c@), field_pow(w, i));
                }
                lemma_normal_form_eval(values_of(c@), 0);
            }
            Ok(f)
        },
        Err(e) => Err(e),
    }
}

/// The quotient of `f - y_i` by `X - i`, or an error if the division leaves a
/// remainder, which is when `y_i` is not the value of `f` at `i`.
pub fn vanish(f: &Polynomial, i: FieldElement, y_i: FieldElement) -> (r: Result<Polynomial, Error>)
    ensures
        r is Ok <==> poly_eval(f@, i@) == y_i@,
        r matches Ok(q) ==> is_quotient(f@, i@, y_i@, q@) && q@.len() == (if f@.len() >= 2 {
            f@.len() - 1
        } else {
            1
        }),
        r matches Err(e) ==> e == Error::InvalidOpening,
{
    proof {
        use_type_invariant(f);
        use_type_invariant(&i);
        use_type_invariant(&y_i);
    }
    let n = f.coeffs.len();
    let c0 = f.coeffs[0].sub(&y_i);
    let mut num: Vec<FieldElement> = Vec::new();
    if !(n == 1 && c0.is_zero()) {
        num.push(c0);
        let mut k: usize = 1;
        while k < n
            invariant
                1 <= k <= n,
                n == f.coeffs@.len(),
                num@.len() == k,
                num@[0] == c0,
                forall|j: int| 1 <= j < k ==> num@[j] == f.coeffs@[j],
            decreases n - k,
        {
            num.push(f.coeffs[k]);
            k += 1;
        }
    }
    proof {
        assert(values_of(num@) =~= numerator(f@, y_i@));
    }
    let mut den: Vec<FieldElement> = Vec::new();
    den.push(FieldElement::zero().sub(&i));
    den.push(FieldElement::one());
    proof {
        assert(values_of(den@) =~= seq![field_sub(0, i@), 1nat]);
    }
    let (q, rem) = poly_divide(&num, &den);
    if rem.len() == 1 {
        let top = &rem[0];
        proof {
            use_type_invariant(top);
        }
    }
    let quotient = Polynomial::from_coefficients(q);
    proof {
        lemma_numerator(f@, y_i@, values_of(num@));
        lemma_exact_division(
            f@,
            i@,
            y_i@,
            values_of(num@),
            values_of(den@),
            values_of(q@),
            values_of(rem@),
        );
        lemma_normal_form_eval(values_of(q@), 0);
    }
    if rem.len() == 0 {
        Ok(quotient)
    } else {
        Err(Error::InvalidOpening)
    }
}

/// The numerator of an opening: `f` with its constant term lowered by `y`,
/// written as the empty sequence where that leaves the zero constant.
pub open spec fn numerator(f: Seq<nat>, y: nat) -> Seq<nat> {
    if f.len() == 1 && field_sub(f[0], y) == 0 {
        Seq::<nat>::empty()
    } else {
        f.update(0, field_sub(f[0], y))
    }
}

/// The numerator takes the value `f(t) - y` at every `t`.
proof fn lemma_numerator(f: Seq<nat>, y: nat, num: Seq<nat>)
    requires
        f.len() >= 1,
        num == numerator(f, y),
    ensures
        forall|t: nat| #[trigger] poly_eval(num, t) == field_sub(poly_eval(f, t), y),
{
    assert forall|t: nat| #[trigger] poly_eval(num, t) == field_sub(poly_eval(f, t), y) by {
        lemma_eval_sub_constant(f, y, t);
        if f.len() == 1 && field_sub(f[0], y) == 0 {
            assert(f.update(0, field_sub(f[0], y)) =~= seq![0nat]);
            lemma_eval_push_zero(Seq::<nat>::empty(), t);
            assert(Seq::<nat>::empty().push(0) =~= seq![0nat]);
        }
    }
}

/// A trimmed remainder of at most one coefficient is empty exactly when its
/// value is zero.
proof fn lemma_remainder_value(rem: Seq<nat>, x: nat)
    requires
        rem.len() <= 1,
        trimmed(rem),
        rem.len() == 1 ==> rem[0] < scalar_modulus(),
    ensures
        rem.len() == 0 <==> poly_eval(rem, x) == 0,
{
    if rem.len() == 1 {
        assert(rem.skip(1) =~= Seq::<nat>::empty());
        assert(poly_eval(rem.skip(1), x) == 0);
        assert(x * 0 == 0);
        lemma_small_mod(0, scalar_modulus());
        assert(field_mul(x, 0) == 0);
        lemma_small_mod(rem[0], scalar_modulus());
        assert(poly_eval(rem, x) == field_add(rem[0], 0));
        assert(rem.last() == rem[0]);
    }
}

/// Dividing `f - y` by `X - x` leaves no remainder exactly when `y` is the
/// value of `f` at `x`, and the quotient then satisfies the opening identity.
proof fn lemma_exact_division(
    f: Seq<nat>,
    x: nat,
    y: nat,
    num: Seq<nat>,
    den: Seq<nat>,
    q: Seq<nat>,
    rem: Seq<nat>,
)
    requires
        y < scalar_modulus(),
        forall|t: nat| #[trigger] poly_eval(num, t) == field_sub(poly_eval(f, t), y),
        den == seq![field_sub(0, x), 1nat],
        division_identity(num, den, q, rem),
        rem.len() <= 1,
        trimmed(rem),
        rem.len() == 1 ==> rem[0] < scalar_modulus(),
    ensures
        rem.len() == 0 <==> poly_eval(f, x) == y,
        rem.len() == 0 ==> is_quotient(f, x, y, normal_form(q)),
{
    // at the point itself the divisor vanishes, so the remainder is f(x) - y
    lemma_eval_linear(x, x);
    assert(field_sub(x, x) == 0) by {
        lemma_small_mod(0, scalar_modulus());
    }
    let qx = poly_eval(q, x);
    assert(poly_eval(num, x) == field_add(field_mul(qx, poly_eval(den, x)), poly_eval(rem, x)));
    lemma_mul_by_zero(qx);
    lemma_eval_range(rem, x);
    assert(field_add(0, poly_eval(rem, x)) == poly_eval(rem, x)) by {
        lemma_small_mod(poly_eval(rem, x), scalar_modulus());
    }
    assert(poly_eval(rem, x) == field_sub(poly_eval(f, x), y));
    lemma_remainder_value(rem, x);
    lemma_eval_range(f, x);
    lemma_sub_zero(poly_eval(f, x), y);
    if rem.len() == 0 {
        assert forall|t: nat|
            field_sub(poly_eval(f, t), y) == field_mul(
                #[trigger] poly_eval(normal_form(q), t),
                field_sub(t, x),
            ) by {
            lemma_normal_form_eval(q, t);
            lemma_eval_linear(x, t);
            let qt = poly_eval(q, t);
            assert(poly_eval(num, t) == field_add(
                field_mul(qt, poly_eval(den, t)),
                poly_eval(rem, t),
            ));
            assert(poly_eval(rem, t) == 0);
            lemma_mul_range(qt, field_sub(t, x));
            lemma_add_zero(field_mul(qt, field_sub(t, x)));
        }
    }
}

/// Calls `Polynomial::evaluate` of `ark_poly` on the dense polynomial with the
/// given coefficients. The contract claims that the result is the sum of the
/// coefficients times the powers of `x`, reduced. Coefficients and point are
/// reduced by the invariant of their type.
#[verifier::external_body]
fn poly_evaluate(coeffs: &Vec<FieldElement>, x: &FieldElement) -> (r: FieldElement)
    ensures
        r@ == poly_eval(values_of(coeffs@), x@),
{
    let c: Vec<Fr> = coeffs.iter().map(|e| BigInt(e.limbs).into()).collect();
    let p = DensePolynomial::from_coefficients_vec(c);
    let y = ark_poly::Polynomial::evaluate(&p, &BigInt(x.limbs).into());
    FieldElement { limbs: y.into_bigint().0 }
}

/// Calls `DenseOrSparsePolynomial::divide_with_q_and_r` of `ark_poly`. The
/// contract claims that quotient and remainder satisfy `num = q * den + rem`
/// at every point, that the remainder is shorter than the divisor, that both
/// come without a zero on top, and that the quotient has the length that the
/// degrees give. The divisor is not zero, which the outside function would
/// not accept.
#[verifier::external_body]
fn poly_divide(num: &Vec<FieldElement>, den: &Vec<FieldElement>) -> (r: (
    Vec<FieldElement>,
    Vec<FieldElement>,
))
    requires
        trimmed(values_of(num@)),
        den@.len() >= 1,
        values_of(den@).last() != 0,
    ensures
        division_identity(values_of(num@), values_of(den@), values_of(r.0@), values_of(r.1@)),
        r.1@.len() < den@.len(),
        trimmed(values_of(r.0@)),
        trimmed(values_of(r.1@)),
        r.0@.len() == (if num@.len() >= den@.len() {
            num@.len() - den@.len() + 1
        } else {
            0
        }),
{
    let f = |v: &Vec<FieldElement>|
        DensePolynomial::from_coefficients_vec(
            v.iter().map(|e| Fr::from(BigInt(e.limbs))).collect(),
        );
    let (a, b) = (f(num), f(den));
    let (q, r) = DenseOrSparsePolynomial::from(&a).divide_with_q_and_r(&(&b).into()).unwrap();
    let g = |p: DensePolynomial<Fr>|
        p.coeffs.iter().map(|c| FieldElement { limbs: c.into_bigint().0 }).collect();
    (g(q), g(r))
}

/// Calls `GeneralEvaluationDomain::new` of `ark_poly` for the BN254 scalar
/// field and reads the domain's size and generator. The contract claims that
/// a domain exists up to `2^28` points, that its size is the next power of
/// two, and that its generator, which it names, has exactly that order.
#[verifier::external_body]
fn domain_parameters(n: usize) -> (r: Option<(usize, FieldElement)>)
    ensures
        r is Some <==> n <= max_domain_size(),
        r matches Some((size, w)) ==> size == next_power_of_two(n as nat) && w@
            == root_of_unity_value(size as nat) && is_primitive_root(w@, size as nat),
{
    let d = GeneralEvaluationDomain::<Fr>::new(n)?;
    Some((d.size(), FieldElement { limbs: d.group_gen().into_bigint().0 }))
}

/// Calls `Evaluations::interpolate` of `ark_poly` over the domain that
/// `GeneralEvaluationDomain::new` gives for `values.len()` points, which has
/// exactly that size. The contract claims that the result, of at most that
/// many coefficients, takes the given values at the powers of the domain's
/// generator.
#[verifier::external_body]
fn interpolate(values: &Vec<FieldElement>) -> (r: Vec<FieldElement>)
    requires
        domain_size_ok(values@.len()),
    ensures
        r@.len() <= values@.len(),
        interpolates(values_of(r@), root_of_unity_value(values@.len()), values_of(values@)),
{
    let v: Vec<Fr> = values.iter().map(|e| BigInt(e.limbs).into()).collect();
    let d = GeneralEvaluationDomain::<Fr>::new(v.len()).unwrap();
    let p = Evaluations::from_vec_and_domain(v, d).interpolate();
    p.coeffs.iter().map(|c| FieldElement { limbs: c.into_bigint().0 }).collect()
}

} // verus!
