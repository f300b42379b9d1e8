use crate::commit::{is_opening, spec_commit};
use crate::curve::{g1_views, AffineG1, G1Point};
use crate::field::{
    field_mul, field_pow, field_sub, lemma_mul_assoc, lemma_mul_comm, lemma_mul_one, lemma_pow_add,
    lemma_pow_range, lemma_sub_zero, scalar_modulus,
};
use crate::poly::{
    interpolates, is_primitive_root, is_quotient, lemma_eval_range, poly_eval, Polynomial,
};
use vstd::arithmetic::div_mod::lemma_small_mod;
use vstd::prelude::*;

verus! {

/// Committing is a function of the coefficients and the reference string:
/// polynomials with equal coefficients have equal commitments under equal
/// strings.
pub proof fn lemma_commit_deterministic(a: Polynomial, b: Polynomial, srs: Seq<G1Point>, other: Seq<G1Point>)
    requires
        a@ == b@,
        g1_views(srs) == g1_views(other),
    ensures
        spec_commit(a@, g1_views(srs)) == spec_commit(b@, g1_views(other)),
{
}

/// Distinct indices below the domain size denote distinct points of the
/// domain.
pub proof fn lemma_domain_points_distinct(w: nat, n: nat, i: nat, j: nat)
    requires
        is_primitive_root(w, n),
        i < n,
        j < n,
        i != j,
    ensures
        field_pow(w, i) != field_pow(w, j),
    decreases
            (if i < j {
                0nat
            } else {
                1nat
            }),
{
    if j < i {
        lemma_domain_points_distinct(w, n, j, i);
    } else if field_pow(w, i) == field_pow(w, j) {
        let d = (j - i) as nat;
        let back = field_pow(w, (n - i) as nat);
        let step = field_pow(w, d);
        let at = field_pow(w, i);
        lemma_pow_add(w, d, i);
        lemma_pow_add(w, (n - i) as nat, i);
        assert(field_pow(w, j) == field_mul(step, at));
        assert(field_mul(back, at) == 1);
        lemma_pow_range(w, d);
        lemma_mul_one(step);
        // step = step * (back * at) = back * (step * at) = back * at = 1
        lemma_mul_comm(back, at);
        lemma_mul_assoc(step, at, back);
        lemma_mul_comm(field_mul(step, at), back);
        lemma_mul_comm(at, back);
        assert(step == 1);
        assert(field_pow(w, d) != 1);
    }
}

/// Indices wrap around the domain: a whole turn more denotes the same point.
pub proof fn lemma_domain_wraps(w: nat, n: nat, i: nat)
    requires
        is_primitive_root(w, n),
    ensures
        field_pow(w, i + n) == field_pow(w, i),
{
    lemma_pow_add(w, i, n);
    lemma_pow_range(w, i);
    lemma_mul_one(field_pow(w, i));
}

/// Opening the interpolating polynomial at the `i`-th domain point gives
/// back the `i`-th value.
pub proof fn lemma_opening_returns_value(
    f: Seq<nat>,
    w: nat,
    values: Seq<nat>,
    srs: Seq<AffineG1>,
    i: nat,
    y: nat,
    proof_point: AffineG1,
)
    requires
        interpolates(f, w, values),
        i < values.len(),
        is_opening(f, srs, field_pow(w, i), y, proof_point),
    ensures
        y == values[i as int],
{
}

/// Only the true value has a quotient: if the opening identity
/// `f(t) - y = q(t) * (t - x)` holds at every `t` for some `q`, then `y` is the
/// value of `f` at `x`.
pub proof fn lemma_quotient_fixes_value(f: Seq<nat>, x: nat, y: nat, q: Seq<nat>)
    requires
        y < scalar_modulus(),
        is_quotient(f, x, y, q),
    ensures
        y == poly_eval(f, x),
{
    let qx = poly_eval(q, x);
    assert(field_sub(poly_eval(f, x), y) == field_mul(qx, field_sub(x, x)));
    assert(field_sub(x, x) == 0) by {
        lemma_small_mod(0, scalar_modulus());
    }
    assert(qx * 0 == 0);
    lemma_small_mod(0, scalar_modulus());
    lemma_eval_range(f, x);
    lemma_sub_zero(poly_eval(f, x), y);
}

/// Two values that open the same polynomial at the same point are equal.
pub proof fn lemma_opened_value_unique(f: Seq<nat>, x: nat, y: nat, q: Seq<nat>, other: nat, r: Seq<nat>)
    requires
        y < scalar_modulus(),
        other < scalar_modulus(),
        is_quotient(f, x, y, q),
        is_quotient(f, x, other, r),
    ensures
        y == other,
{
    lemma_quotient_fixes_value(f, x, y, q);
    lemma_quotient_fixes_value(f, x, other, r);
}

} // verus!
