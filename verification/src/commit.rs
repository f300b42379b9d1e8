use crate::curve::{
    g1_generator_coords, g1_msm, g1_msm_spec, g1_mul_value, g1_sub_value, g1_views,
    g2_generator_coords, g2_mul_value, g2_sub_value, g2_views, pairing, pairing_value, AffineG1,
    AffineG2, G1Point, G2Point,
};
use crate::error::Error;
use crate::field::{field_pow, FieldElement};
use crate::poly::{is_quotient, poly_eval, vanish, Polynomial};
use vstd::prelude::*;

verus! {

/// The commitment to the coefficients `coeffs` under the powers `srs`:
/// the multi-scalar product `sum coeffs[j] * srs[j]`.
pub open spec fn spec_commit(coeffs: Seq<nat>, srs: Seq<AffineG1>) -> AffineG1 {
    g1_msm_spec(srs, coeffs)
}

/// The pairing equation `e(c - y G1, G2) == e(proof, tau G2 - x G2)`.
pub open spec fn spec_verify(tau_g2: AffineG2, x: nat, c: AffineG1, y: nat, proof: AffineG1) -> bool {
    pairing_value(g1_sub_value(c, g1_mul_value(g1_generator_coords(), y)), g2_generator_coords())
        == pairing_value(proof, g2_sub_value(tau_g2, g2_mul_value(g2_generator_coords(), x)))
}

/// The length that the quotient of a polynomial of `n` coefficients by a
/// linear factor has.
pub open spec fn quotient_len(n: nat) -> nat {
    if n >= 2 {
        (n - 1) as nat
    } else {
        1
    }
}

/// `(y, proof)` opens the polynomial `f` at `x` under `srs`: `y` is the value
/// there, and `proof` commits to the exact quotient of `f - y` by `X - x`.
pub open spec fn is_opening(f: Seq<nat>, srs: Seq<AffineG1>, x: nat, y: nat, proof: AffineG1) -> bool {
    &&& y == poly_eval(f, x)
    &&& exists|q: Seq<nat>|
        is_quotient(f, x, y, q) && q.len() == quotient_len(f.len()) && proof == #[trigger] spec_commit(
            q,
            srs,
        )
}

/// The commitment to `poly` under the reference string `srs_g1`, which must
/// offer a power for every coefficient.
pub fn commit(poly: &Polynomial, srs_g1: &[G1Point]) -> (c: G1Point)
    requires
        poly@.len() <= srs_g1@.len(),
    ensures
        c@ == spec_commit(poly@, g1_views(srs_g1@)),
{
    g1_msm(srs_g1, poly.coeffs().as_slice())
}

fn limbs_seq_equal(a: &Vec<u64>, b: &Vec<u64>) -> (r: bool)
    ensures
        r == (a@ == b@),
{
    if a.len() != b.len() {
        return false;
    }
    let mut k: usize = 0;
    while k < a.len()
        invariant
            k <= a@.len(),
            a@.len() == b@.len(),
            forall|j: int| 0 <= j < k ==> a@[j] == b@[j],
        decreases a@.len() - k,
    {
        if a[k] != b[k] {
            return false;
        }
        k += 1;
    }
    proof {
        assert(a@ =~= b@);
    }
    true
}

/// A polynomial with the domain generator and reference string it is
/// committed under. Once set up it never changes.
#[derive(Debug)]
pub struct CommitmentScheme {
    poly: Polynomial,
    w: FieldElement,
    srs_g1: Vec<G1Point>,
    srs_g2: Vec<G2Point>,
}

impl CommitmentScheme {
    /// One power in the first group for each coefficient, and the generator
    /// with its first power in the second.
    #[verifier::type_invariant]
    pub closed spec fn ready(self) -> bool {
        self.poly@.len() == self.srs_g1@.len() && self.srs_g2@.len() == 2
    }

    pub closed spec fn polynomial(self) -> Seq<nat> {
        self.poly@
    }

    pub closed spec fn generator(self) -> nat {
        self.w@
    }

    pub closed spec fn g1_powers(self) -> Seq<AffineG1> {
        g1_views(self.srs_g1@)
    }

    pub closed spec fn g2_powers(self) -> Seq<AffineG2> {
        g2_views(self.srs_g2@)
    }

    /// The `x_idx`-th point of the evaluation domain.
    pub open spec fn point(self, x_idx: u64) -> nat {
        field_pow(self.generator(), x_idx as nat)
    }

    /// The scheme for `poly` over the domain generated by `w`, if the
    /// reference string has exactly one power in the first group for each
    /// coefficient and exactly two entries in the second.
    pub fn setup(poly: Polynomial, w: FieldElement, srs_g1: Vec<G1Point>, srs_g2: Vec<G2Point>) -> (r:
        Result<CommitmentScheme, Error>)
        ensures
            r is Ok <==> poly@.len() == srs_g1@.len() && srs_g2@.len() == 2,
            r matches Ok(cs) ==> cs.polynomial() == poly@ && cs.generator() == w@ && cs.g1_powers()
                == g1_views(srs_g1@) && cs.g2_powers() == g2_views(srs_g2@),
            r matches Err(e) ==> e == Error::SetupSize,
    {
        if poly.len() != srs_g1.len() || srs_g2.len() != 2 {
            return Err(Error::SetupSize);
        }
        Ok(CommitmentScheme { poly, w, srs_g1, srs_g2 })
    }

    /// The commitment to the scheme's polynomial.
    pub fn commit(&self) -> (c: G1Point)
        ensures
            c@ == spec_commit(self.polynomial(), self.g1_powers()),
            self.polynomial().len() == self.g1_powers().len(),
            self.g2_powers().len() == 2,
    {
        proof {
            use_type_invariant(self);
        }
        commit(&self.poly, self.srs_g1.as_slice())
    }

    /// The opening at the `x_idx`-th domain point: the value there and the
    /// commitment to the quotient. It never fails.
    pub fn open(&self, x_idx: u64) -> (r: Result<(FieldElement, G1Point), Error>)
        ensures
            r matches Ok((y, proof)) && is_opening(
                self.polynomial(),
                self.g1_powers(),
                self.point(x_idx),
                y@,
                proof@,
            ),
    {
        proof {
            use_type_invariant(self);
            use_type_invariant(&self.poly);
        }
        let x = self.w.pow(x_idx);
        let y = self.poly.evaluate(&x);
        match vanish(&self.poly, x, y) {
            Ok(q) => {
                let point = commit(&q, self.srs_g1.as_slice());
                proof {
                    assert(is_quotient(self.poly@, x@, y@, q@) && q@.len() == quotient_len(
                        self.poly@.len(),
                    ) && point@ == spec_commit(q@, g1_views(self.srs_g1@)));
                }
                Ok((y, point))
            },
            Err(e) => Err(e),
        }
    }

    /// Whether `proof` shows that the polynomial committed to by `commit`
    /// takes the value `y` at the `x_idx`-th domain point.
    pub fn verify(&self, commit: G1Point, y: FieldElement, proof: G1Point, x_idx: u64) -> (b: bool)
        ensures
            b == spec_verify(self.g2_powers()[1], self.point(x_idx), commit@, y@, proof@),
    {
        proof {
            use_type_invariant(self);
        }
        let x = self.w.pow(x_idx);
        let y_g1 = G1Point::generator().mul(&y);
        let lhs = pairing(&commit.sub(&y_g1), &G2Point::generator());
        let x_g2 = G2Point::generator().mul(&x);
        let rhs = pairing(&proof, &self.srs_g2[1].sub(&x_g2));
        limbs_seq_equal(&lhs, &rhs)
    }
}

/// The reference string of `size` powers that the secret `tau` gives:
/// `tau^i G1` for each `i` below `size`, and `G2` with `tau G2`.
pub fn srs_from_secret(tau: &FieldElement, size: usize) -> (r: (Vec<G1Point>, Vec<G2Point>))
    ensures
        r.0@.len() == size,
        forall|i: int|
            0 <= i < size ==> (#[trigger] r.0@[i])@ == g1_mul_value(
                g1_generator_coords(),
                field_pow(tau@, i as nat),
            ),
        r.1@.len() == 2,
        r.1@[0]@ == g2_generator_coords(),
        r.1@[1]@ == g2_mul_value(g2_generator_coords(), tau@),
{
    let g = G1Point::generator();
    let mut g1: Vec<G1Point> = Vec::new();
    let mut i: usize = 0;
    while i < size
        invariant
            i <= size,
            g1@.len() == i,
            g@ == g1_generator_coords(),
            forall|j: int|
                0 <= j < i ==> (#[trigger] g1@[j])@ == g1_mul_value(
                    g1_generator_coords(),
                    field_pow(tau@, j as nat),
                ),
        decreases size - i,
    {
        let power = tau.pow(i as u64);
        g1.push(g.mul(&power));
        i += 1;
    }
    let h = G2Point::generator();
    let mut g2: Vec<G2Point> = Vec::new();
    g2.push(h);
    g2.push(h.mul(tau));
    (g1, g2)
}

} // verus!
