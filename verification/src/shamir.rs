//! Threshold secret sharing of weight vectors.
//!
//! Splitting applies the Shamir scheme independently per coordinate: the
//! secret is the constant term of a polynomial over the field whose remaining
//! `threshold - 1` coefficients are drawn uniformly at random, and shareholder
//! `k` (1-indexed) receives the polynomial's value at `k`. Any `threshold`
//! distinct shares determine the polynomial, and with it the secret, by
//! Lagrange interpolation at zero; reconstruction is exact because the
//! arithmetic is exact.

use vstd::prelude::*;
use crate::field::{
    FIELD_P, MAX_SHARES, fadd, fmul, fsub, finv, add_mod, mul_mod, sub_mod, small_inverse,
    lemma_fmul_one, lemma_fmul_shuffle, lemma_finv_is, lemma_fmul_negated_pair,
};
use crate::errors::ShamirError;

verus! {

/// Horner evaluation over the field of the polynomial with coefficient
/// sequence `coeffs` (constant term first) at the point `x`.
pub open spec fn poly_eval(coeffs: Seq<u64>, x: u64) -> u64
    decreases coeffs.len(),
{
    if coeffs.len() == 0 {
        0u64
    } else {
        fadd(coeffs[0], fmul(x, poly_eval(coeffs.drop_first(), x)))
    }
}

/// Coefficient matrix `cm` is a valid per-coordinate choice of sharing
/// polynomials for `weights` at threshold `t`: one polynomial of `t`
/// coefficients per coordinate, whose constant term is that coordinate.
pub open spec fn coeffs_ok(weights: Seq<u64>, cm: Seq<Seq<u64>>, t: int) -> bool {
    &&& cm.len() == weights.len()
    &&& forall|c: int|
        0 <= c < cm.len() ==> {
            &&& (#[trigger] cm[c]).len() == t
            &&& cm[c][0] == weights[c]
            &&& forall|k: int| 0 <= k < t ==> (#[trigger] cm[c][k]) < FIELD_P
        }
}

/// Share matrix `shares` (one row per shareholder) is the evaluation of the
/// polynomials in `cm` at the shareholder indices `1 ..= n`.
pub open spec fn shares_of_coeffs(cm: Seq<Seq<u64>>, shares: Seq<Seq<u64>>, n: int) -> bool {
    &&& shares.len() == n
    &&& forall|k: int| 0 <= k < n ==> (#[trigger] shares[k]).len() == cm.len()
    &&& forall|k: int, c: int|
        0 <= k < n && 0 <= c < cm.len() ==> (#[trigger] shares[k][c]) == poly_eval(
            cm[c],
            (k + 1) as u64,
        )
}

/// `shares` is some valid `n`-way, threshold-`t` sharing of `weights`.
pub open spec fn is_sharing_of(weights: Seq<u64>, shares: Seq<Seq<u64>>, n: int, t: int) -> bool {
    exists|cm: Seq<Seq<u64>>|
        coeffs_ok(weights, cm, t) && shares_of_coeffs(cm, shares, n)
}

/// The sequence of row views of a share matrix.
pub open spec fn rows_view(m: Seq<Vec<u64>>) -> Seq<Seq<u64>> {
    Seq::new(m.len(), |i: int| m[i]@)
}

/// Relies on rand::random_range: a uniform sample in the given half-open
/// range, so in particular below the field modulus.
#[verifier::external_body]
fn random_field_element() -> (r: u64)
    ensures
        r < FIELD_P,
{
    rand::random_range(0..FIELD_P)
}

/// Evaluates a sharing polynomial at `x` by Horner's rule.
pub fn eval_poly(coeffs: &Vec<u64>, x: u64) -> (r: u64)
    requires
        forall|i: int| 0 <= i < coeffs@.len() ==> #[trigger] coeffs@[i] < FIELD_P,
        x < FIELD_P,
    ensures
        r == poly_eval(coeffs@, x),
        r < FIELD_P,
{
    let mut acc: u64 = 0;
    let mut k = coeffs.len();
    while k > 0
        invariant
            k <= coeffs@.len(),
            forall|i: int| 0 <= i < coeffs@.len() ==> #[trigger] coeffs@[i] < FIELD_P,
            x < FIELD_P,
            acc == poly_eval(coeffs@.skip(k as int), x),
            acc < FIELD_P,
        decreases k,
    {
        k = k - 1;
        acc = add_mod(coeffs[k], mul_mod(x, acc));
        proof {
            assert(coeffs@.skip(k as int).drop_first() =~= coeffs@.skip(k as int + 1));
            assert(coeffs@.skip(k as int)[0] == coeffs@[k as int]);
        }
    }
    proof {
        assert(coeffs@.skip(0) =~= coeffs@);
    }
    acc
}

/// Splits a weight vector of field elements into `num_shares` shares, any
/// `threshold` of which reconstruct it. The polynomial coefficients above the
/// constant term are drawn from a process-local random source; whatever they
/// came out as, the result is a valid sharing for some such choice.
pub fn secret_share_weights(weights: &Vec<u64>, num_shares: usize, threshold: usize) -> (r:
    Result<Vec<Vec<u64>>, ShamirError>)
    requires
        forall|c: int| 0 <= c < weights@.len() ==> #[trigger] weights@[c] < FIELD_P,
    ensures
        r is Ok <==> (1 <= threshold <= num_shares <= MAX_SHARES),
        r matches Ok(shares) ==> {
            &&& shares@.len() == num_shares
            &&& forall|k: int|
                0 <= k < num_shares ==> (#[trigger] shares@[k])@.len() == weights@.len()
                    && forall|c: int| 0 <= c < weights@.len() ==> (#[trigger] shares@[k]@[c]) < FIELD_P
            &&& is_sharing_of(weights@, rows_view(shares@), num_shares as int, threshold as int)
        },
        r matches Err(e) ==> {
            &&& (e == ShamirError::InvalidParameters <==> (threshold == 0 || threshold
                > num_shares))
            &&& (e == ShamirError::TooManyShares <==> (1 <= threshold <= num_shares && num_shares
                > MAX_SHARES))
        },
{
    if threshold == 0 || threshold > num_shares {
        return Err(ShamirError::InvalidParameters);
    }
    if num_shares > MAX_SHARES {
        return Err(ShamirError::TooManyShares);
    }
    // One sharing polynomial per coordinate: the coordinate itself, then
    // threshold - 1 random coefficients.
    let mut polys: Vec<Vec<u64>> = Vec::new();
    let mut c: usize = 0;
    while c < weights.len()
        invariant
            c <= weights@.len(),
            forall|i: int| 0 <= i < weights@.len() ==> #[trigger] weights@[i] < FIELD_P,
            polys@.len() == c,
            forall|i: int|
                0 <= i < c ==> {
                    &&& (#[trigger] polys@[i])@.len() == threshold
                    &&& polys@[i]@[0] == weights@[i]
                    &&& forall|k: int| 0 <= k < threshold ==> (#[trigger] polys@[i]@[k]) < FIELD_P
                },
            1 <= threshold,
        decreases weights@.len() - c,
    {
        let mut poly: Vec<u64> = Vec::new();
        poly.push(weights[c]);
        let mut k: usize = 1;
        while k < threshold
            invariant
                1 <= k <= threshold,
                poly@.len() == k,
                poly@[0] == weights@[c as int],
                c < weights@.len(),
                forall|i: int| 0 <= i < weights@.len() ==> #[trigger] weights@[i] < FIELD_P,
                forall|i: int| 0 <= i < k ==> (#[trigger] poly@[i]) < FIELD_P,
            decreases threshold - k,
        {
            poly.push(random_field_element());
            k = k + 1;
        }
        polys.push(poly);
        c = c + 1;
    }
    // Shareholder k (1-indexed) receives every polynomial's value at k.
    let mut shares: Vec<Vec<u64>> = Vec::new();
    let mut k: usize = 0;
    while k < num_shares
        invariant
            k <= num_shares,
            num_shares <= MAX_SHARES,
            polys@.len() == weights@.len(),
            forall|i: int|
                0 <= i < weights@.len() ==> {
                    &&& (#[trigger] polys@[i])@.len() == threshold
                    &&& forall|q: int| 0 <= q < threshold ==> (#[trigger] polys@[i]@[q]) < FIELD_P
                },
            shares@.len() == k,
            forall|i: int|
                0 <= i < k ==> (#[trigger] shares@[i])@.len() == weights@.len() && forall|q: int|
                    0 <= q < weights@.len() ==> (#[trigger] shares@[i]@[q]) < FIELD_P,
            forall|i: int, q: int|
                0 <= i < k && 0 <= q < weights@.len() ==> (#[trigger] shares@[i]@[q]) == poly_eval(
                    polys@[q]@,
                    (i + 1) as u64,
                ),
            1 <= threshold,
        decreases num_shares - k,
    {
        let x = (k as u64) + 1;
        let mut row: Vec<u64> = Vec::new();
        let mut q: usize = 0;
        while q < polys.len()
            invariant
                q <= polys@.len(),
                x == k + 1,
                x < FIELD_P,
                forall|i: int|
                    0 <= i < polys@.len() ==> {
                        &&& (#[trigger] polys@[i])@.len() == threshold
                        &&& forall|j: int| 0 <= j < threshold ==> (#[trigger] polys@[i]@[j]) < FIELD_P
                    },
                row@.len() == q,
                forall|i: int|
                    0 <= i < q ==> (#[trigger] row@[i]) == poly_eval(polys@[i]@, x) && row@[i]
                        < FIELD_P,
                1 <= threshold,
            decreases polys@.len() - q,
        {
            let v = eval_poly(&polys[q], x);
            row.push(v);
            q = q + 1;
        }
        shares.push(row);
        k = k + 1;
    }
    proof {
        let cm = rows_view(polys@);
        assert(coeffs_ok(weights@, cm, threshold as int));
        assert(shares_of_coeffs(cm, rows_view(shares@), num_shares as int));
    }
    Ok(shares)
}

/// Product over `j` in `[k, xs.len())`, `j != i`, of `xs[j]`: the running
/// numerator of the Lagrange basis coefficient at zero for point `i`.
pub open spec fn num_prod_from(xs: Seq<u64>, i: int, k: int) -> u64
    decreases xs.len() - k,
{
    if k >= xs.len() {
        1u64
    } else if k == i {
        num_prod_from(xs, i, k + 1)
    } else {
        fmul(xs[k], num_prod_from(xs, i, k + 1))
    }
}

/// Product over `j` in `[k, xs.len())`, `j != i`, of `xs[j] - xs[i]`: the
/// running denominator of the Lagrange basis coefficient at zero for `i`.
pub open spec fn den_prod_from(xs: Seq<u64>, i: int, k: int) -> u64
    decreases xs.len() - k,
{
    if k >= xs.len() {
        1u64
    } else if k == i {
        den_prod_from(xs, i, k + 1)
    } else {
        fmul(fsub(xs[k], xs[i]), den_prod_from(xs, i, k + 1))
    }
}

/// The Lagrange basis coefficient at zero for point `i` of the interpolation
/// points with abscissas `xs`.
pub open spec fn lagrange_coeff(xs: Seq<u64>, i: int) -> u64 {
    fmul(num_prod_from(xs, i, 0), finv(den_prod_from(xs, i, 0)))
}

/// Partial Lagrange interpolation sum at zero over the points from `k` on.
pub open spec fn lagrange_zero_from(xs: Seq<u64>, ys: Seq<u64>, k: int) -> u64
    decreases xs.len() - k,
{
    if k >= xs.len() {
        0u64
    } else {
        fadd(fmul(ys[k], lagrange_coeff(xs, k)), lagrange_zero_from(xs, ys, k + 1))
    }
}

/// Lagrange interpolation at zero of the points `(xs[i], ys[i])`: the value
/// at zero of the unique polynomial of degree below `xs.len()` through them.
pub open spec fn lagrange_zero(xs: Seq<u64>, ys: Seq<u64>) -> u64 {
    lagrange_zero_from(xs, ys, 0)
}

/// The shareholder indices of a share subset.
pub open spec fn share_xs(shares: Seq<(u64, Vec<u64>)>) -> Seq<u64> {
    Seq::new(shares.len(), |i: int| shares[i].0)
}

/// The values the share subset holds for coordinate `j`.
pub open spec fn share_ys(shares: Seq<(u64, Vec<u64>)>, j: int) -> Seq<u64> {
    Seq::new(shares.len(), |i: int| shares[i].1@[j])
}

/// What reconstruction demands of a share subset: exactly `t >= 1` shares,
/// indices in the supported range and pairwise distinct, vectors of one
/// common length, every value a field element.
pub open spec fn combine_input_ok(shares: Seq<(u64, Vec<u64>)>, t: int) -> bool {
    &&& 1 <= t
    &&& shares.len() == t
    &&& forall|i: int| 0 <= i < t ==> 1 <= (#[trigger] shares[i]).0 <= MAX_SHARES as u64
    &&& forall|i: int, k: int| 0 <= i < k < t ==> shares[i].0 != shares[k].0
    &&& forall|i: int| 0 <= i < t ==> (#[trigger] shares[i]).1@.len() == shares[0].1@.len()
    &&& forall|i: int, j: int|
        0 <= i < t && 0 <= j < shares[0].1@.len() ==> (#[trigger] shares[i].1@[j]) < FIELD_P
}

/// Reconstructs a secret vector from `threshold` shares, each a shareholder
/// index paired with that shareholder's vector of share values, by Lagrange
/// interpolation at zero, coordinate by coordinate.
pub fn combine(shares: &Vec<(u64, Vec<u64>)>, threshold: usize) -> (r: Result<
    Vec<u64>,
    ShamirError,
>)
    ensures
        r is Ok <==> combine_input_ok(shares@, threshold as int),
        r matches Ok(v) ==> {
            &&& v@.len() == shares@[0].1@.len()
            &&& forall|j: int|
                0 <= j < v@.len() ==> (#[trigger] v@[j]) == lagrange_zero(
                    share_xs(shares@),
                    share_ys(shares@, j),
                ) && v@[j] < FIELD_P
        },
        r matches Err(e) ==> {
            &&& (e == ShamirError::InvalidParameters ==> (threshold == 0 || shares@.len()
                != threshold))
            &&& (e == ShamirError::BadShareIndex ==> exists|i: int|
                0 <= i < shares@.len() && !(1 <= (#[trigger] shares@[i]).0 <= MAX_SHARES as u64))
            &&& (e == ShamirError::DuplicateShareIndex ==> exists|i: int, k: int|
                0 <= i < k < shares@.len() && (#[trigger] shares@[i]).0 == (#[trigger] shares@[k]).0)
            &&& (e == ShamirError::LengthMismatch ==> exists|i: int|
                0 <= i < shares@.len() && (#[trigger] shares@[i]).1@.len() != shares@[0].1@.len())
            &&& (e == ShamirError::ShareValueOutOfField ==> exists|i: int, j: int|
                0 <= i < shares@.len() && 0 <= j < shares@[i].1@.len() && (#[trigger] shares@[i].1@[j])
                    >= FIELD_P)
        },
{
    let t = shares.len();
    if threshold == 0 || t != threshold {
        return Err(ShamirError::InvalidParameters);
    }
    let mut i: usize = 0;
    while i < t
        invariant
            i <= t,
            t == shares@.len(),
            forall|q: int| 0 <= q < i ==> 1 <= (#[trigger] shares@[q]).0 <= MAX_SHARES as u64,
        decreases t - i,
    {
        if shares[i].0 == 0 || shares[i].0 > MAX_SHARES as u64 {
            return Err(ShamirError::BadShareIndex);
        }
        i = i + 1;
    }
    i = 0;
    while i < t
        invariant
            i <= t,
            t == shares@.len(),
            forall|q: int, w: int| 0 <= q < w < t && q < i ==> (#[trigger] shares@[q]).0 != (
            #[trigger] shares@[w]).0,
        decreases t - i,
    {
        let mut k: usize = i + 1;
        while k < t
            invariant
                i < k <= t || (i + 1 == k && k <= t),
                i < t,
                t == shares@.len(),
                forall|w: int| i < w < k ==> (#[trigger] shares@[w]).0 != shares@[i as int].0,
            decreases t - k,
        {
            if shares[i].0 == shares[k].0 {
                return Err(ShamirError::DuplicateShareIndex);
            }
            k = k + 1;
        }
        i = i + 1;
    }
    let width = shares[0].1.len();
    i = 0;
    while i < t
        invariant
            i <= t,
            t == shares@.len(),
            width == shares@[0].1@.len(),
            forall|q: int| 0 <= q < i ==> (#[trigger] shares@[q]).1@.len() == width,
        decreases t - i,
    {
        if shares[i].1.len() != width {
            return Err(ShamirError::LengthMismatch);
        }
        i = i + 1;
    }
    i = 0;
    while i < t
        invariant
            i <= t,
            t == shares@.len(),
            width == shares@[0].1@.len(),
            forall|q: int| 0 <= q < t ==> (#[trigger] shares@[q]).1@.len() == width,
            forall|q: int, j: int|
                0 <= q < i && 0 <= j < width ==> (#[trigger] shares@[q].1@[j]) < FIELD_P,
        decreases t - i,
    {
        let mut j: usize = 0;
        while j < width
            invariant
                j <= width,
                i < t,
                t == shares@.len(),
                width == shares@[0].1@.len(),
                forall|q: int| 0 <= q < t ==> (#[trigger] shares@[q]).1@.len() == width,
                forall|q: int, w: int|
                    0 <= q < i && 0 <= w < width ==> (#[trigger] shares@[q].1@[w]) < FIELD_P,
                forall|w: int| 0 <= w < j ==> (#[trigger] shares@[i as int].1@[w]) < FIELD_P,
            decreases width - j,
        {
            if shares[i].1[j] >= FIELD_P {
                return Err(ShamirError::ShareValueOutOfField);
            }
            j = j + 1;
        }
        i = i + 1;
    }
    proof {
        assert(combine_input_ok(shares@, threshold as int));
    }
    let ghost xs = share_xs(shares@);
    // The Lagrange basis coefficient at zero for each share, built together
    // with a running inverse of its denominator product.
    let mut lambdas: Vec<u64> = Vec::new();
    i = 0;
    while i < t
        invariant
            i <= t,
            t == shares@.len(),
            t == threshold,
            width == shares@[0].1@.len(),
            combine_input_ok(shares@, threshold as int),
            xs == share_xs(shares@),
            lambdas@.len() == i,
            forall|q: int|
                0 <= q < i ==> (#[trigger] lambdas@[q]) == lagrange_coeff(xs, q) && lambdas@[q]
                    < FIELD_P,
        decreases t - i,
    {
        let xi = shares[i].0;
        proof {
            assert(xi == xs[i as int]);
        }
        let mut num: u64 = 1;
        let mut den: u64 = 1;
        let mut dinv: u64 = 1;
        let mut k: usize = t;
        while k > 0
            invariant
                k <= t,
                i < t,
                t == shares@.len(),
                combine_input_ok(shares@, t as int),
                xs == share_xs(shares@),
                xi == xs[i as int],
                num == num_prod_from(xs, i as int, k as int),
                num < FIELD_P,
                den == den_prod_from(xs, i as int, k as int),
                den < FIELD_P,
                dinv < FIELD_P,
                fmul(den, dinv) == 1,
            decreases k,
        {
            k = k - 1;
            if k != i {
                let xk = shares[k].0;
                proof {
                    assert(xk == xs[k as int]);
                    if k < i {
                        assert(shares@[k as int].0 != shares@[i as int].0);
                    } else {
                        assert(shares@[i as int].0 != shares@[k as int].0);
                    }
                }
                let ghost old_num = num;
                let ghost old_den = den;
                let ghost old_dinv = dinv;
                num = mul_mod(xk, num);
                let d = sub_mod(xk, xi);
                let fi: u64;
                if xk > xi {
                    fi = small_inverse(xk - xi);
                    proof {
                        vstd::arithmetic::div_mod::lemma_small_mod(
                            (xk - xi) as nat,
                            FIELD_P as nat,
                        );
                        assert(d == xk - xi);
                    }
                } else {
                    let si = small_inverse(xi - xk);
                    fi = FIELD_P - si;
                    proof {
                        vstd::arithmetic::div_mod::lemma_mod_add_multiples_vanish(
                            xk as int - xi as int,
                            FIELD_P as int,
                        );
                        vstd::arithmetic::div_mod::lemma_small_mod(
                            (xk as int - xi as int + FIELD_P as int) as nat,
                            FIELD_P as nat,
                        );
                        assert(d == (FIELD_P - (xi - xk)) as u64);
                        lemma_fmul_negated_pair((xi - xk) as u64, si);
                    }
                }
                den = mul_mod(d, den);
                dinv = mul_mod(fi, dinv);
                proof {
                    lemma_fmul_shuffle(d, old_den, fi, old_dinv);
                    assert(fmul(den, dinv) == 1);
                }
            }
        }
        proof {
            lemma_finv_is(den, dinv);
        }
        lambdas.push(mul_mod(num, dinv));
        i = i + 1;
    }
    // Interpolate each coordinate at zero.
    let mut out: Vec<u64> = Vec::new();
    let mut j: usize = 0;
    while j < width
        invariant
            j <= width,
            t == shares@.len(),
            t == threshold,
            width == shares@[0].1@.len(),
            combine_input_ok(shares@, threshold as int),
            xs == share_xs(shares@),
            lambdas@.len() == t,
            forall|q: int|
                0 <= q < t ==> (#[trigger] lambdas@[q]) == lagrange_coeff(xs, q) && lambdas@[q]
                    < FIELD_P,
            out@.len() == j,
            forall|q: int|
                0 <= q < j ==> (#[trigger] out@[q]) == lagrange_zero(xs, share_ys(shares@, q))
                    && out@[q] < FIELD_P,
        decreases width - j,
    {
        let ghost ys = share_ys(shares@, j as int);
        let mut s: u64 = 0;
        let mut k: usize = t;
        while k > 0
            invariant
                k <= t,
                j < width,
                t == shares@.len(),
                width == shares@[0].1@.len(),
                combine_input_ok(shares@, t as int),
                xs == share_xs(shares@),
                ys == share_ys(shares@, j as int),
                lambdas@.len() == t,
                forall|q: int|
                    0 <= q < t ==> (#[trigger] lambdas@[q]) == lagrange_coeff(xs, q) && lambdas@[q]
                        < FIELD_P,
                s == lagrange_zero_from(xs, ys, k as int),
                s < FIELD_P,
            decreases k,
        {
            k = k - 1;
            let y = shares[k].1[j];
            proof {
                assert(y == ys[k as int]);
                assert(y < FIELD_P);
            }
            s = add_mod(mul_mod(y, lambdas[k]), s);
        }
        out.push(s);
        j = j + 1;
    }
    Ok(out)
}

/// A sharing polynomial of threshold two is the line `s + c * x` over the
/// field.
pub proof fn lemma_poly_eval_linear(s: u64, c: u64, x: u64)
    requires
        s < FIELD_P,
        c < FIELD_P,
    ensures
        poly_eval(seq![s, c], x) == ((((s as int) + (c as int) * (x as int)) % (
        FIELD_P as int)) as u64),
{
    let p = FIELD_P as int;
    assert(seq![s, c].drop_first() =~= seq![c]);
    assert(seq![c].drop_first() =~= Seq::<u64>::empty());
    assert(poly_eval(Seq::<u64>::empty(), x) == 0);
    vstd::arithmetic::div_mod::lemma_small_mod(0nat, FIELD_P as nat);
    assert(fmul(x, 0) == 0);
    vstd::arithmetic::div_mod::lemma_small_mod(c as nat, FIELD_P as nat);
    assert(fadd(c, 0) == c);
    assert(poly_eval(seq![c], x) == fadd(c, fmul(x, poly_eval(seq![c].drop_first(), x))));
    assert(poly_eval(seq![c], x) == c);
    assert(poly_eval(seq![s, c], x) == fadd(
        s,
        fmul(x, poly_eval(seq![s, c].drop_first(), x)),
    ));
    assert(poly_eval(seq![s, c], x) == fadd(s, fmul(x, c)));
    vstd::arithmetic::div_mod::lemma_add_mod_noop_right(
        s as int,
        (x as int) * (c as int),
        p,
    );
    assert((x as int) * (c as int) == (c as int) * (x as int)) by (nonlinear_arith);
}

/// Interpolating a single point at zero returns that point's value: a
/// sharing with threshold one is the secret itself.
pub proof fn lemma_roundtrip_threshold_one(s: u64, x: u64)
    requires
        s < FIELD_P,
        x < FIELD_P,
    ensures
        lagrange_zero(seq![x], seq![poly_eval(seq![s], x)]) == s,
{
    let xs = seq![x];
    assert(seq![s].drop_first() =~= Seq::<u64>::empty());
    assert(poly_eval(Seq::<u64>::empty(), x) == 0);
    vstd::arithmetic::div_mod::lemma_small_mod(0nat, FIELD_P as nat);
    assert(fmul(x, 0) == 0);
    vstd::arithmetic::div_mod::lemma_small_mod(s as nat, FIELD_P as nat);
    let y = poly_eval(seq![s], x);
    assert(y == fadd(s, fmul(x, poly_eval(seq![s].drop_first(), x))));
    assert(y == fadd(s, 0));
    assert(y == s);
    let ys = seq![y];
    assert(num_prod_from(xs, 0, 1) == 1);
    assert(num_prod_from(xs, 0, 0) == 1);
    assert(den_prod_from(xs, 0, 1) == 1);
    assert(den_prod_from(xs, 0, 0) == 1);
    vstd::arithmetic::div_mod::lemma_small_mod(1nat, FIELD_P as nat);
    assert(fmul(1, 1) == 1);
    lemma_finv_is(1, 1);
    lemma_fmul_one(finv(1));
    assert(lagrange_coeff(xs, 0) == 1);
    lemma_fmul_one(y);
    assert(lagrange_zero_from(xs, ys, 1) == 0);
    assert(lagrange_zero_from(xs, ys, 0) == fadd(
        fmul(ys[0], lagrange_coeff(xs, 0)),
        lagrange_zero_from(xs, ys, 1),
    ));
    assert(lagrange_zero(xs, ys) == fadd(y, 0));
}

/// The ring identity behind two-point interpolation at zero: the cross
/// terms cancel and only the secret times the index difference survives,
/// up to a multiple of the modulus.
proof fn lemma_interpolation_identity(s: int, c: int, xa: int, xb: int, u: int, p: int)
    ensures
        (s + c * xa) * (xb * u) + (s + c * xb) * (xa * (p - u)) == s * (((xb - xa)) * u) + p * (
        xa * (s + c * xb)),
{
    assert((s + c * xa) * (xb * u) == s * (xb * u) + (c * xa) * (xb * u)) by (nonlinear_arith);
    assert((s + c * xb) * (xa * (p - u)) == (s + c * xb) * (xa * p) - (s + c * xb) * (xa * u))
        by (nonlinear_arith);
    assert((s + c * xb) * (xa * p) == p * (xa * (s + c * xb))) by (nonlinear_arith);
    assert((s + c * xb) * (xa * u) == s * (xa * u) + (c * xa) * (xb * u)) by (nonlinear_arith);
    assert(s * (xb * u) - s * (xa * u) == s * (((xb - xa)) * u)) by (nonlinear_arith);
}

/// The ordered two-point case of reconstruction: interpolating the values of
/// the line `s + c * x` at two increasing share indices returns `s`.
proof fn lemma_two_points_ordered(s: u64, c: u64, xa: u64, xb: u64)
    requires
        s < FIELD_P,
        c < FIELD_P,
        1 <= xa < xb,
        xb <= MAX_SHARES as u64,
    ensures
        lagrange_zero(
            seq![xa, xb],
            seq![poly_eval(seq![s, c], xa), poly_eval(seq![s, c], xb)],
        ) == s,
{
    let p = FIELD_P as int;
    let xs = seq![xa, xb];
    let ya = poly_eval(seq![s, c], xa);
    let yb = poly_eval(seq![s, c], xb);
    let ys = seq![ya, yb];
    lemma_poly_eval_linear(s, c, xa);
    lemma_poly_eval_linear(s, c, xb);
    let d = (xb - xa) as u64;
    crate::field::lemma_small_invertible(d);
    let u = finv(d);
    // Denominator products and their inverses.
    vstd::arithmetic::div_mod::lemma_small_mod((xb - xa) as nat, FIELD_P as nat);
    assert(fsub(xb, xa) == d);
    vstd::arithmetic::div_mod::lemma_mod_add_multiples_vanish(xa as int - xb as int, p);
    vstd::arithmetic::div_mod::lemma_small_mod((xa as int - xb as int + p) as nat, FIELD_P as nat);
    assert(fsub(xa, xb) == (FIELD_P - d) as u64);
    assert(den_prod_from(xs, 0, 2) == 1);
    assert(den_prod_from(xs, 0, 1) == fmul(fsub(xb, xa), den_prod_from(xs, 0, 2)));
    assert(den_prod_from(xs, 0, 0) == den_prod_from(xs, 0, 1));
    lemma_fmul_one(d);
    assert(den_prod_from(xs, 0, 0) == d);
    assert(den_prod_from(xs, 1, 2) == 1);
    assert(den_prod_from(xs, 1, 1) == 1);
    assert(den_prod_from(xs, 1, 0) == fmul(fsub(xa, xb), den_prod_from(xs, 1, 1)));
    lemma_fmul_one((FIELD_P - d) as u64);
    assert(den_prod_from(xs, 1, 0) == (FIELD_P - d) as u64);
    lemma_fmul_negated_pair(d, u);
    lemma_finv_is((FIELD_P - d) as u64, (FIELD_P - u) as u64);
    // Numerator products.
    assert(num_prod_from(xs, 0, 2) == 1);
    assert(num_prod_from(xs, 0, 1) == fmul(xb, num_prod_from(xs, 0, 2)));
    assert(num_prod_from(xs, 0, 0) == num_prod_from(xs, 0, 1));
    lemma_fmul_one(xb);
    assert(num_prod_from(xs, 0, 0) == xb);
    assert(num_prod_from(xs, 1, 2) == 1);
    assert(num_prod_from(xs, 1, 1) == 1);
    assert(num_prod_from(xs, 1, 0) == fmul(xa, num_prod_from(xs, 1, 1)));
    lemma_fmul_one(xa);
    assert(num_prod_from(xs, 1, 0) == xa);
    // The two terms of the interpolation sum, over the integers.
    let l0 = lagrange_coeff(xs, 0);
    let l1 = lagrange_coeff(xs, 1);
    assert(l0 == fmul(xb, u));
    assert(l1 == fmul(xa, (FIELD_P - u) as u64));
    let t0 = fmul(ya, l0);
    let t1 = fmul(yb, l1);
    let a = ((s as int) + (c as int) * (xa as int)) * ((xb as int) * (u as int));
    let b = ((s as int) + (c as int) * (xb as int)) * ((xa as int) * (p - (u as int)));
    assert(t0 == (a % p) as u64) by {
        vstd::arithmetic::div_mod::lemma_mul_mod_noop_general(
            (s as int) + (c as int) * (xa as int),
            (xb as int) * (u as int),
            p,
        );
    }
    assert(t1 == (b % p) as u64) by {
        vstd::arithmetic::div_mod::lemma_mul_mod_noop_general(
            (s as int) + (c as int) * (xb as int),
            (xa as int) * (p - (u as int)),
            p,
        );
    }
    // The interpolation sum.
    assert(lagrange_zero_from(xs, ys, 2) == 0);
    assert(lagrange_zero_from(xs, ys, 1) == fadd(
        fmul(ys[1], lagrange_coeff(xs, 1)),
        lagrange_zero_from(xs, ys, 2),
    ));
    assert(lagrange_zero_from(xs, ys, 0) == fadd(
        fmul(ys[0], lagrange_coeff(xs, 0)),
        lagrange_zero_from(xs, ys, 1),
    ));
    vstd::arithmetic::div_mod::lemma_mod_bound(b, p);
    vstd::arithmetic::div_mod::lemma_mod_twice(b, p);
    assert(fadd(t1, 0) == t1);
    assert(lagrange_zero(xs, ys) == fadd(t0, t1));
    vstd::arithmetic::div_mod::lemma_add_mod_noop(a, b, p);
    assert(fadd(t0, t1) == ((a + b) % p) as u64);
    // The sum telescopes to s times d times the inverse of d, modulo p.
    let k = (xa as int) * ((s as int) + (c as int) * (xb as int));
    lemma_interpolation_identity(s as int, c as int, xa as int, xb as int, u as int, p);
    vstd::arithmetic::div_mod::lemma_mod_multiples_vanish(
        k,
        (s as int) * (((xb as int) - (xa as int)) * (u as int)),
        p,
    );
    vstd::arithmetic::div_mod::lemma_mul_mod_noop_right(
        s as int,
        ((xb as int) - (xa as int)) * (u as int),
        p,
    );
    assert(((d as int) * (u as int)) % p == 1);
    assert((s as int) * 1 == s as int);
    vstd::arithmetic::div_mod::lemma_small_mod(s as nat, FIELD_P as nat);
    assert(lagrange_zero(xs, ys) == s);
}

/// Two shares of a threshold-two sharing reconstruct the secret exactly,
/// whichever two distinct shareholders they come from and in either order.
pub proof fn lemma_roundtrip_threshold_two(s: u64, c: u64, x1: u64, x2: u64)
    requires
        s < FIELD_P,
        c < FIELD_P,
        1 <= x1 <= MAX_SHARES as u64,
        1 <= x2 <= MAX_SHARES as u64,
        x1 != x2,
    ensures
        lagrange_zero(
            seq![x1, x2],
            seq![poly_eval(seq![s, c], x1), poly_eval(seq![s, c], x2)],
        ) == s,
{
    if x1 < x2 {
        lemma_two_points_ordered(s, c, x1, x2);
    } else {
        lemma_two_points_ordered(s, c, x2, x1);
        let xs = seq![x1, x2];
        let xsr = seq![x2, x1];
        let y1 = poly_eval(seq![s, c], x1);
        let y2 = poly_eval(seq![s, c], x2);
        let ys = seq![y1, y2];
        let ysr = seq![y2, y1];
        // The two orders have the same basis coefficients, swapped.
        assert(num_prod_from(xs, 0, 2) == 1);
        assert(num_prod_from(xs, 1, 2) == 1);
        assert(num_prod_from(xs, 1, 1) == 1);
        assert(num_prod_from(xsr, 0, 2) == 1);
        assert(num_prod_from(xsr, 1, 2) == 1);
        assert(num_prod_from(xsr, 1, 1) == 1);
        assert(num_prod_from(xs, 0, 1) == fmul(x2, num_prod_from(xs, 0, 2)));
        assert(num_prod_from(xs, 0, 0) == num_prod_from(xs, 0, 1));
        assert(num_prod_from(xs, 0, 0) == fmul(x2, 1));
        assert(num_prod_from(xsr, 1, 0) == fmul(x2, num_prod_from(xsr, 1, 1)));
        assert(num_prod_from(xsr, 1, 0) == fmul(x2, 1));
        assert(num_prod_from(xs, 1, 0) == fmul(x1, num_prod_from(xs, 1, 1)));
        assert(num_prod_from(xs, 1, 0) == fmul(x1, 1));
        assert(num_prod_from(xsr, 0, 1) == fmul(x1, num_prod_from(xsr, 0, 2)));
        assert(num_prod_from(xsr, 0, 0) == num_prod_from(xsr, 0, 1));
        assert(num_prod_from(xsr, 0, 0) == fmul(x1, 1));
        assert(den_prod_from(xs, 0, 2) == 1);
        assert(den_prod_from(xs, 1, 2) == 1);
        assert(den_prod_from(xs, 1, 1) == 1);
        assert(den_prod_from(xsr, 0, 2) == 1);
        assert(den_prod_from(xsr, 1, 2) == 1);
        assert(den_prod_from(xsr, 1, 1) == 1);
        assert(den_prod_from(xs, 0, 1) == fmul(fsub(x2, x1), den_prod_from(xs, 0, 2)));
        assert(den_prod_from(xs, 0, 0) == den_prod_from(xs, 0, 1));
        assert(den_prod_from(xs, 0, 0) == fmul(fsub(x2, x1), 1));
        assert(den_prod_from(xsr, 1, 0) == fmul(fsub(x2, x1), den_prod_from(xsr, 1, 1)));
        assert(den_prod_from(xsr, 1, 0) == fmul(fsub(x2, x1), 1));
        assert(den_prod_from(xs, 1, 0) == fmul(fsub(x1, x2), den_prod_from(xs, 1, 1)));
        assert(den_prod_from(xs, 1, 0) == fmul(fsub(x1, x2), 1));
        assert(den_prod_from(xsr, 0, 1) == fmul(fsub(x1, x2), den_prod_from(xsr, 0, 2)));
        assert(den_prod_from(xsr, 0, 0) == den_prod_from(xsr, 0, 1));
        assert(den_prod_from(xsr, 0, 0) == fmul(fsub(x1, x2), 1));
        assert(lagrange_coeff(xs, 0) == lagrange_coeff(xsr, 1));
        assert(lagrange_coeff(xs, 1) == lagrange_coeff(xsr, 0));
        // And so the same interpolation sum, with the terms swapped.
        let t0 = fmul(y1, lagrange_coeff(xs, 0));
        let t1 = fmul(y2, lagrange_coeff(xs, 1));
        assert(lagrange_zero_from(xs, ys, 2) == 0);
        assert(lagrange_zero_from(xsr, ysr, 2) == 0);
        assert(lagrange_zero_from(xs, ys, 1) == fadd(
            fmul(ys[1], lagrange_coeff(xs, 1)),
            lagrange_zero_from(xs, ys, 2),
        ));
        assert(lagrange_zero_from(xs, ys, 0) == fadd(
            fmul(ys[0], lagrange_coeff(xs, 0)),
            lagrange_zero_from(xs, ys, 1),
        ));
        assert(lagrange_zero_from(xsr, ysr, 1) == fadd(
            fmul(ysr[1], lagrange_coeff(xsr, 1)),
            lagrange_zero_from(xsr, ysr, 2),
        ));
        assert(lagrange_zero_from(xsr, ysr, 0) == fadd(
            fmul(ysr[0], lagrange_coeff(xsr, 0)),
            lagrange_zero_from(xsr, ysr, 1),
        ));
        assert(lagrange_zero(xs, ys) == fadd(t0, fadd(t1, 0)));
        assert(lagrange_zero(xsr, ysr) == fadd(t1, fadd(t0, 0)));
        let p = FIELD_P as int;
        crate::field::lemma_fmul_bound(y1, lagrange_coeff(xs, 0));
        crate::field::lemma_fmul_bound(y2, lagrange_coeff(xs, 1));
        vstd::arithmetic::div_mod::lemma_small_mod(t0 as nat, FIELD_P as nat);
        vstd::arithmetic::div_mod::lemma_small_mod(t1 as nat, FIELD_P as nat);
        assert(fadd(t1, 0) == t1);
        assert(fadd(t0, 0) == t0);
        assert(fadd(t0, t1) == fadd(t1, t0));
    }
}

/// Any two distinct shares of a threshold-two sharing of a weight vector
/// interpolate, at each coordinate, to exactly that coordinate of the
/// vector: the reconstruction round trip for the deployed threshold.
pub proof fn lemma_sharing_reconstruction_two(
    weights: Seq<u64>,
    shares: Seq<Seq<u64>>,
    n: int,
    k1: int,
    k2: int,
    c: int,
)
    requires
        is_sharing_of(weights, shares, n, 2),
        n <= MAX_SHARES,
        0 <= k1 < n,
        0 <= k2 < n,
        k1 != k2,
        0 <= c < weights.len(),
        weights[c] < FIELD_P,
    ensures
        lagrange_zero(
            seq![(k1 + 1) as u64, (k2 + 1) as u64],
            seq![shares[k1][c], shares[k2][c]],
        ) == weights[c],
{
    let cm = choose|cm: Seq<Seq<u64>>|
        coeffs_ok(weights, cm, 2) && shares_of_coeffs(cm, shares, n);
    assert(cm[c].len() == 2);
    assert(cm[c] =~= seq![cm[c][0], cm[c][1]]);
    assert(shares[k1][c] == poly_eval(cm[c], (k1 + 1) as u64));
    assert(shares[k2][c] == poly_eval(cm[c], (k2 + 1) as u64));
    lemma_roundtrip_threshold_two(weights[c], cm[c][1], (k1 + 1) as u64, (k2 + 1) as u64);
}

/// The one share of a threshold-one sharing interpolates, at each
/// coordinate, to exactly that coordinate of the vector.
pub proof fn lemma_sharing_reconstruction_one(
    weights: Seq<u64>,
    shares: Seq<Seq<u64>>,
    n: int,
    k: int,
    c: int,
)
    requires
        is_sharing_of(weights, shares, n, 1),
        n <= MAX_SHARES,
        0 <= k < n,
        0 <= c < weights.len(),
        weights[c] < FIELD_P,
    ensures
        lagrange_zero(seq![(k + 1) as u64], seq![shares[k][c]]) == weights[c],
{
    let cm = choose|cm: Seq<Seq<u64>>|
        coeffs_ok(weights, cm, 1) && shares_of_coeffs(cm, shares, n);
    assert(cm[c].len() == 1);
    assert(cm[c] =~= seq![cm[c][0]]);
    assert(shares[k][c] == poly_eval(cm[c], (k + 1) as u64));
    lemma_roundtrip_threshold_one(weights[c], (k + 1) as u64);
}

/// Seen alone, a share value says nothing about the secret: for every secret
/// there is a coefficient that makes the sharing polynomial pass through
/// exactly the observed value at the observed shareholder index. Since the
/// coefficient is drawn uniformly, a single share is consistent with every
/// secret.
pub proof fn lemma_single_share_any_secret(x: u64, y: u64, s: u64)
    requires
        1 <= x <= MAX_SHARES as u64,
        y < FIELD_P,
        s < FIELD_P,
    ensures
        exists|c: u64| c < FIELD_P && poly_eval(seq![s, c], x) == y,
{
    let p = FIELD_P as int;
    crate::field::lemma_small_invertible(x);
    let u = finv(x);
    let c = fmul(fsub(y, s), u);
    crate::field::lemma_fmul_bound(fsub(y, s), u);
    lemma_poly_eval_linear(s, c, x);
    // c * x reduces to y - s modulo p.
    let ysd = ((y as int) - (s as int)) % p;
    vstd::arithmetic::div_mod::lemma_mul_mod_noop_left(ysd * (u as int), x as int, p);
    vstd::arithmetic::mul::lemma_mul_is_associative(ysd, u as int, x as int);
    vstd::arithmetic::div_mod::lemma_mul_mod_noop_right(ysd, (u as int) * (x as int), p);
    assert(((x as int) * (u as int)) == ((u as int) * (x as int))) by (nonlinear_arith);
    assert(((u as int) * (x as int)) % p == 1);
    assert((c as int) * (x as int) == (ysd * (u as int)) % p * (x as int));
    assert(((c as int) * (x as int)) % p == (ysd * 1) % p);
    vstd::arithmetic::div_mod::lemma_mod_twice((y as int) - (s as int), p);
    // And then s + c * x reduces to y.
    vstd::arithmetic::div_mod::lemma_add_mod_noop_right(s as int, (c as int) * (x as int), p);
    assert(((s as int) + ((c as int) * (x as int)) % p) % p == ((s as int) + (((y as int) - (
    s as int)) % p)) % p);
    vstd::arithmetic::div_mod::lemma_add_mod_noop_right(s as int, (y as int) - (s as int), p);
    vstd::arithmetic::div_mod::lemma_small_mod(y as nat, FIELD_P as nat);
    assert(poly_eval(seq![s, c], x) == y);
}

} // verus!
