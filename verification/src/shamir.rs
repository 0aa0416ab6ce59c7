//! Shamir secret sharing over the BLS12-381 scalar field: evaluation of
//! the sharing polynomial at an agent's index, and Lagrange interpolation
//! at zero, which recovers the shared secret from a quorum of shares.

use vstd::prelude::*;
use crate::bytes::le_nat;
use crate::fr::{fr_ok, fr_order, scalar_add, scalar_mul, scalar_sub, scalar_invert, scalar_from_u64};
use vstd::arithmetic::div_mod::{lemma_add_mod_noop, lemma_add_mod_noop_right, lemma_small_mod, lemma_mod_multiples_vanish, lemma_mul_mod_noop, lemma_mul_mod_noop_left, lemma_mul_mod_noop_right};

verus! {

/// The little-endian values of a sequence of byte strings.
pub open spec fn fr_vals(cs: Seq<Seq<u8>>) -> Seq<nat> {
    cs.map_values(|c: Seq<u8>| le_nat(c))
}

/// The views of a sequence of byte vectors.
pub open spec fn views_of(cs: Seq<Vec<u8>>) -> Seq<Seq<u8>> {
    cs.map_values(|v: Vec<u8>| v@)
}

/// Every entry is a well-formed scalar encoding.
pub open spec fn all_fr_ok(cs: Seq<Seq<u8>>) -> bool {
    forall|i: int| 0 <= i < cs.len() ==> fr_ok(#[trigger] cs[i])
}

/// The value at `x` of the polynomial whose coefficients are `cs`, lowest
/// degree first, over the scalar field.
pub open spec fn poly_eval(cs: Seq<nat>, x: nat) -> nat
    decreases cs.len(),
{
    if cs.len() == 0 {
        0
    } else {
        (cs[0] + x * poly_eval(cs.subrange(1, cs.len() as int), x)) % fr_order()
    }
}

/// The constant term is the polynomial's value at zero.
pub proof fn lemma_poly_eval_at_zero(cs: Seq<nat>)
    requires
        cs.len() >= 1,
        cs[0] < fr_order(),
    ensures
        poly_eval(cs, 0) == cs[0],
{
    lemma_small_mod(cs[0], fr_order());
}

/// Adding a value already reduced modulo `fr_order()` reduces the same as
/// adding the value itself.
proof fn lemma_add_reduced(a: nat, b: nat)
    requires
        a < fr_order(),
    ensures
        (a + b % fr_order()) % fr_order() == (a + b) % fr_order(),
{
    lemma_add_mod_noop_right(a as int, b as int, fr_order() as int);
    lemma_small_mod(a, fr_order());
}

/// Evaluates the polynomial with coefficients `cs[i..]` at `x`, by Horner's
/// rule expressed as structural recursion on the coefficient list.
fn eval_from(cs: &Vec<Vec<u8>>, i: usize, x: &Vec<u8>) -> (r: Vec<u8>)
    requires
        i <= cs@.len(),
        all_fr_ok(views_of(cs@)),
        fr_ok(x@),
    ensures
        fr_ok(r@),
        le_nat(r@) == poly_eval(fr_vals(views_of(cs@)).subrange(i as int, cs@.len() as int), le_nat(x@)),
    decreases cs@.len() - i,
{
    let vals = Ghost(fr_vals(views_of(cs@)));
    if i == cs.len() {
        let r = scalar_from_u64(0);
        r
    } else {
        let tail = eval_from(cs, i + 1, x);
        let prod = scalar_mul(x, &tail);
        proof {
            assert(views_of(cs@)[i as int] == cs@[i as int]@);
        }
        let r = scalar_add(&cs[i], &prod);
        proof {
            let rest = vals@.subrange(i as int, cs@.len() as int);
            assert(rest.subrange(1, rest.len() as int) =~= vals@.subrange(i + 1, cs@.len() as int));
            let c = rest[0];
            let t = poly_eval(rest.subrange(1, rest.len() as int), le_nat(x@));
            lemma_add_reduced(c, le_nat(x@) * t);
        }
        r
    }
}

/// Evaluates the sharing polynomial (coefficients lowest degree first) at
/// the point `x`, over the scalar field.
pub fn eval_poly(cs: &Vec<Vec<u8>>, x: &Vec<u8>) -> (r: Vec<u8>)
    requires
        all_fr_ok(views_of(cs@)),
        fr_ok(x@),
    ensures
        fr_ok(r@),
        le_nat(r@) == poly_eval(fr_vals(views_of(cs@)), le_nat(x@)),
{
    let r = eval_from(cs, 0, x);
    proof {
        assert(fr_vals(views_of(cs@)).subrange(0, cs@.len() as int) =~= fr_vals(views_of(cs@)));
    }
    r
}

/// Field subtraction: `a - b` modulo the order, for reduced `a` and `b`.
pub open spec fn sub_mod(a: nat, b: nat) -> nat {
    ((a + fr_order() - b) % (fr_order() as int)) as nat
}

/// The multiplicative inverse of `a` modulo the (prime) order: the unique
/// reduced `b` with `a * b == 1`, when one exists.
pub open spec fn inv_mod(a: nat) -> nat {
    choose|b: nat| b < fr_order() && #[trigger] ((a * b) % fr_order()) == 1
}

/// The inverse modulo the order is unique: any reduced `b` with
/// `a * b == 1` is `inv_mod(a)`.
pub proof fn lemma_inv_unique(a: nat, b: nat)
    requires
        b < fr_order(),
        (a * b) % fr_order() == 1,
    ensures
        inv_mod(a) == b,
{
    let m = fr_order();
    assert(exists|z: nat| z < fr_order() && #[trigger] ((a * z) % fr_order()) == 1);
    let c = inv_mod(a);
    assert(c < m && (a * c) % m == 1);
    assert((b * ((a * c) % m)) % m == (b * (a * c)) % m) by {
        lemma_mul_mod_noop_right(b as int, (a * c) as int, m as int);
    }
    assert(b * ((a * c) % m) == b);
    lemma_small_mod(b, m);
    assert(b == (b * (a * c)) % m);
    assert(b * (a * c) == (a * b) * c) by (nonlinear_arith);
    assert(((a * b) * c) % m == (((a * b) % m) * c) % m) by {
        lemma_mul_mod_noop_left((a * b) as int, c as int, m as int);
    }
    lemma_small_mod(c, m);
}

/// For reduced `a` and `b`, the field difference is zero exactly when the
/// values are equal.
pub proof fn lemma_sub_mod_zero(a: nat, b: nat)
    requires
        a < fr_order(),
        b < fr_order(),
    ensures
        sub_mod(a, b) == 0 <==> a == b,
{
    let m = fr_order();
    vstd::arithmetic::div_mod::lemma_mod_multiples_vanish(1, (a - b) as int, m as int);
    if a >= b {
        lemma_small_mod((a - b) as nat, m);
    } else {
        lemma_small_mod((a + m - b) as nat, m);
    }
}

/// The Lagrange basis value at zero for point `i`: the product, over all
/// other indices `j` from position `p` on, of `xs[j] / (xs[j] - xs[i])`.
pub open spec fn basis_prod(xs: Seq<nat>, i: int, p: int) -> nat
    decreases xs.len() - p,
{
    if p < 0 || p >= xs.len() {
        1
    } else if p == i {
        basis_prod(xs, i, p + 1)
    } else {
        ((xs[p] * inv_mod(sub_mod(xs[p], xs[i]))) % fr_order() * basis_prod(xs, i, p + 1)) % fr_order()
    }
}

/// The Lagrange interpolation sum at zero over points `i` from position
/// `p` on.
pub open spec fn lagrange_sum(xs: Seq<nat>, ys: Seq<nat>, p: int) -> nat
    decreases xs.len() - p,
{
    if p < 0 || p >= xs.len() {
        0
    } else {
        ((ys[p] * basis_prod(xs, p, 0)) % fr_order() + lagrange_sum(xs, ys, p + 1)) % fr_order()
    }
}

/// The value at zero of the unique polynomial of degree below `xs.len()`
/// through the points `(xs[i], ys[i])`, by Lagrange interpolation.
pub open spec fn lagrange_zero(xs: Seq<nat>, ys: Seq<nat>) -> nat {
    lagrange_sum(xs, ys, 0)
}

/// All entries denote pairwise distinct field values.
pub open spec fn all_distinct(xs: Seq<Seq<u8>>) -> bool {
    forall|i: int, j: int| 0 <= i < xs.len() && 0 <= j < xs.len() && i != j
        ==> le_nat(#[trigger] xs[i]) != le_nat(#[trigger] xs[j])
}

/// Computes the Lagrange basis product for point `i`, over indices from
/// `p` on.
fn basis_from(xs: &Vec<Vec<u8>>, i: usize, p: usize) -> (r: Vec<u8>)
    requires
        i < xs@.len(),
        p <= xs@.len(),
        all_fr_ok(views_of(xs@)),
        all_distinct(views_of(xs@)),
    ensures
        fr_ok(r@),
        le_nat(r@) == basis_prod(fr_vals(views_of(xs@)), i as int, p as int),
    decreases xs@.len() - p,
{
    let vals = Ghost(fr_vals(views_of(xs@)));
    if p == xs.len() {
        scalar_from_u64(1)
    } else if p == i {
        basis_from(xs, i, p + 1)
    } else {
        let rest = basis_from(xs, i, p + 1);
        proof {
            assert(views_of(xs@)[p as int] == xs@[p as int]@);
            assert(views_of(xs@)[i as int] == xs@[i as int]@);
        }
        let diff = scalar_sub(&xs[p], &xs[i]);
        proof {
            lemma_sub_mod_zero(le_nat(xs@[p as int]@), le_nat(xs@[i as int]@));
        }
        let inv = scalar_invert(&diff);
        proof {
            lemma_inv_unique(le_nat(diff@), le_nat(inv@));
        }
        let term = scalar_mul(&xs[p], &inv);
        scalar_mul(&term, &rest)
    }
}

/// Sums the Lagrange terms over points from `p` on.
fn lagrange_from(xs: &Vec<Vec<u8>>, ys: &Vec<Vec<u8>>, p: usize) -> (r: Vec<u8>)
    requires
        xs@.len() == ys@.len(),
        p <= xs@.len(),
        all_fr_ok(views_of(xs@)),
        all_fr_ok(views_of(ys@)),
        all_distinct(views_of(xs@)),
    ensures
        fr_ok(r@),
        le_nat(r@) == lagrange_sum(fr_vals(views_of(xs@)), fr_vals(views_of(ys@)), p as int),
    decreases xs@.len() - p,
{
    if p == xs.len() {
        scalar_from_u64(0)
    } else {
        proof {
            assert(views_of(ys@)[p as int] == ys@[p as int]@);
        }
        let basis = basis_from(xs, p, 0);
        let term = scalar_mul(&ys[p], &basis);
        let rest = lagrange_from(xs, ys, p + 1);
        scalar_add(&term, &rest)
    }
}

/// Recovers the secret `P(0)` from the quorum of shares `(xs[i], ys[i])`
/// by Lagrange interpolation at zero. The evaluation points must be
/// pairwise distinct field values.
pub fn interpolate_at_zero(xs: &Vec<Vec<u8>>, ys: &Vec<Vec<u8>>) -> (r: Vec<u8>)
    requires
        xs@.len() == ys@.len(),
        all_fr_ok(views_of(xs@)),
        all_fr_ok(views_of(ys@)),
        all_distinct(views_of(xs@)),
    ensures
        fr_ok(r@),
        le_nat(r@) == lagrange_zero(fr_vals(views_of(xs@)), fr_vals(views_of(ys@))),
{
    lagrange_from(xs, ys, 0)
}

/// A quorum of one: for a constant polynomial, interpolation at zero from
/// a single evaluation point returns the secret itself.
pub proof fn lemma_interpolation_recovers_single(cs: Seq<nat>, xs: Seq<nat>)
    requires
        cs.len() == 1,
        xs.len() == 1,
        cs[0] < fr_order(),
    ensures
        lagrange_zero(xs, seq![poly_eval(cs, xs[0])]) == cs[0],
{
    let m = fr_order();
    let y = poly_eval(cs, xs[0]);
    assert(cs.subrange(1, 1) =~= Seq::<nat>::empty());
    assert(poly_eval(cs.subrange(1, 1), xs[0]) == 0);
    lemma_small_mod(cs[0], m);
    assert(y == cs[0]);
    assert(basis_prod(xs, 0, 1) == 1);
    assert(basis_prod(xs, 0, 0) == 1);
    let ys = seq![y];
    assert(lagrange_sum(xs, ys, 1) == 0);
    assert(lagrange_sum(xs, ys, 0) == ((ys[0] * basis_prod(xs, 0, 0)) % m + lagrange_sum(xs, ys, 1)) % m);
    lemma_small_mod(y, m);
    lemma_small_mod((y % m) as nat, m);
    assert(lagrange_sum(xs, ys, 0) == y);
}

/// Whether a field value has a multiplicative inverse (every nonzero value
/// does, the order being prime; stated as a premise where used).
pub open spec fn has_inverse(a: nat) -> bool {
    inv_mod(a) < fr_order() && (a * inv_mod(a)) % fr_order() == 1
}

/// A line's value: a polynomial of two coefficients evaluates to
/// `c0 + x · c1` in the field.
proof fn lemma_poly_eval_line(cs: Seq<nat>, x: nat)
    requires
        cs.len() == 2,
        cs[1] < fr_order(),
    ensures
        poly_eval(cs, x) == (cs[0] + x * cs[1]) % fr_order(),
{
    reveal_with_fuel(poly_eval, 3);
    assert(cs.subrange(1, 2).subrange(1, 1) =~= Seq::<nat>::empty());
    let inner = poly_eval(cs.subrange(1, 2).subrange(1, 1), x);
    assert(inner == 0);
    assert(x * inner == 0) by (nonlinear_arith)
        requires inner == 0;
    assert(cs.subrange(1, 2)[0] == cs[1]);
    lemma_small_mod(cs[1], fr_order());
    assert(poly_eval(cs.subrange(1, 2), x) == cs[1]);
}

/// A quorum of two: for a line `c0 + c1·x`, interpolation at zero from any
/// two distinct evaluation points whose difference is invertible recovers
/// the secret `c0` exactly.
#[verifier::rlimit(100)]
pub proof fn lemma_interpolation_recovers_pair(cs: Seq<nat>, xs: Seq<nat>)
    requires
        cs.len() == 2,
        xs.len() == 2,
        cs[0] < fr_order(),
        cs[1] < fr_order(),
        xs[0] < fr_order(),
        xs[1] < fr_order(),
        xs[0] != xs[1],
        has_inverse(sub_mod(xs[1], xs[0])),
    ensures
        lagrange_zero(xs, seq![poly_eval(cs, xs[0]), poly_eval(cs, xs[1])]) == cs[0],
{
    let m = fr_order();
    let c0 = cs[0];
    let c1 = cs[1];
    let x0 = xs[0];
    let x1 = xs[1];
    let d = sub_mod(x1, x0);
    let e = sub_mod(x0, x1);
    let u = inv_mod(d);

    // The two shares are the line's values at the two points.
    lemma_poly_eval_line(cs, x0);
    lemma_poly_eval_line(cs, x1);
    let y0 = poly_eval(cs, x0);
    let y1 = poly_eval(cs, x1);
    assert(y0 == (c0 + x0 * c1) % m);
    assert(y1 == (c0 + x1 * c1) % m);

    // The two field differences are nonzero and sum to the order.
    lemma_sub_mod_zero(x1, x0);
    if x1 > x0 {
        lemma_mod_multiples_vanish(1, x1 - x0, m as int);
        lemma_small_mod((x1 - x0) as nat, m);
        assert(d == x1 - x0);
        lemma_small_mod((x0 + m - x1) as nat, m);
        assert(e == m - d);
    } else {
        lemma_small_mod((x1 + m - x0) as nat, m);
        assert(d == x1 + m - x0);
        lemma_mod_multiples_vanish(1, x0 - x1, m as int);
        lemma_small_mod((x0 - x1) as nat, m);
        assert(e == m - d);
    }
    assert(0 < d < m);
    assert(u < m && (d * u) % m == 1);
    assert(u != 0) by {
        if u == 0 {
            assert(d * u == 0) by (nonlinear_arith)
                requires u == 0;
            lemma_small_mod(0, m);
        }
    }
    let v = (m - u) as nat;

    // The inverse of the opposite difference is the opposite inverse.
    assert((e as int) * (v as int)
        == (d as int) * (u as int) + (m as int) * ((m as int) - (u as int) - (d as int)))
        by (nonlinear_arith)
        requires e == m - d, v == m - u;
    lemma_mod_multiples_vanish((m as int) - (u as int) - (d as int), (d * u) as int, m as int);
    assert((e * v) % m == 1);
    lemma_inv_unique(e, v);

    // The two Lagrange basis values at zero.
    assert(basis_prod(xs, 0, 2) == 1);
    assert(basis_prod(xs, 0, 1) == ((x1 * u) % m * 1) % m);
    lemma_small_mod((x1 * u) % m, m);
    assert(basis_prod(xs, 0, 1) == (x1 * u) % m);
    assert(basis_prod(xs, 0, 0) == (x1 * u) % m);
    let b0 = (x1 * u) % m;
    assert(basis_prod(xs, 1, 2) == 1);
    assert(basis_prod(xs, 1, 1) == 1);
    assert(basis_prod(xs, 1, 0) == ((x0 * v) % m * 1) % m);
    lemma_small_mod((x0 * v) % m, m);
    assert(basis_prod(xs, 1, 0) == (x0 * v) % m);
    let b1 = (x0 * v) % m;

    // The interpolation sum, unfolded.
    let ys = seq![y0, y1];
    assert(lagrange_sum(xs, ys, 2) == 0);
    lemma_small_mod((y1 * b1) % m, m);
    assert(lagrange_sum(xs, ys, 1) == (y1 * b1) % m);
    assert(lagrange_zero(xs, ys) == ((y0 * b0) % m + (y1 * b1) % m) % m);

    // Undo the inner reductions and collapse the sum of products.
    let p0 = (c0 + x0 * c1) * (x1 * u);
    let p1 = (c0 + x1 * c1) * (x0 * v);
    lemma_mul_mod_noop((c0 + x0 * c1) as int, (x1 * u) as int, m as int);
    lemma_mul_mod_noop((c0 + x1 * c1) as int, (x0 * v) as int, m as int);
    assert((y0 * b0) % m == p0 % m);
    assert((y1 * b1) % m == p1 % m);
    lemma_add_mod_noop(p0 as int, p1 as int, m as int);
    assert((p0 % m + p1 % m) % m == (p0 + p1) % m);
    assert(lagrange_zero(xs, ys) == (p0 + p1) % m);

    // The ring identity behind Lagrange at zero for two points.
    let c0i = c0 as int;
    let c1i = c1 as int;
    let x0i = x0 as int;
    let x1i = x1 as int;
    let ui = u as int;
    let mi = m as int;
    let p0i = p0 as int;
    let p1i = p1 as int;
    let ai = c0i + x0i * c1i;
    let bi = c0i + x1i * c1i;
    assert(p0i == ai * (x1i * ui) && p1i == bi * (x0i * (mi - ui)))
        by (nonlinear_arith)
        requires
            p0 == (c0 + x0 * c1) * (x1 * u),
            p1 == (c0 + x1 * c1) * (x0 * v),
            v == m - u,
            u <= m,
            p0i == p0 as int, p1i == p1 as int, ai == (c0 + x0 * c1) as int,
            bi == (c0 + x1 * c1) as int,
            x0i == x0 as int, x1i == x1 as int, ui == u as int, mi == m as int;
    assert(p0i == ai * x1i * ui) by (nonlinear_arith)
        requires p0i == ai * (x1i * ui);
    assert(p1i == bi * x0i * mi - bi * x0i * ui) by (nonlinear_arith)
        requires p1i == bi * (x0i * (mi - ui));
    assert(ai * x1i - bi * x0i == c0i * (x1i - x0i)) by (nonlinear_arith)
        requires ai == c0i + x0i * c1i, bi == c0i + x1i * c1i;
    assert(p0i + p1i == c0i * ui * (x1i - x0i) + mi * (x0i * bi))
        by (nonlinear_arith)
        requires
            p0i == ai * x1i * ui,
            p1i == bi * x0i * mi - bi * x0i * ui,
            ai * x1i - bi * x0i == c0i * (x1i - x0i);
    assert(x0i * bi == (x0 as int) * ((c0 as int) + (x1 as int) * (c1 as int)));
    lemma_mod_multiples_vanish(
        (x0 as int) * ((c0 as int) + (x1 as int) * (c1 as int)),
        (c0 as int) * (u as int) * ((x1 as int) - (x0 as int)),
        m as int);
    assert(((p0 + p1) as int) % (m as int)
        == ((c0 as int) * (u as int) * ((x1 as int) - (x0 as int))) % (m as int));

    // Replace the raw difference by the field difference.
    if x1 > x0 {
        assert((x1 as int) - (x0 as int) == d as int);
    } else {
        assert((x1 as int) - (x0 as int) == (d as int) - (m as int));
        assert((c0 as int) * (u as int) * ((d as int) - (m as int))
            == (c0 as int) * (u as int) * (d as int)
                + (m as int) * (-((c0 as int) * (u as int))))
            by (nonlinear_arith);
        lemma_mod_multiples_vanish(
            -((c0 as int) * (u as int)),
            (c0 as int) * (u as int) * (d as int),
            m as int);
    }
    assert(((c0 as int) * (u as int) * ((x1 as int) - (x0 as int))) % (m as int)
        == ((c0 as int) * (u as int) * (d as int)) % (m as int));

    // One inverse pair cancels, leaving the secret.
    assert((c0 as int) * (u as int) * (d as int) == (c0 as int) * ((d as int) * (u as int)))
        by (nonlinear_arith);
    lemma_mul_mod_noop_right(c0 as int, (d as int) * (u as int), m as int);
    assert(((c0 as int) * ((d as int) * (u as int))) % (m as int)
        == ((c0 as int) * (((d * u) % m) as int)) % (m as int));
    lemma_small_mod(c0, m);
    assert(lagrange_zero(xs, ys) == c0);
}

/// Evaluates a two-coefficient sharing polynomial at two distinct points
/// and recovers the secret back from those two shares alone: the quorum
/// of two suffices, exactly.
pub fn recover_secret_from_pair(cs: &Vec<Vec<u8>>, x0: Vec<u8>, x1: Vec<u8>) -> (r: Vec<u8>)
    requires
        cs@.len() == 2,
        all_fr_ok(views_of(cs@)),
        fr_ok(x0@),
        fr_ok(x1@),
        le_nat(x0@) != le_nat(x1@),
    ensures
        fr_ok(r@),
        le_nat(r@) == le_nat(cs@[0]@),
{
    let ghost x0v = le_nat(x0@);
    let ghost x1v = le_nat(x1@);
    let y0 = eval_poly(cs, &x0);
    let y1 = eval_poly(cs, &x1);
    let xs: Vec<Vec<u8>> = vec![x0, x1];
    let ys: Vec<Vec<u8>> = vec![y0, y1];
    proof {
        assert(views_of(xs@) =~= seq![xs@[0]@, xs@[1]@]);
        assert(views_of(ys@) =~= seq![ys@[0]@, ys@[1]@]);
        assert forall|i: int, j: int|
            0 <= i < views_of(xs@).len() && 0 <= j < views_of(xs@).len() && i != j
            implies le_nat(#[trigger] views_of(xs@)[i]) != le_nat(#[trigger] views_of(xs@)[j]) by {
        }
        assert forall|i: int| 0 <= i < 2 implies fr_ok(#[trigger] views_of(xs@)[i]) by {
            assert(views_of(xs@)[i] == xs@[i]@);
        }
        assert forall|i: int| 0 <= i < 2 implies fr_ok(#[trigger] views_of(ys@)[i]) by {
            assert(views_of(ys@)[i] == ys@[i]@);
        }
    }
    let s = interpolate_at_zero(&xs, &ys);
    let d = scalar_sub(&xs[1], &xs[0]);
    proof {
        lemma_sub_mod_zero(x1v, x0v);
    }
    let inv = scalar_invert(&d);
    proof {
        lemma_inv_unique(le_nat(d@), le_nat(inv@));
        let cv = fr_vals(views_of(cs@));
        let xv = fr_vals(views_of(xs@));
        let yv = fr_vals(views_of(ys@));
        assert(views_of(cs@)[0] == cs@[0]@);
        assert(views_of(cs@)[1] == cs@[1]@);
        assert(fr_ok(cs@[0]@));
        assert(fr_ok(cs@[1]@));
        assert(cv =~= seq![le_nat(cs@[0]@), le_nat(cs@[1]@)]);
        assert(xv =~= seq![x0v, x1v]);
        assert(has_inverse(sub_mod(x1v, x0v)));
        lemma_interpolation_recovers_pair(cv, xv);
        assert(yv =~= seq![poly_eval(cv, xv[0]), poly_eval(cv, xv[1])]);
        assert(le_nat(s@) == lagrange_zero(xv, yv));
    }
    s
}

} // verus!
