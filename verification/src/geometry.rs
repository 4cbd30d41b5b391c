//! The triangle inequality of the colour space, stated over squared
//! distances and whole-number bounds on the distances themselves.

use vstd::prelude::*;
use crate::color::{channel_gap, lemma_channel_gap_bound, squared_distance, Color};

verus! {

/// The squared length of a vector of three integers.
pub open spec fn norm2(x: int, y: int, z: int) -> int {
    x * x + y * y + z * z
}

/// The inner product of two vectors of three integers.
pub open spec fn dot(x1: int, y1: int, z1: int, x2: int, y2: int, z2: int) -> int {
    x1 * x2 + y1 * y2 + z1 * z2
}

/// The inequality of Cauchy and Schwarz for one pair of coordinates.
proof fn lemma_cross_terms(x1: int, y1: int, x2: int, y2: int)
    ensures
        2 * ((x1 * x2) * (y1 * y2)) <= (x1 * x1) * (y2 * y2) + (y1 * y1) * (x2 * x2),
{
    let m = x1 * y2;
    let n = y1 * x2;
    assert((x1 * x1) * (y2 * y2) == m * m) by (nonlinear_arith)
        requires
            m == x1 * y2,
    ;
    assert((y1 * y1) * (x2 * x2) == n * n) by (nonlinear_arith)
        requires
            n == y1 * x2,
    ;
    assert((x1 * x2) * (y1 * y2) == m * n) by (nonlinear_arith)
        requires
            m == x1 * y2,
            n == y1 * x2,
    ;
    assert(2 * (m * n) <= m * m + n * n) by (nonlinear_arith);
}

/// Cauchy and Schwarz: the square of an inner product is at most the product
/// of the squared lengths.
pub proof fn lemma_inner_product_bound(x1: int, y1: int, z1: int, x2: int, y2: int, z2: int)
    ensures
        dot(x1, y1, z1, x2, y2, z2) * dot(x1, y1, z1, x2, y2, z2) <= norm2(x1, y1, z1) * norm2(
            x2,
            y2,
            z2,
        ),
{
    let a = x1 * x2;
    let b = y1 * y2;
    let c = z1 * z2;
    let p = dot(x1, y1, z1, x2, y2, z2);
    let sx1 = x1 * x1;
    let sy1 = y1 * y1;
    let sz1 = z1 * z1;
    let sx2 = x2 * x2;
    let sy2 = y2 * y2;
    let sz2 = z2 * z2;
    lemma_cross_terms(x1, y1, x2, y2);
    lemma_cross_terms(x1, z1, x2, z2);
    lemma_cross_terms(y1, z1, y2, z2);
    assert(sx1 * sx2 == a * a) by (nonlinear_arith)
        requires
            sx1 == x1 * x1,
            sx2 == x2 * x2,
            a == x1 * x2,
    ;
    assert(sy1 * sy2 == b * b) by (nonlinear_arith)
        requires
            sy1 == y1 * y1,
            sy2 == y2 * y2,
            b == y1 * y2,
    ;
    assert(sz1 * sz2 == c * c) by (nonlinear_arith)
        requires
            sz1 == z1 * z1,
            sz2 == z2 * z2,
            c == z1 * z2,
    ;
    assert(p * p == a * a + b * b + c * c + 2 * (a * b) + 2 * (a * c) + 2 * (b * c))
        by (nonlinear_arith)
        requires
            p == a + b + c,
    ;
    assert((sx1 + sy1 + sz1) * (sx2 + sy2 + sz2) == sx1 * sx2 + sx1 * sy2 + sx1 * sz2 + sy1 * sx2
        + sy1 * sy2 + sy1 * sz2 + sz1 * sx2 + sz1 * sy2 + sz1 * sz2) by (nonlinear_arith);
}

/// Where two vectors are no longer than `a` and `b`, their sum exceeds the sum
/// of their squared lengths by at most `2 * a * b`.
pub proof fn lemma_sum_of_vectors(
    x1: int,
    y1: int,
    z1: int,
    x2: int,
    y2: int,
    z2: int,
    a: int,
    b: int,
)
    requires
        0 <= a,
        0 <= b,
        norm2(x1, y1, z1) <= a * a,
        norm2(x2, y2, z2) <= b * b,
    ensures
        norm2(x1 + x2, y1 + y2, z1 + z2) <= norm2(x1, y1, z1) + norm2(x2, y2, z2) + 2 * (a * b),
{
    let p = dot(x1, y1, z1, x2, y2, z2);
    let n1 = norm2(x1, y1, z1);
    let n2 = norm2(x2, y2, z2);
    lemma_inner_product_bound(x1, y1, z1, x2, y2, z2);
    assert(n1 >= 0 && n2 >= 0) by (nonlinear_arith)
        requires
            n1 == x1 * x1 + y1 * y1 + z1 * z1,
            n2 == x2 * x2 + y2 * y2 + z2 * z2,
    ;
    assert(n1 * n2 <= (a * b) * (a * b)) by (nonlinear_arith)
        requires
            0 <= n1 <= a * a,
            0 <= n2 <= b * b,
    ;
    assert(p <= a * b) by (nonlinear_arith)
        requires
            p * p <= (a * b) * (a * b),
            0 <= a,
            0 <= b,
    ;
    assert(norm2(x1 + x2, y1 + y2, z1 + z2) == n1 + n2 + 2 * p) by (nonlinear_arith)
        requires
            p == x1 * x2 + y1 * y2 + z1 * z2,
            n1 == x1 * x1 + y1 * y1 + z1 * z1,
            n2 == x2 * x2 + y2 * y2 + z2 * z2,
            norm2(x1 + x2, y1 + y2, z1 + z2) == (x1 + x2) * (x1 + x2) + (y1 + y2) * (y1 + y2) + (
            z1 + z2) * (z1 + z2),
    ;
}

/// The squared distance of two colours is the squared length of the vector
/// between them.
pub proof fn lemma_distance_as_norm(p: Color, q: Color)
    ensures
        squared_distance(p, q) == norm2(
            p.r as int - q.r as int,
            p.g as int - q.g as int,
            p.b as int - q.b as int,
        ),
{
    lemma_channel_gap_bound(p.r, q.r);
    lemma_channel_gap_bound(p.g, q.g);
    lemma_channel_gap_bound(p.b, q.b);
}

/// The triangle inequality: where `p` is within `a` of `q` and `q` within `b`
/// of `s`, `p` is within `a + b` of `s`.
pub proof fn lemma_triangle(p: Color, q: Color, s: Color, a: nat, b: nat)
    requires
        squared_distance(p, q) <= a * a,
        squared_distance(q, s) <= b * b,
    ensures
        squared_distance(p, s) <= (a + b) * (a + b),
{
    lemma_distance_as_norm(p, q);
    lemma_distance_as_norm(q, s);
    lemma_distance_as_norm(p, s);
    lemma_sum_of_vectors(
        p.r as int - q.r as int,
        p.g as int - q.g as int,
        p.b as int - q.b as int,
        q.r as int - s.r as int,
        q.g as int - s.g as int,
        q.b as int - s.b as int,
        a as int,
        b as int,
    );
    assert((a + b) * (a + b) == a * a + b * b + 2 * (a * b)) by (nonlinear_arith);
}

/// The strict form of the triangle inequality: where `p` is nearer than `a`
/// to `q` and `q` within `b` of `s`, `p` is nearer than `a + b` to `s`.
pub proof fn lemma_triangle_strict(p: Color, q: Color, s: Color, a: nat, b: nat)
    requires
        squared_distance(p, q) < a * a,
        squared_distance(q, s) <= b * b,
    ensures
        squared_distance(p, s) < (a + b) * (a + b),
{
    lemma_distance_as_norm(p, q);
    lemma_distance_as_norm(q, s);
    lemma_distance_as_norm(p, s);
    lemma_sum_of_vectors(
        p.r as int - q.r as int,
        p.g as int - q.g as int,
        p.b as int - q.b as int,
        q.r as int - s.r as int,
        q.g as int - s.g as int,
        q.b as int - s.b as int,
        a as int,
        b as int,
    );
    assert((a + b) * (a + b) == a * a + b * b + 2 * (a * b)) by (nonlinear_arith);
}

} // verus!
