//! The orientation side-condition: the only place where coordinates are read.

use vstd::prelude::*;

verus! {

/// Integer coordinates of a point.
#[derive(Clone, Copy, Debug, PartialEq, Eq, Structural)]
pub struct Coord {
    pub x: i64,
    pub y: i64,
}

/// An ordered triple of points.
#[derive(Clone, Copy, Debug, PartialEq, Eq, Structural)]
pub struct Triangle {
    pub a: Coord,
    pub b: Coord,
    pub c: Coord,
}

/// Sign of an integer.
#[derive(Clone, Copy, Debug, PartialEq, Eq, Structural)]
pub enum Sign {
    Negative,
    Zero,
    Positive,
}

/// The contribution of the directed edge from `p` to `q` to the signed area.
pub open spec fn edge_term(p: Coord, q: Coord) -> int {
    (q.x - p.x) * (q.y + p.y)
}

/// The signed area of a triangle, summed edge by edge around it. Its absolute
/// value is twice the geometric area; its sign tells the sense of rotation.
pub open spec fn signed_area(t: Triangle) -> int {
    edge_term(t.a, t.b) + edge_term(t.b, t.c) + edge_term(t.c, t.a)
}

/// Two triangles have the same orientation when the product of their signed
/// areas is positive. A degenerate triangle has no orientation.
pub open spec fn same_orientation_spec(t1: Triangle, t2: Triangle) -> bool {
    signed_area(t1) * signed_area(t2) > 0
}

/// The sign of an integer.
pub open spec fn sign_of(v: int) -> Sign {
    if v < 0 {
        Sign::Negative
    } else if v == 0 {
        Sign::Zero
    } else {
        Sign::Positive
    }
}

/// The signed area is the negated cross product of two edge vectors.
pub proof fn lemma_area_is_cross(t: Triangle)
    ensures
        signed_area(t) == (t.c.x - t.a.x) * (t.b.y - t.a.y) - (t.b.x - t.a.x) * (t.c.y - t.a.y),
{
    let (x1, y1) = (t.a.x as int, t.a.y as int);
    let (x2, y2) = (t.b.x as int, t.b.y as int);
    let (x3, y3) = (t.c.x as int, t.c.y as int);
    assert((x2 - x1) * (y2 + y1) + (x3 - x2) * (y3 + y2) + (x1 - x3) * (y1 + y3) == (x3 - x1) * (y2
        - y1) - (x2 - x1) * (y3 - y1)) by (nonlinear_arith);
}

/// A product is positive exactly when both factors have the same nonzero sign.
pub proof fn lemma_product_sign(u: int, v: int)
    ensures
        (u * v > 0) <==> (sign_of(u) == sign_of(v) && sign_of(u) != Sign::Zero),
{
    assert((u * v > 0) <==> ((u > 0 && v > 0) || (u < 0 && v < 0))) by (nonlinear_arith);
}

/// Magnitude of a difference of two `i64` values, which always fits in `u64`.
fn magnitude(d: i128) -> (m: u128)
    requires
        -0x1_0000_0000_0000_0000 < d < 0x1_0000_0000_0000_0000,
    ensures
        m < 0x1_0000_0000_0000_0000,
        d >= 0 ==> m == d,
        d < 0 ==> m == -d,
{
    if d < 0 {
        (-d) as u128
    } else {
        d as u128
    }
}

/// Sign of `a * b - c * d` for factors that are differences of `i64` values.
/// The products themselves may need 129 bits, so they are compared as a sign
/// and a magnitude.
fn sign_of_difference(a: i128, b: i128, c: i128, d: i128) -> (s: Sign)
    requires
        -0x1_0000_0000_0000_0000 < a < 0x1_0000_0000_0000_0000,
        -0x1_0000_0000_0000_0000 < b < 0x1_0000_0000_0000_0000,
        -0x1_0000_0000_0000_0000 < c < 0x1_0000_0000_0000_0000,
        -0x1_0000_0000_0000_0000 < d < 0x1_0000_0000_0000_0000,
    ensures
        s == sign_of(a * b - c * d),
{
    let ma = magnitude(a);
    let mb = magnitude(b);
    let mc = magnitude(c);
    let md = magnitude(d);
    assert(ma * mb <= 0xffff_ffff_ffff_ffff * 0xffff_ffff_ffff_ffff) by (nonlinear_arith)
        requires
            ma <= 0xffff_ffff_ffff_ffff,
            mb <= 0xffff_ffff_ffff_ffff,
    ;
    assert(mc * md <= 0xffff_ffff_ffff_ffff * 0xffff_ffff_ffff_ffff) by (nonlinear_arith)
        requires
            mc <= 0xffff_ffff_ffff_ffff,
            md <= 0xffff_ffff_ffff_ffff,
    ;
    let p: u128 = ma * mb;
    let q: u128 = mc * md;
    let p_neg = (a < 0) != (b < 0);
    let q_neg = (c < 0) != (d < 0);
    proof {
        assert(a * b == (if p_neg { -(p as int) } else { p as int })) by (nonlinear_arith)
            requires
                p == ma * mb,
                a >= 0 ==> ma == a,
                a < 0 ==> ma == -a,
                b >= 0 ==> mb == b,
                b < 0 ==> mb == -b,
                p_neg == ((a < 0) != (b < 0)),
        ;
        assert(c * d == (if q_neg { -(q as int) } else { q as int })) by (nonlinear_arith)
            requires
                q == mc * md,
                c >= 0 ==> mc == c,
                c < 0 ==> mc == -c,
                d >= 0 ==> md == d,
                d < 0 ==> md == -d,
                q_neg == ((c < 0) != (d < 0)),
        ;
    }
    if p_neg == q_neg {
        if p == q {
            Sign::Zero
        } else if (p > q) != p_neg {
            Sign::Positive
        } else {
            Sign::Negative
        }
    } else if p == 0 && q == 0 {
        Sign::Zero
    } else if q_neg {
        Sign::Positive
    } else {
        Sign::Negative
    }
}

/// Sign of the signed area of a triangle, exact for all `i64` coordinates.
pub fn area_sign(t: &Triangle) -> (s: Sign)
    ensures
        s == sign_of(signed_area(*t)),
{
    proof {
        lemma_area_is_cross(*t);
    }
    let ax: i128 = t.a.x as i128;
    let ay: i128 = t.a.y as i128;
    sign_of_difference(
        t.c.x as i128 - ax,
        t.b.y as i128 - ay,
        t.b.x as i128 - ax,
        t.c.y as i128 - ay,
    )
}

/// Tells whether two triangles turn the same way: whether the product of their
/// signed areas is positive.
pub fn same_orientation(t1: &Triangle, t2: &Triangle) -> (same: bool)
    ensures
        same == same_orientation_spec(*t1, *t2),
{
    proof {
        lemma_product_sign(signed_area(*t1), signed_area(*t2));
    }
    let s1 = area_sign(t1);
    let s2 = area_sign(t2);
    match (s1, s2) {
        (Sign::Positive, Sign::Positive) => true,
        (Sign::Negative, Sign::Negative) => true,
        _ => false,
    }
}

} // verus!
