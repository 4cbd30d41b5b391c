//! Colours and the squared metric between them.

use vstd::prelude::*;

verus! {

/// The largest squared difference between two colours: three channels that
/// each differ by 255.
pub const MAX_DIFFERENCE: u32 = 195075;

/// The largest number of centroids that a cluster id can tell apart.
pub const MAX_CLUSTERS: usize = 256;

/// A point of the colour space, one value per channel.
#[derive(Clone, Copy, Debug, PartialEq, Eq, Structural)]
pub struct Color {
    pub r: u8,
    pub g: u8,
    pub b: u8,
}

/// The square of the distance between two channel values.
pub open spec fn channel_gap(a: u8, b: u8) -> nat {
    ((a as int - b as int) * (a as int - b as int)) as nat
}

/// The squared Euclidean distance between two colours.
pub open spec fn squared_distance(a: Color, b: Color) -> nat {
    channel_gap(a.r, b.r) + channel_gap(a.g, b.g) + channel_gap(a.b, b.b)
}

/// A channel gap is a square of a number between -255 and 255.
pub proof fn lemma_channel_gap_bound(a: u8, b: u8)
    ensures
        channel_gap(a, b) <= 65025,
        channel_gap(a, b) == channel_gap(b, a),
        channel_gap(a, b) == 0 <==> a == b,
        channel_gap(a, b) == (a as int - b as int) * (a as int - b as int),
{
    let d = a as int - b as int;
    assert(-255 <= d <= 255);
    assert(d * d <= 65025) by (nonlinear_arith)
        requires
            -255 <= d <= 255,
    ;
    assert(d * d >= 0) by (nonlinear_arith);
    assert((-d) * (-d) == d * d) by (nonlinear_arith);
    assert(b as int - a as int == -d);
    assert(d * d == 0 <==> d == 0) by (nonlinear_arith);
}

/// The squared distance is a squared metric: zero exactly between equal
/// colours, the same in both directions, and never above `MAX_DIFFERENCE`.
pub proof fn lemma_squared_distance_metric(a: Color, b: Color)
    ensures
        squared_distance(a, a) == 0,
        squared_distance(a, b) == squared_distance(b, a),
        squared_distance(a, b) == 0 <==> a == b,
        squared_distance(a, b) <= MAX_DIFFERENCE,
{
    lemma_channel_gap_bound(a.r, b.r);
    lemma_channel_gap_bound(a.g, b.g);
    lemma_channel_gap_bound(a.b, b.b);
    lemma_channel_gap_bound(a.r, a.r);
    lemma_channel_gap_bound(a.g, a.g);
    lemma_channel_gap_bound(a.b, a.b);
}

fn gap(a: u8, b: u8) -> (d: u32)
    ensures
        d == channel_gap(a, b),
        d <= 65025,
{
    proof {
        lemma_channel_gap_bound(a, b);
        lemma_channel_gap_bound(b, a);
    }
    let w: u32 = if a >= b { (a - b) as u32 } else { (b - a) as u32 };
    assert(w * w == channel_gap(a, b)) by (nonlinear_arith)
        requires
            w == a as int - b as int || w == b as int - a as int,
            channel_gap(a, b) == (a as int - b as int) * (a as int - b as int),
    ;
    w * w
}

impl Color {
    /// A colour from its three channel values.
    pub fn new(r: u8, g: u8, b: u8) -> (c: Color)
        ensures
            c == (Color { r, g, b }),
    {
        Color { r, g, b }
    }

    /// The squared distance between `c1` and `c2`.
    pub fn difference(c1: &Color, c2: &Color) -> (d: u32)
        ensures
            d == squared_distance(*c1, *c2),
            d <= MAX_DIFFERENCE,
    {
        gap(c1.r, c2.r) + gap(c1.g, c2.g) + gap(c1.b, c2.b)
    }
}

} // verus!
