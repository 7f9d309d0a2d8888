//! Integer geometry for the stroke compositor.
//!
//! A stroke sample covers the pixels whose centers lie within the brush
//! radius of the sampled point (a filled disc) or of the segment from the
//! previous point (a thick line with round caps). Everything is computed on
//! integers: a pixel is inside a disc of radius `r` exactly when its squared
//! distance to the center is at most `r * r`, and distance to a segment is
//! compared through the standard projection formula, cleared of fractions.

use vstd::prelude::*;

verus! {

/// Luminance of an untouched pixel: white.
pub const BACKGROUND: u8 = 255;

/// Luminance of fully opaque ink: black.
pub const INK: u8 = 0;

/// Largest magnitude a stroke coordinate may have. The bound keeps every
/// intermediate of the squared-distance arithmetic far inside `i128` range.
pub const COORD_LIMIT: i32 = 1000000;

/// Largest canvas side length, matching the 16-bit dimensions a render
/// target is created with.
pub const DIM_LIMIT: usize = 65535;

/// Largest brush radius a canvas will hold.
pub const RADIUS_LIMIT: usize = 256;

/// A position in canvas space. Stroke samples may lie outside the canvas;
/// only the pixels that actually fall on the canvas are painted.
#[derive(Clone, Copy, PartialEq, Eq, Structural, Debug)]
pub struct Point {
    pub x: i32,
    pub y: i32,
}

/// Both coordinates of `p` are within `COORD_LIMIT` in magnitude.
pub open spec fn coord_ok(p: Point) -> bool {
    &&& -(COORD_LIMIT as int) <= p.x as int <= COORD_LIMIT as int
    &&& -(COORD_LIMIT as int) <= p.y as int <= COORD_LIMIT as int
}

/// The previous point of a stroke sample, when there is one, is in bounds.
pub open spec fn last_coord_ok(last: Option<Point>) -> bool {
    match last {
        Option::None => true,
        Option::Some(lp) => coord_ok(lp),
    }
}

pub open spec fn sq(a: int) -> int {
    a * a
}

/// Squared Euclidean distance between `(ax, ay)` and `(bx, by)`.
pub open spec fn dist_sq(ax: int, ay: int, bx: int, by: int) -> int {
    sq(ax - bx) + sq(ay - by)
}

/// Whether `(px, py)` lies within distance `r` of the segment from
/// `(ax, ay)` to `(bx, by)`, stated without fractions: the projection
/// parameter of the point onto the segment's line is `tn / td`, so the
/// point projects inside the segment exactly when `0 < tn < td`, and there
/// the squared distance to the line is `dist_sq(p, a) - tn * tn / td`.
pub open spec fn seg_within(ax: int, ay: int, bx: int, by: int, px: int, py: int, r: int) -> bool {
    let tn = (px - ax) * (bx - ax) + (py - ay) * (by - ay);
    let td = dist_sq(ax, ay, bx, by);
    if tn <= 0 {
        dist_sq(px, py, ax, ay) <= sq(r)
    } else if tn >= td {
        dist_sq(px, py, bx, by) <= sq(r)
    } else {
        dist_sq(px, py, ax, ay) * td - tn * tn <= sq(r) * td
    }
}

/// Which pixels one stroke sample covers. With no previous point the sample
/// is a stroke start and covers a filled disc of radius `r` around `p`; with
/// a previous point it covers the thick segment between the two, round caps
/// included. A degenerate segment (previous point equal to the current one)
/// covers nothing: such a sample is skipped, the way the original geometry
/// builder rejects a zero-length line.
pub open spec fn stroke_covers(last: Option<Point>, p: Point, r: int, x: int, y: int) -> bool {
    match last {
        Option::None => dist_sq(x, y, p.x as int, p.y as int) <= sq(r),
        Option::Some(lp) => {
            &&& dist_sq(lp.x as int, lp.y as int, p.x as int, p.y as int) != 0
            &&& seg_within(lp.x as int, lp.y as int, p.x as int, p.y as int, x, y, r)
        },
    }
}

/// Compositing black ink of opacity `alpha / 255` over a pixel of luminance
/// `p`: the pixel keeps a `(255 - alpha) / 255` share of its light. Opacity
/// `0` leaves the pixel exactly as it was; opacity `255` yields ink black.
pub open spec fn blend(p: u8, alpha: u8) -> u8 {
    (p as int * (255 - alpha as int) / 255) as u8
}

/// The product of values bounded by `m` and `n` is bounded by `m * n`.
#[verifier::nonlinear]
pub proof fn lemma_mul_bound(a: int, b: int, m: int, n: int)
    requires
        -m <= a <= m,
        -n <= b <= n,
    ensures
        -(m * n) <= a * b <= m * n,
{
}

/// Exact `i128` product, for factors small enough that it cannot overflow.
fn mul_exact(a: i128, b: i128) -> (r: i128)
    requires
        -0x1_0000_0000_0000 <= a <= 0x1_0000_0000_0000,
        -0x1_0000_0000_0000 <= b <= 0x1_0000_0000_0000,
    ensures
        r == a * b,
        -0x1_0000_0000_0000_0000_0000_0000 <= r <= 0x1_0000_0000_0000_0000_0000_0000,
{
    proof {
        lemma_mul_bound(a as int, b as int, 0x1_0000_0000_0000, 0x1_0000_0000_0000);
    }
    a * b
}

/// Exact squared distance, for coordinates of at most a few millions.
fn dist_sq_exact(ax: i128, ay: i128, bx: i128, by: i128) -> (r: i128)
    requires
        -0x200000 <= ax <= 0x200000,
        -0x200000 <= ay <= 0x200000,
        -0x200000 <= bx <= 0x200000,
        -0x200000 <= by <= 0x200000,
    ensures
        r == dist_sq(ax as int, ay as int, bx as int, by as int),
        0 <= r <= 0x1_0000_0000_0000,
{
    let dx: i128 = ax - bx;
    let dy: i128 = ay - by;
    proof {
        lemma_mul_bound(dx as int, dx as int, 0x400000, 0x400000);
        lemma_mul_bound(dy as int, dy as int, 0x400000, 0x400000);
        assert(0 <= dx as int * dx as int) by (nonlinear_arith);
        assert(0 <= dy as int * dy as int) by (nonlinear_arith);
    }
    dx * dx + dy * dy
}

/// Whether the pixel at `(x, y)` is covered by the stroke sample
/// `(last, p)` drawn with brush radius `r`: exactly `stroke_covers`.
pub fn covers(last: &Option<Point>, p: &Point, r: usize, x: usize, y: usize) -> (c: bool)
    requires
        coord_ok(*p),
        last_coord_ok(*last),
        r <= RADIUS_LIMIT,
        x <= DIM_LIMIT,
        y <= DIM_LIMIT,
    ensures
        c == stroke_covers(*last, *p, r as int, x as int, y as int),
{
    let px: i128 = x as i128;
    let py: i128 = y as i128;
    let cx: i128 = p.x as i128;
    let cy: i128 = p.y as i128;
    let rr: i128 = mul_exact(r as i128, r as i128);
    proof {
        lemma_mul_bound(r as int, r as int, RADIUS_LIMIT as int, RADIUS_LIMIT as int);
    }
    match last {
        Option::None => dist_sq_exact(px, py, cx, cy) <= rr,
        Option::Some(lp) => {
            let ax: i128 = lp.x as i128;
            let ay: i128 = lp.y as i128;
            let td: i128 = dist_sq_exact(ax, ay, cx, cy);
            if td == 0 {
                false
            } else {
                let tn: i128 = mul_exact(px - ax, cx - ax) + mul_exact(py - ay, cy - ay);
                proof {
                    lemma_mul_bound(
                        px as int - ax as int,
                        cx as int - ax as int,
                        0x400000,
                        0x400000,
                    );
                    lemma_mul_bound(
                        py as int - ay as int,
                        cy as int - ay as int,
                        0x400000,
                        0x400000,
                    );
                }
                if tn <= 0 {
                    dist_sq_exact(px, py, ax, ay) <= rr
                } else if tn >= td {
                    dist_sq_exact(px, py, cx, cy) <= rr
                } else {
                    let near: i128 = dist_sq_exact(px, py, ax, ay);
                    mul_exact(near, td) - mul_exact(tn, tn) <= mul_exact(rr, td)
                }
            }
        },
    }
}

/// Composites black ink of opacity `alpha / 255` over the pixel `p`:
/// exactly `blend`.
pub fn blend_px(p: u8, alpha: u8) -> (r: u8)
    ensures
        r == blend(p, alpha),
{
    let keep: u32 = 255u32 - alpha as u32;
    proof {
        lemma_mul_bound(p as int, keep as int, 255, 255);
    }
    let scaled: u32 = p as u32 * keep;
    let q: u32 = scaled / 255;
    proof {
        vstd::arithmetic::div_mod::lemma_div_is_ordered(scaled as int, 65025, 255);
    }
    q as u8
}

} // verus!
