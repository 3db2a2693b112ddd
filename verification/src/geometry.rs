//! The coordinate mapper: quantizing world coordinates to grain units and
//! turning the camera's world-space viewport corners into a `PixelRectangle`
//! of visible grain coordinates, with a fixed overscan margin.
//!
//! The adapter hands world coordinates in as integers: the floor (or, where
//! noted, the ceiling) of the camera's world-space point. Flooring commutes
//! with division by a positive integer grain size, so quantizing the floored
//! coordinate gives exactly the grain cell of the original point.

use vstd::prelude::*;

use vstd::arithmetic::div_mod::lemma_div_is_ordered;
use vstd::arithmetic::div_mod::lemma_div_nonincreasing;
use vstd::arithmetic::div_mod::lemma_div_pos_is_pos;
use vstd::arithmetic::div_mod::lemma_fundamental_div_mod;
use vstd::arithmetic::div_mod::lemma_fundamental_div_mod_converse;
use vstd::arithmetic::div_mod::lemma_mod_division_less_than_divisor;

use crate::components::PixelGrain;
use crate::components::PixelRectangle;

verus! {

/// Ceiling division for a positive divisor, in spec arithmetic. Spec-mode
/// `/` on `int` is Euclidean division, which for a positive divisor rounds
/// toward negative infinity, so negating twice rounds upward.
pub open spec fn ceil_div_int(a: int, b: int) -> int
    recommends
        b >= 1,
{
    -((-a) / b)
}

/// Floor division of `a` by a positive `b`: rounds toward negative infinity.
/// (Spec-mode `/` on a positive divisor is already floor division; this is
/// its executable counterpart, built from truncating machine division.)
pub fn floor_div(a: i64, b: i64) -> (q: i64)
    requires
        b >= 1,
    ensures
        q == a as int / b as int,
{
    proof {
        if a >= 0 {
            lemma_div_pos_is_pos(a as int, b as int);
            lemma_div_nonincreasing(a as int, b as int);
        } else {
            lemma_div_pos_is_pos(-(a as int), b as int);
            lemma_div_nonincreasing(-(a as int), b as int);
        }
    }
    let q0: i64 = a.checked_div(b).unwrap();
    let r0: i64 = a.checked_rem(b).unwrap();
    if a >= 0 {
        q0
    } else {
        proof {
            let m: int = -(a as int);
            let d: int = b as int;
            lemma_fundamental_div_mod(m, d);
            lemma_mod_division_less_than_divisor(m, d);
            if m % d == 0 {
                assert(a as int == (-(m / d)) * d + 0) by (nonlinear_arith)
                    requires
                        m == -(a as int),
                        d >= 1,
                        m == d * (m / d) + m % d,
                        m % d == 0,
                ;
                lemma_fundamental_div_mod_converse(a as int, d, -(m / d), 0);
            } else {
                assert(a as int == (-(m / d) - 1) * d + (d - m % d)) by (nonlinear_arith)
                    requires
                        m == -(a as int),
                        d >= 1,
                        m == d * (m / d) + m % d,
                ;
                lemma_fundamental_div_mod_converse(a as int, d, -(m / d) - 1, d - m % d);
                assert(-(m / d) - 1 >= i64::MIN) by (nonlinear_arith)
                    requires
                        d >= 1,
                        0 < m <= 0x8000_0000_0000_0000,
                        m == d * (m / d) + m % d,
                        0 < m % d < d,
                        m / d >= 0,
                ;
            }
        }
        if r0 == 0 {
            q0
        } else {
            q0 - 1
        }
    }
}

/// Ceiling division of `a` by a positive `b`: rounds toward positive
/// infinity. `a` must exceed `i64::MIN` so that the computation stays in
/// range.
pub fn ceil_div(a: i64, b: i64) -> (q: i64)
    requires
        b >= 1,
        a > i64::MIN,
    ensures
        q == ceil_div_int(a as int, b as int),
{
    let f: i64 = floor_div(a - 1, b);
    proof {
        let d: int = b as int;
        let x: int = a as int - 1;
        lemma_fundamental_div_mod(x, d);
        lemma_mod_division_less_than_divisor(x, d);
        // -a == (-(x / d) - 1) * d + (d - 1 - x % d), so the ceiling
        // -((-a) / d) is exactly x / d + 1.
        assert(-(a as int) == (-(x / d) - 1) * d + (d - 1 - x % d)) by (nonlinear_arith)
            requires
                x == a as int - 1,
                d >= 1,
                x == d * (x / d) + x % d,
        ;
        lemma_fundamental_div_mod_converse(-(a as int), d, -(x / d) - 1, d - 1 - x % d);
        if x >= 0 {
            lemma_div_nonincreasing(x, d);
            lemma_div_pos_is_pos(x, d);
        } else {
            lemma_div_is_ordered(x, 0, d);
        }
    }
    f + 1
}

/// Maps the cursor's world-space position to the grain cell under the
/// pointer: the x coordinate is floored to grain units and the y coordinate
/// is ceiled. The asymmetry is intentional: it aligns the hover box that the
/// adapter draws with the cell under the pointer. The adapter passes
/// `world_x_floor == floor(w.x)` and `world_y_ceil == ceil(w.y)` of the
/// cursor's world point `w`; flooring (resp. ceiling) first commutes with
/// the division below.
pub fn screen_to_grain(world_x_floor: i64, world_y_ceil: i64, grain_size: i64) -> (g: PixelGrain)
    requires
        grain_size >= 1,
        world_y_ceil > i64::MIN,
    ensures
        g.x == world_x_floor as int / grain_size as int,
        g.y == ceil_div_int(world_y_ceil as int, grain_size as int),
{
    let x = floor_div(world_x_floor, grain_size);
    let y = ceil_div(world_y_ceil, grain_size);
    PixelGrain::new(x, y)
}

/// Maps the camera's world-space viewport corners to the visible region in
/// grain coordinates, growing the region by `margin` cells on every side
/// (overscan). The corners come in floored to integers; y grows upward, so
/// the top-left corner has the smaller x and the larger y.
///
/// Every corner of the result is exactly the floored quotient of the world
/// coordinate by the grain size, moved outward by `margin`; and the result
/// is well formed: `top_left.x <= bottom_right.x` and
/// `top_left.y >= bottom_right.y`.
pub fn viewport_to_region(
    top_left_x: i64,
    top_left_y: i64,
    bottom_right_x: i64,
    bottom_right_y: i64,
    grain_size: i64,
    margin: i64,
) -> (r: PixelRectangle)
    requires
        grain_size >= 1,
        margin >= 0,
        top_left_x <= bottom_right_x,
        top_left_y >= bottom_right_y,
        i64::MIN + margin <= top_left_x as int / grain_size as int,
        i64::MIN + margin <= bottom_right_y as int / grain_size as int,
        bottom_right_x as int / grain_size as int + margin <= i64::MAX,
        top_left_y as int / grain_size as int + margin <= i64::MAX,
    ensures
        r.top_left.x == top_left_x as int / grain_size as int - margin,
        r.top_left.y == top_left_y as int / grain_size as int + margin,
        r.bottom_right.x == bottom_right_x as int / grain_size as int + margin,
        r.bottom_right.y == bottom_right_y as int / grain_size as int - margin,
        r.wf(),
{
    proof {
        lemma_div_is_ordered(top_left_x as int, bottom_right_x as int, grain_size as int);
        lemma_div_is_ordered(bottom_right_y as int, top_left_y as int, grain_size as int);
    }
    let tl_x = floor_div(top_left_x, grain_size) - margin;
    let tl_y = floor_div(top_left_y, grain_size) + margin;
    let br_x = floor_div(bottom_right_x, grain_size) + margin;
    let br_y = floor_div(bottom_right_y, grain_size) - margin;
    PixelRectangle {
        top_left: PixelGrain::new(tl_x, tl_y),
        bottom_right: PixelGrain::new(br_x, br_y),
    }
}

} // verus!
