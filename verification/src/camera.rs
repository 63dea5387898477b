//! Camera follow controller: eases the camera's horizontal position toward
//! the flyer with a dead zone. While the flyer sits between 20% and 80% of
//! the viewport the camera does not move at all; nearer an edge it chases a
//! point that would put the flyer at 30% from that edge, faster the deeper
//! the flyer is into the edge band. The easing factor is deliberately not
//! clamped, so very small `relative` values can overshoot in one tick.
//! The vertical position is fixed at spawn and never changes.

use vstd::prelude::*;

verus! {

use crate::FX_ONE;
use crate::fixmath::{div_trunc, div_trunc_i128, lemma_div_trunc_bound};
use crate::stork::MAX_TICK_FX;

/// Largest camera position (in magnitude, fixed-point pixels) the
/// controller accepts; a machine limit.
pub const CAMERA_POS_LIMIT_FX: i64 = 100_000_000_000_000_000;

/// Largest viewport half-extent in fixed-point pixels; a machine limit.
pub const VIEW_EXTENT_LIMIT_FX: i64 = 1_000_000_000_000;

/// The camera: its horizontal translation, eased after the flyer, and its
/// vertical translation, fixed at spawn.
#[derive(Clone, Copy, PartialEq, Eq, Structural, Debug)]
pub struct CameraState {
    pub x: i64,
    pub y: i64,
}

/// The flyer's position as a fraction of the viewport, in fixed point:
/// 0 at the left bound, 1 at the right bound, outside `[0, 1]` when the
/// flyer is off screen.
pub open spec fn spec_camera_rel(cam_x: int, stork_px_x: int, half_extent: int) -> int {
    div_trunc((stork_px_x - (cam_x - half_extent)) * (FX_ONE as int), 2 * half_extent)
}

/// The camera's horizontal position after one tick: unchanged in the dead
/// zone, otherwise a linear interpolation toward the 30%-from-the-edge
/// target with the unclamped factor `ratio * dt`.
pub open spec fn spec_camera_next(cam_x: int, stork_px_x: int, half_extent: int, dt: int) -> int {
    let rel = spec_camera_rel(cam_x, stork_px_x, half_extent);
    if rel < 200_000 {
        let target = stork_px_x + div_trunc(3 * (2 * half_extent), 10);
        let ratio = (200_000 - rel) * 10;
        let t = div_trunc(ratio * dt, FX_ONE as int);
        cam_x + div_trunc((target - cam_x) * t, FX_ONE as int)
    } else if rel > 800_000 {
        let target = stork_px_x - div_trunc(3 * (2 * half_extent), 10);
        let ratio = (rel - 800_000) * 10;
        let t = div_trunc(ratio * dt, FX_ONE as int);
        cam_x + div_trunc((target - cam_x) * t, FX_ONE as int)
    } else {
        cam_x
    }
}

/// The camera at session start: horizontally at the origin, vertically at
/// half the viewport height, where it stays for the whole session.
pub fn spawn_camera(viewport_height: i64) -> (c: CameraState)
    requires
        viewport_height >= 0,
    ensures
        c.x == 0,
        c.y as int == (viewport_height as int) / 2,
{
    CameraState { x: 0, y: viewport_height / 2 }
}

/// One tick of the camera follow controller. With `relative` anywhere in
/// the dead zone `[0.2, 0.8]` — in particular exactly in the middle — the
/// camera does not move, whatever `dt` is.
#[verifier::rlimit(100)]
pub fn move_camera(camera: &mut CameraState, stork_px_x: i64, half_extent: i64, dt: i64)
    requires
        0 < half_extent <= VIEW_EXTENT_LIMIT_FX,
        -CAMERA_POS_LIMIT_FX <= old(camera).x <= CAMERA_POS_LIMIT_FX,
        -100 * (half_extent as int) <= stork_px_x as int - old(camera).x <= 100 * (
        half_extent as int),
        0 <= dt <= MAX_TICK_FX,
    ensures
        final(camera).x as int == spec_camera_next(
            old(camera).x as int,
            stork_px_x as int,
            half_extent as int,
            dt as int,
        ),
        final(camera).y == old(camera).y,
        200_000 <= spec_camera_rel(old(camera).x as int, stork_px_x as int, half_extent as int)
            <= 800_000 ==> final(camera).x == old(camera).x,
        -160_000_000_000_000_000 <= final(camera).x <= 160_000_000_000_000_000,
{
    let cam_x = camera.x;
    let he128 = half_extent as i128;
    let num = (stork_px_x as i128) - ((cam_x as i128) - he128);
    proof {
        assert(-101 * (half_extent as int) <= num as int <= 101 * (half_extent as int));
        assert(-101_000_000_000_000_000_000 <= (num as int) * (FX_ONE as int)
            <= 101_000_000_000_000_000_000) by (nonlinear_arith)
            requires
                -101 * (half_extent as int) <= num as int <= 101 * (half_extent as int),
                0 < half_extent <= 1_000_000_000_000,
        ;
        assert((num as int) * (FX_ONE as int) <= 101 * (half_extent as int) * (FX_ONE as int))
            by (nonlinear_arith)
            requires
                num as int <= 101 * (half_extent as int),
        ;
        assert(-(101 * (half_extent as int) * (FX_ONE as int)) <= (num as int) * (FX_ONE as int))
            by (nonlinear_arith)
            requires
                -101 * (half_extent as int) <= num as int,
        ;
    }
    let rel = div_trunc_i128(num * (FX_ONE as i128), 2 * he128);
    proof {
        // |rel| <= 101 * FX / 2: the quotient of the tightest numerator
        // bound by the denominator.
        assert(-50_500_000 <= rel as int <= 50_500_000) by (nonlinear_arith)
            requires
                rel as int == div_trunc((num as int) * (FX_ONE as int), 2 * (half_extent as int)),
                -(101 * (half_extent as int) * (FX_ONE as int)) <= (num as int) * (FX_ONE as int)
                    <= 101 * (half_extent as int) * (FX_ONE as int),
                0 < half_extent,
        ;
    }
    if rel < 200_000 {
        let spread = div_trunc_i128(3 * (2 * he128), 10);
        let target = (stork_px_x as i128) + spread;
        let ratio = (200_000 - rel) * 10;
        proof {
            assert(0 <= spread <= 600_000_000_000);
            assert(0 < ratio <= 507_010_000);
            assert(0 <= (ratio as int) * (dt as int) <= 507_010_000_000_000) by (nonlinear_arith)
                requires
                    0 < ratio <= 507_010_000,
                    0 <= dt <= 1_000_000,
            ;
            lemma_div_trunc_bound((ratio as int) * (dt as int), FX_ONE as int, 507_010_000_000_000);
        }
        let t = div_trunc_i128(ratio * (dt as i128), FX_ONE as i128);
        let diff = target - (cam_x as i128);
        proof {
            assert(0 <= t <= 507_010_000);
            assert(-101_000_000_000_000 <= diff as int <= 101_000_000_000_000);
            assert(-51_208_010_000_000_000_000_000 <= (diff as int) * (t as int)
                <= 51_208_010_000_000_000_000_000) by (nonlinear_arith)
                requires
                    -101_000_000_000_000 <= diff as int <= 101_000_000_000_000,
                    0 <= t <= 507_010_000,
            ;
            lemma_div_trunc_bound(
                (diff as int) * (t as int),
                FX_ONE as int,
                51_208_010_000_000_000_000_000,
            );
        }
        let step = div_trunc_i128(diff * t, FX_ONE as i128);
        camera.x = ((cam_x as i128) + step) as i64;
    } else if rel > 800_000 {
        let spread = div_trunc_i128(3 * (2 * he128), 10);
        let target = (stork_px_x as i128) - spread;
        let ratio = (rel - 800_000) * 10;
        proof {
            assert(0 <= spread <= 600_000_000_000);
            assert(0 < ratio <= 497_000_000);
            assert(0 <= (ratio as int) * (dt as int) <= 497_000_000_000_000) by (nonlinear_arith)
                requires
                    0 < ratio <= 497_000_000,
                    0 <= dt <= 1_000_000,
            ;
            lemma_div_trunc_bound((ratio as int) * (dt as int), FX_ONE as int, 497_000_000_000_000);
        }
        let t = div_trunc_i128(ratio * (dt as i128), FX_ONE as i128);
        let diff = target - (cam_x as i128);
        proof {
            assert(0 <= t <= 497_000_000);
            assert(-101_000_000_000_000 <= diff as int <= 101_000_000_000_000);
            assert(-50_197_000_000_000_000_000_000 <= (diff as int) * (t as int)
                <= 50_197_000_000_000_000_000_000) by (nonlinear_arith)
                requires
                    -101_000_000_000_000 <= diff as int <= 101_000_000_000_000,
                    0 <= t <= 497_000_000,
            ;
            lemma_div_trunc_bound(
                (diff as int) * (t as int),
                FX_ONE as int,
                50_197_000_000_000_000_000_000,
            );
        }
        let step = div_trunc_i128(diff * t, FX_ONE as i128);
        camera.x = ((cam_x as i128) + step) as i64;
    }
}

} // verus!
