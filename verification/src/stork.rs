//! Flight dynamics of the stork: one tick advances speed, heading and
//! position from the held controls and the elapsed time, through thrust,
//! turning, energy-conserving gravity, air resistance, stall recovery and
//! the final position step — in that order, all with the same tick length.
//!
//! Headings are in fixed-point degrees with 90 pointing right, 0 straight
//! down and -90 left, kept within `[-180, 180]`.

use vstd::prelude::*;

verus! {

use crate::{CoreError, FX_ONE, PIXELS_PER_METER};
use crate::fixmath::{
    cos_fx,
    deg_to_rad_fx,
    div_trunc,
    div_trunc_i128,
    is_sqrt_of,
    isqrt_u128,
    lemma_div_trunc_bound,
    sin_fx,
    spec_cos_fx,
    spec_deg_to_rad,
    spec_isqrt,
    spec_sin_fx,
};

/// Air-resistance damping per second: 0.1 in fixed point.
pub const AIR_RESISTANCE_FX: i64 = 100_000;

/// Effective gravity: 9.81 * 0.2 in fixed point.
pub const GRAVITY_FX: i64 = 1_962_000;

/// Speed below which the stall correction engages: 1.0 m/s.
pub const STALL_SPEED_FX: i64 = 1_000_000;

/// Thrust at standstill: 10.0 m/s^2 in fixed point.
pub const MAX_ACCELERATION_FX: i64 = 10_000_000;

/// Speed at which thrust tapers to zero: 4.0 m/s.
pub const TOP_ACCELERATION_SPEED_FX: i64 = 4_000_000;

/// Turn rate while a pitch control is held: 100 degrees per second.
pub const TURN_SPEED_FX: i64 = 100_000_000;

/// Numerator of the stall nose-down rate: 20 degrees per second at the
/// stall speed boundary.
pub const STALL_NOSE_FACTOR_FX: i64 = 20_000_000;

/// Longest tick the integrator accepts: one second. A machine limit that
/// keeps every intermediate inside 64-bit fixed point.
pub const MAX_TICK_FX: i64 = 1_000_000;

/// Largest speed the integrator accepts, a machine limit.
pub const SPEED_LIMIT_FX: i64 = 1_000_000_000_000;

/// Largest position component (in magnitude) the integrator accepts, a
/// machine limit.
pub const POSITION_LIMIT_FX: i64 = 10_000_000_000_000_000;

/// A two-component fixed-point vector.
#[derive(Clone, Copy, PartialEq, Eq, Structural, Debug)]
pub struct Vec2Fx {
    pub x: i64,
    pub y: i64,
}

/// The logical controls the integrator reads each tick. It only reads
/// membership; the input host owns the set.
#[derive(Clone, Copy, PartialEq, Eq, Structural, Debug)]
pub struct Controls {
    pub boost: bool,
    pub pitch_up: bool,
    pub pitch_down: bool,
}

/// The player-controlled glider: position in fixed-point meters, speed in
/// fixed-point meters per second, direction in fixed-point degrees.
#[derive(Clone, Copy, PartialEq, Eq, Structural, Debug)]
pub struct Stork {
    pub position: Vec2Fx,
    pub speed: i64,
    pub direction: i64,
}

/// Sign of a heading: positive headings (and zero) turn one way, negative
/// the other.
pub open spec fn spec_sign(h: int) -> int {
    if h >= 0 {
        1
    } else {
        -1
    }
}

/// Magnitude.
pub open spec fn spec_abs(h: int) -> int {
    if h >= 0 {
        h
    } else {
        -h
    }
}

/// A stork state the integrator accepts: speed and position within the
/// machine limits, heading within its half-turn domain.
pub open spec fn spec_stork_wf(s: Stork) -> bool {
    &&& 0 <= s.speed <= SPEED_LIMIT_FX
    &&& -180_000_000 <= s.direction <= 180_000_000
    &&& -POSITION_LIMIT_FX <= s.position.x <= POSITION_LIMIT_FX
    &&& -POSITION_LIMIT_FX <= s.position.y <= POSITION_LIMIT_FX
}

/// Speed after thrust: acceleration tapers linearly from the maximum at
/// standstill to zero at the taper speed, and turns negative beyond it.
pub open spec fn spec_thrust(speed: int, boost: bool, dt: int) -> int {
    if boost {
        let ratio = div_trunc(speed * (FX_ONE as int), TOP_ACCELERATION_SPEED_FX as int);
        let accel = div_trunc(
            (MAX_ACCELERATION_FX as int) * ((FX_ONE as int) - ratio),
            FX_ONE as int,
        );
        speed + div_trunc(accel * dt, FX_ONE as int)
    } else {
        speed
    }
}

/// Heading after the pitch-up control: the magnitude grows at the turn
/// rate, and beyond 175 degrees the heading snaps to the opposite
/// half-turn.
pub open spec fn spec_turn_up(h: int, up: bool, dt: int) -> int {
    if up {
        let delta = div_trunc((TURN_SPEED_FX as int) * dt, FX_ONE as int);
        let h1 = h + spec_sign(h) * delta;
        if h1 > 175_000_000 || h1 < -175_000_000 {
            -spec_sign(h1) * 180_000_000
        } else {
            h1
        }
    } else {
        h
    }
}

/// Heading after the pitch-down control: the magnitude shrinks at the turn
/// rate, and under 5 degrees the heading snaps to zero.
pub open spec fn spec_turn_down(h: int, down: bool, dt: int) -> int {
    if down {
        let delta = div_trunc((TURN_SPEED_FX as int) * dt, FX_ONE as int);
        let h1 = h - spec_sign(h) * delta;
        if -5_000_000 < h1 && h1 < 5_000_000 {
            0
        } else {
            h1
        }
    } else {
        h
    }
}

/// The radicand of the energy-conservation speed update:
/// `speed^2 - 2 * delta_h * gravity`, where `delta_h` is the vertical
/// displacement implied by the heading and speed over the tick. Negative
/// exactly when the physical model breaks down.
pub open spec fn spec_radicand(speed: int, h: int, dt: int) -> int {
    let sd = spec_sin_fx(spec_deg_to_rad(spec_abs(h) - 90_000_000));
    let dh1 = div_trunc(sd * speed, FX_ONE as int);
    let delta_h = div_trunc(dh1 * dt, FX_ONE as int);
    speed * speed - 2 * (delta_h * (GRAVITY_FX as int))
}

/// Speed after air resistance: exponential-decay-style damping.
pub open spec fn spec_drag_speed(speed: int, dt: int) -> int {
    let inner = div_trunc(speed * (AIR_RESISTANCE_FX as int), FX_ONE as int);
    speed - div_trunc(inner * dt, FX_ONE as int)
}

/// Heading after stall recovery: below the stall speed the nose turns
/// toward vertical at a rate that diverges as speed approaches zero; the
/// nose stops at vertical (heading zero) rather than swinging past it, so
/// the heading stays within its domain for every speed.
pub open spec fn spec_stall_heading(h: int, speed: int, dt: int) -> int {
    if speed < STALL_SPEED_FX {
        let ratio_sq = div_trunc(speed * speed, FX_ONE as int);
        if ratio_sq <= 0 {
            0
        } else {
            let turnspeed = div_trunc((STALL_NOSE_FACTOR_FX as int) * (FX_ONE as int), ratio_sq);
            let elevation = spec_abs(h) - div_trunc(turnspeed * dt, FX_ONE as int);
            if elevation <= 0 {
                0
            } else {
                spec_sign(h) * elevation
            }
        }
    } else {
        h
    }
}

/// Horizontal position step: the heading converted to the mathematical
/// convention (0 = rightward), then `cos * speed * dt`.
pub open spec fn spec_step_dx(h: int, speed: int, dt: int) -> int {
    let dir = h - 90_000_000;
    let c = spec_cos_fx(spec_deg_to_rad(dir));
    div_trunc(div_trunc(c * speed, FX_ONE as int) * dt, FX_ONE as int)
}

/// Vertical position step: `sin * speed * dt` of the converted heading.
pub open spec fn spec_step_dy(h: int, speed: int, dt: int) -> int {
    let dir = h - 90_000_000;
    let s = spec_sin_fx(spec_deg_to_rad(dir));
    div_trunc(div_trunc(s * speed, FX_ONE as int) * dt, FX_ONE as int)
}

/// The initial stork: three meters up, gliding rightward and slightly
/// past horizontal at two meters per second.
pub fn spawn_stork() -> (s: Stork)
    ensures
        s == (Stork {
            position: Vec2Fx { x: 0, y: 3_000_000 },
            speed: 2_000_000,
            direction: 100_000_000,
        }),
        spec_stork_wf(s),
{
    Stork { position: Vec2Fx { x: 0, y: 3_000_000 }, speed: 2_000_000, direction: 100_000_000 }
}

/// The presentation translation of the stork: its position scaled from
/// fixed-point meters to fixed-point pixels.
pub fn stork_pixel_position(s: &Stork) -> (p: (i64, i64))
    requires
        -11_000_000_000_000_000 <= s.position.x <= 11_000_000_000_000_000,
        -11_000_000_000_000_000 <= s.position.y <= 11_000_000_000_000_000,
    ensures
        p.0 as int == (s.position.x as int) * (PIXELS_PER_METER as int),
        p.1 as int == (s.position.y as int) * (PIXELS_PER_METER as int),
{
    (s.position.x * PIXELS_PER_METER, s.position.y * PIXELS_PER_METER)
}

/// Thrust phase as executable code.
fn thrust_step(speed: i64, boost: bool, dt: i64) -> (r: i64)
    requires
        0 <= speed <= SPEED_LIMIT_FX,
        0 <= dt <= MAX_TICK_FX,
    ensures
        r as int == spec_thrust(speed as int, boost, dt as int),
        -3_600_000_000_000 <= r <= 3_600_000_000_000,
{
    if boost {
        proof {
            lemma_div_trunc_bound(
                (speed as int) * (FX_ONE as int),
                TOP_ACCELERATION_SPEED_FX as int,
                1_000_000_000_000_000_000,
            );
        }
        let ratio = div_trunc_i128(
            (speed as i128) * (FX_ONE as i128),
            TOP_ACCELERATION_SPEED_FX as i128,
        );
        proof {
            assert(0 <= ratio <= 250_000_000_000);
            lemma_div_trunc_bound(
                (MAX_ACCELERATION_FX as int) * ((FX_ONE as int) - ratio as int),
                FX_ONE as int,
                2_510_000_000_000_000_000,
            );
        }
        let accel = div_trunc_i128(
            (MAX_ACCELERATION_FX as i128) * ((FX_ONE as i128) - ratio),
            FX_ONE as i128,
        );
        proof {
            assert(-2_510_000_000_000 <= accel <= 2_510_000_000_000);
            assert(-2_510_000_000_000_000_000 <= (accel as int) * (dt as int)
                <= 2_510_000_000_000_000_000) by (nonlinear_arith)
                requires
                    -2_510_000_000_000 <= accel <= 2_510_000_000_000,
                    0 <= dt <= 1_000_000,
            ;
            lemma_div_trunc_bound(
                (accel as int) * (dt as int),
                FX_ONE as int,
                2_510_000_000_000_000_000,
            );
        }
        let delta = div_trunc_i128(accel * (dt as i128), FX_ONE as i128);
        ((speed as i128) + delta) as i64
    } else {
        speed
    }
}

/// Turning phase as executable code: pitch up first, then pitch down; both
/// may act in the same tick.
fn turn_step(h0: i64, up: bool, down: bool, dt: i64) -> (r: i64)
    requires
        -180_000_000 <= h0 <= 180_000_000,
        0 <= dt <= MAX_TICK_FX,
    ensures
        r as int == spec_turn_down(spec_turn_up(h0 as int, up, dt as int), down, dt as int),
        -180_000_000 <= r <= 180_000_000,
{
    let mut h: i64 = h0;
    if up {
        proof {
            lemma_div_trunc_bound(
                (TURN_SPEED_FX as int) * (dt as int),
                FX_ONE as int,
                100_000_000_000_000,
            );
        }
        let delta = div_trunc_i128((TURN_SPEED_FX as i128) * (dt as i128), FX_ONE as i128);
        let delta64 = delta as i64;
        proof {
            assert(0 <= delta64 <= 100_000_000);
            assert(delta64 as int == div_trunc((TURN_SPEED_FX as int) * (dt as int), FX_ONE as int));
        }
        let h1 = if h >= 0 {
            h + delta64
        } else {
            h - delta64
        };
        proof {
            assert(h1 as int == h as int + spec_sign(h as int) * (delta64 as int));
        }
        h = if h1 > 175_000_000 || h1 < -175_000_000 {
            if h1 >= 0 {
                -180_000_000
            } else {
                180_000_000
            }
        } else {
            h1
        };
    }
    proof {
        assert(h as int == spec_turn_up(h0 as int, up, dt as int));
        assert(-180_000_000 <= h <= 180_000_000);
    }
    let ghost h_up = h as int;
    if down {
        proof {
            lemma_div_trunc_bound(
                (TURN_SPEED_FX as int) * (dt as int),
                FX_ONE as int,
                100_000_000_000_000,
            );
        }
        let delta = div_trunc_i128((TURN_SPEED_FX as i128) * (dt as i128), FX_ONE as i128);
        let delta64 = delta as i64;
        proof {
            assert(0 <= delta64 <= 100_000_000);
            assert(delta64 as int == div_trunc((TURN_SPEED_FX as int) * (dt as int), FX_ONE as int));
        }
        let h1 = if h >= 0 {
            h - delta64
        } else {
            h + delta64
        };
        proof {
            if h >= 0 {
                assert(spec_sign(h_up) == 1);
                assert(h1 as int == h_up - 1 * (delta64 as int));
            } else {
                assert(spec_sign(h_up) == -1);
                assert(h1 as int == h_up - (-1) * (delta64 as int));
            }
            assert(h1 as int == h_up - spec_sign(h_up) * (delta64 as int));
        }
        h = if -5_000_000 < h1 && h1 < 5_000_000 {
            0
        } else {
            h1
        };
    }
    proof {
        assert(h as int == spec_turn_down(h_up, down, dt as int));
        assert(-180_000_000 <= h <= 180_000_000);
    }
    h
}

/// Gravity phase as executable code: the radicand of the
/// energy-conservation update.
fn radicand_step(speed: i64, h: i64, dt: i64) -> (r: i128)
    requires
        -3_600_000_000_000 <= speed <= 3_600_000_000_000,
        -180_000_000 <= h <= 180_000_000,
        0 <= dt <= MAX_TICK_FX,
    ensures
        r as int == spec_radicand(speed as int, h as int, dt as int),
        r as int <= 12_974_126_400_000_000_000_000_000,
{
    let habs = if h >= 0 {
        h
    } else {
        -h
    };
    let ang = deg_to_rad_fx(habs - 90_000_000);
    let sd = sin_fx(ang) as i128;
    proof {
        assert(-3_600_000_000_000_000_000 <= (sd as int) * (speed as int)
            <= 3_600_000_000_000_000_000) by (nonlinear_arith)
            requires
                -1_000_000 <= sd <= 1_000_000,
                -3_600_000_000_000 <= speed <= 3_600_000_000_000,
        ;
        lemma_div_trunc_bound(
            (sd as int) * (speed as int),
            FX_ONE as int,
            3_600_000_000_000_000_000,
        );
    }
    let dh1 = div_trunc_i128(sd * (speed as i128), FX_ONE as i128);
    proof {
        assert(-3_600_000_000_000 <= dh1 <= 3_600_000_000_000);
        assert(-3_600_000_000_000_000_000 <= (dh1 as int) * (dt as int)
            <= 3_600_000_000_000_000_000) by (nonlinear_arith)
            requires
                -3_600_000_000_000 <= dh1 <= 3_600_000_000_000,
                0 <= dt <= 1_000_000,
        ;
        lemma_div_trunc_bound((dh1 as int) * (dt as int), FX_ONE as int, 3_600_000_000_000_000_000);
    }
    let delta_h = div_trunc_i128(dh1 * (dt as i128), FX_ONE as i128);
    proof {
        assert(-3_600_000_000_000 <= delta_h <= 3_600_000_000_000);
        assert(0 <= (speed as int) * (speed as int) <= 12_960_000_000_000_000_000_000_000)
            by (nonlinear_arith)
            requires
                -3_600_000_000_000 <= speed <= 3_600_000_000_000,
        ;
        assert(-7_063_200_000_000_000_000 <= (delta_h as int) * (GRAVITY_FX as int)
            <= 7_063_200_000_000_000_000) by (nonlinear_arith)
            requires
                -3_600_000_000_000 <= delta_h <= 3_600_000_000_000,
        ;
    }
    (speed as i128) * (speed as i128) - 2 * (delta_h * (GRAVITY_FX as i128))
}

/// The speed recovered from a nonnegative radicand.
fn sqrt_speed(rad: i128) -> (r: i64)
    requires
        0 <= rad <= 12_974_126_400_000_000_000_000_000,
    ensures
        r as int == spec_isqrt(rad as int),
        0 <= r <= 3_700_000_000_000,
{
    let sq = isqrt_u128(rad as u128);
    proof {
        assert(is_sqrt_of(sq as int, rad as int));
        assert(sq as int <= 3_700_000_000_000) by (nonlinear_arith)
            requires
                0 <= sq as int,
                (sq as int) * (sq as int) <= rad as int,
                rad as int <= 12_974_126_400_000_000_000_000_000,
        ;
    }
    sq as i64
}

/// Air-resistance phase as executable code; never increases the speed and
/// never drives it negative.
fn drag_step(speed: i64, dt: i64) -> (r: i64)
    requires
        0 <= speed <= 3_700_000_000_000,
        0 <= dt <= MAX_TICK_FX,
    ensures
        r as int == spec_drag_speed(speed as int, dt as int),
        0 <= r <= speed,
{
    proof {
        lemma_div_trunc_bound(
            (speed as int) * (AIR_RESISTANCE_FX as int),
            FX_ONE as int,
            370_000_000_000_000_000,
        );
    }
    let inner = div_trunc_i128((speed as i128) * (AIR_RESISTANCE_FX as i128), FX_ONE as i128);
    proof {
        assert(0 <= inner <= 370_000_000_000);
        assert((speed as int) * (AIR_RESISTANCE_FX as int) <= (speed as int) * (FX_ONE as int));
        vstd::arithmetic::div_mod::lemma_div_is_ordered(
            (speed as int) * (AIR_RESISTANCE_FX as int),
            (speed as int) * (FX_ONE as int),
            FX_ONE as int,
        );
        vstd::arithmetic::div_mod::lemma_div_by_multiple(speed as int, FX_ONE as int);
        assert(inner as int <= speed as int);
        assert(0 <= (inner as int) * (dt as int) <= (inner as int) * (FX_ONE as int))
            by (nonlinear_arith)
            requires
                0 <= inner,
                0 <= dt <= 1_000_000,
        ;
        lemma_div_trunc_bound((inner as int) * (dt as int), FX_ONE as int, 370_000_000_000_000_000);
        vstd::arithmetic::div_mod::lemma_div_is_ordered(
            (inner as int) * (dt as int),
            (inner as int) * (FX_ONE as int),
            FX_ONE as int,
        );
        vstd::arithmetic::div_mod::lemma_div_by_multiple(inner as int, FX_ONE as int);
    }
    let decr = div_trunc_i128(inner * (dt as i128), FX_ONE as i128);
    proof {
        assert(0 <= decr as int <= inner as int);
    }
    speed - (decr as i64)
}

/// Stall-recovery phase as executable code.
fn stall_step(h: i64, speed: i64, dt: i64) -> (r: i64)
    requires
        -180_000_000 <= h <= 180_000_000,
        0 <= speed <= 3_700_000_000_000,
        0 <= dt <= MAX_TICK_FX,
    ensures
        r as int == spec_stall_heading(h as int, speed as int, dt as int),
        -180_000_000 <= r <= 180_000_000,
{
    if speed < STALL_SPEED_FX {
        proof {
            assert(0 <= (speed as int) * (speed as int) <= 1_000_000_000_000) by (nonlinear_arith)
                requires
                    0 <= speed <= 1_000_000,
            ;
            lemma_div_trunc_bound(
                (speed as int) * (speed as int),
                FX_ONE as int,
                1_000_000_000_000,
            );
        }
        let ratio_sq = div_trunc_i128((speed as i128) * (speed as i128), FX_ONE as i128);
        if ratio_sq <= 0 {
            0
        } else {
            let turnspeed = div_trunc_i128(
                (STALL_NOSE_FACTOR_FX as i128) * (FX_ONE as i128),
                ratio_sq,
            );
            proof {
                assert(0 <= turnspeed <= 20_000_000_000_000);
                assert(0 <= (turnspeed as int) * (dt as int) <= 20_000_000_000_000_000_000)
                    by (nonlinear_arith)
                    requires
                        0 <= turnspeed <= 20_000_000_000_000,
                        0 <= dt <= 1_000_000,
                ;
                lemma_div_trunc_bound(
                    (turnspeed as int) * (dt as int),
                    FX_ONE as int,
                    20_000_000_000_000_000_000,
                );
            }
            let tdelta = div_trunc_i128(turnspeed * (dt as i128), FX_ONE as i128);
            let habs = if h >= 0 {
                h
            } else {
                -h
            };
            let elevation = (habs as i128) - tdelta;
            if elevation <= 0 {
                0
            } else {
                let e64 = elevation as i64;
                if h >= 0 {
                    e64
                } else {
                    -e64
                }
            }
        }
    } else {
        h
    }
}

/// Position phase as executable code: the displacement over the tick.
fn step_delta(h: i64, speed: i64, dt: i64) -> (d: (i64, i64))
    requires
        -180_000_000 <= h <= 180_000_000,
        0 <= speed <= 3_700_000_000_000,
        0 <= dt <= MAX_TICK_FX,
    ensures
        d.0 as int == spec_step_dx(h as int, speed as int, dt as int),
        d.1 as int == spec_step_dy(h as int, speed as int, dt as int),
        -3_700_000_000_000 <= d.0 <= 3_700_000_000_000,
        -3_700_000_000_000 <= d.1 <= 3_700_000_000_000,
{
    let dir = h - 90_000_000;
    let ang = deg_to_rad_fx(dir);
    let c = cos_fx(ang) as i128;
    let s = sin_fx(ang) as i128;
    proof {
        assert(-3_700_000_000_000_000_000 <= (c as int) * (speed as int)
            <= 3_700_000_000_000_000_000) by (nonlinear_arith)
            requires
                -1_000_000 <= c <= 1_000_000,
                0 <= speed <= 3_700_000_000_000,
        ;
        assert(-3_700_000_000_000_000_000 <= (s as int) * (speed as int)
            <= 3_700_000_000_000_000_000) by (nonlinear_arith)
            requires
                -1_000_000 <= s <= 1_000_000,
                0 <= speed <= 3_700_000_000_000,
        ;
        lemma_div_trunc_bound(
            (c as int) * (speed as int),
            FX_ONE as int,
            3_700_000_000_000_000_000,
        );
        lemma_div_trunc_bound(
            (s as int) * (speed as int),
            FX_ONE as int,
            3_700_000_000_000_000_000,
        );
    }
    let dx_inner = div_trunc_i128(c * (speed as i128), FX_ONE as i128);
    let dy_inner = div_trunc_i128(s * (speed as i128), FX_ONE as i128);
    proof {
        assert(-3_700_000_000_000_000_000 <= (dx_inner as int) * (dt as int)
            <= 3_700_000_000_000_000_000) by (nonlinear_arith)
            requires
                -3_700_000_000_000 <= dx_inner <= 3_700_000_000_000,
                0 <= dt <= 1_000_000,
        ;
        assert(-3_700_000_000_000_000_000 <= (dy_inner as int) * (dt as int)
            <= 3_700_000_000_000_000_000) by (nonlinear_arith)
            requires
                -3_700_000_000_000 <= dy_inner <= 3_700_000_000_000,
                0 <= dt <= 1_000_000,
        ;
        lemma_div_trunc_bound(
            (dx_inner as int) * (dt as int),
            FX_ONE as int,
            3_700_000_000_000_000_000,
        );
        lemma_div_trunc_bound(
            (dy_inner as int) * (dt as int),
            FX_ONE as int,
            3_700_000_000_000_000_000,
        );
    }
    let dx = div_trunc_i128(dx_inner * (dt as i128), FX_ONE as i128);
    let dy = div_trunc_i128(dy_inner * (dt as i128), FX_ONE as i128);
    (dx as i64, dy as i64)
}

/// One tick of the flight integrator, applying in order: thrust, pitch-up
/// then pitch-down turning, the energy-conservation gravity update, air
/// resistance, stall recovery, and the position step — all with the same
/// tick length. A negative radicand in the gravity update is a broken
/// physical model: the call reports [`CoreError::InvalidState`] and leaves
/// the stork untouched.
pub fn move_stork(stork: &mut Stork, input: Controls, dt: i64) -> (r: Result<(), CoreError>)
    requires
        spec_stork_wf(*old(stork)),
        0 <= dt <= MAX_TICK_FX,
    ensures
        ({
            let sp1 = spec_thrust(old(stork).speed as int, input.boost, dt as int);
            let h2 = spec_turn_down(
                spec_turn_up(old(stork).direction as int, input.pitch_up, dt as int),
                input.pitch_down,
                dt as int,
            );
            let rad = spec_radicand(sp1, h2, dt as int);
            &&& (rad < 0 ==> r == Err::<(), CoreError>(CoreError::InvalidState) && *final(stork)
                == *old(stork))
            &&& (rad >= 0 ==> r == Ok::<(), CoreError>(()) && ({
                let sp3 = spec_drag_speed(spec_isqrt(rad), dt as int);
                let h3 = spec_stall_heading(h2, sp3, dt as int);
                &&& final(stork).speed as int == sp3
                &&& final(stork).direction as int == h3
                &&& final(stork).position.x as int == old(stork).position.x + spec_step_dx(
                    h3,
                    sp3,
                    dt as int,
                )
                &&& final(stork).position.y as int == old(stork).position.y + spec_step_dy(
                    h3,
                    sp3,
                    dt as int,
                )
            }))
        }),
        0 <= final(stork).speed <= 4_000_000_000_000,
        -180_000_000 <= final(stork).direction <= 180_000_000,
        -10_004_000_000_000_000 <= final(stork).position.x <= 10_004_000_000_000_000,
        -10_004_000_000_000_000 <= final(stork).position.y <= 10_004_000_000_000_000,
{
    let sp1 = thrust_step(stork.speed, input.boost, dt);
    let h2 = turn_step(stork.direction, input.pitch_up, input.pitch_down, dt);
    let rad = radicand_step(sp1, h2, dt);
    if rad < 0 {
        return Err(CoreError::InvalidState);
    }
    let sp2 = sqrt_speed(rad);
    let sp3 = drag_step(sp2, dt);
    let h3 = stall_step(h2, sp3, dt);
    let (dx, dy) = step_delta(h3, sp3, dt);
    stork.position.x = stork.position.x + dx;
    stork.position.y = stork.position.y + dy;
    stork.speed = sp3;
    stork.direction = h3;
    Ok(())
}

} // verus!
