use stork_flight::stork::{
    move_stork, spawn_stork, stork_pixel_position, Controls, Stork, Vec2Fx,
};
use stork_flight::CoreError;

const NO_INPUT: Controls = Controls { boost: false, pitch_up: false, pitch_down: false };

#[test]
fn spawn_state_matches_the_session_start() {
    let s = spawn_stork();
    assert_eq!(s.position, Vec2Fx { x: 0, y: 3_000_000 });
    assert_eq!(s.speed, 2_000_000);
    assert_eq!(s.direction, 100_000_000);
}

#[test]
fn boost_from_standstill_gives_full_thrust_before_the_later_phases() {
    // speed 0, heading 90 (level), boost held, one tick of 0.1 s: thrust
    // alone yields 10.0 * (1 - 0/4.0) * 0.1 = 1.0 m/s; level flight keeps
    // gravity out of it, and air resistance then takes one percent.
    let mut s = Stork { position: Vec2Fx { x: 0, y: 0 }, speed: 0, direction: 90_000_000 };
    let r = move_stork(
        &mut s,
        Controls { boost: true, pitch_up: false, pitch_down: false },
        100_000,
    );
    assert_eq!(r, Ok(()));
    assert_eq!(s.speed, 990_000);
    // 0.99 m/s is below the stall speed, so the nose dipped.
    assert_eq!(s.direction, 87_959_392);
    assert_eq!(s.position, Vec2Fx { x: 99_000, y: -3_525 });
}

#[test]
fn pitch_up_turns_by_the_turn_rate() {
    let mut s = spawn_stork();
    let r = move_stork(
        &mut s,
        Controls { boost: false, pitch_up: true, pitch_down: false },
        100_000,
    );
    assert_eq!(r, Ok(()));
    assert_eq!(s.direction, 110_000_000);
    assert_eq!(s.speed, 1_912_413);
    assert_eq!(s.position, Vec2Fx { x: 179_859, y: 3_065_408 });
}

#[test]
fn steep_slow_climb_is_an_invalid_state() {
    // Climbing straight up at 1 m/s for a full second implies more energy
    // than the flyer has: the radicand goes negative.
    let mut s = Stork { position: Vec2Fx { x: 0, y: 0 }, speed: 1_000_000, direction: 180_000_000 };
    let before = s;
    let r = move_stork(&mut s, NO_INPUT, 1_000_000);
    assert_eq!(r, Err(CoreError::InvalidState));
    assert_eq!(s, before);
}

#[test]
fn zero_dt_is_a_valid_no_op_tick() {
    let mut s = spawn_stork();
    let before = s;
    let r = move_stork(
        &mut s,
        Controls { boost: true, pitch_up: true, pitch_down: true },
        0,
    );
    assert_eq!(r, Ok(()));
    assert_eq!(s, before);
}

#[test]
fn successive_ticks_compose() {
    let mut s = Stork { position: Vec2Fx { x: 0, y: 0 }, speed: 0, direction: 90_000_000 };
    move_stork(
        &mut s,
        Controls { boost: true, pitch_up: false, pitch_down: false },
        100_000,
    )
    .unwrap();
    move_stork(&mut s, NO_INPUT, 100_000).unwrap();
    assert_eq!(s.speed, 986_992);
    assert_eq!(s.direction, 85_906_327);
    assert_eq!(s.position, Vec2Fx { x: 197_699, y: -10_570 });
}

#[test]
fn pixel_position_scales_by_a_hundred() {
    let s = Stork { position: Vec2Fx { x: 123, y: -7 }, speed: 0, direction: 0 };
    assert_eq!(stork_pixel_position(&s), (12_300, -700));
}
