use stork_flight::camera::{move_camera, spawn_camera, CameraState};

#[test]
fn spawn_sits_at_half_the_viewport_height() {
    let c = spawn_camera(1_000_000_000);
    assert_eq!(c.x, 0);
    assert_eq!(c.y, 500_000_000);
    assert_eq!(spawn_camera(1_000_000_001).y, 500_000_000);
}

#[test]
fn dead_zone_center_never_moves_the_camera() {
    // The flyer exactly in the middle of the viewport: relative is 0.5.
    for dt in [0, 1, 1_000, 100_000, 1_000_000] {
        let mut c = CameraState { x: 0, y: 500_000_000 };
        move_camera(&mut c, 0, 1_000_000_000, dt);
        assert_eq!(c.x, 0, "camera moved at dt {}", dt);
        assert_eq!(c.y, 500_000_000);
    }
}

#[test]
fn dead_zone_edges_do_not_move_the_camera() {
    // relative exactly 0.2.
    let mut c = CameraState { x: 0, y: 0 };
    move_camera(&mut c, -600_000_000, 1_000_000_000, 1_000_000);
    assert_eq!(c.x, 0);
    // relative exactly 0.8.
    let mut c = CameraState { x: 0, y: 0 };
    move_camera(&mut c, 600_000_000, 1_000_000_000, 1_000_000);
    assert_eq!(c.x, 0);
}

#[test]
fn camera_eases_toward_a_flyer_near_the_left_edge() {
    // relative 0.05: ratio (0.2 - 0.05) / 0.1 = 1.5, scaled by dt 0.1;
    // the target puts the flyer 30% from the left.
    let mut c = CameraState { x: 0, y: 0 };
    move_camera(&mut c, -900_000_000, 1_000_000_000, 100_000);
    assert_eq!(c.x, -45_000_000);
}

#[test]
fn camera_eases_toward_a_flyer_near_the_right_edge() {
    let mut c = CameraState { x: 0, y: 0 };
    move_camera(&mut c, 900_000_000, 1_000_000_000, 100_000);
    assert_eq!(c.x, 45_000_000);
}

#[test]
fn vertical_position_is_never_touched() {
    let mut c = CameraState { x: 0, y: 777 };
    move_camera(&mut c, -900_000_000, 1_000_000_000, 100_000);
    assert_eq!(c.y, 777);
}
