use trackview::camera::CAMERA_DEPTH;
use trackview::camera::CameraState;
use trackview::camera::adjust_map_depth;

#[test]
fn zoom_step_matches_speed_times_dt() {
    let mut cam = CameraState::new(0);
    // dt of 16 milli-seconds-of-a-second at 2.0/s: step 2 * 16 = 32.
    cam.zoom(-1, 16);
    assert_eq!(cam.log_scale, 32);
    cam.zoom(1, 16);
    assert_eq!(cam.log_scale, 0);
}

#[test]
fn repeated_same_sign_zoom_is_strictly_monotonic() {
    let mut cam = CameraState::new(0);
    let mut seen = Vec::new();
    for _ in 0..5 {
        cam.zoom(-1, 16);
        seen.push(cam.log_scale);
    }
    for w in seen.windows(2) {
        assert!(w[0] < w[1]);
    }
    let mut cam = CameraState::new(0);
    let mut seen = Vec::new();
    for _ in 0..5 {
        cam.zoom(1, 16);
        seen.push(cam.log_scale);
    }
    for w in seen.windows(2) {
        assert!(w[0] > w[1]);
    }
}

#[test]
fn pan_negates_cursor_world_position_and_keeps_depth() {
    let mut cam = CameraState::new(100);
    cam.pan_to_cursor(5000, -7000);
    assert_eq!(cam.x, -5000);
    assert_eq!(cam.y, 7000);
    assert_eq!(cam.z, CAMERA_DEPTH);
    assert_eq!(cam.log_scale, 100);
}

#[test]
fn reset_zeroes_planar_translation_and_keeps_depth() {
    let mut cam = CameraState::new(100);
    cam.pan_to_cursor(5000, -7000);
    cam.reset_pan();
    assert_eq!(cam.x, 0);
    assert_eq!(cam.y, 0);
    assert_eq!(cam.z, CAMERA_DEPTH);
    assert_eq!(cam.log_scale, 100);
}

#[test]
fn window_center_maps_to_world_origin() {
    let cam = CameraState::new(0);
    // Window 600 by 600 pixels, in milli-units; linear scale 2.0.
    let (wx, wy) = cam.screen_to_world(300_000, 300_000, 600_000, 600_000, 2000);
    assert_eq!((wx, wy), (0, 0));
}

#[test]
fn horizontal_offset_maps_to_offset_over_scale() {
    let cam = CameraState::new(0);
    let d = 50_000;
    let (wx, wy) = cam.screen_to_world(300_000 + d, 300_000, 600_000, 600_000, 2000);
    assert_eq!(wx, d * 1000 / 2000);
    assert_eq!(wy, 0);
}

#[test]
fn pan_shifts_world_coordinates() {
    let mut cam = CameraState::new(0);
    cam.pan_to_cursor(1000, 2000);
    let (wx, wy) = cam.screen_to_world(300_000, 300_000, 600_000, 600_000, 1000);
    assert_eq!((wx, wy), (-1000, -2000));
}

#[test]
fn frame_input_applies_scrolls_then_pan_then_reset() {
    let mut cam = CameraState::new(0);
    let scrolls = vec![-1, -1, 1];
    cam.apply_camera_input(&scrolls, 16, true, false, 4000, 6000);
    assert_eq!(cam.log_scale, 32);
    assert_eq!((cam.x, cam.y), (-4000, -6000));
    assert_eq!(cam.z, CAMERA_DEPTH);

    cam.apply_camera_input(&Vec::new(), 16, true, true, 4000, 6000);
    assert_eq!((cam.x, cam.y), (0, 0));
    assert_eq!(cam.z, CAMERA_DEPTH);
}

#[test]
fn map_depth_keys_apply_in_order() {
    assert_eq!(adjust_map_depth(0, true, false, false), 1000);
    assert_eq!(adjust_map_depth(500, false, true, false), 0);
    assert_eq!(adjust_map_depth(2000, false, false, true), 1000);
    assert_eq!(adjust_map_depth(0, true, true, true), -1000);
    assert_eq!(adjust_map_depth(700, false, false, false), 700);
}
