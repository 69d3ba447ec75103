use trackview::camera::CameraState;
use trackview::cursor::CursorState;

#[test]
fn last_move_of_the_frame_wins() {
    let mut cur = CursorState::new();
    let moves = vec![(10, 20), (30, 40)];
    cur.apply_pointer_events(&moves, &Vec::new());
    assert_eq!((cur.cursor_x, cur.cursor_y), (30, 40));
}

#[test]
fn no_move_keeps_the_cursor_position() {
    let mut cur = CursorState::new();
    cur.apply_pointer_events(&vec![(7, 8)], &Vec::new());
    cur.apply_pointer_events(&Vec::new(), &vec![(1, 1)]);
    assert_eq!((cur.cursor_x, cur.cursor_y), (7, 8));
}

#[test]
fn deltas_accumulate_across_frames() {
    let mut cur = CursorState::new();
    cur.apply_pointer_events(&Vec::new(), &vec![(1, 2), (3, 4)]);
    assert_eq!((cur.delta_x, cur.delta_y), (4, 6));
    cur.apply_pointer_events(&Vec::new(), &vec![(-1, 10)]);
    assert_eq!((cur.delta_x, cur.delta_y), (3, 16));
}

#[test]
fn world_position_follows_the_camera_transform() {
    let mut cur = CursorState::new();
    let cam = CameraState::new(0);
    cur.update_world(Some((300_000 + 50_000, 300_000)), &cam, 600_000, 600_000, 1000);
    assert_eq!((cur.world_x, cur.world_y), (50_000, 0));
}

#[test]
fn world_position_is_kept_when_cursor_is_outside_the_window() {
    let mut cur = CursorState::new();
    let cam = CameraState::new(0);
    cur.update_world(Some((100, 200)), &cam, 600, 600, 1000);
    let before = (cur.world_x, cur.world_y);
    cur.update_world(None, &cam, 600, 600, 1000);
    assert_eq!((cur.world_x, cur.world_y), before);
}
