use osmviz::camera::{Controls, Key};

#[test]
fn keys_set_and_clear_movements() {
    let mut c = Controls::new();
    c.handle_input(Key::KeyW, true);
    c.handle_input(Key::ArrowLeft, true);
    c.handle_input(Key::Space, true);
    assert!(c.move_forward && c.rotate_left && c.move_up);
    assert!(!c.move_backward && !c.rotate_right && !c.move_down);
    c.handle_input(Key::KeyW, false);
    assert!(!c.move_forward);
    let before = c;
    c.handle_input(Key::Other, true);
    assert_eq!(c, before);
    c.handle_input(Key::ShiftLeft, true);
    c.handle_input(Key::KeyS, true);
    c.handle_input(Key::KeyA, true);
    c.handle_input(Key::KeyD, true);
    c.handle_input(Key::ArrowRight, true);
    c.handle_input(Key::ArrowUp, true);
    c.handle_input(Key::ArrowDown, true);
    assert!(c.move_down && c.move_backward && c.move_left && c.move_right);
    assert!(c.rotate_right && c.rotate_up && c.rotate_down);
}
