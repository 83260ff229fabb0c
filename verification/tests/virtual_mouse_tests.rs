use remote_shutdown::virtual_mouse::{Motion, RelAxis, VirtualEvent, VirtualMouse};

#[test]
fn starts_holding_nothing() {
    assert_eq!(VirtualMouse::new().accumulated(), (0, 0));
}

#[test]
fn small_moves_are_held() {
    let mut m = VirtualMouse::new();
    assert_eq!(m.move_mouse(1, 1), Motion::Absorbed);
    assert_eq!(m.move_mouse(1, -1), Motion::Absorbed);
    assert_eq!(m.move_mouse(-1, 0), Motion::Absorbed);
    assert_eq!(m.accumulated(), (1, 0));
}

#[test]
fn a_large_move_carries_what_is_held() {
    let mut m = VirtualMouse::new();
    m.move_mouse(1, 1);
    m.move_mouse(1, 0);
    assert_eq!(m.move_mouse(5, 0), Motion::Emit(7, 1));
    assert_eq!(m.accumulated(), (2, 1));
    m.motion_sent();
    assert_eq!(m.accumulated(), (0, 0));
    assert_eq!(m.move_mouse(3, 3), Motion::Emit(3, 3));
}

#[test]
fn a_failed_send_keeps_what_is_held() {
    let mut m = VirtualMouse::new();
    m.move_mouse(-1, 1);
    assert_eq!(m.move_mouse(0, 2), Motion::Emit(-1, 3));
    assert_eq!(m.move_mouse(0, -2), Motion::Emit(-1, -1));
}

#[test]
fn magnitude_two_is_large() {
    let mut m = VirtualMouse::new();
    assert_eq!(m.move_mouse(2, 0), Motion::Emit(2, 0));
    assert_eq!(m.move_mouse(0, -2), Motion::Emit(0, -2));
}

#[test]
fn conservation_on_a_sequence() {
    let moves = [(1, 0), (1, 1), (-1, 1), (4, -3), (1, 1), (0, -9), (1, 0)];
    let mut m = VirtualMouse::new();
    let (mut sx, mut sy) = (0, 0);
    for (x, y) in moves {
        if let Motion::Emit(dx, dy) = m.move_mouse(x, y) {
            sx += dx;
            sy += dy;
            m.motion_sent();
        }
    }
    let (hx, hy) = m.accumulated();
    let tx: i32 = moves.iter().map(|p| p.0).sum();
    let ty: i32 = moves.iter().map(|p| p.1).sum();
    assert_eq!((hx + sx, hy + sy), (tx, ty));
    assert_eq!(m.accumulated(), (1, 0));
}

#[test]
fn a_large_last_move_leaves_nothing_pending() {
    let moves = [(1, 1), (-1, 0), (1, 1), (0, 5)];
    let mut m = VirtualMouse::new();
    let (mut sx, mut sy) = (0, 0);
    for (x, y) in moves {
        if let Motion::Emit(dx, dy) = m.move_mouse(x, y) {
            sx += dx;
            sy += dy;
            m.motion_sent();
        }
    }
    assert_eq!(m.accumulated(), (0, 0));
    assert_eq!((sx, sy), (1, 7));
}

#[test]
fn scroll_keeps_the_sign_of_the_amount() {
    assert_eq!(
        VirtualMouse::scroll(5),
        vec![VirtualEvent::Relative(RelAxis::Wheel, 10), VirtualEvent::SynReport]
    );
    assert_eq!(
        VirtualMouse::scroll(-(1 << 30)),
        vec![VirtualEvent::Relative(RelAxis::Wheel, i32::MIN), VirtualEvent::SynReport]
    );
}

#[test]
fn button_events() {
    assert_eq!(
        VirtualMouse::button_down(0x110),
        vec![VirtualEvent::Key(0x110, 1), VirtualEvent::SynReport]
    );
    assert_eq!(
        VirtualMouse::button_up(0x111),
        vec![VirtualEvent::Key(0x111, 0), VirtualEvent::SynReport]
    );
    assert_eq!(VirtualMouse::flush(), VirtualEvent::SynReport);
}

#[test]
fn scroll_and_motion_events() {
    assert_eq!(
        VirtualMouse::scroll(-3),
        vec![VirtualEvent::Relative(RelAxis::Wheel, -6), VirtualEvent::SynReport]
    );
    assert_eq!(
        VirtualMouse::motion_events(4, -1),
        vec![VirtualEvent::Relative(RelAxis::X, 4), VirtualEvent::Relative(RelAxis::Y, -1)]
    );
}
