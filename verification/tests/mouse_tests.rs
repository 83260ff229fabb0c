use remote_shutdown::mouse::{
    handle_mouse_command, handle_mouse_move, mouse_action_ops, mouse_left_click, mouse_left_down,
    mouse_left_up, mouse_middle_click, mouse_move, mouse_right_click, mouse_right_down,
    mouse_right_up, mouse_scroll, scroll_amount, Button, DeviceOp, MouseAction, MoveRequest,
};

#[test]
fn clicks_press_then_release() {
    assert_eq!(
        mouse_left_click(),
        vec![
            DeviceOp::Press(Button::Left),
            DeviceOp::Sync,
            DeviceOp::Release(Button::Left),
            DeviceOp::Sync
        ]
    );
    assert_eq!(
        mouse_right_click(),
        vec![DeviceOp::Press(Button::Right), DeviceOp::Sync, DeviceOp::Release(Button::Right)]
    );
    assert_eq!(
        mouse_middle_click(),
        vec![DeviceOp::Press(Button::Middle), DeviceOp::Sync, DeviceOp::Release(Button::Middle)]
    );
}

#[test]
fn presses_and_releases() {
    assert_eq!(mouse_left_down(), vec![DeviceOp::Press(Button::Left)]);
    assert_eq!(mouse_left_up(), vec![DeviceOp::Release(Button::Left)]);
    assert_eq!(mouse_right_down(), vec![DeviceOp::Press(Button::Right)]);
    assert_eq!(mouse_right_up(), vec![DeviceOp::Release(Button::Right)]);
}

#[test]
fn scroll_amounts() {
    assert_eq!(scroll_amount("scroll-12"), Some(-12));
    assert_eq!(scroll_amount("scroll+7"), Some(7));
    assert_eq!(scroll_amount("scroll0"), Some(0));
    assert_eq!(scroll_amount("scroll2147483647"), Some(i32::MAX));
    assert_eq!(scroll_amount("scroll-2147483648"), Some(i32::MIN));
    assert_eq!(scroll_amount("scrollscroll5"), Some(5));
    assert_eq!(scroll_amount("5scroll"), Some(5));
    assert_eq!(scroll_amount("scroll0012"), Some(12));
}

#[test]
fn scroll_amounts_refused() {
    assert_eq!(scroll_amount("scroll 5"), None);
    assert_eq!(scroll_amount("scroll"), None);
    assert_eq!(scroll_amount("scroll+"), None);
    assert_eq!(scroll_amount("scroll-"), None);
    assert_eq!(scroll_amount("scroll1x"), None);
    assert_eq!(scroll_amount("scroll2147483648"), None);
    assert_eq!(scroll_amount("scroll-2147483649"), None);
    assert_eq!(scroll_amount("scroll+-1"), None);
    assert_eq!(scroll_amount("scroll99999999999999999999"), None);
}

#[test]
fn scroll_turns_the_wheel() {
    assert_eq!(mouse_scroll("scroll-4"), vec![DeviceOp::Wheel(-4)]);
    assert_eq!(mouse_scroll("scroll 4"), vec![]);
}

#[test]
fn pointer_moves() {
    assert_eq!(mouse_move(0, 0), vec![]);
    assert_eq!(mouse_move(3, 0), vec![DeviceOp::MoveX(3), DeviceOp::MoveY(0)]);
    assert_eq!(mouse_move(0, -5), vec![DeviceOp::MoveX(0), DeviceOp::MoveY(-5)]);
}

#[test]
fn mouse_commands_by_name() {
    assert_eq!(handle_mouse_command("mouse desk left click", "desk"), MouseAction::LeftClick);
    assert_eq!(handle_mouse_command("mouse all right click up", "desk"), MouseAction::RightUp);
    assert_eq!(
        handle_mouse_command("mouse all scroll-2", "desk"),
        MouseAction::Scroll(Some(-2))
    );
    assert_eq!(
        handle_mouse_command("mouse all jump", "desk"),
        MouseAction::Unknown("jump".to_string())
    );
    assert_eq!(
        handle_mouse_command("mouse all left click please", "desk"),
        MouseAction::Unknown("left click please".to_string())
    );
}

#[test]
fn every_occurrence_of_the_address_is_removed() {
    assert_eq!(
        handle_mouse_command("mouse all mouse allleft click", "desk"),
        MouseAction::LeftClick
    );
}

#[test]
fn move_offsets() {
    assert_eq!(
        handle_mouse_move("mouse move desk 1 2", "desk"),
        MoveRequest::Offsets("1".to_string(), "2".to_string())
    );
    assert_eq!(
        handle_mouse_move("mouse move all -0.5 nan extra", "desk"),
        MoveRequest::Offsets("-0.5".to_string(), "nan".to_string())
    );
    assert_eq!(handle_mouse_move("mouse move all 1", "desk"), MoveRequest::BadFormat);
    assert_eq!(handle_mouse_move("   ", "desk"), MoveRequest::BadFormat);
}

#[test]
fn actions_to_device_operations() {
    assert_eq!(mouse_action_ops(&MouseAction::LeftClick), mouse_left_click());
    assert_eq!(mouse_action_ops(&MouseAction::RightClick), mouse_right_click());
    assert_eq!(mouse_action_ops(&MouseAction::MiddleClick), mouse_middle_click());
    assert_eq!(mouse_action_ops(&MouseAction::RightDown), mouse_right_down());
    assert_eq!(mouse_action_ops(&MouseAction::RightUp), mouse_right_up());
    assert_eq!(mouse_action_ops(&MouseAction::LeftDown), mouse_left_down());
    assert_eq!(mouse_action_ops(&MouseAction::LeftUp), mouse_left_up());
    assert_eq!(mouse_action_ops(&MouseAction::Scroll(Some(9))), vec![DeviceOp::Wheel(9)]);
    assert_eq!(mouse_action_ops(&MouseAction::Scroll(None)), vec![]);
    assert_eq!(mouse_action_ops(&MouseAction::Unknown("x".to_string())), vec![]);
}
