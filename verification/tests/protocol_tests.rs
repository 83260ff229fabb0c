use remote_shutdown::mouse::{MouseAction, MoveRequest};
use remote_shutdown::protocol::{
    command_reply, command_result, dispatch, handle_datagram, output_text, response_address,
    trimmed, Command, LISTEN_PORT, RESPONSE_PORT,
};

fn run(text: &str) -> Command {
    Command::RunCommand(text.to_string())
}

#[test]
fn ports_are_the_protocol_ports() {
    assert_eq!(LISTEN_PORT, 8888);
    assert_eq!(RESPONSE_PORT, 8887);
}

#[test]
fn shutdown_for_this_host_or_everyone() {
    assert_eq!(dispatch("pc", "shutdown pc"), Command::Shutdown);
    assert_eq!(dispatch("pc", "shutdown all"), Command::Shutdown);
}

#[test]
fn shutdown_must_match_exactly() {
    assert_eq!(dispatch("pc", "shutdown other"), Command::Unknown);
    assert_eq!(dispatch("pc", "shutdown pc "), Command::Unknown);
    assert_eq!(dispatch("pc", "shutdown all now"), Command::Unknown);
}

#[test]
fn command_for_this_host() {
    assert_eq!(dispatch("pc", "cmd pc echo hi"), run("echo hi"));
    assert_eq!(dispatch("pc", "cmd pc "), run(""));
}

#[test]
fn command_for_everyone() {
    assert_eq!(dispatch("pc", "cmd all ls -la"), run("ls -la"));
    assert_eq!(dispatch("pc", "cmd all shutdown all"), run("shutdown all"));
    assert_eq!(dispatch("all", "cmd all dir"), run("dir"));
}

#[test]
fn command_for_another_host_is_unknown() {
    assert_eq!(dispatch("pc", "cmd other ls"), Command::Unknown);
    assert_eq!(dispatch("pc", "cmd pc"), Command::Unknown);
    assert_eq!(dispatch("pc", "cmd pcx ls"), Command::Unknown);
}

#[test]
fn device_report_names_the_host() {
    assert_eq!(
        dispatch("desk", "get_device"),
        Command::ReportDevice("device: desk".to_string())
    );
    assert_eq!(
        dispatch("desk", "get_devices please"),
        Command::ReportDevice("device: desk".to_string())
    );
}

#[test]
fn pointer_moves_carry_their_first_two_words() {
    assert_eq!(
        dispatch("pc", "mouse move all 1.5 -2"),
        Command::MouseMove(MoveRequest::Offsets("1.5".to_string(), "-2".to_string()))
    );
    assert_eq!(
        dispatch("pc", "mouse move pc 3 4 5"),
        Command::MouseMove(MoveRequest::Offsets("3".to_string(), "4".to_string()))
    );
    assert_eq!(
        dispatch("pc", "mouse move all   7\t\u{3000}8  "),
        Command::MouseMove(MoveRequest::Offsets("7".to_string(), "8".to_string()))
    );
}

#[test]
fn pointer_moves_with_too_few_words() {
    assert_eq!(dispatch("pc", "mouse move all 3"), Command::MouseMove(MoveRequest::BadFormat));
    assert_eq!(dispatch("pc", "mouse move all "), Command::MouseMove(MoveRequest::BadFormat));
    assert_eq!(dispatch("pc", "mouse move pc "), Command::MouseMove(MoveRequest::BadFormat));
}

#[test]
fn address_without_trailing_space_is_kept_as_words() {
    assert_eq!(
        dispatch("pc", "mouse move all"),
        Command::MouseMove(MoveRequest::Offsets("mouse".to_string(), "move".to_string()))
    );
}

#[test]
fn pointer_move_for_another_host_is_unknown() {
    assert_eq!(dispatch("pc", "mouse move pc3 4"), Command::Unknown);
    assert_eq!(dispatch("pc", "mouse move other 1 1"), Command::Unknown);
}

#[test]
fn button_actions() {
    assert_eq!(dispatch("pc", "mouse all left click"), Command::Mouse(MouseAction::LeftClick));
    assert_eq!(dispatch("pc", "mouse pc right click"), Command::Mouse(MouseAction::RightClick));
    assert_eq!(dispatch("pc", "mouse all middle click"), Command::Mouse(MouseAction::MiddleClick));
    assert_eq!(dispatch("pc", "mouse pc right click down"), Command::Mouse(MouseAction::RightDown));
    assert_eq!(dispatch("pc", "mouse all right click up"), Command::Mouse(MouseAction::RightUp));
    assert_eq!(dispatch("pc", "mouse all left click down"), Command::Mouse(MouseAction::LeftDown));
    assert_eq!(dispatch("pc", "mouse pc left click up"), Command::Mouse(MouseAction::LeftUp));
}

#[test]
fn button_actions_are_trimmed() {
    assert_eq!(
        dispatch("pc", "mouse all \u{3000} left click\u{a0}\n"),
        Command::Mouse(MouseAction::LeftClick)
    );
}

#[test]
fn scroll_actions() {
    assert_eq!(dispatch("pc", "mouse all scroll-3"), Command::Mouse(MouseAction::Scroll(Some(-3))));
    assert_eq!(dispatch("pc", "mouse pc scroll+7"), Command::Mouse(MouseAction::Scroll(Some(7))));
    assert_eq!(dispatch("pc", "mouse all scroll 5"), Command::Mouse(MouseAction::Scroll(None)));
    assert_eq!(dispatch("pc", "mouse all scroll"), Command::Mouse(MouseAction::Scroll(None)));
}

#[test]
fn unknown_mouse_action_keeps_its_text() {
    assert_eq!(
        dispatch("pc", "mouse all  dance "),
        Command::Mouse(MouseAction::Unknown("dance".to_string()))
    );
}

#[test]
fn anything_else_is_unknown() {
    assert_eq!(dispatch("pc", "hello"), Command::Unknown);
    assert_eq!(dispatch("pc", ""), Command::Unknown);
    assert_eq!(dispatch("pc", "mouse other left click"), Command::Unknown);
}

#[test]
fn datagrams_that_are_not_utf8_are_ignored() {
    assert_eq!(handle_datagram("pc", &[0xff, 0x00]), None);
    assert_eq!(handle_datagram("pc", &[0xc3]), None);
}

#[test]
fn datagrams_are_read_as_text() {
    assert_eq!(
        handle_datagram("pc", b"get_device"),
        Some(Command::ReportDevice("device: pc".to_string()))
    );
    assert_eq!(handle_datagram("pc", "shutdown all".as_bytes()), Some(Command::Shutdown));
}

#[test]
fn command_output_reply() {
    assert_eq!(command_reply("out\n"), "cmd out\n");
    assert_eq!(command_reply(""), "cmd ");
}

#[test]
fn answers_go_to_the_senders_host_at_the_answer_port() {
    assert_eq!(response_address("192.168.1.5:50000"), "192.168.1.5:8887");
    assert_eq!(response_address("nohost"), "nohost:8887");
    assert_eq!(response_address(""), ":8887");
    assert_eq!(response_address("[::1]:5000"), "[:8887");
}

#[test]
fn finished_command_outcome() {
    assert_eq!(command_result(true, b"hi", b"bad"), Ok("hi".to_string()));
    assert_eq!(command_result(false, b"hi", b"bad"), Err("bad".to_string()));
}

#[test]
fn valid_output_comes_back_unchanged() {
    assert_eq!(command_result(true, "é ok\n".as_bytes(), b""), Ok("é ok\n".to_string()));
    assert_eq!(command_result(false, b"", "nö".as_bytes()), Err("nö".to_string()));
}

#[test]
fn invalid_output_bytes_are_replaced() {
    assert_eq!(command_result(true, &[0x61, 0xff, 0x62], b""), Ok("a\u{FFFD}b".to_string()));
    assert_eq!(output_text(&[0xe2, 0x82, 0xac]), "\u{20ac}");
    assert_eq!(output_text(&[0xf0, 0x9f]), "\u{FFFD}");
}

#[test]
fn host_names_are_trimmed() {
    assert_eq!(trimmed("  desk\n"), "desk");
    assert_eq!(trimmed("\t\r\n"), "");
    assert_eq!(trimmed("a b"), "a b");
}
