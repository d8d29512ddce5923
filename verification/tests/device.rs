use makcu::device::{
    button_query_command, button_set_command, button_stream_command, catch_command,
    check_version_response, expect_executed, expect_flag, expect_value, find_terminator,
    has_terminator, is_makcu_port, lock_cmd, lock_query_command, lock_set_command,
    move_bezier_command, move_command, move_overshoot_command, move_smooth_command,
    parse_catch_count, parse_response, serial_set_command, silent_move_command, stream_event,
    wheel_command, button_cmd, response_debug_text, resolve_echo, Lock,
};
use makcu::protocol::parser::{ResponseKind, StreamParser};
use makcu::{Button, ButtonAction, ButtonMask, Error, Response};

#[test]
fn command_texts() {
    assert_eq!(button_set_command(Button::Left, ButtonAction::Down), "km.left(1)");
    assert_eq!(button_set_command(Button::Side2, ButtonAction::SilentUp), "km.ms2(0)");
    assert_eq!(button_set_command(Button::Right, ButtonAction::ForcedUp), "km.right(2)");
    assert_eq!(button_query_command(Button::Middle), "km.middle()");
    assert_eq!(move_command(100, -50), "km.move(100,-50)");
    assert_eq!(move_smooth_command(1, 2, 300), "km.move(1,2,300)");
    assert_eq!(move_overshoot_command(-1, 0, 4000000000, 20), "km.move(-1,0,4000000000,20)");
    assert_eq!(move_bezier_command(5, 6, 7, 8, 9), "km.move(5,6,7,8,9)");
    assert_eq!(move_command(i32::MIN, i32::MAX), "km.move(-2147483648,2147483647)");
    assert_eq!(silent_move_command(10, 10), "km.silent(10,10)");
    assert_eq!(wheel_command(-3), "km.wheel(-3)");
    assert_eq!(lock_set_command(Lock::Y, true), "km.lock_my(1)");
    assert_eq!(lock_set_command(Lock::Middle, false), "km.lock_mm(0)");
    assert_eq!(lock_query_command(Lock::Side1), "km.lock_ms1()");
    assert_eq!(button_stream_command(true), "km.buttons(1)");
    assert_eq!(button_stream_command(false), "km.buttons(0)");
    assert_eq!(catch_command(Button::Side2), "km.catch_ms2()");
    assert_eq!(serial_set_command("MYSERIAL"), "km.serial('MYSERIAL')");
    assert_eq!(button_cmd(Button::Side1), "ms1");
    assert_eq!(lock_cmd(Lock::Right), "lock_mr");
}

#[test]
fn terminator_search() {
    assert_eq!(find_terminator(b"abc\r\n>>> "), Some(5));
    assert_eq!(find_terminator(b">>> >>> "), Some(0));
    assert_eq!(find_terminator(b">>>"), None);
    assert_eq!(find_terminator(b""), None);
    assert!(has_terminator(b"x>>> y"));
    assert!(!has_terminator(b"x>> > y"));
}

fn resp(raw: &[u8], sent: &str) -> Response {
    parse_response(raw, sent).unwrap()
}

#[test]
fn parse_response_cases() {
    assert_eq!(resp(b"km.move(1,2)\r\n", "km.move(1,2)"), Response::Silent);
    assert_eq!(resp(b"km.move(1,2)\r\n>>> ", "km.move(1,2)"), Response::Executed);
    assert_eq!(resp(b"\r\n>>> ", "km.left(1)"), Response::Executed);
    assert_eq!(
        resp(b"km.left()\r\n1\r\n>>> ", "km.left()"),
        Response::Responded("1".to_string())
    );
    assert_eq!(
        resp(b"km.MAKCU\r\n>>> ", "km.version()"),
        Response::Responded("km.MAKCU".to_string())
    );
    assert_eq!(
        resp(b"junk>>> tail>>> ", "x"),
        Response::Responded("junk".to_string())
    );
}

#[test]
fn interpret_executed() {
    assert!(expect_executed(Response::Executed, "km.wheel(1)").is_ok());
    match expect_executed(Response::Silent, "km.wheel(1)") {
        Err(Error::Protocol(m)) => {
            assert_eq!(m, "command \"km.wheel(1)\" expected EXECUTED, got Silent")
        }
        other => panic!("unexpected {:?}", other),
    }
    match expect_executed(Response::Responded("x\"y".to_string()), "c") {
        Err(Error::Protocol(m)) => {
            assert_eq!(m, "command \"c\" expected EXECUTED, got Responded(\"x\\\"y\")")
        }
        other => panic!("unexpected {:?}", other),
    }
}

#[test]
fn interpret_values_and_flags() {
    assert_eq!(
        expect_value(Response::Responded("MAKCU".to_string()), "version()").unwrap(),
        "MAKCU"
    );
    match expect_value(Response::Executed, "version()") {
        Err(Error::Protocol(m)) => assert_eq!(m, "version() expected a value, got Executed"),
        other => panic!("unexpected {:?}", other),
    }
    assert!(expect_flag(Response::Responded(" 1 ".to_string()), "lock_state()").unwrap());
    assert!(!expect_flag(Response::Responded("0".to_string()), "lock_state()").unwrap());
    assert!(!expect_flag(Response::Responded("11".to_string()), "lock_state()").unwrap());
    assert!(expect_flag(Response::Responded("\u{3000}\t1\u{a0}\u{2028}".to_string()), "x").unwrap());
    assert!(!expect_flag(Response::Responded("\u{200b}1".to_string()), "x").unwrap());
    match expect_flag(Response::Silent, "buttons()") {
        Err(Error::Protocol(m)) => assert_eq!(m, "buttons() expected a value, got Silent"),
        other => panic!("unexpected {:?}", other),
    }
}

#[test]
fn interpret_catch_count() {
    assert_eq!(parse_catch_count(Response::Responded("0".to_string())).unwrap(), 0);
    assert_eq!(parse_catch_count(Response::Responded(" +42\r".to_string())).unwrap(), 42);
    assert_eq!(
        parse_catch_count(Response::Responded("4294967295".to_string())).unwrap(),
        u32::MAX
    );
    match parse_catch_count(Response::Responded("4294967296".to_string())) {
        Err(Error::Protocol(m)) => assert_eq!(m, "catch returned non-integer: \"4294967296\""),
        other => panic!("unexpected {:?}", other),
    }
    assert!(parse_catch_count(Response::Responded("-1".to_string())).is_err());
    assert!(parse_catch_count(Response::Responded("+".to_string())).is_err());
    assert!(parse_catch_count(Response::Responded("".to_string())).is_err());
    assert!(parse_catch_count(Response::Responded("1a".to_string())).is_err());
    match parse_catch_count(Response::Executed) {
        Err(Error::Protocol(m)) => assert_eq!(m, "catch() expected a value, got Executed"),
        other => panic!("unexpected {:?}", other),
    }
}

#[test]
fn interpret_version_check() {
    assert!(check_version_response(Response::Responded("km.MAKCU".to_string())).is_ok());
    assert!(check_version_response(Response::Responded("xx km.MAKCU_V3".to_string())).is_ok());
    match check_version_response(Response::Responded("MAKCU".to_string())) {
        Err(Error::Protocol(m)) => {
            assert_eq!(m, "unexpected version response: Responded(\"MAKCU\")")
        }
        other => panic!("unexpected {:?}", other),
    }
    assert!(check_version_response(Response::Executed).is_err());
}

#[test]
fn stream_bytes_and_ports() {
    let mut p = StreamParser::new();
    let mut masks = Vec::new();
    for &b in b"\r\n>>> km.\x02km.left(1)\r\nkm.\x0d>>> " {
        if let Some(m) = stream_event(&mut p, b) {
            masks.push(m);
        }
    }
    assert_eq!(masks, vec![ButtonMask::from_byte(0x02), ButtonMask::from_byte(0x0d)]);
    assert!(is_makcu_port(0x1A86, 0x55D3));
    assert!(!is_makcu_port(0x1A86, 0x7523));
}

#[test]
fn response_debug_matches_derived_debug() {
    for r in [
        Response::Executed,
        Response::Silent,
        Response::Responded("a\nb\"c".to_string()),
    ] {
        assert_eq!(response_debug_text(&r), format!("{:?}", r));
    }
}

#[test]
fn echo_resolution() {
    assert_eq!(
        resolve_echo(ResponseKind::ValueOrEcho("km.left(1)".to_string()), " km.left(1)\r\n"),
        Response::Executed
    );
    assert_eq!(
        resolve_echo(ResponseKind::ValueOrEcho("km.MAKCU".to_string()), "km.version()"),
        Response::Responded("km.MAKCU".to_string())
    );
    assert_eq!(
        resolve_echo(ResponseKind::Value("0".to_string()), "km.buttons()"),
        Response::Responded("0".to_string())
    );
    assert_eq!(resolve_echo(ResponseKind::Executed, "x"), Response::Executed);
}
