use makcu::error::MakcuError;
use makcu::protocol::builder::{build_move, build_serial_set, build_silent_move, build_wheel};
use makcu::protocol::constants::{button_down_cmd, button_force_up_cmd, button_up_cmd, lock_set_cmd};
use makcu::device::Lock;
use makcu::Button;

#[test]
fn move_command_bytes() {
    let cmd = build_move(100, -50).unwrap();
    assert_eq!(cmd.as_bytes(), b"km.move(100,-50)\r\n");
}

#[test]
fn move_command_extremes() {
    let cmd = build_move(-32767, 32767).unwrap();
    assert_eq!(cmd.as_bytes(), b"km.move(-32767,32767)\r\n");
    let cmd = build_move(0, 0).unwrap();
    assert_eq!(cmd.as_bytes(), b"km.move(0,0)\r\n");
}

#[test]
fn move_out_of_range_reports_the_offending_coordinate() {
    match build_move(32768, 0) {
        Err(MakcuError::OutOfRange { value, min, max }) => {
            assert_eq!((value, min, max), (32768, -32767, 32767));
        }
        other => panic!("unexpected {:?}", other.map(|c| c.as_bytes().to_vec())),
    }
    match build_move(5, -32768) {
        Err(MakcuError::OutOfRange { value, .. }) => assert_eq!(value, -32768),
        other => panic!("unexpected {:?}", other.map(|c| c.as_bytes().to_vec())),
    }
    match build_move(i32::MIN, i32::MAX) {
        Err(MakcuError::OutOfRange { value, .. }) => assert_eq!(value, i32::MIN as i64),
        other => panic!("unexpected {:?}", other.map(|c| c.as_bytes().to_vec())),
    }
}

#[test]
fn silent_move_command_bytes() {
    let cmd = build_silent_move(10, 10).unwrap();
    assert_eq!(cmd.as_bytes(), b"km.silent(10,10)\r\n");
    assert!(matches!(
        build_silent_move(0, 40000),
        Err(MakcuError::OutOfRange { value: 40000, min: -32767, max: 32767 })
    ));
}

#[test]
fn wheel_command_bytes_and_range() {
    assert_eq!(build_wheel(-3).unwrap().as_bytes(), b"km.wheel(-3)\r\n");
    assert_eq!(build_wheel(127).unwrap().as_bytes(), b"km.wheel(127)\r\n");
    assert!(matches!(
        build_wheel(128),
        Err(MakcuError::OutOfRange { value: 128, min: -127, max: 127 })
    ));
    assert!(matches!(
        build_wheel(-128),
        Err(MakcuError::OutOfRange { value: -128, min: -127, max: 127 })
    ));
}

#[test]
fn serial_set_command_bytes() {
    let cmd = build_serial_set("custom").unwrap();
    assert_eq!(cmd.as_bytes(), b"km.serial('custom')\r\n");
    let long = "a".repeat(45);
    let cmd = build_serial_set(&long).unwrap();
    assert_eq!(cmd.as_bytes().len(), 60);
}

#[test]
fn serial_set_too_long() {
    let long = "a".repeat(46);
    match build_serial_set(&long) {
        Err(MakcuError::Protocol(m)) => assert_eq!(m, "serial value too long"),
        other => panic!("unexpected {:?}", other.map(|c| c.as_bytes().to_vec())),
    }
    // 23 two-byte characters are 46 bytes.
    let wide = "é".repeat(23);
    assert!(matches!(build_serial_set(&wide), Err(MakcuError::Protocol(_))));
}

#[test]
fn serial_set_value_with_line_feed_is_kept_whole() {
    let cmd = build_serial_set("ab\ncd").unwrap();
    assert_eq!(cmd.as_bytes(), b"km.serial('ab\ncd')\r\n");
    assert_eq!(build_serial_set("").unwrap().as_bytes(), b"km.serial('')\r\n");
}

#[test]
fn fixed_commands() {
    assert_eq!(button_down_cmd(Button::Left), b"km.left(1)\r\n".to_vec());
    assert_eq!(button_up_cmd(Button::Side1), b"km.ms1(0)\r\n".to_vec());
    assert_eq!(button_force_up_cmd(Button::Middle), b"km.middle(2)\r\n".to_vec());
    assert_eq!(lock_set_cmd(Lock::X, true), b"km.lock_mx(1)\r\n".to_vec());
    assert_eq!(lock_set_cmd(Lock::Side2, false), b"km.lock_ms2(0)\r\n".to_vec());
}
