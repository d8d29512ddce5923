use makcu::protocol::parser::{classify_response, ParseEvent, ResponseKind, StreamParser};

#[test]
fn button_event_basic() {
    let mut parser = StreamParser::new();
    // Feed "km." + mask byte 0x05 (left + middle)
    assert_eq!(parser.feed(b'k'), None);
    assert_eq!(parser.feed(b'm'), None);
    assert_eq!(parser.feed(b'.'), None);
    assert_eq!(parser.feed(0x05), Some(ParseEvent::ButtonEvent(0x05)));
}

#[test]
fn button_event_mask_0x0a() {
    let mut parser = StreamParser::new();
    assert_eq!(parser.feed(b'k'), None);
    assert_eq!(parser.feed(b'm'), None);
    assert_eq!(parser.feed(b'.'), None);
    // 0x0A = right + side1
    assert_eq!(parser.feed(0x0A), Some(ParseEvent::ButtonEvent(0x0A)));
}

#[test]
fn button_event_mask_0x0d() {
    let mut parser = StreamParser::new();
    assert_eq!(parser.feed(b'k'), None);
    assert_eq!(parser.feed(b'm'), None);
    assert_eq!(parser.feed(b'.'), None);
    // 0x0D = left + middle + side1
    assert_eq!(parser.feed(0x0D), Some(ParseEvent::ButtonEvent(0x0D)));
}

#[test]
fn button_event_mask_zero() {
    let mut parser = StreamParser::new();
    for &b in b"km." {
        assert_eq!(parser.feed(b), None);
    }
    assert_eq!(parser.feed(0x00), Some(ParseEvent::ButtonEvent(0x00)));
}

#[test]
fn command_echo_not_confused_with_button() {
    let mut parser = StreamParser::new();
    // Feed "km.left(1)\r\n>>> "
    let input = b"km.left(1)\r\n>>> ";
    let mut events = Vec::new();
    for &b in input.iter() {
        if let Some(ev) = parser.feed(b) {
            events.push(ev);
        }
    }
    // Should get one Response, not a button event
    assert_eq!(events.len(), 1);
    match &events[0] {
        ParseEvent::Response(data) => {
            let text = String::from_utf8_lossy(data);
            assert!(text.contains("km.left(1)"), "got: {}", text);
        }
        other => panic!("expected Response, got {:?}", other),
    }
}

#[test]
fn interleaved_button_and_response() {
    let mut parser = StreamParser::new();
    // Command echo, then button event, then prompt
    // "km.left(1)\r\n" + "km." + 0x05 + ">>> "
    let mut input: Vec<u8> = b"km.left(1)\r\n".to_vec();
    input.extend_from_slice(b"km.");
    input.push(0x05);
    input.extend_from_slice(b">>> ");

    let mut events = Vec::new();
    for &b in &input {
        if let Some(ev) = parser.feed(b) {
            events.push(ev);
        }
    }
    assert_eq!(events.len(), 2);
    assert_eq!(events[0], ParseEvent::ButtonEvent(0x05));
    assert!(matches!(&events[1], ParseEvent::Response(_)));
}

#[test]
fn version_response_no_echo() {
    let mut parser = StreamParser::new();
    // km.version() is special: response is just "km.MAKCU\r\n>>> "
    // but "km." starts km prefix matching. 'M' >= 0x20 so it's flushed.
    let input = b"km.MAKCU\r\n>>> ";
    let mut events = Vec::new();
    for &b in input.iter() {
        if let Some(ev) = parser.feed(b) {
            events.push(ev);
        }
    }
    assert_eq!(events.len(), 1);
    match &events[0] {
        ParseEvent::Response(data) => {
            let text = String::from_utf8_lossy(data);
            assert!(text.contains("km.MAKCU"), "got: {}", text);
        }
        other => panic!("expected Response, got {:?}", other),
    }
}

#[test]
fn classify_executed() {
    assert_eq!(classify_response(b""), ResponseKind::Executed);
    assert_eq!(classify_response(b"\r\n"), ResponseKind::Executed);
}

#[test]
fn classify_value_multiline() {
    let resp = b"km.left()\r\n1";
    assert_eq!(classify_response(resp), ResponseKind::Value("1".to_string()));
}

#[test]
fn classify_single_line() {
    let resp = b"km.MAKCU";
    assert_eq!(
        classify_response(resp),
        ResponseKind::ValueOrEcho("km.MAKCU".to_string())
    );
}

fn feed_all(parser: &mut StreamParser, bytes: &[u8]) -> Vec<ParseEvent> {
    let mut events = Vec::new();
    for &b in bytes {
        if let Some(ev) = parser.feed(b) {
            events.push(ev);
        }
    }
    events
}

#[test]
fn response_excludes_prompt_and_button_events() {
    let mut parser = StreamParser::new();
    let mut input: Vec<u8> = b"km.left()\r\n".to_vec();
    input.extend_from_slice(b"km.");
    input.push(0x0A);
    input.extend_from_slice(b"1\r\n>>> ");
    let events = feed_all(&mut parser, &input);
    assert_eq!(
        events,
        vec![
            ParseEvent::ButtonEvent(0x0A),
            ParseEvent::Response(b"km.left()\r\n1\r\n".to_vec()),
        ]
    );
}

#[test]
fn two_responses_in_a_row() {
    let mut parser = StreamParser::new();
    let events = feed_all(&mut parser, b"a\r\n>>> b\r\n>>> ");
    assert_eq!(
        events,
        vec![
            ParseEvent::Response(b"a\r\n".to_vec()),
            ParseEvent::Response(b"b\r\n".to_vec()),
        ]
    );
}

#[test]
fn prompt_alone_gives_empty_response() {
    let mut parser = StreamParser::new();
    assert_eq!(
        feed_all(&mut parser, b">>> "),
        vec![ParseEvent::Response(Vec::new())]
    );
}

#[test]
fn partial_km_prefix_is_flushed() {
    let mut parser = StreamParser::new();
    let events = feed_all(&mut parser, b"kx km! >>> ");
    assert_eq!(events, vec![ParseEvent::Response(b"kx km! ".to_vec())]);
}

#[test]
fn repeated_k_restarts_prefix_match() {
    let mut parser = StreamParser::new();
    let mut input: Vec<u8> = b"kkm.".to_vec();
    input.push(0x01);
    input.extend_from_slice(b">>> ");
    let events = feed_all(&mut parser, &input);
    assert_eq!(
        events,
        vec![
            ParseEvent::ButtonEvent(0x01),
            ParseEvent::Response(b"k".to_vec()),
        ]
    );
}

#[test]
fn angle_bracket_before_prompt_stays_in_response() {
    let mut parser = StreamParser::new();
    assert_eq!(
        feed_all(&mut parser, b"x>>>> "),
        vec![ParseEvent::Response(b"x>".to_vec())]
    );
    let mut parser = StreamParser::new();
    assert_eq!(parser.feed(b'>'), None);
    assert_eq!(parser.feed(b'>'), None);
    assert_eq!(parser.feed(b'>'), None);
    assert_eq!(parser.feed(b'>'), None);
    assert_eq!(parser.feed(b' '), Some(ParseEvent::Response(b">".to_vec())));
}

#[test]
fn echoes_and_values_frame_in_order() {
    let mut parser = StreamParser::new();
    let events = feed_all(
        &mut parser,
        b"km.move(1,2)\r\n>>> km.left()\r\n1\r\n>>> km.MAKCU\r\n>>> kkm.km.\x7f>>> ",
    );
    assert_eq!(
        events,
        vec![
            ParseEvent::Response(b"km.move(1,2)\r\n".to_vec()),
            ParseEvent::Response(b"km.left()\r\n1\r\n".to_vec()),
            ParseEvent::Response(b"km.MAKCU\r\n".to_vec()),
            ParseEvent::Response(b"kkm.km.\x7f".to_vec()),
        ]
    );
}

#[test]
fn reset_discards_pending_response() {
    let mut parser = StreamParser::new();
    assert_eq!(feed_all(&mut parser, b"partial km"), Vec::new());
    parser.reset();
    assert_eq!(
        feed_all(&mut parser, b"ok>>> "),
        vec![ParseEvent::Response(b"ok".to_vec())]
    );
}

#[test]
fn classify_trims_value_and_single_line() {
    assert_eq!(
        classify_response(b"  km.buttons()\r\n 0 \r\n"),
        ResponseKind::Value("0".to_string())
    );
    assert_eq!(
        classify_response(b"\r\nkm.move(1,2)\r\n"),
        ResponseKind::ValueOrEcho("km.move(1,2)".to_string())
    );
    assert_eq!(
        classify_response(b"echo\nvalue\twith\ttabs\t"),
        ResponseKind::Value("value\twith\ttabs".to_string())
    );
}

#[test]
fn classify_invalid_utf8_is_lossy() {
    assert_eq!(
        classify_response(b"km.serial()\r\n\xffA"),
        ResponseKind::Value("\u{fffd}A".to_string())
    );
}

#[test]
fn false_prefix_followed_by_frame_reports_the_frame() {
    let mut parser = StreamParser::new();
    let mut input: Vec<u8> = b"km.km.".to_vec();
    input.push(0x05);
    input.extend_from_slice(b">>> ");
    let events = feed_all(&mut parser, &input);
    assert_eq!(
        events,
        vec![
            ParseEvent::ButtonEvent(0x05),
            ParseEvent::Response(b"km.".to_vec()),
        ]
    );
}

#[test]
fn frame_inside_response_text_is_reported() {
    let mut parser = StreamParser::new();
    let mut input: Vec<u8> = b"xkm.ykm.km.".to_vec();
    input.push(0x1f);
    input.extend_from_slice(b"z>>> ");
    let events = feed_all(&mut parser, &input);
    assert_eq!(
        events,
        vec![
            ParseEvent::ButtonEvent(0x1f),
            ParseEvent::Response(b"xkm.ykm.z".to_vec()),
        ]
    );
}

#[test]
fn reset_behaves_like_new_parser() {
    let mut parser = StreamParser::new();
    assert_eq!(feed_all(&mut parser, b"abkm"), Vec::new());
    parser.reset();
    let mut fresh = StreamParser::new();
    let mut input: Vec<u8> = b".".to_vec();
    input.push(0x05);
    input.extend_from_slice(b">>> ");
    let after_reset = feed_all(&mut parser, &input);
    assert_eq!(after_reset, vec![ParseEvent::Response(b".\x05".to_vec())]);
    assert_eq!(after_reset, feed_all(&mut fresh, &input));
}

#[test]
fn bare_control_bytes_are_no_events() {
    let mut parser = StreamParser::new();
    let events = feed_all(&mut parser, b"\x01\r\n\x1fkm\x02>>> ");
    assert_eq!(events, vec![ParseEvent::Response(b"\x01\r\n\x1fkm\x02".to_vec())]);
}
