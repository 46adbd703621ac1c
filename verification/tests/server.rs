use melsec_mc_mock::device_map::DeviceMap;
use melsec_mc_mock::frame::{
    build_error_response, build_mc_response_from_request, detect_format_from_frame, detect_frame,
    has_mc4e_subheader, AccessRoute, FrameError, McFrameFormat, McRequest,
};
use melsec_mc_mock::handler::HandlerError;
use melsec_mc_mock::server::{
    frame_command, peek_command, serve_frame_with, step_with, tim_await_ms, MockServer, Refusal,
    Step, DEFAULT_TIM_AWAIT_MS,
};

const ROUTE: [u8; 5] = [0x00, 0xFF, 0xFF, 0x03, 0x00];

/// An MC4E request: subheader, serial, reserved, route, data length, timer, body.
fn mc4e_frame(serial: u16, body: &[u8]) -> Vec<u8> {
    let mut frame = vec![0x50, 0x00];
    frame.extend_from_slice(&serial.to_le_bytes());
    frame.extend_from_slice(&[0x00, 0x00]);
    frame.extend_from_slice(&ROUTE);
    frame.extend_from_slice(&((body.len() + 2) as u16).to_le_bytes());
    frame.extend_from_slice(&[0x10, 0x00]);
    frame.extend_from_slice(body);
    frame
}

/// An MC3E request: route, data length, timer, body.
fn mc3e_frame(body: &[u8]) -> Vec<u8> {
    let mut frame = ROUTE.to_vec();
    frame.extend_from_slice(&((body.len() + 2) as u16).to_le_bytes());
    frame.extend_from_slice(&[0x10, 0x00]);
    frame.extend_from_slice(body);
    frame
}

/// The end code and the payload of an MC4E reply with the given serial.
fn mc4e_reply(reply: &[u8], serial: u16) -> (u16, Vec<u8>) {
    assert!(reply.len() >= 15, "reply too short: {:02X?}", reply);
    assert_eq!(&reply[0..2], &[0xD0, 0x00]);
    assert_eq!(&reply[2..4], &serial.to_le_bytes());
    assert_eq!(&reply[4..6], &[0x00, 0x00]);
    assert_eq!(&reply[6..11], &ROUTE);
    assert_eq!(u16::from_le_bytes([reply[11], reply[12]]) as usize, reply.len() - 15 + 2);
    (u16::from_le_bytes([reply[13], reply[14]]), reply[15..].to_vec())
}

/// The end code and the payload of an MC3E reply.
fn mc3e_reply(reply: &[u8]) -> (u16, Vec<u8>) {
    assert!(reply.len() >= 11, "reply too short: {:02X?}", reply);
    assert_eq!(&reply[0..2], &[0xD0, 0x00]);
    assert_eq!(&reply[2..7], &ROUTE);
    assert_eq!(u16::from_le_bytes([reply[7], reply[8]]) as usize, reply.len() - 11 + 2);
    (u16::from_le_bytes([reply[9], reply[10]]), reply[11..].to_vec())
}

fn write_one_word() -> Vec<u8> {
    vec![0x01, 0x14, 0x00, 0x00, 0x00, 0x00, 0x00, 0xA8, 0x01, 0x00, 0x66, 0x55]
}

fn read_one_word() -> Vec<u8> {
    vec![0x01, 0x04, 0x00, 0x00, 0x00, 0x00, 0x00, 0xA8, 0x01, 0x00]
}

fn reply_of(step: Step) -> Vec<u8> {
    match step {
        Step::Reply(bytes) => bytes,
        other => panic!("a reply is expected, got {:?}", other),
    }
}

fn close_of(step: Step) -> Vec<u8> {
    match step {
        Step::Close(bytes, _) => bytes,
        other => panic!("a close is expected, got {:?}", other),
    }
}

fn refusal_of(step: Step) -> Refusal {
    match step {
        Step::Close(_, refusal) => refusal,
        other => panic!("a close is expected, got {:?}", other),
    }
}

#[test]
fn detect_mc4e_by_subheader() {
    // MC4E request subheader at start should result in MC4E detection
    let mut frame: Vec<u8> = Vec::new();
    frame.extend_from_slice(&[0x50, 0x00]);
    // pad to minimal length
    frame.extend_from_slice(&[0u8; 20]);
    let fmt = MockServer::detect_format_from_frame(&frame);
    assert_eq!(fmt, McFrameFormat::MC4E);

    // MC4E response subheader also indicates MC4E
    let mut frame2: Vec<u8> = Vec::new();
    frame2.extend_from_slice(&[0xD0, 0x00]);
    frame2.extend_from_slice(&[0u8; 10]);
    let fmt2 = MockServer::detect_format_from_frame(&frame2);
    assert_eq!(fmt2, McFrameFormat::MC4E);
}

#[test]
fn detect_mc3e_by_access_route_no_subheader() {
    // MC3E no-subheader frame begins with access_route (5 bytes)
    let mut frame: Vec<u8> = Vec::new();
    // access_route default
    frame.extend_from_slice(&melsec_mc::mc_define::AccessRoute::default().to_bytes());
    // data_len = 4 (2 data bytes)
    frame.extend_from_slice(&4u16.to_le_bytes());
    // end_code (2 bytes)
    frame.extend_from_slice(&0u16.to_le_bytes());
    // 2 bytes of data
    frame.extend_from_slice(&[0x11, 0x22]);
    let fmt = MockServer::detect_format_from_frame(&frame);
    assert_eq!(fmt, McFrameFormat::MC3E);
}

#[test]
fn format_detection_edges() {
    assert_eq!(detect_format_from_frame(&[]), McFrameFormat::MC3E);
    assert_eq!(detect_format_from_frame(&[0x50]), McFrameFormat::MC3E);
    assert_eq!(detect_format_from_frame(&[0x50, 0x00]), McFrameFormat::MC4E);
    assert_eq!(detect_format_from_frame(&[0xD0, 0x00]), McFrameFormat::MC4E);
    assert_eq!(detect_format_from_frame(&[0x50, 0x01]), McFrameFormat::MC3E);
    assert_eq!(detect_format_from_frame(&[0x54, 0x00]), McFrameFormat::MC3E);
    assert_eq!(detect_format_from_frame(&[0x00, 0x50, 0x00]), McFrameFormat::MC3E);
    assert_eq!(detect_format_from_frame(&mc3e_frame(b"abcdefgh")), McFrameFormat::MC3E);
    assert_eq!(detect_format_from_frame(&mc4e_frame(7, &[1, 2, 3])), McFrameFormat::MC4E);
    assert!(has_mc4e_subheader(&[0xD0, 0x00, 0x01]));
    assert!(!has_mc4e_subheader(&[0xD0]));
}

#[test]
fn frame_bounds_of_the_two_headers() {
    assert_eq!(detect_frame(&[]), Ok(None));
    assert_eq!(detect_frame(&[0x50]), Ok(None));
    assert_eq!(detect_frame(&[0x50, 0, 1, 0, 0, 0, 0, 0]), Ok(None));
    let four = mc4e_frame(0x1234, &[9; 4]);
    assert_eq!(detect_frame(&four), Ok(Some((19, 15, Some(0x1234)))));
    assert_eq!(detect_frame(&four[..15]), Ok(Some((19, 15, Some(0x1234)))));
    assert_eq!(detect_frame(&four[..14]), Ok(None));
    let three = mc3e_frame(&[9; 10]);
    assert_eq!(detect_frame(&three), Ok(Some((19, 9, None))));
    assert_eq!(detect_frame(&three[..9]), Ok(Some((19, 9, None))));
    assert_eq!(detect_frame(&three[..8]), Ok(None));
    // the monitoring timer is no data length
    let mut timed = mc3e_frame(&[0x19, 0x06, 0x00, 0x00, b'A', b'B']);
    timed[7] = 0x02;
    timed[8] = 0x00;
    assert_eq!(detect_frame(&timed), Ok(Some((15, 9, None))));
    assert_eq!(detect_frame(&timed[..11]), Ok(Some((15, 9, None))));
    // a data length below 2 is refused in either format
    for declared in [0u8, 1] {
        let mut bad = mc4e_frame(1, &[]);
        bad[11] = declared;
        assert_eq!(detect_frame(&bad), Err(FrameError::InvalidDataLen));
        let mut bad = mc3e_frame(&[]);
        bad[5] = declared;
        assert_eq!(detect_frame(&bad), Err(FrameError::InvalidDataLen));
    }
    // a response subheader is framed like a request
    let mut response = mc4e_frame(5, &[1, 2]);
    response[0] = 0xD0;
    assert_eq!(detect_frame(&response), Ok(Some((17, 15, Some(5)))));
    // the longest frame
    let mut long = mc4e_frame(1, &[]);
    long[11] = 0xFF;
    long[12] = 0xFF;
    assert_eq!(detect_frame(&long), Ok(Some((15 + 65533, 15, Some(1)))));
}

#[test]
fn requests_are_read_from_each_header() {
    let four = McRequest::try_from_payload(&mc4e_frame(2, &[0xAA, 0xBB, 0xCC, 0xDD])).expect("mc4e");
    assert_eq!(four.serial_number, Some(2));
    assert_eq!(four.access_route.to_bytes(), ROUTE);
    assert_eq!(four.access_route, AccessRoute::default());
    assert_eq!(four.request_data, vec![0xAA, 0xBB, 0xCC, 0xDD]);
    assert_eq!(four.monitoring_timer, 0x0010);

    let bare = vec![0x01, 0x02, 0x03, 0x04, 0x05, 0x04, 0x00, 0x0A, 0x0B, 0x11, 0x22];
    let plain = McRequest::try_from_payload(&bare).expect("mc3e");
    assert_eq!(plain.serial_number, None);
    assert_eq!(
        plain.access_route,
        AccessRoute { network_number: 1, pc_number: 2, io_number: 0x0403, station_number: 5 }
    );
    assert_eq!(plain.request_data, vec![0x11, 0x22]);
    assert_eq!(plain.monitoring_timer, 0x0B0A);

    // a body that ends early is taken as far as it goes, and no further than declared
    let cut = McRequest::try_from_payload(&mc4e_frame(2, &[1, 2, 3, 4])[..17]).expect("cut");
    assert_eq!(cut.request_data, vec![1, 2]);
    let mut longer = mc3e_frame(&[1, 2, 3]);
    longer.extend_from_slice(&[9, 9]);
    assert_eq!(McRequest::try_from_payload(&longer).expect("longer").request_data, vec![1, 2, 3]);
    let empty = McRequest::try_from_payload(&mc3e_frame(&[])).expect("empty");
    assert!(empty.request_data.is_empty());

    assert_eq!(McRequest::try_from_payload(&[]).err(), Some(FrameError::ParseFailure));
    assert_eq!(McRequest::try_from_payload(&[0x50]).err(), Some(FrameError::ParseFailure));
    assert_eq!(
        McRequest::try_from_payload(&mc4e_frame(1, &[])[..14]).err(),
        Some(FrameError::ParseFailure)
    );
    assert_eq!(
        McRequest::try_from_payload(&mc3e_frame(&[])[..8]).err(),
        Some(FrameError::ParseFailure)
    );
    let mut bad = mc4e_frame(1, &[]);
    bad[11] = 1;
    assert_eq!(McRequest::try_from_payload(&bad).err(), Some(FrameError::InvalidDataLen));
}

#[test]
fn replies_are_framed_bit_exact() {
    let req = McRequest::try_from_payload(&mc4e_frame(0x1234, &[1, 2, 3, 4])).expect("request");
    assert_eq!(
        build_mc_response_from_request(&req, &[], McFrameFormat::MC4E),
        vec![0xD0, 0x00, 0x34, 0x12, 0x00, 0x00, 0x00, 0xFF, 0xFF, 0x03, 0x00, 0x02, 0x00, 0x00, 0x00]
    );
    assert_eq!(
        build_mc_response_from_request(&req, b"AB", McFrameFormat::MC4E),
        vec![
            0xD0, 0x00, 0x34, 0x12, 0x00, 0x00, 0x00, 0xFF, 0xFF, 0x03, 0x00, 0x04, 0x00, 0x00,
            0x00, b'A', b'B'
        ]
    );
    assert_eq!(
        MockServer::build_mc_response_from_request(&req, b"AB", McFrameFormat::MC3E),
        vec![0xD0, 0x00, 0x00, 0xFF, 0xFF, 0x03, 0x00, 0x04, 0x00, 0x00, 0x00, b'A', b'B']
    );
    assert_eq!(
        build_mc_response_from_request(&req, &[], McFrameFormat::MC3E),
        vec![0xD0, 0x00, 0x00, 0xFF, 0xFF, 0x03, 0x00, 0x02, 0x00, 0x00, 0x00]
    );
    // a request without a serial number is answered with serial 0
    let bare = McRequest::try_from_payload(&mc3e_frame(&[1, 2, 3, 4])).expect("request");
    assert_eq!(
        &build_mc_response_from_request(&bare, &[], McFrameFormat::MC4E)[..6],
        &[0xD0, 0x00, 0x00, 0x00, 0x00, 0x00]
    );
    // the longest payload whose length can be declared, and one byte more
    let longest = build_mc_response_from_request(&req, &[7; 65533], McFrameFormat::MC3E);
    assert_eq!(&longest[7..9], &[0xFF, 0xFF]);
    assert_eq!(longest.len(), 11 + 65533);
    let longer = build_mc_response_from_request(&req, &[7; 65534], McFrameFormat::MC3E);
    assert_eq!(&longer[7..9], &[0x02, 0x00]);
    assert_eq!(longer.len(), 11 + 65534);
}

#[test]
fn error_replies_match_the_received_format() {
    let mc4e = vec![
        0xD0, 0x00, 0x34, 0x12, 0x00, 0x00, 0x00, 0xFF, 0xFF, 0x03, 0x00, 0x02, 0x00, 0x50, 0x00,
    ];
    assert_eq!(build_error_response(&mc4e_frame(0x1234, &[])), mc4e);
    assert_eq!(build_error_response(&[0x50, 0x00, 0x34, 0x12]), mc4e);
    assert_eq!(build_error_response(&[0xD0, 0x00, 0x34, 0x12]), mc4e);
    let no_serial = build_error_response(&[0x50, 0x00, 0x34]);
    assert_eq!(&no_serial[..4], &[0xD0, 0x00, 0x00, 0x00]);
    assert_eq!(no_serial.len(), 15);
    let mc3e = vec![0xD0, 0x00, 0x00, 0xFF, 0xFF, 0x03, 0x00, 0x02, 0x00, 0x50, 0x00];
    assert_eq!(build_error_response(&mc3e_frame(&[1])), mc3e);
    assert_eq!(build_error_response(&[]), mc3e);
    assert_eq!(build_error_response(&[0x50]), mc3e);
    assert_eq!(build_error_response(&[0x50, 0x01, 0, 0]), mc3e);
    assert_eq!(build_error_response(&[0x54, 0x00, 0, 0]), mc3e);
}

#[test]
fn mc4e_invalid_data_len_returns_mc4e_error_response() {
    let mut server = MockServer::new();
    // Build an MC4E header with invalid data_len = 1 (must be >=2)
    let mut buf: Vec<u8> = Vec::new();
    buf.extend_from_slice(&[0x50, 0x00]);
    // serial = 0x1234
    buf.extend_from_slice(&0x1234u16.to_le_bytes());
    // reserved
    buf.extend_from_slice(&0u16.to_le_bytes());
    // access route (5)
    buf.extend_from_slice(&[0x00u8, 0xFFu8, 0xFFu8, 0x03u8, 0x00u8]);
    // data_len = 1 (invalid)
    buf.extend_from_slice(&1u16.to_le_bytes());
    // pad to 15 bytes so that the header is complete
    buf.extend_from_slice(&[0u8, 0u8]);

    let sent = buf.clone();
    let resp = close_of(server.next_step(&mut buf));
    // the refused bytes stay in the buffer: the connection is reset
    assert_eq!(buf, sent);
    // response should start with the MC4E response subheader
    assert!(resp.len() >= 15, "response too short: {}", resp.len());
    assert_eq!(resp[0], 0xD0);
    assert_eq!(resp[1], 0x00);
    assert_eq!(u16::from_le_bytes([resp[2], resp[3]]), 0x1234);
    // end_code at offset 13..15
    let end_code = u16::from_le_bytes([resp[13], resp[14]]);
    assert_eq!(end_code, 0x0050u16);
    assert_eq!(&resp[13..15], &[0x50, 0x00]);
    assert!(server.store.is_empty());
}

#[test]
fn mc3e_echo_request_returns_mc3e_response() {
    let mut server = MockServer::new();
    // an MC3E request has no subheader: route, data length, timer, body
    let mut payload: Vec<u8> =
        vec![0x00, 0xFF, 0xFF, 0x03, 0x00, 0x08, 0x00, 0x10, 0x00, 0x19, 0x06, 0x00, 0x00, 0x41, 0x42];
    assert_eq!(payload, mc3e_frame(&[0x19, 0x06, 0x00, 0x00, b'A', b'B']));

    let resp = reply_of(server.next_step(&mut payload));
    assert!(payload.is_empty());

    // should be MC3E-style response starting with 0xD0 0x00
    assert!(resp.len() >= 11, "response too short: {}", resp.len());
    assert_eq!(resp[0], 0xD0u8);
    assert_eq!(resp[1], 0x00u8);
    // trailing payload should contain the echoed ascii 'A' 'B'
    assert!(resp.ends_with(b"AB"), "response payload missing echoed bytes");
    assert_eq!(resp, vec![0xD0, 0x00, 0x00, 0xFF, 0xFF, 0x03, 0x00, 0x04, 0x00, 0x00, 0x00, 0x41, 0x42]);
    // the same bytes as one datagram get the same reply
    let datagram = mc3e_frame(&[0x19, 0x06, 0x00, 0x00, b'A', b'B']);
    assert_eq!(server.handle_datagram(&datagram), resp);
}

#[test]
fn mc4e_echo_request_returns_mc4e_response() {
    let mut server = MockServer::new();
    let mut buffer = vec![
        0x50, 0x00, 0x34, 0x12, 0x00, 0x00, 0x00, 0xFF, 0xFF, 0x03, 0x00, 0x08, 0x00, 0x10, 0x00,
        0x19, 0x06, 0x00, 0x00, 0x41, 0x42,
    ];
    assert_eq!(buffer, mc4e_frame(0x1234, &[0x19, 0x06, 0x00, 0x00, b'A', b'B']));
    let datagram = buffer.clone();
    let resp = reply_of(server.next_step(&mut buffer));
    assert!(buffer.is_empty());
    assert_eq!(
        resp,
        vec![
            0xD0, 0x00, 0x34, 0x12, 0x00, 0x00, 0x00, 0xFF, 0xFF, 0x03, 0x00, 0x04, 0x00, 0x00,
            0x00, 0x41, 0x42
        ]
    );
    assert_eq!(server.handle_datagram(&datagram), resp);
}

#[test]
fn tcp_echo_and_read_write() {
    let mut server = MockServer::new();
    let mut acc: Vec<u8> = Vec::new();

    // --- Echo test ---
    let mut payload: Vec<u8> = Vec::new();
    payload.extend_from_slice(&0x0619u16.to_le_bytes());
    payload.extend_from_slice(&0x0000u16.to_le_bytes());
    payload.extend_from_slice(b"1234");
    acc.extend_from_slice(&mc4e_frame(0x0101, &payload));
    let frame = reply_of(server.next_step(&mut acc));
    let (frame_len, _h, _s) = detect_frame(&frame).expect("detect").expect("a frame");
    assert_eq!(frame_len, frame.len());
    let (end_code, data) = mc4e_reply(&frame, 0x0101);
    assert_eq!(end_code, 0x0000);
    assert_eq!(data, b"1234");

    // --- Write words test (write one word) ---
    acc.extend_from_slice(&mc4e_frame(0x0102, &write_one_word()));
    let frame2 = reply_of(server.next_step(&mut acc));
    let (end_code2, data2) = mc4e_reply(&frame2, 0x0102);
    assert!(data2.is_empty(), "expected empty logical payload for write response, got: {:?}", data2);
    assert_eq!(end_code2, 0x0000);

    // verify store has the written word via server API
    let got_words = server.get_words("0xA8", 0, 1);
    assert_eq!(got_words, vec![0x5566u16]);

    // a follow-up read of the same word
    acc.extend_from_slice(&mc4e_frame(0x0103, &read_one_word()));
    let frame3 = reply_of(server.next_step(&mut acc));
    assert_eq!(mc4e_reply(&frame3, 0x0103), (0x0000, vec![0x66, 0x55]));

    // nothing is left to decide on
    assert!(acc.is_empty());
    assert!(matches!(server.next_step(&mut acc), Step::NeedMore));
}

#[test]
fn write_then_read_roundtrip() {
    let mut server = MockServer::new();
    let mut acc = mc3e_frame(&[0x01, 0x14, 0x00, 0x00, 0x00, 0x00, 0x00, 0xA8, 0x01, 0x00, 0x34, 0x12]);
    // two frames in one buffer are answered one after the other
    acc.extend_from_slice(&mc3e_frame(&read_one_word()));
    let written = reply_of(server.next_step(&mut acc));
    assert_eq!(written, vec![0xD0, 0x00, 0x00, 0xFF, 0xFF, 0x03, 0x00, 0x02, 0x00, 0x00, 0x00]);
    assert_eq!(acc, mc3e_frame(&read_one_word()));
    let read = reply_of(server.next_step(&mut acc));
    assert_eq!(read, vec![0xD0, 0x00, 0x00, 0xFF, 0xFF, 0x03, 0x00, 0x04, 0x00, 0x00, 0x00, 0x34, 0x12]);
    assert!(acc.is_empty());
    assert_eq!(server.get_words("D0", 0, 1), vec![0x1234]);
}

#[test]
fn replies_come_in_the_order_of_the_frames() {
    let mut server = MockServer::new();
    let mut acc: Vec<u8> = Vec::new();
    for serial in 1..=5u16 {
        let text = format!("{:04X}", serial);
        let mut body = vec![0x19, 0x06, 0x00, 0x00];
        body.extend_from_slice(text.as_bytes());
        if serial % 2 == 0 {
            acc.extend_from_slice(&mc3e_frame(&body));
        } else {
            acc.extend_from_slice(&mc4e_frame(serial, &body));
        }
    }
    for serial in 1..=5u16 {
        let reply = reply_of(server.next_step(&mut acc));
        let expected = format!("{:04X}", serial).into_bytes();
        if serial % 2 == 0 {
            assert_eq!(mc3e_reply(&reply), (0, expected));
        } else {
            assert_eq!(mc4e_reply(&reply, serial), (0, expected));
        }
    }
    assert!(acc.is_empty());
}

#[test]
fn partial_close_does_not_apply_write_but_complete_does() {
    let _ = melsec_mc::command_registry::CommandRegistry::load_and_set_global_from_src();
    let mut server = MockServer::new();

    // Build a write_words request for D0 = 0x9ABC
    let values = vec![0x9ABCu16];
    let params = melsec_mc::command_registry::create_write_words_params("D0", &values);
    let reg = melsec_mc::command_registry::GLOBAL_COMMAND_REGISTRY.get().expect("registry");
    let spec = reg.get(melsec_mc::commands::Command::WriteWords).expect("write command");
    let request_data = spec
        .build_request(&params, Some(melsec_mc::plc_series::PLCSeries::Q))
        .expect("build request");
    let payload = mc4e_frame(1, &request_data);

    // split near the end leaving last 2 bytes
    let split = payload.len().saturating_sub(2);

    // 1) partial send then close -> should NOT apply write
    {
        let mut acc: Vec<u8> = payload[..split].to_vec();
        assert!(matches!(server.next_step(&mut acc), Step::NeedMore));
        assert_eq!(acc, payload[..split].to_vec());
        let got = server.get_words("D", 0, 1);
        // default is zeros
        assert_eq!(got, vec![0u16]);
        assert!(server.store.is_empty());
    }

    // 2) partial send then complete on same connection -> should apply
    {
        let mut acc: Vec<u8> = payload[..split].to_vec();
        assert!(matches!(server.next_step(&mut acc), Step::NeedMore));
        acc.extend_from_slice(&payload[split..]);
        let _ = reply_of(server.next_step(&mut acc));
        assert!(acc.is_empty());
        let got = server.get_words("D", 0, 1);
        assert_eq!(got, vec![0x9ABCu16]);
    }
}

#[test]
fn every_cut_of_a_frame_waits() {
    let mut timed = mc3e_frame(&write_one_word());
    // a monitoring timer of 2
    timed[7] = 0x02;
    timed[8] = 0x00;
    for frame in [mc4e_frame(9, &write_one_word()), mc3e_frame(&write_one_word()), timed] {
        for cut in 0..frame.len() {
            let mut store = DeviceMap::new();
            let mut acc = frame[..cut].to_vec();
            assert!(matches!(step_with(&mut store, &mut acc, None), Step::NeedMore), "cut {}", cut);
            assert_eq!(acc, frame[..cut].to_vec());
            assert!(store.is_empty());
            assert_eq!(peek_command(&acc), None);
        }
        let mut store = DeviceMap::new();
        let mut acc = frame.clone();
        assert_eq!(detect_frame(&acc).expect("frame").expect("bounds").0, frame.len());
        assert_eq!(peek_command(&acc), Some((0x1401, 0x0000)));
        let _ = reply_of(step_with(&mut store, &mut acc, None));
        assert!(acc.is_empty());
        assert_eq!(store.get_words("0xA8", 0, 1), vec![0x5566]);
    }
}

#[test]
fn well_formed_requests_are_one_frame_of_their_length() {
    let mut state: u64 = 0x2545_F491_4F6C_DD1D;
    let mut next = move || -> u64 {
        state ^= state << 13;
        state ^= state >> 7;
        state ^= state << 17;
        state
    };
    for round in 0..5000u32 {
        let len = 4 + (next() % 60) as usize;
        let body: Vec<u8> = (0..len).map(|_| (next() % 256) as u8).collect();
        let timer = (next() % 65536) as u16;
        let serial = (next() % 65536) as u16;
        let mut route: Vec<u8> = (0..5).map(|_| (next() % 256) as u8).collect();
        let mut frame: Vec<u8> = Vec::new();
        let mc4e = round % 2 == 0;
        if mc4e {
            frame.extend_from_slice(&[0x50, 0x00]);
            frame.extend_from_slice(&serial.to_le_bytes());
            frame.extend_from_slice(&[0x00, 0x00]);
        } else if (route[0] == 0x50 || route[0] == 0xD0) && route[1] == 0x00 {
            // such a route reads as an MC4E subheader
            route[1] = 0xFF;
        }
        frame.extend_from_slice(&route);
        frame.extend_from_slice(&((len + 2) as u16).to_le_bytes());
        frame.extend_from_slice(&timer.to_le_bytes());
        frame.extend_from_slice(&body);
        let header = if mc4e { 15 } else { 9 };
        let expected = Some((frame.len(), header, if mc4e { Some(serial) } else { None }));
        assert_eq!(detect_frame(&frame), Ok(expected), "frame {:02X?}", frame);
        let request = McRequest::try_from_payload(&frame).expect("request");
        assert_eq!(request.request_data, body);
        assert_eq!(request.monitoring_timer, timer);
        assert_eq!(request.access_route.to_bytes().to_vec(), route);
        assert_eq!(request.serial_number, if mc4e { Some(serial) } else { None });
        let cut = (next() % frame.len() as u64) as usize;
        match detect_frame(&frame[..cut]) {
            Ok(None) => assert!(cut < header),
            Ok(Some(bounds)) => assert_eq!(bounds.0, frame.len()),
            Err(error) => panic!("a cut at {} of {:02X?} is refused: {:?}", cut, frame, error),
        }
    }
}

#[test]
fn tcp_write_udp_read_shared_store() {
    let _ = melsec_mc::command_registry::CommandRegistry::load_and_set_global_from_src();
    let mut server = MockServer::new();

    let key = "D";
    let addr = 100usize;
    let words = [0x1234u16, 0x5678u16];
    let params = melsec_mc::command_registry::create_write_words_params(
        &format!("{}{}", key, addr),
        words.as_ref(),
    );
    let spec = melsec_mc::command_registry::GLOBAL_COMMAND_REGISTRY
        .get()
        .unwrap()
        .get(melsec_mc::commands::Command::WriteWords)
        .unwrap();
    let request_data = spec
        .build_request(&params, Some(melsec_mc::plc_series::PLCSeries::R))
        .expect("build request");
    let mut acc = mc4e_frame(1, &request_data);
    let _ = reply_of(server.next_step(&mut acc));

    let key_literal = match melsec_mc::device::device_by_symbol(key) {
        Some(dev) => format!("0x{:02X}", dev.device_code_q()),
        None => format!("0x{:02X}", 0u8),
    };
    let got = server.get_words(&key_literal, addr, 2);
    assert_eq!(got.len(), 2);
    assert_eq!(got[0], words[0]);
    assert_eq!(got[1], words[1]);

    // read the same words with one datagram
    let params_r =
        melsec_mc::command_registry::create_read_words_params(&format!("{}{}", key, addr), 2u16);
    let spec_r = melsec_mc::command_registry::GLOBAL_COMMAND_REGISTRY
        .get()
        .unwrap()
        .get(melsec_mc::commands::Command::ReadWords)
        .unwrap();
    let request_data_r = spec_r
        .build_request(&params_r, Some(melsec_mc::plc_series::PLCSeries::R))
        .expect("build read");
    let reply = server.handle_datagram(&mc4e_frame(0x0A0B, &request_data_r));
    let (end_code, data) = mc4e_reply(&reply, 0x0A0B);
    assert_eq!(end_code, 0);
    assert!(data.len() >= 4);
    let v0 = u16::from_le_bytes([data[0], data[1]]);
    let v1 = u16::from_le_bytes([data[2], data[3]]);
    assert_eq!(v0, words[0]);
    assert_eq!(v1, words[1]);
    // a datagram is served like the same bytes on a connection
    let mut other = MockServer::new();
    other.set_words(&key_literal, addr, &words);
    let mut acc = mc4e_frame(0x0A0B, &request_data_r);
    assert_eq!(reply_of(other.next_step(&mut acc)), reply);
}

#[test]
fn refused_requests_get_the_error_reply() {
    let mut server = MockServer::new();
    // a body of two bytes: the handler refuses it
    let mut acc = mc4e_frame(3, &[0x01, 0x04]);
    acc.extend_from_slice(&[0xEE]);
    let resp = close_of(server.next_step(&mut acc));
    assert_eq!(
        resp,
        vec![0xD0, 0x00, 0x03, 0x00, 0x00, 0x00, 0x00, 0xFF, 0xFF, 0x03, 0x00, 0x02, 0x00, 0x50, 0x00]
    );
    // the refused frame is off the buffer
    assert_eq!(acc, vec![0xEE]);
    // an echo with a bad character, in an MC3E frame
    let mut acc = mc3e_frame(&[0x19, 0x06, 0x00, 0x00, b'?']);
    let resp = close_of(server.next_step(&mut acc));
    assert_eq!(resp, vec![0xD0, 0x00, 0x00, 0xFF, 0xFF, 0x03, 0x00, 0x02, 0x00, 0x50, 0x00]);
    // and in an MC4E frame
    let mut acc = vec![
        0x50, 0x00, 0x34, 0x12, 0x00, 0x00, 0x00, 0xFF, 0xFF, 0x03, 0x00, 0x07, 0x00, 0x10, 0x00,
        0x19, 0x06, 0x00, 0x00, 0x47,
    ];
    let resp = close_of(server.next_step(&mut acc));
    assert_eq!(resp.len(), 15);
    assert_eq!(&resp[0..2], &[0xD0, 0x00]);
    assert_eq!(&resp[2..4], &[0x34, 0x12]);
    assert_eq!(&resp[11..13], &[0x02, 0x00]);
    assert_eq!(&resp[13..15], &[0x50, 0x00]);
    // a datagram that is no frame
    let resp = server.handle_datagram(&[0x50]);
    assert_eq!(resp, vec![0xD0, 0x00, 0x00, 0xFF, 0xFF, 0x03, 0x00, 0x02, 0x00, 0x50, 0x00]);
    // a word write that is too short for its count
    let mut store = DeviceMap::new();
    let short = mc4e_frame(1, &[0x01, 0x14, 0x00, 0x00, 0x00, 0x00, 0x00, 0xA8, 0x01, 0x00, 0x66]);
    let resp = close_of(serve_frame_with(&mut store, &short, None));
    assert_eq!(&resp[13..15], &[0x50, 0x00]);
    assert!(store.is_empty());
    assert!(server.store.is_empty());
}

#[test]
fn refusals_name_their_reason() {
    let mut store = DeviceMap::new();
    let mut bad = mc4e_frame(1, &[]);
    bad[11] = 1;
    assert_eq!(
        refusal_of(step_with(&mut store, &mut bad, None)),
        Refusal::Frame(FrameError::InvalidDataLen)
    );
    assert_eq!(
        refusal_of(serve_frame_with(&mut store, &[0x50], None)),
        Refusal::Frame(FrameError::ParseFailure)
    );
    assert_eq!(
        refusal_of(serve_frame_with(&mut store, &bad, None)),
        Refusal::Frame(FrameError::InvalidDataLen)
    );
    let mut short = mc3e_frame(&[0x01]);
    assert_eq!(
        refusal_of(step_with(&mut store, &mut short, None)),
        Refusal::Handler(HandlerError::RequestTooShort)
    );
    let mut echo = mc3e_frame(&[0x19, 0x06, 0x00, 0x00]);
    assert_eq!(
        refusal_of(step_with(&mut store, &mut echo, None)),
        Refusal::Handler(HandlerError::EchoLengthRange)
    );
    let mut write = mc3e_frame(&[0x01, 0x14, 0x00, 0x00, 0x00, 0x00, 0x00, 0xA8, 0x01, 0x00, 0x66]);
    assert_eq!(
        refusal_of(step_with(&mut store, &mut write, None)),
        Refusal::Handler(HandlerError::WriteTooShort)
    );
    assert_eq!(FrameError::InvalidDataLen.kind(), "invalid_data_len");
    assert_eq!(FrameError::ParseFailure.kind(), "parse_failure");
    assert_eq!(HandlerError::RequestTooShort.kind(), "request_too_short");
    assert_eq!(HandlerError::EchoLengthRange.kind(), "echo_length_range");
    assert_eq!(HandlerError::EchoBadChar.kind(), "echo_bad_char");
    assert_eq!(HandlerError::WriteTooShort.kind(), "write_too_short");
    assert_eq!(HandlerError::AddressRange.kind(), "address_range");
    assert_eq!(HandlerError::AsciiHexBadChar.kind(), "ascii_hex_bad_char");
}

#[test]
fn unknown_commands_are_answered_with_end_code_zero() {
    let mut server = MockServer::new();
    let mut acc = mc3e_frame(&[0x99, 0x99, 0x00, 0x00]);
    let resp = reply_of(server.next_step(&mut acc));
    assert_eq!(resp, vec![0xD0, 0x00, 0x00, 0xFF, 0xFF, 0x03, 0x00, 0x02, 0x00, 0x00, 0x00]);
}

#[test]
fn frame_command_tells_when_a_descriptor_is_needed() {
    assert_eq!(frame_command(&mc4e_frame(1, &read_one_word())), Some((0x0401, 0x0000)));
    assert_eq!(frame_command(&mc3e_frame(&[0x01, 0x14, 0x03, 0x00])), Some((0x1401, 0x0003)));
    assert_eq!(frame_command(&mc3e_frame(&[0x19, 0x06, 0x00, 0x00, b'A'])), None);
    assert_eq!(frame_command(&mc3e_frame(&[0x19, 0x06, 0x00])), None);
    assert_eq!(frame_command(&[0x50]), None);
    let mut two = mc3e_frame(&read_one_word());
    two.extend_from_slice(&mc3e_frame(&write_one_word()));
    assert_eq!(peek_command(&two), Some((0x0401, 0x0000)));
    assert_eq!(peek_command(&two[..18]), None);
}

#[test]
fn connection_closed_on_tim_await() {
    assert_eq!(DEFAULT_TIM_AWAIT_MS, 3000);
    assert_eq!(tim_await_ms(Some("500")), 500);
    assert_eq!(tim_await_ms(None), 3000);
    assert_eq!(tim_await_ms(Some("")), 3000);
    assert_eq!(tim_await_ms(Some("5s")), 3000);
    assert_eq!(tim_await_ms(Some(" 500")), 3000);
    assert_eq!(tim_await_ms(Some("-1")), 3000);
    assert_eq!(tim_await_ms(Some("+20")), 20);
    assert_eq!(tim_await_ms(Some("0")), 0);
    assert_eq!(tim_await_ms(Some("18446744073709551615")), u64::MAX);
    assert_eq!(tim_await_ms(Some("18446744073709551616")), 3000);
    // a connection that was closed for silence leaves the server as it was:
    // a new connection is served
    let mut server = MockServer::new();
    let mut acc = mc3e_frame(&write_one_word());
    let _ = reply_of(server.next_step(&mut acc));
    let mut acc = mc3e_frame(&read_one_word());
    assert_eq!(mc3e_reply(&reply_of(server.next_step(&mut acc))), (0, vec![0x66, 0x55]));
}

#[test]
fn partial_send_then_close_server_remains_healthy() {
    let mut server = MockServer::new();
    // a connection that sends a few arbitrary bytes (incomplete frame), then closes
    let mut acc: Vec<u8> = vec![0x00u8, 0xFFu8, 0xFFu8];
    assert!(matches!(server.next_step(&mut acc), Step::NeedMore));
    assert_eq!(acc, vec![0x00u8, 0xFFu8, 0xFFu8]);
    assert!(server.store.is_empty());

    // a new connection: write then read
    let mut acc = mc3e_frame(&[0x01, 0x14, 0x00, 0x00, 0x00, 0x00, 0x00, 0xA8, 0x01, 0x00, 0x21, 0x43]);
    let _ = reply_of(server.next_step(&mut acc));
    let mut acc = mc3e_frame(&read_one_word());
    let read = reply_of(server.next_step(&mut acc));
    let (_, data) = mc3e_reply(&read);
    assert_eq!(data.len(), 2);
    assert_eq!(u16::from_le_bytes([data[0], data[1]]), 0x4321u16);
}

#[test]
fn immediate_close_then_server_remains_healthy() {
    let mut server = MockServer::new();
    // a connection that sends nothing
    let mut acc: Vec<u8> = Vec::new();
    assert!(matches!(server.next_step(&mut acc), Step::NeedMore));
    assert!(acc.is_empty());

    // a new connection: write then read
    let mut acc = mc3e_frame(&[0x01, 0x14, 0x00, 0x00, 0x00, 0x00, 0x00, 0xA8, 0x01, 0x00, 0x21, 0x43]);
    let _ = reply_of(server.next_step(&mut acc));
    let mut acc = mc3e_frame(&read_one_word());
    let read = reply_of(server.next_step(&mut acc));
    let (_, data) = mc3e_reply(&read);
    assert_eq!(data.len(), 2);
    assert_eq!(u16::from_le_bytes([data[0], data[1]]), 0x4321u16);
}

#[test]
fn mc4e_read_write_words_bits_compare() {
    // Ensure command registry and error codes are loaded
    let _ = melsec_mc::init_defaults();

    let mut mock = MockServer::new();

    // Resolve device codes for D and M
    let d_dev = melsec_mc::device::device_by_symbol("D").expect("device D not found");
    let m_dev = melsec_mc::device::device_by_symbol("M").expect("device M not found");
    let d_key = format!("0x{:02X}", d_dev.device_code_q());
    let m_key = format!("0x{:02X}", m_dev.device_code_q());

    // seed store: D1000.. with incremental words, M0.. with bits stored as 0/1 words
    let d_start = 1000usize;
    let mut d_vals_10: Vec<u16> = Vec::new();
    for i in 0..10u16 {
        d_vals_10.push(0x1000u16.wrapping_add(i));
    }
    mock.set_words(&d_key, d_start, &d_vals_10);

    let m_start = 0usize;
    let mut m_vals_10: Vec<u16> = Vec::new();
    for i in 0..10usize {
        m_vals_10.push(if i % 2 == 0 { 1u16 } else { 0u16 });
    }
    mock.set_words(&m_key, m_start, &m_vals_10);

    // scenarios: (name, is_bit, device_str, counts)
    let scenarios = vec![
        // write scenarios first
        ("write_words_1", false, "D1000", 1usize),
        ("write_words_10", false, "D1000", 10usize),
        ("write_bits_1", true, "M0", 1usize),
        ("write_bits_10", true, "M0", 10usize),
        // large hex-address ranges (W 0x0..0x1F = 32 words, B 0x0..0x1F = 32 bits)
        ("write_words_w_0_1f", false, "W0", 0x20usize),
        ("write_bits_b_0_1f", true, "B0", 0x20usize),
        // then read scenarios
        ("read_words_1", false, "D1000", 1usize),
        ("read_words_10", false, "D1000", 10usize),
        ("read_bits_1", true, "M0", 1usize),
        ("read_bits_10", true, "M0", 10usize),
        ("read_words_w_0_1f", false, "W0", 0x20usize),
        ("read_bits_b_0_1f", true, "B0", 0x20usize),
    ];

    let mut serial: u16 = 0;
    for (name, is_bit, device, count) in scenarios {
        println!("=== scenario: {} ===", name);
        serial += 1;
        let words: Vec<u16> = (0..count).map(|i| 0x2000u16.wrapping_add(i as u16)).collect();
        let bools: Vec<bool> = (0..count).map(|i| i % 2 == 0).collect();
        // build params and request_data
        let params = if !is_bit {
            if name.starts_with("read") {
                melsec_mc::command_registry::create_read_words_params(device, count as u16)
            } else {
                melsec_mc::command_registry::create_write_words_params(device, &words)
            }
        } else if name.starts_with("read") {
            melsec_mc::command_registry::create_read_bits_params(device, count as u16)
        } else {
            melsec_mc::command_registry::create_write_bits_params(device, &bools)
        };

        let reg =
            melsec_mc::command_registry::CommandRegistry::global().expect("global registry not set");
        let id = match (is_bit, name.starts_with("read")) {
            (false, true) => melsec_mc::commands::Command::ReadWords,
            (false, false) => melsec_mc::commands::Command::WriteWords,
            (true, true) => melsec_mc::commands::Command::ReadBits,
            (true, false) => melsec_mc::commands::Command::WriteBits,
        };
        let spec = reg.get(id).expect("spec not found");

        let req_data = spec.build_request(&params, None).expect("build request");
        let mut acc = mc4e_frame(serial, &req_data);

        // hand the frame to the mock as a connection would
        let buf = reply_of(mock.next_step(&mut acc));
        assert!(acc.is_empty());
        let (end_code, mock_data) = mc4e_reply(&buf, serial);
        assert_eq!(end_code, 0);

        let expected_bits: Vec<u16> =
            (0..count).map(|i| if i % 2 == 0 { 1u16 } else { 0u16 }).collect();
        if name.starts_with("write") {
            // verify mock store updated (parse device and check stored values)
            assert!(mock_data.is_empty());
            let (dev, addr) = melsec_mc::device::parse_device_and_address(device)
                .expect("failed to parse device string for verification");
            let key = format!("0x{:02X}", dev.device_code_q());
            let got = mock.get_words(&key, addr as usize, count);
            if !is_bit {
                assert_eq!(got.len(), words.len(), "mock store missing written words for {}", device);
                assert_eq!(got, words, "written word values do not match for {}", device);
            } else {
                assert_eq!(got.len(), expected_bits.len(), "mock store missing written bits for {}", device);
                assert_eq!(got, expected_bits, "written bit values do not match for {}", device);
            }
        } else if !is_bit {
            let mut expected: Vec<u8> = Vec::new();
            for w in &words {
                expected.extend_from_slice(&w.to_le_bytes());
            }
            assert_eq!(mock_data, expected, "read words of {}", name);
        } else {
            let mut expected: Vec<u8> = Vec::new();
            for pair in expected_bits.chunks(2) {
                let low = if pair.len() > 1 { pair[1] as u8 } else { 0 };
                expected.push(((pair[0] as u8) << 4) | low);
            }
            assert_eq!(mock_data, expected, "read bits of {}", name);
        }
        println!("SCENARIO {}: MOCK DATA {} bytes", name, mock_data.len());
    }
}

#[test]
fn compare_mock_and_real_read_words_raw() {
    // Initialize embedded defaults so command registry is available
    let _ = melsec_mc::init_defaults();

    // Prepare mock server and seed store with a known word at D0 (device code for D is 0xA8)
    let mut mock = MockServer::new();
    mock.set_words("0xA8", 0usize, &[0x1234u16]);

    // Build a read_words request for D0 count=1
    let params = melsec_mc::command_registry::create_read_words_params("D0", 1);
    let reg =
        melsec_mc::command_registry::CommandRegistry::global().expect("global CommandRegistry not set");
    let spec = reg.get(melsec_mc::commands::Command::ReadWords).expect("ReadWords spec not found");
    let request_data = spec.build_request(&params, None).expect("build request");

    let req_serial: u16 = 0x0203;
    let mc_payload = mc4e_frame(req_serial, &request_data);

    // the response frame as a client expects it
    let mut expected: Vec<u8> = Vec::new();
    expected.extend_from_slice(&[0xD0, 0x00]);
    expected.extend_from_slice(&req_serial.to_le_bytes());
    expected.extend_from_slice(&0u16.to_le_bytes());
    expected.extend_from_slice(&ROUTE);
    expected.extend_from_slice(&4u16.to_le_bytes());
    expected.extend_from_slice(&0u16.to_le_bytes());
    expected.extend_from_slice(&0x1234u16.to_le_bytes());

    let parsed = McRequest::try_from_payload(&mc_payload).expect("parse request");
    let resp_data = melsec_mc_mock::handler::handle_request_and_apply_store(&mut mock.store, &parsed)
        .expect("handler");
    let format = detect_format_from_frame(&mc_payload);
    assert_eq!(build_mc_response_from_request(&parsed, &resp_data, format), expected);

    let mut acc = mc_payload.clone();
    assert_eq!(reply_of(mock.next_step(&mut acc)), expected);
    println!("REQUEST ({} bytes): {:02X?}", mc_payload.len(), mc_payload);
    println!("MOCK RESPONSE ({} bytes): {:02X?}", expected.len(), expected);
}
