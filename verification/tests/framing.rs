use ferrite::annexb::{find_aud, send_au, AuSplitter};
use ferrite::bytes::{append_bytes, copy_range};
use ferrite::client::{
    disconnect, hello_frame, pointer_message, read_loop, send_upstream, tool_from_id, Link,
    touches_message, ClientError, ClientProtocol, ClientStep, ClientWork,
};
use ferrite::frame::{drain_to_magic, read_frame, sync_preamble, write_frame, FrameStep, SyncScanner};
use ferrite::message::{ClientMessage, HostMessage, PixelFormat, PointerTool};

#[test]
fn preamble_is_magic_and_filler() {
    let p = sync_preamble();
    assert_eq!(p.len(), 511);
    assert_eq!(&p[..8], b"FERRITE\0");
    assert!(p[8..].iter().all(|b| *b == 0xA5));
}

#[test]
fn magic_is_found_behind_stale_bytes() {
    let mut scanner = SyncScanner::new();
    let mut stream = b"FERRITE!FERRIFFERRIT".to_vec();
    let stale = stream.len();
    stream.extend_from_slice(&sync_preamble());
    assert_eq!(drain_to_magic(&mut scanner, &stream), Some(stale + 8));
}

#[test]
fn magic_is_found_byte_by_byte() {
    let mut scanner = SyncScanner::new();
    let stream = b"FFERRITE\0rest";
    let mut end = None;
    for (i, b) in stream.iter().enumerate() {
        if drain_to_magic(&mut scanner, &[*b]) == Some(1) {
            end = Some(i + 1);
            break;
        }
    }
    assert_eq!(end, Some(9));
}

#[test]
fn no_magic_no_end() {
    let mut scanner = SyncScanner::new();
    assert_eq!(drain_to_magic(&mut scanner, b"FERRITE"), None);
    assert_eq!(drain_to_magic(&mut scanner, b"1"), None);
    assert_eq!(drain_to_magic(&mut scanner, b""), None);
}

#[test]
fn frame_is_length_and_body() {
    assert_eq!(write_frame(b"abc"), vec![0, 0, 0, 3, b'a', b'b', b'c']);
    assert_eq!(write_frame(b""), vec![0, 0, 0, 0]);
    let long = write_frame(&vec![1u8; 0x12345]);
    assert_eq!(&long[..4], &[0, 1, 0x23, 0x45]);
}

#[test]
fn frame_is_read_piece_by_piece() {
    let frame = write_frame(&[7; 10]);
    let mut have: Vec<u8> = Vec::new();
    let mut asked = Vec::new();
    let mut rest: &[u8] = &frame;
    let body = loop {
        match read_frame(&have) {
            FrameStep::Need(n) => {
                asked.push(n);
                have.extend_from_slice(&rest[..n]);
                rest = &rest[n..];
            }
            FrameStep::Body(body) => break body,
        }
    };
    assert_eq!(asked, vec![4, 10]);
    assert_eq!(body, vec![7; 10]);
    assert!(rest.is_empty());
}

#[test]
fn frame_leaves_the_rest() {
    let mut stream = write_frame(b"one");
    stream.extend_from_slice(&write_frame(b"two"));
    match read_frame(&stream) {
        FrameStep::Body(body) => assert_eq!(body, b"one"),
        other => panic!("{other:?}"),
    }
    match read_frame(&stream[7..]) {
        FrameStep::Body(body) => assert_eq!(body, b"two"),
        other => panic!("{other:?}"),
    }
    assert!(matches!(read_frame(&stream[..2]), FrameStep::Need(2)));
    assert!(matches!(read_frame(&stream[..5]), FrameStep::Need(2)));
}

#[test]
fn aud_is_found_in_both_forms() {
    assert_eq!(find_aud(&[0, 0, 0, 1, 9, 0xf0]), Some(0));
    assert_eq!(find_aud(&[5, 0, 0, 1, 9, 0xf0]), Some(1));
    assert_eq!(find_aud(&[5, 5, 0, 0, 0, 1, 0x29]), Some(2));
    assert_eq!(find_aud(&[0, 0, 0, 1, 0x67, 0, 0, 0, 1, 9]), Some(5));
    assert_eq!(find_aud(&[0, 0, 0, 1, 0x67, 0, 0]), None);
    assert_eq!(find_aud(&[]), None);
    assert_eq!(find_aud(&[0, 0, 0, 1]), None);
}

#[test]
fn short_aud_in_the_last_four_bytes_is_found() {
    assert_eq!(find_aud(&[0, 0, 1, 9]), Some(0));
    assert_eq!(find_aud(&[7, 7, 0, 0, 1, 9]), Some(2));
}

fn unit(payload: u8) -> Vec<u8> {
    let mut u = vec![0, 0, 0, 1, 9, 0xf0, 0, 0, 0, 1, 0x65];
    u.extend(std::iter::repeat(payload).take(20));
    u
}

#[test]
fn stream_is_cut_into_access_units() {
    let mut splitter = AuSplitter::new();
    let mut stream = vec![1, 2, 3];
    stream.extend(unit(10));
    stream.extend(unit(11));
    stream.extend(unit(12));
    let units = splitter.feed(&stream);
    assert_eq!(units, vec![unit(10), unit(11)]);
    assert_eq!(splitter.finish(), Some(unit(12)));
}

#[test]
fn access_units_do_not_depend_on_chunks() {
    let mut stream = unit(10);
    stream.extend(unit(11));
    stream.extend(unit(12));
    for size in 1..=stream.len() {
        let mut splitter = AuSplitter::new();
        let mut units = Vec::new();
        for chunk in stream.chunks(size) {
            units.extend(splitter.feed(chunk));
        }
        units.extend(splitter.finish());
        assert_eq!(units, vec![unit(10), unit(11), unit(12)], "chunks of {size}");
    }
}

#[test]
fn chunks_before_the_first_aud_do_not_matter() {
    let mut stream = vec![1, 0, 0, 2];
    stream.extend(unit(10));
    stream.extend(unit(11));
    let mut whole = AuSplitter::new();
    let mut expected = whole.feed(&stream);
    expected.extend(whole.finish());
    assert_eq!(expected, vec![unit(10), unit(11)]);
    for cut in 0..=stream.len() {
        let mut splitter = AuSplitter::new();
        let mut units = splitter.feed(&stream[..cut]);
        units.extend(splitter.feed(&stream[cut..]));
        units.extend(splitter.finish());
        assert_eq!(units, expected, "cut at {cut}");
    }
}

#[test]
fn bytes_before_the_first_aud_are_dropped() {
    let mut splitter = AuSplitter::new();
    assert!(splitter.feed(&[1, 2, 3, 4]).is_empty());
    assert!(splitter.feed(&unit(1)).is_empty());
    assert_eq!(splitter.finish(), Some(unit(1)));
    assert_eq!(AuSplitter::new().finish(), None);
    let mut splitter = AuSplitter::new();
    assert!(splitter.feed(&[9; 1000]).is_empty());
    assert_eq!(splitter.finish(), None);
}

#[test]
fn first_aud_may_be_cut_by_a_chunk() {
    for aud in [vec![0, 0, 0, 1, 9], vec![0, 0, 1, 9]] {
        for cut in 1..aud.len() {
            let mut splitter = AuSplitter::new();
            assert!(splitter.feed(&[7, 7, 7, 7, 7, 7]).is_empty());
            assert!(splitter.feed(&aud[..cut]).is_empty());
            assert!(splitter.feed(&aud[cut..]).is_empty());
            assert!(splitter.feed(&[0xf0, 5]).is_empty());
            assert_eq!(splitter.feed(&[0, 0, 1, 9]), vec![[&aud[..], &[0xf0, 5]].concat()]);
            assert_eq!(splitter.finish(), Some(vec![0, 0, 1, 9]));
        }
    }
}

#[test]
fn access_unit_is_one_frame() {
    let frame = send_au(1280, 720, &[1, 2, 3]);
    let body = match read_frame(&frame) {
        FrameStep::Body(body) => body,
        other => panic!("{other:?}"),
    };
    assert_eq!(frame.len(), body.len() + 4);
    match HostMessage::decode(&body) {
        Ok(HostMessage::VideoFrame { format, width, height, data }) => {
            assert_eq!(format, PixelFormat::H264);
            assert_eq!((width, height), (1280, 720));
            assert_eq!(data, vec![1, 2, 3]);
        }
        other => panic!("{other:?}"),
    }
}

#[test]
fn first_message_is_read_behind_stale_bytes() {
    let mut stream = b"stale FERRIT".to_vec();
    stream.extend(sync_preamble());
    stream.extend(write_frame(&HostMessage::Ping.encode()));
    let mut scanner = SyncScanner::new();
    let end = drain_to_magic(&mut scanner, &stream).unwrap();
    let body = match read_frame(&stream[end + 503..]) {
        FrameStep::Body(body) => body,
        other => panic!("{other:?}"),
    };
    assert!(matches!(HostMessage::decode(&body), Ok(HostMessage::Ping)));
}

#[test]
fn ping_is_answered() {
    match read_loop(&HostMessage::Ping.encode()) {
        Ok(ClientStep::Answer(frame)) => assert_eq!(frame, vec![0, 0, 0, 4, 3, 0, 0, 0]),
        other => panic!("{other:?}"),
    }
}

#[test]
fn frames_are_shown_with_their_number() {
    for (format, number, len) in
        [(PixelFormat::Rgba8, 0, 24), (PixelFormat::Jpeg, 1, 5), (PixelFormat::H264, 2, 5)]
    {
        let msg = HostMessage::VideoFrame { format, width: 3, height: 2, data: vec![9; len] };
        match read_loop(&msg.encode()) {
            Ok(ClientStep::Show { format_id, width, height, data }) => {
                assert_eq!(format_id, number);
                assert_eq!((width, height), (3, 2));
                assert_eq!(data, vec![9; len]);
            }
            other => panic!("{other:?}"),
        }
    }
}

#[test]
fn access_units_are_shown_as_they_were_cut() {
    let mut splitter = AuSplitter::new();
    let mut stream = unit(3);
    stream.extend(unit(4));
    let units = splitter.feed(&stream);
    assert_eq!(units.len(), 1);
    let body = match read_frame(&send_au(2800, 1720, &units[0])) {
        FrameStep::Body(body) => body,
        other => panic!("{other:?}"),
    };
    match read_loop(&body) {
        Ok(ClientStep::Show { format_id: 2, width: 2800, height: 1720, data }) => {
            assert_eq!(data, unit(3));
        }
        other => panic!("{other:?}"),
    }
}

#[test]
fn plain_pixels_of_the_wrong_size_are_an_error() {
    let msg = HostMessage::VideoFrame {
        format: PixelFormat::Rgba8,
        width: u32::MAX,
        height: u32::MAX,
        data: vec![1],
    };
    let expected = u32::MAX as u128 * u32::MAX as u128 * 4;
    assert_eq!(
        read_loop(&msg.encode()).unwrap_err(),
        ClientError::SizeMismatch { got: 1, expected }
    );
    assert_eq!(read_loop(&[9]).unwrap_err(), ClientError::Decode);
}

#[test]
fn tablet_follows_the_host_from_the_first_byte() {
    let mut stream = b"left over FERRI".to_vec();
    stream.extend(sync_preamble());
    stream.extend(write_frame(&HostMessage::Ping.encode()));
    stream.extend(send_au(64, 32, &unit(1)));
    stream.extend(write_frame(&HostMessage::Ping.encode()));
    let mut protocol = ClientProtocol::new("Tab", 100, 50);
    let mut rest: &[u8] = &stream;
    let mut done = Vec::new();
    while !rest.is_empty() {
        let n = protocol.wanted();
        match protocol.run_protocol(&rest[..n]) {
            ClientWork::Nothing => {}
            ClientWork::Introduce(frame) => {
                assert_eq!(frame, hello_frame("Tab", 100, 50));
                done.push("introduce");
            }
            ClientWork::Step(ClientStep::Answer(frame)) => {
                assert_eq!(frame, vec![0, 0, 0, 4, 3, 0, 0, 0]);
                done.push("answer");
            }
            ClientWork::Step(ClientStep::Show { format_id, width, height, data }) => {
                assert_eq!((format_id, width, height), (2, 64, 32));
                assert_eq!(data, unit(1));
                done.push("show");
            }
            other => panic!("{other:?}"),
        }
        rest = &rest[n..];
    }
    assert_eq!(done, vec!["introduce", "answer", "show", "answer"]);
    assert_eq!(protocol.wanted(), 4);
}

#[test]
fn tablet_ends_the_session_on_a_bad_frame() {
    let start = || {
        let mut protocol = ClientProtocol::new("Tab", 100, 50);
        let preamble = sync_preamble();
        for b in &preamble[..8] {
            assert!(matches!(protocol.run_protocol(&[*b]), ClientWork::Nothing));
        }
        assert_eq!(protocol.wanted(), 503);
        assert!(matches!(protocol.run_protocol(&preamble[8..]), ClientWork::Introduce(_)));
        protocol
    };
    let mut protocol = start();
    assert!(matches!(
        protocol.run_protocol(&[0, 0, 0, 0]),
        ClientWork::Fail(ClientError::Decode)
    ));
    assert_eq!(protocol.wanted(), 0);
    let mut protocol = start();
    assert!(matches!(protocol.run_protocol(&[0, 0, 0, 25]), ClientWork::Nothing));
    assert_eq!(protocol.wanted(), 25);
    let msg = HostMessage::VideoFrame {
        format: PixelFormat::Rgba8,
        width: 1,
        height: 1,
        data: vec![7],
    };
    assert!(matches!(
        protocol.run_protocol(&msg.encode()),
        ClientWork::Fail(ClientError::SizeMismatch { got: 1, expected: 4 })
    ));
}

#[test]
fn tools_have_numbers() {
    assert_eq!(tool_from_id(0), PointerTool::Finger);
    assert_eq!(tool_from_id(1), PointerTool::Pen);
    assert_eq!(tool_from_id(2), PointerTool::Eraser);
    assert_eq!(tool_from_id(-5), PointerTool::Finger);
}

#[test]
fn tablet_messages_reach_the_host() {
    let frame = send_upstream(&pointer_message(1, 2, true, 3, 2, true));
    match read_frame(&frame) {
        FrameStep::Body(body) => match ClientMessage::decode(&body) {
            Ok(ClientMessage::Pointer { x: 1, y: 2, pressed, pressure: 3, tool, in_range }) => {
                assert!(pressed && in_range);
                assert_eq!(tool, PointerTool::Eraser);
            }
            other => panic!("{other:?}"),
        },
        other => panic!("{other:?}"),
    }
    let frame = send_upstream(&touches_message(&[3, -1], &[10, 20], &[30, 40]));
    match read_frame(&frame) {
        FrameStep::Body(body) => match ClientMessage::decode(&body) {
            Ok(ClientMessage::Touches { points }) => {
                assert_eq!(points.len(), 2);
                assert_eq!((points[0].id, points[0].x, points[0].y), (3, 10, 30));
                assert_eq!((points[1].id, points[1].x, points[1].y), (u32::MAX, 20, 40));
            }
            other => panic!("{other:?}"),
        },
        other => panic!("{other:?}"),
    }
}

#[test]
fn hello_frame_introduces_the_tablet() {
    let frame = hello_frame("Tab", 100, 50);
    match read_frame(&frame) {
        FrameStep::Body(body) => match ClientMessage::decode(&body) {
            Ok(ClientMessage::Hello { device_name, width, height }) => {
                assert_eq!(device_name, "Tab");
                assert_eq!((width, height), (100, 50));
            }
            other => panic!("{other:?}"),
        },
        other => panic!("{other:?}"),
    }
}

#[test]
fn only_an_open_accessory_is_shut_down() {
    assert_eq!(disconnect(-1), None);
    assert_eq!(disconnect(0), Some(0));
    assert_eq!(disconnect(7), Some(7));
}

#[test]
fn nothing_is_sent_after_disconnect() {
    let mut link = Link::new();
    assert!(!link.sends());
    assert_eq!(link.disconnect(), None);
    link.opened(5);
    assert!(!link.sends());
    link.published();
    assert!(link.sends());
    assert_eq!(link.disconnect(), Some(5));
    assert!(!link.sends());
    assert_eq!(link.disconnect(), None);
    // What the session still does on its way out changes nothing.
    link.ended();
    link.closed();
    assert!(!link.sends());
    assert_eq!(link.disconnect(), None);
    link.opened(0);
    link.published();
    assert!(link.sends());
    assert_eq!(link.disconnect(), Some(0));
}

#[test]
fn writer_that_fails_is_dropped() {
    let mut link = Link::new();
    link.opened(3);
    link.published();
    link.write_failed();
    assert!(!link.sends());
    assert_eq!(link.disconnect(), Some(3));
    link.published();
    link.ended();
    assert!(!link.sends());
    link.opened(4);
    link.closed();
    assert_eq!(link.disconnect(), None);
}

#[test]
fn byte_helpers() {
    let mut v = vec![1, 2];
    append_bytes(&mut v, &[3]);
    assert_eq!(v, vec![1, 2, 3]);
    assert_eq!(copy_range(&v, 1, 3), vec![2, 3]);
}
