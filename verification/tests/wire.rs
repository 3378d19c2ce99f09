use ferrite::message::{ClientMessage, HostMessage, PixelFormat, PointerTool, TouchPoint};
use ferrite::wire::DecodeError;

#[test]
fn pong_is_four_bytes() {
    assert_eq!(ClientMessage::Pong.encode(), vec![3, 0, 0, 0]);
}

#[test]
fn ping_is_four_bytes() {
    assert_eq!(HostMessage::Ping.encode(), vec![1, 0, 0, 0]);
    assert!(matches!(HostMessage::decode(&[1, 0, 0, 0]), Ok(HostMessage::Ping)));
}

#[test]
fn video_frame_layout() {
    let msg = HostMessage::VideoFrame {
        format: PixelFormat::H264,
        width: 0x0102,
        height: 0x0304,
        data: vec![9, 8, 7],
    };
    assert_eq!(
        msg.encode(),
        vec![
            0, 0, 0, 0, 2, 0, 0, 0, 2, 1, 0, 0, 4, 3, 0, 0, 3, 0, 0, 0, 0, 0, 0, 0, 9, 8, 7
        ]
    );
}

#[test]
fn video_frame_agrees_with_bincode() {
    let data: Vec<u8> = (0u8..200).collect();
    let tuple = (0u32, 1u32, 1920u32, 1080u32, data.clone());
    let msg = HostMessage::VideoFrame { format: PixelFormat::Jpeg, width: 1920, height: 1080, data };
    assert_eq!(msg.encode(), bincode::serialize(&tuple).unwrap());
}

#[test]
fn every_pixel_format_round_trips() {
    for format in [PixelFormat::Rgba8, PixelFormat::Jpeg, PixelFormat::H264] {
        let msg = HostMessage::VideoFrame { format, width: 7, height: u32::MAX, data: vec![1; 70000] };
        match HostMessage::decode(&msg.encode()) {
            Ok(HostMessage::VideoFrame { format: f, width, height, data }) => {
                assert_eq!(f, format);
                assert_eq!((width, height), (7, u32::MAX));
                assert_eq!(data, vec![1; 70000]);
            }
            other => panic!("{other:?}"),
        }
    }
}

#[test]
fn hello_layout() {
    let msg = ClientMessage::Hello { device_name: "tåb".to_string(), width: 2800, height: 1720 };
    let body = msg.encode();
    assert_eq!(
        body,
        vec![
            0, 0, 0, 0, 4, 0, 0, 0, 0, 0, 0, 0, b't', 0xc3, 0xa5, b'b', 0xf0, 0x0a, 0, 0, 0xb8,
            0x06, 0, 0
        ]
    );
    match ClientMessage::decode(&body) {
        Ok(ClientMessage::Hello { device_name, width, height }) => {
            assert_eq!(device_name, "tåb");
            assert_eq!((width, height), (2800, 1720));
        }
        other => panic!("{other:?}"),
    }
}

#[test]
fn pointer_agrees_with_bincode_floats() {
    for (tool, index) in
        [(PointerTool::Finger, 0u32), (PointerTool::Pen, 1), (PointerTool::Eraser, 2)]
    {
        let tuple = (1u32, 0.25f32, 0.5f32, true, 0.75f32, index, false);
        let msg = ClientMessage::Pointer {
            x: 0.25f32.to_bits(),
            y: 0.5f32.to_bits(),
            pressed: true,
            pressure: 0.75f32.to_bits(),
            tool,
            in_range: false,
        };
        let body = bincode::serialize(&tuple).unwrap();
        assert_eq!(msg.encode(), body);
        match ClientMessage::decode(&body) {
            Ok(ClientMessage::Pointer { x, y, pressed, pressure, tool: t, in_range }) => {
                assert_eq!(f32::from_bits(x), 0.25);
                assert_eq!(f32::from_bits(y), 0.5);
                assert_eq!(f32::from_bits(pressure), 0.75);
                assert!(pressed && !in_range);
                assert_eq!(t, tool);
            }
            other => panic!("{other:?}"),
        }
    }
}

#[test]
fn touches_agree_with_bincode_floats() {
    let tuple = (2u32, vec![(4u32, 0.1f32, 0.9f32), (u32::MAX, -1.0f32, 2.0f32)]);
    let body = bincode::serialize(&tuple).unwrap();
    let points = vec![
        TouchPoint { id: 4, x: 0.1f32.to_bits(), y: 0.9f32.to_bits() },
        TouchPoint { id: u32::MAX, x: (-1.0f32).to_bits(), y: 2.0f32.to_bits() },
    ];
    let msg = ClientMessage::Touches { points: points.clone() };
    assert_eq!(msg.encode(), body);
    match ClientMessage::decode(&body) {
        Ok(ClientMessage::Touches { points: p }) => assert_eq!(p, points),
        other => panic!("{other:?}"),
    }
    let empty = ClientMessage::Touches { points: Vec::new() };
    assert_eq!(empty.encode(), vec![2, 0, 0, 0, 0, 0, 0, 0, 0, 0, 0, 0]);
}

#[test]
fn trailing_bytes_are_ignored() {
    assert!(matches!(ClientMessage::decode(&[3, 0, 0, 0, 1, 2]), Ok(ClientMessage::Pong)));
    assert!(matches!(HostMessage::decode(&[1, 0, 0, 0, 1, 2]), Ok(HostMessage::Ping)));
    let mut body =
        ClientMessage::Hello { device_name: "x".to_string(), width: 1, height: 2 }.encode();
    body.push(99);
    assert!(matches!(
        ClientMessage::decode(&body),
        Ok(ClientMessage::Hello { width: 1, height: 2, .. })
    ));
}

#[test]
fn broken_host_messages_are_errors() {
    assert_eq!(HostMessage::decode(&[]).unwrap_err(), DecodeError);
    assert_eq!(HostMessage::decode(&[0, 0, 0]).unwrap_err(), DecodeError);
    assert_eq!(HostMessage::decode(&[2, 0, 0, 0]).unwrap_err(), DecodeError);
    let good =
        HostMessage::VideoFrame { format: PixelFormat::Jpeg, width: 1, height: 1, data: vec![5] }
            .encode();
    assert!(HostMessage::decode(&good).is_ok());
    assert_eq!(HostMessage::decode(&good[..good.len() - 1]).unwrap_err(), DecodeError);
    let mut bad = good.clone();
    bad[4] = 3;
    assert_eq!(HostMessage::decode(&bad).unwrap_err(), DecodeError);
}

#[test]
fn broken_client_messages_are_errors() {
    assert_eq!(ClientMessage::decode(&[4, 0, 0, 0]).unwrap_err(), DecodeError);
    let hello = ClientMessage::Hello { device_name: "ab".to_string(), width: 1, height: 2 }.encode();
    assert_eq!(ClientMessage::decode(&hello[..hello.len() - 1]).unwrap_err(), DecodeError);
    let mut bad = hello.clone();
    bad[12] = 0xff;
    assert_eq!(ClientMessage::decode(&bad).unwrap_err(), DecodeError);
    let mut pointer = ClientMessage::Pointer {
        x: 0,
        y: 0,
        pressed: true,
        pressure: 0,
        tool: PointerTool::Pen,
        in_range: true,
    }
    .encode();
    pointer[12] = 2;
    assert_eq!(ClientMessage::decode(&pointer).unwrap_err(), DecodeError);
    pointer[12] = 1;
    pointer[17] = 3;
    assert_eq!(ClientMessage::decode(&pointer).unwrap_err(), DecodeError);
    // A list that claims more points than the body holds.
    let huge = [2, 0, 0, 0, 0xff, 0xff, 0xff, 0xff, 0xff, 0xff, 0xff, 0xff];
    assert_eq!(ClientMessage::decode(&huge).unwrap_err(), DecodeError);
}
