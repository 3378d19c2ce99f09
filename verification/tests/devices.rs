use ferrite::input::{
    create_pen, create_touch, pump_input, read_hello, titled, HelloError, InputSink, InputWork,
    INPUT_PROP_DIRECT, PEN_MIRROR_ID,
};
use ferrite::message::{ClientMessage, PointerTool, TouchPoint};
use ferrite::pen::{PenDev, PenSample, PRESSURE_MAX};
use ferrite::touch::{
    event, InputEvent, TouchContact, TouchDev, ABS_MAX, ABS_MT_POSITION_X, ABS_MT_POSITION_Y,
    ABS_MT_SLOT, ABS_MT_TRACKING_ID, ABS_PRESSURE, ABS_X, ABS_Y, BTN_STYLUS, BTN_TOOL_FINGER,
    BTN_TOOL_PEN, BTN_TOOL_RUBBER, BTN_TOUCH, EV_ABS, EV_KEY, EV_SYN, MAX_SLOTS, SYN_REPORT,
};
use ferrite::wire::DecodeError;
use input_linux::sys;

fn abs(code: u16, value: i32) -> InputEvent {
    event(EV_ABS, code, value)
}

fn key(code: u16, value: i32) -> InputEvent {
    event(EV_KEY, code, value)
}

fn syn() -> InputEvent {
    event(EV_SYN, SYN_REPORT, 0)
}

fn contact(id: u32, x: i32, y: i32) -> TouchContact {
    TouchContact { id, x, y }
}

#[test]
fn event_codes_are_those_of_the_kernel() {
    assert_eq!(EV_SYN as i32, sys::EV_SYN);
    assert_eq!(EV_KEY as i32, sys::EV_KEY);
    assert_eq!(EV_ABS as i32, sys::EV_ABS);
    assert_eq!(SYN_REPORT as i32, sys::SYN_REPORT);
    assert_eq!(ABS_X as i32, sys::ABS_X);
    assert_eq!(ABS_Y as i32, sys::ABS_Y);
    assert_eq!(ABS_PRESSURE as i32, sys::ABS_PRESSURE);
    assert_eq!(ABS_MT_SLOT as i32, sys::ABS_MT_SLOT);
    assert_eq!(ABS_MT_TRACKING_ID as i32, sys::ABS_MT_TRACKING_ID);
    assert_eq!(ABS_MT_POSITION_X as i32, sys::ABS_MT_POSITION_X);
    assert_eq!(ABS_MT_POSITION_Y as i32, sys::ABS_MT_POSITION_Y);
    assert_eq!(BTN_TOUCH as i32, sys::BTN_TOUCH);
    assert_eq!(BTN_TOOL_FINGER as i32, sys::BTN_TOOL_FINGER);
    assert_eq!(BTN_TOOL_PEN as i32, sys::BTN_TOOL_PEN);
    assert_eq!(BTN_TOOL_RUBBER as i32, sys::BTN_TOOL_RUBBER);
    assert_eq!(BTN_STYLUS as i32, sys::BTN_STYLUS);
    assert_eq!(INPUT_PROP_DIRECT as i32, sys::INPUT_PROP_DIRECT);
}

#[test]
fn finger_goes_down_moves_and_goes_up() {
    let mut dev = TouchDev::new();
    assert_eq!(
        dev.send_touches(&[contact(7, 10, 20)]),
        vec![
            abs(ABS_MT_SLOT, 0),
            abs(ABS_MT_TRACKING_ID, 7),
            abs(ABS_MT_POSITION_X, 10),
            abs(ABS_MT_POSITION_Y, 20),
            abs(ABS_X, 10),
            abs(ABS_Y, 20),
            key(BTN_TOUCH, 1),
            key(BTN_TOOL_FINGER, 1),
            syn(),
        ]
    );
    assert_eq!(
        dev.send_touches(&[contact(7, 11, 21)]),
        vec![
            abs(ABS_MT_POSITION_X, 11),
            abs(ABS_MT_POSITION_Y, 21),
            abs(ABS_X, 11),
            abs(ABS_Y, 21),
            syn(),
        ]
    );
    assert_eq!(
        dev.send_touches(&[]),
        vec![abs(ABS_MT_TRACKING_ID, -1), key(BTN_TOUCH, 0), key(BTN_TOOL_FINGER, 0), syn()]
    );
    assert_eq!(dev.send_touches(&[]), vec![syn()]);
}

#[test]
fn second_finger_keeps_its_slot() {
    let mut dev = TouchDev::new();
    dev.send_touches(&[contact(1, 0, 0), contact(2, 5, 5)]);
    // The first finger leaves: its slot is released and the second one stays where it is.
    assert_eq!(
        dev.send_touches(&[contact(2, 6, 6)]),
        vec![
            abs(ABS_MT_SLOT, 0),
            abs(ABS_MT_TRACKING_ID, -1),
            abs(ABS_MT_SLOT, 1),
            abs(ABS_MT_POSITION_X, 6),
            abs(ABS_MT_POSITION_Y, 6),
            abs(ABS_X, 6),
            abs(ABS_Y, 6),
            syn(),
        ]
    );
    // A new finger gets the slot that is free.
    let events = dev.send_touches(&[contact(2, 6, 6), contact(9, 8, 8)]);
    assert!(events.contains(&abs(ABS_MT_SLOT, 0)));
    assert!(events.contains(&abs(ABS_MT_TRACKING_ID, 9)));
}

#[test]
fn eleventh_finger_is_dropped() {
    let mut dev = TouchDev::new();
    let all: Vec<TouchContact> = (0..11).map(|i| contact(100 + i, i as i32, 0)).collect();
    let events = dev.send_touches(&all);
    let announced: Vec<i32> =
        events.iter().filter(|e| e.code == ABS_MT_TRACKING_ID).map(|e| e.value).collect();
    assert_eq!(announced, (100..110).collect::<Vec<i32>>());
    assert_eq!(MAX_SLOTS, 10);
}

/// What the kernel keeps of a multi-touch device: the current slot, and the tracking ids.
struct Kernel {
    slot: usize,
    tracking: Vec<i32>,
}

impl Kernel {
    fn new() -> Kernel {
        Kernel { slot: 0, tracking: vec![-1; MAX_SLOTS as usize] }
    }

    /// Returns the slots in which a tracking id was written.
    fn replay(&mut self, events: &[InputEvent]) -> Vec<(usize, i32)> {
        let mut written = Vec::new();
        for e in events.iter().filter(|e| e.kind == EV_ABS) {
            if e.code == ABS_MT_SLOT {
                self.slot = e.value as usize;
            } else if e.code == ABS_MT_TRACKING_ID {
                self.tracking[self.slot] = e.value;
                written.push((self.slot, e.value));
            }
        }
        written
    }

    fn open(&self) -> Vec<(usize, i32)> {
        self.tracking.iter().copied().enumerate().filter(|(_, id)| *id != -1).collect()
    }
}

#[test]
fn replay_shows_the_last_snapshot() {
    let calls: Vec<Vec<u32>> = vec![
        vec![5, 6],
        vec![6, 7],
        vec![6],
        (1..=10).collect(),
        (2..=11).collect(),
        vec![11, 11, 3],
        vec![],
        vec![i32::MAX as u32, 0],
    ];
    let mut dev = TouchDev::new();
    let mut kernel = Kernel::new();
    let mut before: Vec<(usize, i32)> = Vec::new();
    for ids in calls {
        let points: Vec<TouchContact> = ids.iter().map(|id| contact(*id, 1, 2)).collect();
        let written = kernel.replay(&dev.send_touches(&points));
        let after = kernel.open();
        let mut open: Vec<u32> = after.iter().map(|(_, id)| *id as u32).collect();
        let mut down = ids.clone();
        open.sort();
        down.sort();
        down.dedup();
        assert_eq!(open, down);
        for (slot, id) in before {
            if ids.contains(&(id as u32)) {
                assert!(after.contains(&(slot, id)));
                assert!(written.iter().all(|(s, _)| *s != slot));
            } else {
                assert!(written.contains(&(slot, -1)));
            }
        }
        before = after;
    }
}

#[test]
fn batches_hold_one_report_and_buttons_on_change() {
    let mut dev = TouchDev::new();
    let mut was = false;
    for ids in [vec![1], vec![1, 2], vec![3], vec![], vec![], vec![4, 5]] {
        let points: Vec<TouchContact> = ids.iter().map(|id| contact(*id, 1, 2)).collect();
        let events = dev.send_touches(&points);
        let rest: Vec<InputEvent> = events.iter().copied().filter(|e| e.kind != EV_ABS).collect();
        let is = !points.is_empty();
        let mut expected = Vec::new();
        if was != is {
            expected.push(key(BTN_TOUCH, is as i32));
            expected.push(key(BTN_TOOL_FINGER, is as i32));
        }
        expected.push(syn());
        assert_eq!(rest, expected);
        assert_eq!(events.last(), Some(&syn()));
        was = is;
    }
}

#[test]
fn large_ids_are_announced_as_signed_numbers() {
    let mut dev = TouchDev::new();
    let events = dev.send_touches(&[contact(0x8000_0000, 0, 0)]);
    assert!(events.contains(&abs(ABS_MT_TRACKING_ID, i32::MIN)));
}

fn pen(x: i32, pressed: bool, tool: PointerTool, in_range: bool) -> PenSample {
    PenSample { x, y: 2, pressed, pressure: 3, tool, in_range }
}

#[test]
fn pen_comes_into_range_in_a_batch_of_its_own() {
    let mut dev = PenDev::new();
    assert_eq!(
        dev.send_pen(pen(1, true, PointerTool::Pen, true)),
        vec![
            vec![key(BTN_TOOL_PEN, 1), syn()],
            vec![abs(ABS_X, 1), abs(ABS_Y, 2), abs(ABS_PRESSURE, 3), key(BTN_TOUCH, 1), syn()],
        ]
    );
    assert_eq!(
        dev.send_pen(pen(4, true, PointerTool::Pen, true)),
        vec![vec![abs(ABS_X, 4), abs(ABS_Y, 2), abs(ABS_PRESSURE, 3), syn()]]
    );
    assert_eq!(
        dev.send_pen(pen(4, true, PointerTool::Pen, false)),
        vec![vec![key(BTN_TOUCH, 0), key(BTN_TOOL_PEN, 0), syn()]]
    );
    assert!(dev.send_pen(pen(4, true, PointerTool::Pen, false)).is_empty());
}

#[test]
fn eraser_replaces_the_pen() {
    let mut dev = PenDev::new();
    dev.send_pen(pen(1, false, PointerTool::Pen, true));
    assert_eq!(
        dev.send_pen(pen(1, false, PointerTool::Eraser, true))[0],
        vec![key(BTN_TOOL_PEN, 0), key(BTN_TOOL_RUBBER, 1), syn()]
    );
}

#[test]
fn pen_is_mirrored_unless_switched_off() {
    let mut sink = InputSink::new(None);
    let writes = sink.send_pointer(pen(1, true, PointerTool::Pen, true));
    assert_eq!(writes.pen.len(), 2);
    let touch = writes.touch.unwrap();
    assert!(touch.contains(&abs(ABS_X, 1)));
    assert!(touch.contains(&key(BTN_TOUCH, 1)));
    let writes = sink.send_pointer(pen(1, false, PointerTool::Pen, true));
    assert!(writes.touch.unwrap().contains(&key(BTN_TOUCH, 0)));
    assert_eq!(PEN_MIRROR_ID, i32::MAX as u32);

    let mut sink = InputSink::new(Some("0"));
    assert!(sink.send_pointer(pen(1, true, PointerTool::Pen, true)).touch.is_none());
    let mut sink = InputSink::new(Some("1"));
    assert!(sink.send_pointer(pen(1, true, PointerTool::Pen, true)).touch.is_some());
}

#[test]
fn mirrored_pen_is_one_open_contact() {
    let mut sink = InputSink::new(None);
    let mut kernel = Kernel::new();
    let touch = sink.send_pointer(pen(1, true, PointerTool::Pen, true)).touch.unwrap();
    assert_eq!(
        touch,
        vec![
            abs(ABS_MT_SLOT, 0),
            abs(ABS_MT_TRACKING_ID, i32::MAX),
            abs(ABS_MT_POSITION_X, 1),
            abs(ABS_MT_POSITION_Y, 2),
            abs(ABS_X, 1),
            abs(ABS_Y, 2),
            key(BTN_TOUCH, 1),
            key(BTN_TOOL_FINGER, 1),
            syn(),
        ]
    );
    kernel.replay(&touch);
    assert_eq!(kernel.open(), vec![(0, i32::MAX)]);
    let touch = sink.send_pointer(pen(1, false, PointerTool::Pen, true)).touch.unwrap();
    kernel.replay(&touch);
    assert!(kernel.open().is_empty());
}

#[test]
fn fingers_are_no_pointers() {
    let mut sink = InputSink::new(None);
    let writes = sink.send_pointer(pen(1, true, PointerTool::Finger, true));
    assert!(writes.pen.is_empty());
    assert!(writes.touch.is_none());
    assert_eq!(sink.send_touches(&[contact(1, 2, 3)]).len(), 9);
}

#[test]
fn devices_are_named_after_the_client() {
    assert_eq!(titled("a", "b"), "a (b)");
    let touch = create_touch("Tab S9");
    assert_eq!(touch.name, "ferrite virtual touchscreen (Tab S9)");
    assert_eq!((touch.bustype, touch.vendor, touch.product, touch.version), (3, 0xfe71, 0x17e0, 1));
    assert_eq!(touch.keys, vec![BTN_TOUCH, BTN_TOOL_FINGER]);
    assert_eq!(touch.kinds, vec![EV_KEY, EV_ABS, EV_SYN]);
    assert_eq!(touch.properties, vec![INPUT_PROP_DIRECT]);
    let ranges: Vec<(u16, i32, i32)> =
        touch.axes.iter().map(|a| (a.axis, a.minimum, a.maximum)).collect();
    assert_eq!(
        ranges,
        vec![
            (ABS_X, 0, ABS_MAX),
            (ABS_Y, 0, ABS_MAX),
            (ABS_MT_SLOT, 0, 9),
            (ABS_MT_TRACKING_ID, -1, i32::MAX),
            (ABS_MT_POSITION_X, 0, ABS_MAX),
            (ABS_MT_POSITION_Y, 0, ABS_MAX),
        ]
    );
    let pen = create_pen("Tab S9");
    assert_eq!(pen.name, "ferrite virtual pen (Tab S9)");
    assert_eq!((pen.vendor, pen.product), (0xfe72, 0x17e1));
    assert_eq!(pen.keys, vec![BTN_TOUCH, BTN_TOOL_PEN, BTN_TOOL_RUBBER, BTN_STYLUS]);
    let res: Vec<(u16, i32, i32)> =
        pen.axes.iter().map(|a| (a.axis, a.maximum, a.resolution)).collect();
    assert_eq!(res, vec![(ABS_X, ABS_MAX, 200), (ABS_Y, ABS_MAX, 200), (ABS_PRESSURE, PRESSURE_MAX, 1)]);
}

#[test]
fn events_stay_on_declared_axes() {
    let setup = create_touch("x");
    let mut dev = TouchDev::new();
    let mut events = dev.send_touches(&[contact(1, 0, ABS_MAX), contact(PEN_MIRROR_ID, 3, 4)]);
    events.extend(dev.send_touches(&[]));
    for e in events {
        if e.kind == EV_ABS {
            let a = setup.axes.iter().find(|a| a.axis == e.code).unwrap();
            assert!(a.minimum <= e.value && e.value <= a.maximum);
        } else if e.kind == EV_KEY {
            assert!(setup.keys.contains(&e.code));
        } else {
            assert_eq!(e, syn());
        }
    }
}

#[test]
fn first_message_has_to_be_hello() {
    let hello = ClientMessage::Hello { device_name: "T".to_string(), width: 1, height: 2 }.encode();
    assert_eq!(read_hello(&hello), Ok(("T".to_string(), 1, 2)));
    assert_eq!(read_hello(&ClientMessage::Pong.encode()), Err(HelloError::Unexpected));
    assert_eq!(read_hello(&[]), Err(HelloError::Decode));
}

#[test]
fn input_is_dispatched() {
    let point = TouchPoint { id: 1, x: 2, y: 3 };
    let touches = ClientMessage::Touches { points: vec![point] }.encode();
    match pump_input(&touches, true) {
        Ok(InputWork::Touches { points }) => assert_eq!(points, vec![point]),
        other => panic!("{other:?}"),
    }
    assert!(matches!(pump_input(&touches, false), Ok(InputWork::Nothing)));
    let pointer = ClientMessage::Pointer {
        x: 5,
        y: 6,
        pressed: true,
        pressure: 7,
        tool: PointerTool::Pen,
        in_range: true,
    }
    .encode();
    assert!(matches!(
        pump_input(&pointer, true),
        Ok(InputWork::Pointer { x: 5, y: 6, pressed: true, pressure: 7, tool: PointerTool::Pen, in_range: true })
    ));
    assert!(matches!(pump_input(&pointer, false), Ok(InputWork::Nothing)));
    assert!(matches!(pump_input(&ClientMessage::Pong.encode(), true), Ok(InputWork::Nothing)));
    let hello = ClientMessage::Hello { device_name: "T".to_string(), width: 1, height: 2 }.encode();
    assert!(matches!(pump_input(&hello, true), Ok(InputWork::Nothing)));
    assert_eq!(pump_input(&[9, 9], false).unwrap_err(), DecodeError);
}
