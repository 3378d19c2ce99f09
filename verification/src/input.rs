//! What a client's input becomes: two virtual devices, a touchscreen and a pen tablet, and the
//! events that are written to them.

use vstd::prelude::*;

use crate::message::{ClientMessage, PointerTool, TouchPoint};
use crate::message::ClientMsg;
use crate::pen::{
    axes_after_batches, batch_views, keys_after_batches, keys_down, keys_reported, pen_batches,
    pen_buttons_reach_kernel, pen_next, pen_position_reaches_kernel, pen_wf, PenState,
};
use crate::pen::{PenDev, PenSample, PRESSURE_MAX};
use crate::text::str_eq;
use crate::touch::{
    contacts_are, ev, finger_at, finger_is_announced_under_its_id, free_slot, has_open, ids_of,
    in_step, last_entry, mt_apply_all, open_contacts_are_snapshot, open_for, open_for_one, placed,
    positioned, positions_in_step, released, report, select, single_touch, slot_from_is_first,
    slot_of, snapshot_reaches_kernel, snapshot_tracks_fingers, touch_buttons, touch_events,
    touch_fresh, touch_next, touch_walk, touch_wf, tracking_id, MtState, TouchState, Walk,
};
use crate::touch::{InputEvent, TouchContact, TouchDev, ABS_MAX, MAX_SLOTS};
use crate::touch::{
    ABS_MT_POSITION_X, ABS_MT_POSITION_Y, ABS_MT_SLOT, ABS_MT_TRACKING_ID, ABS_PRESSURE, ABS_X,
    ABS_Y, BTN_STYLUS, BTN_TOOL_FINGER, BTN_TOOL_PEN, BTN_TOOL_RUBBER, BTN_TOUCH, EV_ABS, EV_KEY,
    EV_SYN,
};
use crate::wire::DecodeError;
use crate::wire::{client_bytes, client_round_trip, parse_client, short_message_lengths_fit};

verus! {

/// What the names of all touchscreens start with.
pub const TOUCH_NAME_PREFIX: &'static str = "ferrite virtual touchscreen";

/// What the names of all pen tablets start with.
pub const PEN_NAME_PREFIX: &'static str = "ferrite virtual pen";

/// The property of a device that is touched where its output is shown.
pub const INPUT_PROP_DIRECT: u16 = 0x01;

// --- devices ----------------------------------------------------------------------------------

/// An absolute axis with its range.
#[derive(Debug, Clone, Copy, PartialEq, Eq, Structural)]
pub struct AxisSetup {
    pub axis: u16,
    pub value: i32,
    pub minimum: i32,
    pub maximum: i32,
    pub fuzz: i32,
    pub flat: i32,
    pub resolution: i32,
}

/// A device to create.
#[derive(Debug)]
pub struct DeviceSetup {
    pub name: String,
    pub bustype: u16,
    pub vendor: u16,
    pub product: u16,
    pub version: u16,
    pub kinds: Vec<u16>,
    pub keys: Vec<u16>,
    pub properties: Vec<u16>,
    pub axes: Vec<AxisSetup>,
}

/// An axis from `minimum` to `maximum`.
pub open spec fn axis(axis: u16, minimum: i32, maximum: i32, resolution: i32) -> AxisSetup {
    AxisSetup { axis, value: 0, minimum, maximum, fuzz: 0, flat: 0, resolution }
}

fn axis_setup(axis: u16, minimum: i32, maximum: i32, resolution: i32) -> (a: AxisSetup)
    ensures
        a == crate::input::axis(axis, minimum, maximum, resolution),
{
    AxisSetup { axis, value: 0, minimum, maximum, fuzz: 0, flat: 0, resolution }
}

/// The buttons of the touchscreen.
pub open spec fn touch_keys() -> Seq<u16> {
    seq![BTN_TOUCH, BTN_TOOL_FINGER]
}

/// The axes of the touchscreen. A tracking id of -1 releases a finger.
pub open spec fn touch_axes() -> Seq<AxisSetup> {
    seq![
        axis(ABS_X, 0, ABS_MAX, 0),
        axis(ABS_Y, 0, ABS_MAX, 0),
        axis(ABS_MT_SLOT, 0, (MAX_SLOTS - 1) as i32, 0),
        axis(ABS_MT_TRACKING_ID, -1i32, i32::MAX, 0),
        axis(ABS_MT_POSITION_X, 0, ABS_MAX, 0),
        axis(ABS_MT_POSITION_Y, 0, ABS_MAX, 0),
    ]
}

/// The buttons of the pen tablet.
pub open spec fn pen_keys() -> Seq<u16> {
    seq![BTN_TOUCH, BTN_TOOL_PEN, BTN_TOOL_RUBBER, BTN_STYLUS]
}

/// The axes of the pen tablet. Position axes without a resolution would not make a tablet.
pub open spec fn pen_axes() -> Seq<AxisSetup> {
    seq![
        axis(ABS_X, 0, ABS_MAX, 200),
        axis(ABS_Y, 0, ABS_MAX, 200),
        axis(ABS_PRESSURE, 0, PRESSURE_MAX, 1),
    ]
}

/// The name of a device that belongs to a client.
pub open spec fn device_title(prefix: Seq<char>, device_name: Seq<char>) -> Seq<char> {
    prefix + " ("@ + device_name + ")"@
}

/// The name of a device that belongs to a client.
pub fn titled(prefix: &str, device_name: &str) -> (name: String)
    ensures
        name@ == device_title(prefix@, device_name@),
{
    let mut name = String::from_str(prefix);
    name.append(" (");
    name.append(device_name);
    name.append(")");
    name
}

/// The touchscreen of a client.
pub fn create_touch(device_name: &str) -> (setup: DeviceSetup)
    ensures
        setup.name@ == device_title(TOUCH_NAME_PREFIX@, device_name@),
        setup.bustype == 3,
        setup.vendor == 0xfe71,
        setup.product == 0x17e0,
        setup.version == 1,
        setup.kinds@ == seq![EV_KEY, EV_ABS, EV_SYN],
        setup.keys@ == touch_keys(),
        setup.properties@ == seq![INPUT_PROP_DIRECT],
        setup.axes@ == touch_axes(),
{
    DeviceSetup {
        name: titled(TOUCH_NAME_PREFIX, device_name),
        bustype: 3,
        vendor: 0xfe71,
        product: 0x17e0,
        version: 1,
        kinds: vec![EV_KEY, EV_ABS, EV_SYN],
        keys: vec![BTN_TOUCH, BTN_TOOL_FINGER],
        properties: vec![INPUT_PROP_DIRECT],
        axes: vec![
            axis_setup(ABS_X, 0, ABS_MAX, 0),
            axis_setup(ABS_Y, 0, ABS_MAX, 0),
            axis_setup(ABS_MT_SLOT, 0, MAX_SLOTS - 1, 0),
            axis_setup(ABS_MT_TRACKING_ID, -1, i32::MAX, 0),
            axis_setup(ABS_MT_POSITION_X, 0, ABS_MAX, 0),
            axis_setup(ABS_MT_POSITION_Y, 0, ABS_MAX, 0),
        ],
    }
}

/// The pen tablet of a client.
pub fn create_pen(device_name: &str) -> (setup: DeviceSetup)
    ensures
        setup.name@ == device_title(PEN_NAME_PREFIX@, device_name@),
        setup.bustype == 3,
        setup.vendor == 0xfe72,
        setup.product == 0x17e1,
        setup.version == 1,
        setup.kinds@ == seq![EV_KEY, EV_ABS, EV_SYN],
        setup.keys@ == pen_keys(),
        setup.properties@ == seq![INPUT_PROP_DIRECT],
        setup.axes@ == pen_axes(),
{
    DeviceSetup {
        name: titled(PEN_NAME_PREFIX, device_name),
        bustype: 3,
        vendor: 0xfe72,
        product: 0x17e1,
        version: 1,
        kinds: vec![EV_KEY, EV_ABS, EV_SYN],
        keys: vec![BTN_TOUCH, BTN_TOOL_PEN, BTN_TOOL_RUBBER, BTN_STYLUS],
        properties: vec![INPUT_PROP_DIRECT],
        axes: vec![
            axis_setup(ABS_X, 0, ABS_MAX, 200),
            axis_setup(ABS_Y, 0, ABS_MAX, 200),
            axis_setup(ABS_PRESSURE, 0, PRESSURE_MAX, 1),
        ],
    }
}

// --- the pair of devices ----------------------------------------------------------------------

/// The id under which a pressed pen appears on the touchscreen.
pub const PEN_MIRROR_ID: u32 = 0x7FFF_FFFF;

/// The states of the two devices, and whether the touchscreen follows the pen.
pub struct SinkState {
    pub touch: TouchState,
    pub pen: PenState,
    pub mirror: bool,
}

/// Both devices are in a state that they can be in.
pub open spec fn sink_wf(st: SinkState) -> bool {
    touch_wf(st.touch) && pen_wf(st.pen)
}

/// The fingers that a pen report puts on the touchscreen.
pub open spec fn mirrored(s: PenSample) -> Seq<TouchContact> {
    if s.pressed {
        seq![TouchContact { id: PEN_MIRROR_ID, x: s.x, y: s.y }]
    } else {
        seq![]
    }
}

/// What a pen report does: the states of the two devices after it, the batches for the pen tablet,
/// and the batch for the touchscreen if there is one. Fingers do not come this way.
pub open spec fn pointer_effect(st: SinkState, s: PenSample) -> (
    SinkState,
    Seq<Seq<InputEvent>>,
    Option<Seq<InputEvent>>,
) {
    if s.tool == PointerTool::Finger {
        (st, seq![], None)
    } else if st.mirror {
        (
            SinkState {
                touch: touch_next(st.touch, mirrored(s)),
                pen: pen_next(s),
                mirror: st.mirror,
            },
            pen_batches(st.pen, s),
            Some(touch_events(st.touch, mirrored(s))),
        )
    } else {
        (SinkState { pen: pen_next(s), ..st }, pen_batches(st.pen, s), None)
    }
}

/// What is to be written to the two devices after a pen report: batches for the pen tablet, and a
/// batch for the touchscreen if it follows the pen.
#[derive(Debug)]
pub struct PointerWrites {
    pub pen: Vec<Vec<InputEvent>>,
    pub touch: Option<Vec<InputEvent>>,
}

/// The two virtual devices of a client.
#[derive(Debug)]
pub struct InputSink {
    touch: TouchDev,
    pen: PenDev,
    mirror_pen_to_touch: bool,
}

impl View for InputSink {
    type V = SinkState;

    closed spec fn view(&self) -> SinkState {
        SinkState { touch: self.touch@, pen: self.pen@, mirror: self.mirror_pen_to_touch }
    }
}

impl InputSink {
    /// Two idle devices. The touchscreen follows the pen unless the setting is `0`.
    pub fn new(pen_mirror: Option<&str>) -> (sink: InputSink)
        ensures
            sink_wf(sink@),
            sink@.touch == touch_fresh(),
            sink@.pen == (PenState { pressed: false, tool: None }),
            sink@.mirror == !(pen_mirror matches Some(v) && v@ == "0"@),
    {
        let mirror_pen_to_touch = match pen_mirror {
            Some(v) => !str_eq(v, "0"),
            None => true,
        };
        InputSink { touch: TouchDev::new(), pen: PenDev::new(), mirror_pen_to_touch }
    }

    /// Takes a report about the pen or the eraser. Fingers do not come this way and are ignored.
    pub fn send_pointer(&mut self, s: PenSample) -> (writes: PointerWrites)
        requires
            sink_wf(old(self)@),
        ensures
            sink_wf(final(self)@),
            final(self)@.mirror == old(self)@.mirror,
            if s.tool == PointerTool::Finger {
                &&& batch_views(writes.pen@) == Seq::<Seq<InputEvent>>::empty()
                &&& writes.touch is None
                &&& final(self)@ == old(self)@
            } else {
                &&& batch_views(writes.pen@) == pen_batches(old(self)@.pen, s)
                &&& final(self)@.pen == pen_next(s)
                &&& if old(self)@.mirror {
                    &&& writes.touch is Some
                    &&& writes.touch->0@ == touch_events(old(self)@.touch, mirrored(s))
                    &&& final(self)@.touch == touch_next(old(self)@.touch, mirrored(s))
                } else {
                    &&& writes.touch is None
                    &&& final(self)@.touch == old(self)@.touch
                }
            },
            (
                final(self)@,
                batch_views(writes.pen@),
                match writes.touch {
                    Some(events) => Some(events@),
                    None => None,
                },
            ) == pointer_effect(old(self)@, s),
    {
        if s.tool == PointerTool::Finger {
            let none: Vec<Vec<InputEvent>> = Vec::new();
            assert(batch_views(none@) =~= Seq::<Seq<InputEvent>>::empty());
            return PointerWrites { pen: none, touch: None };
        }
        let pen = self.pen.send_pen(s);
        let mut touch: Option<Vec<InputEvent>> = None;
        if self.mirror_pen_to_touch {
            let mut single: Vec<TouchContact> = Vec::new();
            if s.pressed {
                single.push(TouchContact { id: PEN_MIRROR_ID, x: s.x, y: s.y });
            }
            assert(single@ =~= mirrored(s));
            touch = Some(self.touch.send_touches(single.as_slice()));
        }
        PointerWrites { pen, touch }
    }

    /// Takes a snapshot of the fingers that are down and returns the batch for the touchscreen.
    pub fn send_touches(&mut self, points: &[TouchContact]) -> (events: Vec<InputEvent>)
        requires
            sink_wf(old(self)@),
        ensures
            sink_wf(final(self)@),
            events@ == touch_events(old(self)@.touch, points@),
            final(self)@ == (SinkState {
                touch: touch_next(old(self)@.touch, points@),
                ..old(self)@
            }),
    {
        self.touch.send_touches(points)
    }
}

/// A pressed pen moves the touchscreen's pointer to where it is: the batch for the touchscreen holds
/// its position on the single-touch axes, and the touch button unless that is down already.
pub proof fn pen_position_is_mirrored(st: TouchState, s: PenSample)
    requires
        s.pressed,
    ensures
        touch_events(st, mirrored(s)).contains(ev(EV_ABS, ABS_X, s.x)),
        touch_events(st, mirrored(s)).contains(ev(EV_ABS, ABS_Y, s.y)),
        !st.pressed ==> touch_events(st, mirrored(s)).contains(ev(EV_KEY, BTN_TOUCH, 1)),
        touch_next(st, mirrored(s)).pressed,
{
    let events = touch_events(st, mirrored(s));
    let n = touch_walk(st, mirrored(s)).events.len() as int;
    assert(events[n] == ev(EV_ABS, ABS_X, s.x));
    assert(events[n + 1] == ev(EV_ABS, ABS_Y, s.y));
    if !st.pressed {
        assert(events[n + 2] == ev(EV_KEY, BTN_TOUCH, 1));
    }
}

/// On the touchscreen a pressed pen is a finger like any other: it is announced under a tracking id
/// that does not read as a release, it is the one open contact, and the kernel has it where it is. A
/// pen that is not pressed leaves no contact open.
pub proof fn mirrored_pen_is_a_finger(st: TouchState, m: MtState, s: PenSample)
    requires
        touch_wf(st),
        in_step(st.table, st.active, m),
    ensures
        tracking_id(PEN_MIRROR_ID) >= 0,
        ({
            let next = touch_next(st, mirrored(s));
            let k = mt_apply_all(m, touch_events(st, mirrored(s)));
            &&& in_step(next.table, next.active, k)
            &&& contacts_are(k, mirrored(s))
            &&& positions_in_step(next.table, k, mirrored(s), mirrored(s).len() as int)
        }),
{
    let points = mirrored(s);
    points.map_values(|p: TouchContact| p.id).lemma_cardinality_of_set();
    snapshot_reaches_kernel(st, m, points);
    open_contacts_are_snapshot(st, m, points);
}

/// With the touchscreen following, a pressed pen or eraser, wherever it is reported, is one finger at
/// its position, and one that is not pressed is none.
pub proof fn pen_touches_where_it_is(st: TouchState, m: MtState, s: PenSample)
    requires
        touch_wf(st),
        in_step(st.table, st.active, m),
    ensures
        ({
            let k = mt_apply_all(m, touch_events(st, mirrored(s)));
            let p = TouchContact { id: PEN_MIRROR_ID, x: s.x, y: s.y };
            &&& s.pressed ==> contacts_are(k, seq![p]) && finger_at(k, p)
            &&& !s.pressed ==> forall|slot: int| !#[trigger] k.tracking.contains_key(slot)
        }),
{
    mirrored_pen_is_a_finger(st, m, s);
    let k = mt_apply_all(m, touch_events(st, mirrored(s)));
    let p = TouchContact { id: PEN_MIRROR_ID, x: s.x, y: s.y };
    let table = touch_next(st, mirrored(s)).table;
    if s.pressed {
        let points = seq![p];
        assert(mirrored(s) =~= points);
        snapshot_tracks_fingers(st, points);
        assert(has_open(k, points[0].id));
        let slot = choose|slot: int| open_for(k, slot, p.id);
        assert(k.tracking.contains_key(slot));
        assert(table[slot] is Some);
        finger_is_announced_under_its_id(table[slot]->0);
        finger_is_announced_under_its_id(p.id);
        assert(table[slot] == Some(points[0].id));
        assert(last_entry(points, 0, 1));
    } else {
        assert(mirrored(s) =~= seq![]);
        assert forall|slot: int| !#[trigger] k.tracking.contains_key(slot) by {
            if k.tracking.contains_key(slot) {
                assert(open_for_one(k, slot, mirrored(s)));
            }
        }
    }
}

/// A report about the pen or the eraser reaches the pen tablet: the keys that are down there are those
/// reported, and a tool in range is where it is reported, pressing as hard as reported.
pub proof fn pen_report_reaches_tablet(st: SinkState, s: PenSample, axes: Map<u16, i32>)
    requires
        pen_wf(st.pen),
        s.tool == PointerTool::Pen || s.tool == PointerTool::Eraser,
    ensures
        keys_after_batches(keys_down(st.pen), pointer_effect(st, s).1) == keys_reported(s),
        s.in_range ==> axes_after_batches(axes, pointer_effect(st, s).1) == axes.insert(
            ABS_X,
            s.x,
        ).insert(ABS_Y, s.y).insert(ABS_PRESSURE, s.pressure),
        pointer_effect(st, s).0.pen == pen_next(s),
{
    pen_buttons_reach_kernel(st.pen, s);
    pen_position_reaches_kernel(st.pen, axes, s);
}

/// A report about the pen or the eraser reaches the touchscreen where that follows: it has one finger
/// where a pressed tool is and none otherwise. Where it does not follow it is left alone.
pub proof fn pen_report_reaches_touchscreen(st: SinkState, s: PenSample, m: MtState)
    requires
        touch_wf(st.touch),
        in_step(st.touch.table, st.touch.active, m),
        s.tool == PointerTool::Pen || s.tool == PointerTool::Eraser,
    ensures
        pointer_effect(st, s).0.mirror == st.mirror,
        pointer_effect(st, s).2 is Some <==> st.mirror,
        !st.mirror ==> pointer_effect(st, s).0.touch == st.touch,
        pointer_effect(st, s).2 matches Some(events) ==> {
            let k = mt_apply_all(m, events);
            let p = TouchContact { id: PEN_MIRROR_ID, x: s.x, y: s.y };
            &&& s.pressed ==> contacts_are(k, seq![p]) && finger_at(k, p)
            &&& !s.pressed ==> forall|slot: int| !#[trigger] k.tracking.contains_key(slot)
        },
{
    pen_touches_where_it_is(st.touch, m, s);
}

/// A report about a finger that comes the pen's way changes nothing.
pub proof fn fingers_are_no_pointers(st: SinkState, s: PenSample)
    requires
        s.tool == PointerTool::Finger,
    ensures
        pointer_effect(st, s).0 == st,
        pointer_effect(st, s).1.len() == 0,
        pointer_effect(st, s).2 is None,
{
}

// --- messages ---------------------------------------------------------------------------------

/// Why a session did not start.
#[derive(Debug, Clone, Copy, PartialEq, Eq, Structural)]
pub enum HelloError {
    /// The first frame is not a message.
    Decode,
    /// The first message is something else.
    Unexpected,
}

/// The first frame of a session has to introduce the client: its name and its screen size.
pub fn read_hello(body: &[u8]) -> (hello: Result<(String, u32, u32), HelloError>)
    ensures
        match hello {
            Ok((name, width, height)) => parse_client(body@) == Some(
                ClientMsg::Hello { device_name: name@, width, height },
            ),
            Err(HelloError::Decode) => parse_client(body@) is None,
            Err(HelloError::Unexpected) => parse_client(body@) matches Some(msg) && !(
            msg is Hello),
        },
{
    match ClientMessage::decode(body) {
        Ok(ClientMessage::Hello { device_name, width, height }) => Ok((device_name, width, height)),
        Ok(_) => Err(HelloError::Unexpected),
        Err(_) => Err(HelloError::Decode),
    }
}

/// What a message of a running session asks of the devices. Coordinates and pressure are bit
/// patterns.
#[derive(Debug)]
pub enum InputWork {
    Pointer { x: u32, y: u32, pressed: bool, pressure: u32, tool: PointerTool, in_range: bool },
    Touches { points: Vec<TouchPoint> },
    Nothing,
}

/// The value of an [`InputWork`].
pub enum Work {
    Pointer { x: u32, y: u32, pressed: bool, pressure: u32, tool: PointerTool, in_range: bool },
    Touches { points: Seq<TouchPoint> },
    Nothing,
}

impl View for InputWork {
    type V = Work;

    open spec fn view(&self) -> Work {
        match *self {
            InputWork::Pointer { x, y, pressed, pressure, tool, in_range } => Work::Pointer {
                x,
                y,
                pressed,
                pressure,
                tool,
                in_range,
            },
            InputWork::Touches { points } => Work::Touches { points: points@ },
            InputWork::Nothing => Work::Nothing,
        }
    }
}

/// What a message asks for. A repeated introduction and an answer to a ping ask for nothing, and
/// without devices nothing can be asked for.
pub open spec fn work_of(msg: ClientMsg, devices: bool) -> Work {
    match msg {
        ClientMsg::Pointer { x, y, pressed, pressure, tool, in_range } => if devices {
            Work::Pointer { x, y, pressed, pressure, tool, in_range }
        } else {
            Work::Nothing
        },
        ClientMsg::Touches { points } => if devices {
            Work::Touches { points }
        } else {
            Work::Nothing
        },
        ClientMsg::Hello { .. } => Work::Nothing,
        ClientMsg::Pong => Work::Nothing,
    }
}

/// Takes the body of a frame of a running session. `devices` says whether the client's devices
/// could be created.
pub fn pump_input(body: &[u8], devices: bool) -> (work: Result<InputWork, DecodeError>)
    ensures
        match work {
            Ok(w) => parse_client(body@) matches Some(msg) && w@ == work_of(msg, devices),
            Err(_) => parse_client(body@) is None,
        },
        work is Err <==> parse_client(body@) is None,
        devices ==> (parse_client(body@) matches Some(ClientMsg::Touches { points }) ==> work
            matches Ok(InputWork::Touches { points: taken }) && taken@ == points),
        devices ==> (parse_client(body@) matches Some(
            ClientMsg::Pointer { x, y, pressed, pressure, tool, in_range },
        ) ==> work == Ok::<InputWork, DecodeError>(
            InputWork::Pointer { x, y, pressed, pressure, tool, in_range },
        )),
        !devices ==> (work matches Ok(w) ==> w is Nothing),
{
    let msg = match ClientMessage::decode(body) {
        Ok(msg) => msg,
        Err(e) => return Err(e),
    };
    match msg {
        ClientMessage::Pointer { x, y, pressed, pressure, tool, in_range } => {
            if devices {
                Ok(InputWork::Pointer { x, y, pressed, pressure, tool, in_range })
            } else {
                Ok(InputWork::Nothing)
            }
        },
        ClientMessage::Touches { points } => {
            if devices {
                Ok(InputWork::Touches { points })
            } else {
                Ok(InputWork::Nothing)
            }
        },
        ClientMessage::Hello { .. } => Ok(InputWork::Nothing),
        ClientMessage::Pong => Ok(InputWork::Nothing),
    }
}

/// Every message about fingers reaches the touchscreen with exactly its fingers, the one without any
/// as well: what the tablet has sent is what is asked of the devices, and a touchscreen that gets
/// these fingers leaves exactly them down. After a message without fingers no contact is open.
pub proof fn fingers_reach_kernel(
    points: Seq<TouchPoint>,
    contacts: Seq<TouchContact>,
    st: TouchState,
    m: MtState,
)
    requires
        client_bytes(ClientMsg::Touches { points }).len() <= u32::MAX,
        contacts.len() == points.len(),
        forall|i: int| 0 <= i < points.len() ==> (#[trigger] contacts[i]).id == points[i].id,
        forall|i: int| 0 <= i < points.len() ==> (#[trigger] points[i]).id != u32::MAX,
        touch_wf(st),
        in_step(st.table, st.active, m),
        ids_of(contacts).len() <= MAX_SLOTS,
    ensures
        ({
            let sent = client_bytes(ClientMsg::Touches { points });
            let k = mt_apply_all(m, touch_events(st, contacts));
            &&& parse_client(sent) matches Some(msg)
            &&& work_of(msg, true) == (Work::Touches { points })
            &&& forall|i: int| 0 <= i < points.len() ==> has_open(k, (#[trigger] points[i]).id)
            &&& forall|s: int, id: u32|
                open_for(k, s, id) ==> exists|i: int|
                    0 <= i < points.len() && (#[trigger] points[i]).id == id
            &&& points.len() == 0 ==> forall|s: int| !#[trigger] k.tracking.contains_key(s)
        }),
{
    let msg = ClientMsg::Touches { points };
    let sent = client_bytes(msg);
    short_message_lengths_fit(msg);
    client_round_trip(msg, seq![]);
    assert(sent + seq![] =~= sent);
    assert forall|i: int| 0 <= i < contacts.len() implies (#[trigger] contacts[i]).id
        != u32::MAX by {
        assert(points[i].id != u32::MAX);
    }
    open_contacts_are_snapshot(st, m, contacts);
    let k = mt_apply_all(m, touch_events(st, contacts));
    assert forall|i: int| 0 <= i < points.len() implies has_open(k, (#[trigger] points[i]).id) by {
        assert(contacts[i].id == points[i].id);
    }
    assert forall|s: int, id: u32| open_for(k, s, id) implies exists|i: int|
        0 <= i < points.len() && (#[trigger] points[i]).id == id by {
        assert(open_for_one(k, s, contacts));
        let i = choose|i: int|
            0 <= i < contacts.len() && open_for(k, s, (#[trigger] contacts[i]).id);
        assert(contacts[i].id == points[i].id);
        finger_is_announced_under_its_id(id);
        finger_is_announced_under_its_id(contacts[i].id);
        assert(points[i].id == id);
    }
    assert forall|s: int| points.len() == 0 implies !#[trigger] k.tracking.contains_key(s) by {
        if k.tracking.contains_key(s) {
            assert(open_for_one(k, s, contacts));
        }
    }
}

/// Every message about the pen reaches the devices as it was sent. Without devices nothing does, and
/// neither an introduction nor an answer asks for anything.
pub proof fn pen_messages_reach_devices(
    x: u32,
    y: u32,
    pressed: bool,
    pressure: u32,
    tool: PointerTool,
    in_range: bool,
    other: ClientMsg,
)
    ensures
        ({
            let msg = ClientMsg::Pointer { x, y, pressed, pressure, tool, in_range };
            &&& parse_client(client_bytes(msg)) == Some(msg)
            &&& work_of(msg, true) == (Work::Pointer { x, y, pressed, pressure, tool, in_range })
        }),
        work_of(other, false) == Work::Nothing,
        other is Hello || other is Pong ==> work_of(other, true) == Work::Nothing,
{
    let msg = ClientMsg::Pointer { x, y, pressed, pressure, tool, in_range };
    client_round_trip(msg, seq![]);
    assert(client_bytes(msg) + seq![] =~= client_bytes(msg));
}

// --- every event is one that the device was created for ----------------------------------------

/// The event is a report, or is about a button or an axis of the device, with a value in range.
pub open spec fn declared(keys: Seq<u16>, axes: Seq<AxisSetup>, e: InputEvent) -> bool {
    ||| e == report()
    ||| e.kind == EV_KEY && keys.contains(e.code) && 0 <= e.value <= 1
    ||| e.kind == EV_ABS && exists|i: int|
        0 <= i < axes.len() && (#[trigger] axes[i]).axis == e.code && axes[i].minimum <= e.value
            <= axes[i].maximum
}

/// All events are declared.
pub open spec fn all_declared(
    keys: Seq<u16>,
    axes: Seq<AxisSetup>,
    events: Seq<InputEvent>,
) -> bool {
    forall|i: int| 0 <= i < events.len() ==> declared(keys, axes, #[trigger] events[i])
}

/// A position on the axes.
pub open spec fn on_axes(x: i32, y: i32) -> bool {
    0 <= x <= ABS_MAX && 0 <= y <= ABS_MAX
}

/// A finger on the axes, whose id can be announced.
pub open spec fn contact_fits(p: TouchContact) -> bool {
    on_axes(p.x, p.y) && p.id <= i32::MAX
}

/// The touchscreen takes an event on one of its axes.
proof fn touch_axis(i: int, e: InputEvent)
    requires
        0 <= i < 6,
        e.kind == EV_ABS,
        e.code == touch_axes()[i].axis,
        touch_axes()[i].minimum <= e.value <= touch_axes()[i].maximum,
    ensures
        declared(touch_keys(), touch_axes(), e),
{
}

/// Selecting a slot is declared.
proof fn select_declared(w: Walk, slot: int)
    requires
        0 <= slot < MAX_SLOTS,
        all_declared(touch_keys(), touch_axes(), w.events),
    ensures
        all_declared(touch_keys(), touch_axes(), select(w, slot).events),
{
    touch_axis(2, ev(EV_ABS, ABS_MT_SLOT, slot as i32));
}

proof fn released_declared(w: Walk, points: Seq<TouchContact>, n: int)
    requires
        0 <= n <= w.table.len() <= MAX_SLOTS,
        all_declared(touch_keys(), touch_axes(), w.events),
    ensures
        all_declared(touch_keys(), touch_axes(), released(w, points, n).events),
        released(w, points, n).table.len() == w.table.len(),
    decreases n,
{
    if n > 0 {
        released_declared(w, points, n - 1);
        select_declared(released(w, points, n - 1), n - 1);
        touch_axis(3, ev(EV_ABS, ABS_MT_TRACKING_ID, -1i32));
    }
}

proof fn positioned_declared(w: Walk, p: TouchContact)
    requires
        contact_fits(p),
        all_declared(touch_keys(), touch_axes(), w.events),
    ensures
        all_declared(touch_keys(), touch_axes(), positioned(w, p).events),
{
    touch_axis(4, ev(EV_ABS, ABS_MT_POSITION_X, p.x));
    touch_axis(5, ev(EV_ABS, ABS_MT_POSITION_Y, p.y));
}

proof fn placed_declared(w: Walk, points: Seq<TouchContact>, n: int)
    requires
        0 <= n <= points.len(),
        w.table.len() == MAX_SLOTS,
        forall|i: int| 0 <= i < points.len() ==> contact_fits(#[trigger] points[i]),
        all_declared(touch_keys(), touch_axes(), w.events),
    ensures
        all_declared(touch_keys(), touch_axes(), placed(w, points, n).events),
        placed(w, points, n).table.len() == MAX_SLOTS,
    decreases n,
{
    if n > 0 {
        placed_declared(w, points, n - 1);
        let v = placed(w, points, n - 1);
        let p = points[n - 1];
        assert(contact_fits(p));
        slot_from_is_first(v.table, Some(p.id), 0);
        slot_from_is_first(v.table, None, 0);
        let held = slot_of(v.table, p.id);
        let free = free_slot(v.table);
        if held < v.table.len() {
            select_declared(v, held);
            positioned_declared(select(v, held), p);
        } else if free < v.table.len() {
            let u = Walk { table: v.table.update(free, Some(p.id)), ..v };
            select_declared(u, free);
            let a = select(u, free);
            touch_axis(3, ev(EV_ABS, ABS_MT_TRACKING_ID, tracking_id(p.id)));
            positioned_declared(
                Walk {
                    events: a.events.push(ev(EV_ABS, ABS_MT_TRACKING_ID, tracking_id(p.id))),
                    ..a
                },
                p,
            );
        }
    }
}

/// The touchscreen is sent only what it was created for, as long as the fingers lie on its axes and
/// their ids can be announced.
pub proof fn touch_events_are_declared(st: TouchState, points: Seq<TouchContact>)
    requires
        touch_wf(st),
        forall|i: int| 0 <= i < points.len() ==> contact_fits(#[trigger] points[i]),
    ensures
        all_declared(touch_keys(), touch_axes(), touch_events(st, points)),
{
    let w0 = Walk { table: st.table, active: st.active, events: seq![] };
    released_declared(w0, points, st.table.len() as int);
    placed_declared(
        released(w0, points, st.table.len() as int),
        points,
        points.len() as int,
    );
    if points.len() > 0 {
        assert(contact_fits(points[0]));
        touch_axis(0, ev(EV_ABS, ABS_X, points[0].x));
        touch_axis(1, ev(EV_ABS, ABS_Y, points[0].y));
    }
    let a = single_touch(points);
    let b = touch_buttons(st.pressed, points.len() > 0);
    assert(touch_keys()[0] == BTN_TOUCH && touch_keys()[1] == BTN_TOOL_FINGER);
    assert(all_declared(touch_keys(), touch_axes(), a));
    assert(all_declared(touch_keys(), touch_axes(), b));
}

/// The pen tablet is sent only what it was created for, as long as position and pressure lie on its
/// axes.
pub proof fn pen_events_are_declared(st: PenState, s: PenSample, i: int)
    requires
        pen_wf(st),
        on_axes(s.x, s.y),
        0 <= s.pressure <= PRESSURE_MAX,
        0 <= i < pen_batches(st, s).len(),
    ensures
        all_declared(pen_keys(), pen_axes(), pen_batches(st, s)[i]),
{
    let keys = pen_keys();
    let axes = pen_axes();
    assert(keys[0] == BTN_TOUCH && keys[1] == BTN_TOOL_PEN && keys[2] == BTN_TOOL_RUBBER);
    assert(axes[0].axis == ABS_X && axes[1].axis == ABS_Y && axes[2].axis == ABS_PRESSURE);
}

} // verus!
