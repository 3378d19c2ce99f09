//! The tablet's side of the protocol.

use vstd::prelude::*;

use crate::bytes::copy_range;
use crate::frame::{drain_to_magic, read_frame, write_frame, FrameStep, SyncScanner};
use crate::frame::{
    announced, first_magic_end, frame_bytes, frame_round_trip, magic, magic_ends_at,
    magic_progress, magic_progress_unique, magic_start_progress, no_magic, preamble,
    sync_skips_stale, sync_step, sync_step_tracks,
};
use crate::frame::{HEADER_LEN, MAGIC_LEN, PREAMBLE_FILLER, PREAMBLE_FILLER_LEN};
use crate::message::{ClientMessage, HostMessage, PixelFormat, PointerTool, TouchPoint};
use crate::message::{ClientMsg, HostMsg};
use crate::wire::{
    client_bytes, client_round_trip, host_bytes, host_round_trip, parse_client, parse_host,
    short_message_lengths_fit,
};

verus! {

// --- what the tablet sends ----------------------------------------------------------------------

/// The frame that carries a message to the host.
pub fn send_upstream(msg: &ClientMessage) -> (frame: Vec<u8>)
    ensures
        frame@ == frame_bytes(client_bytes(msg@)),
{
    let body = msg.encode();
    write_frame(body.as_slice())
}

/// The frame with which the tablet introduces itself.
pub fn hello_frame(device_name: &str, width: u32, height: u32) -> (frame: Vec<u8>)
    ensures
        frame@ == frame_bytes(
            client_bytes(ClientMsg::Hello { device_name: device_name@, width, height }),
        ),
{
    send_upstream(
        &ClientMessage::Hello { device_name: String::from_str(device_name), width, height },
    )
}

/// The tool with a number: 1 is the pen, 2 the eraser, anything else a finger.
pub open spec fn numbered_tool(id: i32) -> PointerTool {
    if id == 1 {
        PointerTool::Pen
    } else if id == 2 {
        PointerTool::Eraser
    } else {
        PointerTool::Finger
    }
}

/// The tool with a number.
pub fn tool_from_id(id: i32) -> (tool: PointerTool)
    ensures
        tool == numbered_tool(id),
{
    match id {
        1 => PointerTool::Pen,
        2 => PointerTool::Eraser,
        _ => PointerTool::Finger,
    }
}

/// The contents of the message about a tool.
pub open spec fn pointer_msg(
    x: u32,
    y: u32,
    pressed: bool,
    pressure: u32,
    tool: i32,
    in_range: bool,
) -> ClientMsg {
    ClientMsg::Pointer { x, y, pressed, pressure, tool: numbered_tool(tool), in_range }
}

/// The contents of the message about the fingers that are down.
pub open spec fn touches_msg(ids: Seq<i32>, xs: Seq<u32>, ys: Seq<u32>) -> ClientMsg {
    ClientMsg::Touches {
        points: Seq::new(
            ids.len(),
            |i: int| TouchPoint { id: same_bits(ids[i]), x: xs[i], y: ys[i] },
        ),
    }
}

/// The message about a tool.
pub fn pointer_message(
    x: u32,
    y: u32,
    pressed: bool,
    pressure: u32,
    tool: i32,
    in_range: bool,
) -> (msg: ClientMessage)
    ensures
        msg@ == (ClientMsg::Pointer {
            x,
            y,
            pressed,
            pressure,
            tool: numbered_tool(tool),
            in_range,
        }),
        msg@ == pointer_msg(x, y, pressed, pressure, tool, in_range),
{
    ClientMessage::Pointer { x, y, pressed, pressure, tool: tool_from_id(tool), in_range }
}

/// A signed number as an unsigned one with the same bits.
pub open spec fn same_bits(id: i32) -> u32 {
    if id >= 0 {
        id as u32
    } else {
        (id + 0x1_0000_0000) as u32
    }
}

/// The message about the fingers that are down, given by their ids and the bit patterns of their
/// positions.
pub fn touches_message(ids: &[i32], xs: &[u32], ys: &[u32]) -> (msg: ClientMessage)
    requires
        xs@.len() == ids@.len(),
        ys@.len() == ids@.len(),
    ensures
        msg@ == (ClientMsg::Touches {
            points: Seq::new(
                ids@.len(),
                |i: int| TouchPoint { id: same_bits(ids@[i]), x: xs@[i], y: ys@[i] },
            ),
        }),
        msg@ == touches_msg(ids@, xs@, ys@),
{
    let mut points: Vec<TouchPoint> = Vec::new();
    let mut i: usize = 0;
    let ghost all = Seq::new(
        ids@.len(),
        |i: int| TouchPoint { id: same_bits(ids@[i]), x: xs@[i], y: ys@[i] },
    );
    while i < ids.len()
        invariant
            i <= ids@.len(),
            xs@.len() == ids@.len(),
            ys@.len() == ids@.len(),
            all == Seq::new(
                ids@.len(),
                |i: int| TouchPoint { id: same_bits(ids@[i]), x: xs@[i], y: ys@[i] },
            ),
            points@ == all.take(i as int),
        decreases ids@.len() - i,
    {
        let id: u32 = if ids[i] >= 0 {
            ids[i] as u32
        } else {
            (ids[i] as i64 + 0x1_0000_0000) as u32
        };
        points.push(TouchPoint { id, x: xs[i], y: ys[i] });
        i += 1;
        assert(points@ =~= all.take(i as int));
    }
    assert(points@ =~= all);
    ClientMessage::Touches { points }
}

// --- what the tablet receives -------------------------------------------------------------------

/// What to do with a message of the host.
#[derive(Debug)]
pub enum ClientStep {
    /// Write this frame to the host.
    Answer(Vec<u8>),
    /// Show a frame: 0 for plain pixels, 1 for JPEG, 2 for H.264.
    Show { format_id: i32, width: u32, height: u32, data: Vec<u8> },
}

/// The value of a [`ClientStep`].
pub enum Step {
    Answer(Seq<u8>),
    Show { format_id: i32, width: u32, height: u32, data: Seq<u8> },
}

impl View for ClientStep {
    type V = Step;

    open spec fn view(&self) -> Step {
        match *self {
            ClientStep::Answer(frame) => Step::Answer(frame@),
            ClientStep::Show { format_id, width, height, data } => Step::Show {
                format_id,
                width,
                height,
                data: data@,
            },
        }
    }
}

/// A message that ends the session.
#[derive(Debug, Clone, Copy, PartialEq, Eq, Structural)]
pub enum ClientError {
    /// The frame is not a message.
    Decode,
    /// A frame of plain pixels does not have four bytes a pixel.
    SizeMismatch { got: usize, expected: u128 },
}

/// The number that stands for a pixel format.
pub open spec fn format_number(format: PixelFormat) -> i32 {
    match format {
        PixelFormat::Rgba8 => 0,
        PixelFormat::Jpeg => 1,
        PixelFormat::H264 => 2,
    }
}

/// A frame of plain pixels has to have four bytes a pixel; other formats are opaque.
pub open spec fn size_matches(format: PixelFormat, width: u32, height: u32, len: int) -> bool {
    format == PixelFormat::Rgba8 ==> len == width * height * 4
}

/// What a message asks for. None if its size is wrong.
pub open spec fn step_for(msg: HostMsg) -> Option<Step> {
    match msg {
        HostMsg::Ping => Some(Step::Answer(frame_bytes(client_bytes(ClientMsg::Pong)))),
        HostMsg::VideoFrame { format, width, height, data } => if size_matches(
            format,
            width,
            height,
            data.len() as int,
        ) {
            Some(Step::Show { format_id: format_number(format), width, height, data })
        } else {
            None
        },
    }
}

/// What the body of a frame asks for, or why it ends the session.
pub open spec fn body_result(body: Seq<u8>) -> Result<Step, ClientError> {
    match parse_host(body) {
        Some(msg) => match (step_for(msg), msg) {
            (Some(step), _) => Ok(step),
            (None, HostMsg::VideoFrame { width, height, data, .. }) => Err(
                ClientError::SizeMismatch {
                    got: data.len() as usize,
                    expected: (width * height * 4) as u128,
                },
            ),
            (None, HostMsg::Ping) => Err(ClientError::Decode),
        },
        None => Err(ClientError::Decode),
    }
}

/// Takes the body of a frame from the host.
pub fn read_loop(body: &[u8]) -> (step: Result<ClientStep, ClientError>)
    ensures
        match step {
            Ok(s) => body_result(body@) == Ok::<Step, ClientError>(s@),
            Err(e) => body_result(body@) == Err::<Step, ClientError>(e),
        },
{
    let msg = match HostMessage::decode(body) {
        Ok(msg) => msg,
        Err(_) => return Err(ClientError::Decode),
    };
    match msg {
        HostMessage::Ping => Ok(ClientStep::Answer(send_upstream(&ClientMessage::Pong))),
        HostMessage::VideoFrame { format, width, height, data } => {
            let format_id: i32 = match format {
                PixelFormat::Rgba8 => {
                    assert(0 <= width * height * 4 <= u128::MAX && 0 <= width * height)
                        by (nonlinear_arith)
                        requires
                            0 <= width <= u32::MAX,
                            0 <= height <= u32::MAX,
                    ;
                    let expected: u128 = width as u128 * height as u128 * 4;
                    if data.len() as u128 != expected {
                        return Err(ClientError::SizeMismatch { got: data.len(), expected });
                    }
                    0
                },
                PixelFormat::Jpeg => 1,
                PixelFormat::H264 => 2,
            };
            Ok(ClientStep::Show { format_id, width, height, data })
        },
    }
}

// --- the course of a session --------------------------------------------------------------------

/// What the tablet waits for.
#[derive(Debug, Clone, Copy, PartialEq, Eq, Structural)]
pub enum ClientPhase {
    /// The magic, which may stand behind stale bytes.
    Sync,
    /// The filler behind the magic.
    Filler,
    /// The length of the next frame.
    Header,
    /// The body of a frame of this length.
    Body(usize),
    /// Nothing: the session is over.
    Over,
}

/// A session's state: what it waits for, how much of the magic has come, and the frame with which
/// the tablet introduces itself.
pub struct ClientState {
    pub phase: ClientPhase,
    pub matched: int,
    pub hello: Seq<u8>,
}

/// What to do with the bytes that have been read.
#[derive(Debug)]
pub enum ClientWork {
    /// Read on.
    Nothing,
    /// Write this frame to the host, and let input be sent from now on.
    Introduce(Vec<u8>),
    /// Answer or show.
    Step(ClientStep),
    /// End the session.
    Fail(ClientError),
}

/// The value of a [`ClientWork`].
pub enum ToDo {
    Nothing,
    Introduce(Seq<u8>),
    Step(Step),
    Fail(ClientError),
}

impl View for ClientWork {
    type V = ToDo;

    open spec fn view(&self) -> ToDo {
        match *self {
            ClientWork::Nothing => ToDo::Nothing,
            ClientWork::Introduce(frame) => ToDo::Introduce(frame@),
            ClientWork::Step(step) => ToDo::Step(step@),
            ClientWork::Fail(e) => ToDo::Fail(e),
        }
    }
}

/// How many bytes are to be read next.
pub open spec fn wanted_bytes(phase: ClientPhase) -> int {
    match phase {
        ClientPhase::Sync => 1,
        ClientPhase::Filler => PREAMBLE_FILLER_LEN as int,
        ClientPhase::Header => HEADER_LEN as int,
        ClientPhase::Body(n) => n as int,
        ClientPhase::Over => 0,
    }
}

/// A state that a session can be in.
pub open spec fn client_wf(st: ClientState) -> bool {
    &&& 0 <= st.matched <= MAGIC_LEN
    &&& st.phase == ClientPhase::Sync ==> st.matched < MAGIC_LEN
    &&& st.phase matches ClientPhase::Body(n) ==> n > 0
}

/// The state and the work after the body of a frame.
pub open spec fn after_body(st: ClientState, body: Seq<u8>) -> (ClientState, ToDo) {
    match body_result(body) {
        Ok(step) => (ClientState { phase: ClientPhase::Header, ..st }, ToDo::Step(step)),
        Err(e) => (ClientState { phase: ClientPhase::Over, ..st }, ToDo::Fail(e)),
    }
}

/// The state and the work after the bytes that were wanted.
pub open spec fn client_next(st: ClientState, bytes: Seq<u8>) -> (ClientState, ToDo) {
    match st.phase {
        ClientPhase::Sync => {
            let matched = sync_step(st.matched, bytes[0]);
            let phase = if matched == MAGIC_LEN {
                ClientPhase::Filler
            } else {
                ClientPhase::Sync
            };
            (ClientState { phase, matched, ..st }, ToDo::Nothing)
        },
        ClientPhase::Filler => (
            ClientState { phase: ClientPhase::Header, ..st },
            ToDo::Introduce(st.hello),
        ),
        ClientPhase::Header => if announced(bytes) == 0 {
            after_body(st, seq![])
        } else {
            (
                ClientState { phase: ClientPhase::Body(announced(bytes) as usize), ..st },
                ToDo::Nothing,
            )
        },
        ClientPhase::Body(_) => after_body(st, bytes),
        ClientPhase::Over => (st, ToDo::Nothing),
    }
}

/// The tablet's side of a session. Whatever carries the bytes, the protocol is the same.
#[derive(Debug)]
pub struct ClientProtocol {
    phase: ClientPhase,
    scanner: SyncScanner,
    hello: Vec<u8>,
}

impl View for ClientProtocol {
    type V = ClientState;

    closed spec fn view(&self) -> ClientState {
        ClientState { phase: self.phase, matched: self.scanner.matched(), hello: self.hello@ }
    }
}

impl ClientProtocol {
    /// A session that has read nothing.
    pub fn new(device_name: &str, width: u32, height: u32) -> (protocol: ClientProtocol)
        ensures
            client_wf(protocol@),
            protocol@ == (ClientState {
                phase: ClientPhase::Sync,
                matched: 0,
                hello: frame_bytes(
                    client_bytes(ClientMsg::Hello { device_name: device_name@, width, height }),
                ),
            }),
    {
        ClientProtocol {
            phase: ClientPhase::Sync,
            scanner: SyncScanner::new(),
            hello: hello_frame(device_name, width, height),
        }
    }

    /// How many bytes are to be read next. None are when the session is over.
    pub fn wanted(&self) -> (n: usize)
        ensures
            n == wanted_bytes(self@.phase),
    {
        match self.phase {
            ClientPhase::Sync => 1,
            ClientPhase::Filler => PREAMBLE_FILLER_LEN,
            ClientPhase::Header => HEADER_LEN,
            ClientPhase::Body(n) => n,
            ClientPhase::Over => 0,
        }
    }

    /// Takes the body of a frame.
    fn take_body(&mut self, body: &[u8]) -> (work: ClientWork)
        requires
            client_wf(old(self)@),
        ensures
            client_wf(final(self)@),
            (final(self)@, work@) == after_body(old(self)@, body@),
    {
        match read_loop(body) {
            Ok(step) => {
                self.phase = ClientPhase::Header;
                ClientWork::Step(step)
            },
            Err(e) => {
                self.phase = ClientPhase::Over;
                ClientWork::Fail(e)
            },
        }
    }

    /// Takes the bytes that were wanted: what to do with them.
    pub fn run_protocol(&mut self, bytes: &[u8]) -> (work: ClientWork)
        requires
            client_wf(old(self)@),
            old(self)@.phase != ClientPhase::Over,
            bytes@.len() == wanted_bytes(old(self)@.phase),
        ensures
            client_wf(final(self)@),
            (final(self)@, work@) == client_next(old(self)@, bytes@),
    {
        match self.phase {
            ClientPhase::Sync => {
                let ghost before = self.scanner.matched();
                let ghost b = bytes@[0];
                let ghost start = magic().take(before);
                let end = drain_to_magic(&mut self.scanner, bytes);
                proof {
                    let seen = start + bytes@;
                    assert(seen =~= start.push(b));
                    magic_start_progress(before);
                    sync_step_tracks(start, before, b);
                    match end {
                        Some(n) => assert(magic_ends_at(seen, before + n)),
                        None => magic_progress_unique(
                            seen,
                            self.scanner.matched(),
                            sync_step(before, b),
                        ),
                    }
                }
                if end.is_some() {
                    self.phase = ClientPhase::Filler;
                }
                ClientWork::Nothing
            },
            ClientPhase::Filler => {
                self.phase = ClientPhase::Header;
                let frame = copy_range(self.hello.as_slice(), 0, self.hello.len());
                assert(frame@ =~= self.hello@);
                ClientWork::Introduce(frame)
            },
            ClientPhase::Header => match read_frame(bytes) {
                FrameStep::Need(n) => {
                    self.phase = ClientPhase::Body(n);
                    ClientWork::Nothing
                },
                FrameStep::Body(body) => {
                    assert(body@ =~= seq![]);
                    self.take_body(body.as_slice())
                },
            },
            ClientPhase::Body(_) => self.take_body(bytes),
            ClientPhase::Over => ClientWork::Nothing,
        }
    }
}

// --- the way back to the host -------------------------------------------------------------------

/// What the app's calls and the running session share: whether there is a writer to send input
/// through, and the descriptor of the open accessory, negative without one.
pub struct LinkState {
    pub published: bool,
    pub fd: i32,
}

/// What happens to the link.
pub enum LinkEvent {
    /// A session opens an accessory.
    Opened(i32),
    /// That session is over.
    Closed,
    /// A session has introduced itself and publishes its writer.
    Published,
    /// That session is over.
    Ended,
    /// Input could not be written.
    WriteFailed,
    /// The user disconnects.
    Disconnected,
}

/// The link after something has happened to it.
pub open spec fn link_next(st: LinkState, event: LinkEvent) -> LinkState {
    match event {
        LinkEvent::Opened(fd) => LinkState { fd, ..st },
        LinkEvent::Closed => LinkState { fd: -1i32, ..st },
        LinkEvent::Published => LinkState { published: true, ..st },
        LinkEvent::Ended => LinkState { published: false, ..st },
        LinkEvent::WriteFailed => LinkState { published: false, ..st },
        LinkEvent::Disconnected => LinkState { published: false, fd: -1i32 },
    }
}

/// The link after a number of events.
pub open spec fn link_after(st: LinkState, events: Seq<LinkEvent>) -> LinkState
    decreases events.len(),
{
    if events.len() == 0 {
        st
    } else {
        link_next(link_after(st, events.drop_last()), events.last())
    }
}

/// The descriptor to shut down, if an accessory is open.
pub open spec fn open_fd(fd: i32) -> Option<i32> {
    if fd >= 0 {
        Some(fd)
    } else {
        None
    }
}

/// The descriptor to shut down when the user disconnects, if an accessory is open.
pub fn disconnect(aoa_fd: i32) -> (fd: Option<i32>)
    ensures
        fd == open_fd(aoa_fd),
{
    if aoa_fd >= 0 {
        Some(aoa_fd)
    } else {
        None
    }
}

/// The link between the app's calls and the running session.
#[derive(Debug)]
pub struct Link {
    published: bool,
    aoa_fd: i32,
}

impl View for Link {
    type V = LinkState;

    closed spec fn view(&self) -> LinkState {
        LinkState { published: self.published, fd: self.aoa_fd }
    }
}

impl Link {
    /// The link before the first session.
    pub fn new() -> (link: Link)
        ensures
            link@ == (LinkState { published: false, fd: -1i32 }),
    {
        Link { published: false, aoa_fd: -1 }
    }

    /// A session opens an accessory.
    pub fn opened(&mut self, fd: i32)
        ensures
            final(self)@ == link_next(old(self)@, LinkEvent::Opened(fd)),
    {
        self.aoa_fd = fd;
    }

    /// The session of the accessory is over.
    pub fn closed(&mut self)
        ensures
            final(self)@ == link_next(old(self)@, LinkEvent::Closed),
    {
        self.aoa_fd = -1;
    }

    /// A session publishes its writer.
    pub fn published(&mut self)
        ensures
            final(self)@ == link_next(old(self)@, LinkEvent::Published),
    {
        self.published = true;
    }

    /// The session of the writer is over.
    pub fn ended(&mut self)
        ensures
            final(self)@ == link_next(old(self)@, LinkEvent::Ended),
    {
        self.published = false;
    }

    /// Input could not be written: the writer is dropped.
    pub fn write_failed(&mut self)
        ensures
            final(self)@ == link_next(old(self)@, LinkEvent::WriteFailed),
    {
        self.published = false;
    }

    /// Whether input is written. It is dropped otherwise.
    pub fn sends(&self) -> (sends: bool)
        ensures
            sends == self@.published,
    {
        self.published
    }

    /// The user disconnects: the writer is dropped, and the descriptor of an open accessory is handed
    /// out to be shut down.
    pub fn disconnect(&mut self) -> (fd: Option<i32>)
        ensures
            fd == open_fd(old(self)@.fd),
            final(self)@ == link_next(old(self)@, LinkEvent::Disconnected),
    {
        let fd = disconnect(self.aoa_fd);
        self.published = false;
        self.aoa_fd = -1;
        fd
    }
}

/// After the user has disconnected nothing is written until a session publishes a writer, and no
/// descriptor is handed out until a session opens an accessory, whatever else happens. Disconnecting
/// once more changes nothing.
pub proof fn disconnect_lasts(st: LinkState, events: Seq<LinkEvent>)
    ensures
        ({
            let off = link_next(st, LinkEvent::Disconnected);
            let later = link_after(off, events);
            &&& link_next(off, LinkEvent::Disconnected) == off
            &&& open_fd(off.fd) is None
            &&& (forall|i: int| 0 <= i < events.len() ==> !(#[trigger] events[i] is Published))
                ==> !later.published
            &&& (forall|i: int| 0 <= i < events.len() ==> !(#[trigger] events[i] is Opened))
                ==> open_fd(later.fd) is None
        }),
    decreases events.len(),
{
    if events.len() > 0 {
        let earlier = events.drop_last();
        disconnect_lasts(st, earlier);
        assert(forall|i: int| 0 <= i < earlier.len() ==> #[trigger] earlier[i] == events[i]);
        assert(events.last() == events[events.len() - 1]);
    }
}

// --- what holds of every session ----------------------------------------------------------------

/// The body of the frame at the start of `s`.
pub open spec fn first_body(s: Seq<u8>) -> Seq<u8> {
    s.subrange(HEADER_LEN as int, HEADER_LEN + announced(s))
}

/// Every message of the host reaches the tablet as it was sent, whatever follows it, as long as a
/// frame can carry it.
pub proof fn host_message_survives_wire(msg: HostMsg, rest: Seq<u8>)
    requires
        host_bytes(msg).len() <= u32::MAX,
    ensures
        ({
            let s = frame_bytes(host_bytes(msg)) + rest;
            &&& parse_host(first_body(s)) == Some(msg)
            &&& s.skip(HEADER_LEN + announced(s)) == rest
        }),
{
    let body = host_bytes(msg);
    frame_round_trip(body, rest);
    if let HostMsg::VideoFrame { data, .. } = msg {
        assert(data.len() <= body.len());
    }
    host_round_trip(msg, seq![]);
    assert(body + seq![] =~= body);
}

/// Every message of the tablet reaches the host as it was sent, whatever follows it, as long as a
/// frame can carry it.
pub proof fn client_message_survives_wire(msg: ClientMsg, rest: Seq<u8>)
    requires
        client_bytes(msg).len() <= u32::MAX,
    ensures
        ({
            let s = frame_bytes(client_bytes(msg)) + rest;
            &&& parse_client(first_body(s)) == Some(msg)
            &&& s.skip(HEADER_LEN + announced(s)) == rest
        }),
{
    let body = client_bytes(msg);
    frame_round_trip(body, rest);
    short_message_lengths_fit(msg);
    client_round_trip(msg, seq![]);
    assert(body + seq![] =~= body);
}

/// A ping is answered by a frame in which the host reads a pong.
pub proof fn ping_is_answered(rest: Seq<u8>)
    ensures
        ({
            let asked = frame_bytes(host_bytes(HostMsg::Ping)) + rest;
            let answer = frame_bytes(client_bytes(ClientMsg::Pong));
            &&& parse_host(first_body(asked)) == Some(HostMsg::Ping)
            &&& step_for(HostMsg::Ping) == Some(Step::Answer(answer))
            &&& parse_client(first_body(answer)) == Some(ClientMsg::Pong)
        }),
{
    broadcast use crate::bytes::le_u32_len;

    host_message_survives_wire(HostMsg::Ping, rest);
    client_message_survives_wire(ClientMsg::Pong, seq![]);
    let answer = frame_bytes(client_bytes(ClientMsg::Pong));
    assert(answer + seq![] =~= answer);
}

/// An access unit that the host sends is shown as it was cut, as an H.264 frame of the stream's size,
/// as long as a frame can carry it.
pub proof fn access_unit_is_shown(width: u32, height: u32, unit: Seq<u8>, rest: Seq<u8>)
    requires
        unit.len() + 24 <= u32::MAX,
    ensures
        ({
            let sent = HostMsg::VideoFrame { format: PixelFormat::H264, width, height, data: unit };
            let s = frame_bytes(host_bytes(sent)) + rest;
            &&& parse_host(first_body(s)) == Some(sent)
            &&& step_for(sent) == Some(Step::Show { format_id: 2, width, height, data: unit })
            &&& s.skip(HEADER_LEN + announced(s)) == rest
        }),
{
    broadcast use {crate::bytes::le_u32_len, crate::bytes::le_u64_len};

    let sent = HostMsg::VideoFrame { format: PixelFormat::H264, width, height, data: unit };
    host_message_survives_wire(sent, rest);
}

/// Whatever an earlier session left in the pipe, the first message that the tablet reads is the
/// first that the host has written after its preamble, and what follows it is still to be read.
pub proof fn first_message_survives_stale(stale: Seq<u8>, msg: HostMsg, rest: Seq<u8>)
    requires
        no_magic(stale),
        host_bytes(msg).len() <= u32::MAX,
    ensures
        ({
            let stream = stale + preamble() + (frame_bytes(host_bytes(msg)) + rest);
            let synced = stale.len() + MAGIC_LEN;
            let s = stream.skip(synced + PREAMBLE_FILLER_LEN);
            &&& first_magic_end(stream, synced)
            &&& s.len() >= HEADER_LEN + announced(s)
            &&& parse_host(first_body(s)) == Some(msg)
            &&& s.skip(HEADER_LEN + announced(s)) == rest
        }),
{
    broadcast use crate::bytes::be_u32_len;

    sync_skips_stale(stale, frame_bytes(host_bytes(msg)) + rest);
    frame_round_trip(host_bytes(msg), rest);
    host_message_survives_wire(msg, rest);
}

/// What a session does with a stream from which it reads what it wants, piece by piece, as long as
/// the stream goes on.
pub open spec fn client_course(st: ClientState, stream: Seq<u8>) -> Seq<ToDo>
    decreases stream.len(),
{
    let n = wanted_bytes(st.phase);
    if n <= 0 || stream.len() < n {
        seq![]
    } else {
        let (next, work) = client_next(st, stream.take(n));
        (if work == ToDo::Nothing {
            seq![]
        } else {
            seq![work]
        }) + client_course(next, stream.skip(n))
    }
}

/// The frames of some messages, one after another.
pub open spec fn frames_of(msgs: Seq<HostMsg>) -> Seq<u8>
    decreases msgs.len(),
{
    if msgs.len() == 0 {
        seq![]
    } else {
        frame_bytes(host_bytes(msgs.first())) + frames_of(msgs.drop_first())
    }
}

/// What some messages ask for, one after another.
pub open spec fn steps_of(msgs: Seq<HostMsg>) -> Seq<ToDo> {
    msgs.map_values(|m: HostMsg| ToDo::Step(step_for(m)->0))
}

/// A message that a frame can carry and the tablet can follow.
pub open spec fn followed(msg: HostMsg) -> bool {
    host_bytes(msg).len() <= u32::MAX && step_for(msg) is Some
}

/// Frames are followed one by one.
proof fn frames_are_followed(st: ClientState, msgs: Seq<HostMsg>)
    requires
        st.phase == ClientPhase::Header,
        forall|i: int| 0 <= i < msgs.len() ==> followed(#[trigger] msgs[i]),
    ensures
        client_course(st, frames_of(msgs)) == steps_of(msgs),
    decreases msgs.len(),
{
    broadcast use {
        crate::bytes::be_u32_len,
        crate::bytes::le_u32_len,
        crate::bytes::le_u64_len,
    };

    reveal_with_fuel(client_course, 3);
    if msgs.len() == 0 {
        assert(steps_of(msgs) =~= seq![]);
    } else {
        let msg = msgs.first();
        let rest = msgs.drop_first();
        assert(followed(msgs[0]));
        assert forall|i: int| 0 <= i < rest.len() implies followed(#[trigger] rest[i]) by {
            assert(followed(msgs[i + 1]));
        }
        frames_are_followed(st, rest);
        let body = host_bytes(msg);
        let s = frames_of(msgs);
        let n = body.len() as int;
        assert(n >= 4);
        let header = s.take(4);
        assert(header.subrange(0, 4) =~= crate::bytes::be_u32(n as u32));
        crate::bytes::be_u32_round_trip(header, 0, n as u32);
        assert(announced(header) == n);
        let waiting = ClientState { phase: ClientPhase::Body(n as usize), ..st };
        assert(client_next(st, header) == (waiting, ToDo::Nothing));
        let tail = s.skip(4);
        assert(tail.take(n) =~= body);
        assert(tail.skip(n) =~= frames_of(rest));
        if let HostMsg::VideoFrame { data, .. } = msg {
            assert(data.len() <= body.len());
        }
        host_round_trip(msg, seq![]);
        assert(body + seq![] =~= body);
        let work = ToDo::Step(step_for(msg)->0);
        assert(client_next(waiting, body) == (st, work));
        assert(client_course(waiting, tail) == seq![work] + client_course(st, frames_of(rest)));
        assert(client_course(st, s) =~= client_course(waiting, tail));
        assert(steps_of(msgs) =~= seq![work] + steps_of(rest));
    }
}

/// The magic is found at its end, wherever the search stands.
proof fn magic_is_found(st: ClientState, seen: Seq<u8>, ahead: Seq<u8>, rest: Seq<u8>)
    requires
        st.phase == ClientPhase::Sync,
        magic_progress(seen, st.matched),
        no_magic(seen),
        ahead.len() > 0,
        first_magic_end(seen + ahead, (seen + ahead).len() as int),
    ensures
        client_course(st, ahead + rest) == client_course(
            ClientState { phase: ClientPhase::Filler, matched: MAGIC_LEN as int, ..st },
            rest,
        ),
    decreases ahead.len(),
{
    let s = ahead + rest;
    let b = ahead[0];
    let next = seen.push(b);
    let left = ahead.drop_first();
    let all = seen + ahead;
    let matched = sync_step(st.matched, b);
    sync_step_tracks(seen, st.matched, b);
    assert(all =~= next + left);
    assert(s.take(1)[0] == b);
    assert(s.skip(1) =~= left + rest);
    let after = client_next(st, s.take(1)).0;
    assert(seq![] + client_course(after, left + rest) =~= client_course(after, left + rest));
    if left.len() == 0 {
        assert(next =~= all);
        assert(magic_ends_at(next, next.len() as int));
        assert(left + rest =~= rest);
    } else {
        if matched == MAGIC_LEN {
            let e = next.len() as int;
            assert(all.subrange(e - MAGIC_LEN, e) =~= next.subrange(e - MAGIC_LEN, e));
            assert(magic_ends_at(all, e));
        }
        magic_is_found(after, next, left, rest);
    }
}

/// A session from its first byte: whatever an earlier session left in the pipe, the tablet
/// introduces itself exactly once, before anything else, and then follows every message of the host
/// in its order.
pub proof fn session_follows_host(hello: Seq<u8>, stale: Seq<u8>, msgs: Seq<HostMsg>)
    requires
        no_magic(stale),
        forall|i: int| 0 <= i < msgs.len() ==> followed(#[trigger] msgs[i]),
    ensures
        client_course(
            ClientState { phase: ClientPhase::Sync, matched: 0, hello },
            stale + preamble() + frames_of(msgs),
        ) == seq![ToDo::Introduce(hello)] + steps_of(msgs),
{
    let start = ClientState { phase: ClientPhase::Sync, matched: 0, hello };
    let rest = frames_of(msgs);
    let stream = stale + preamble() + rest;
    let ahead = stale + magic();
    let filler = Seq::new(PREAMBLE_FILLER_LEN as nat, |i: int| PREAMBLE_FILLER);
    sync_skips_stale(stale, rest);
    assert(stream =~= ahead + (filler + rest));
    let none = Seq::<u8>::empty();
    magic_start_progress(0);
    assert(magic().take(0) =~= none);
    assert(none + ahead =~= ahead);
    assert forall|e: int| e <= ahead.len() implies magic_ends_at(ahead, e) == magic_ends_at(
        stream,
        e,
    ) by {
        if MAGIC_LEN <= e {
            assert(ahead.subrange(e - MAGIC_LEN, e) =~= stream.subrange(e - MAGIC_LEN, e));
        }
    }
    assert(first_magic_end(ahead, ahead.len() as int)) by {
        assert(magic_ends_at(stream, ahead.len() as int));
        assert forall|d: int| d < ahead.len() implies !magic_ends_at(ahead, d) by {
            assert(!magic_ends_at(stream, d));
        }
    }
    magic_is_found(start, none, ahead, filler + rest);
    let synced = ClientState { phase: ClientPhase::Filler, matched: MAGIC_LEN as int, hello };
    let ready = ClientState { phase: ClientPhase::Header, matched: MAGIC_LEN as int, hello };
    assert((filler + rest).take(PREAMBLE_FILLER_LEN as int) =~= filler);
    assert((filler + rest).skip(PREAMBLE_FILLER_LEN as int) =~= rest);
    assert(client_next(synced, filler) == (ready, ToDo::Introduce(hello)));
    frames_are_followed(ready, msgs);
}

/// Every frame of the video is shown as it was sent, under the number of its format: 0 for plain
/// pixels, 1 for JPEG, 2 for H.264. Only plain pixels are measured: they are refused unless there are
/// four bytes a pixel.
pub proof fn video_is_shown_as_sent(format: PixelFormat, width: u32, height: u32, data: Seq<u8>)
    requires
        data.len() <= u32::MAX,
    ensures
        ({
            let sent = host_bytes(HostMsg::VideoFrame { format, width, height, data });
            body_result(sent) == (match format {
                PixelFormat::H264 => Ok::<Step, ClientError>(
                    Step::Show { format_id: 2, width, height, data },
                ),
                PixelFormat::Jpeg => Ok(Step::Show { format_id: 1, width, height, data }),
                PixelFormat::Rgba8 => if data.len() == width * height * 4 {
                    Ok(Step::Show { format_id: 0, width, height, data })
                } else {
                    Err(
                        ClientError::SizeMismatch {
                            got: data.len() as usize,
                            expected: (width * height * 4) as u128,
                        },
                    )
                },
            })
        }),
        body_result(host_bytes(HostMsg::Ping)) == Ok::<Step, ClientError>(
            Step::Answer(frame_bytes(client_bytes(ClientMsg::Pong))),
        ),
{
    let msg = HostMsg::VideoFrame { format, width, height, data };
    host_round_trip(msg, seq![]);
    assert(host_bytes(msg) + seq![] =~= host_bytes(msg));
    host_round_trip(HostMsg::Ping, seq![]);
    assert(host_bytes(HostMsg::Ping) + seq![] =~= host_bytes(HostMsg::Ping));
}

/// What is no message ends the session.
pub proof fn garbage_ends_session(st: ClientState, body: Seq<u8>)
    requires
        parse_host(body) is None,
    ensures
        after_body(st, body).1 == ToDo::Fail(ClientError::Decode),
        after_body(st, body).0.phase == ClientPhase::Over,
        wanted_bytes(ClientPhase::Over) == 0,
{
}

/// A finger keeps its id on its way to the host, as the number with the same bits, and a tool keeps
/// its kind: 1 is the pen, 2 the eraser, and every other number a finger.
pub proof fn ids_keep_their_bits(id: i32)
    ensures
        (same_bits(id) - id) % 0x1_0000_0000 == 0,
        id >= 0 ==> same_bits(id) == id,
        numbered_tool(1) == PointerTool::Pen,
        numbered_tool(2) == PointerTool::Eraser,
        id != 1 && id != 2 ==> numbered_tool(id) == PointerTool::Finger,
{
}

/// The host reads of a tool what the tablet has seen of it.
pub proof fn tool_is_reported_as_seen(
    x: u32,
    y: u32,
    pressed: bool,
    pressure: u32,
    tool: i32,
    in_range: bool,
)
    ensures
        parse_client(client_bytes(pointer_msg(x, y, pressed, pressure, tool, in_range))) == Some(
            (ClientMsg::Pointer { x, y, pressed, pressure, tool: numbered_tool(tool), in_range }),
        ),
{
    let msg = pointer_msg(x, y, pressed, pressure, tool, in_range);
    client_round_trip(msg, seq![]);
    assert(client_bytes(msg) + seq![] =~= client_bytes(msg));
}

/// The host reads of the fingers that are down, all of them and in their order, what the tablet has
/// seen of them: which they are and where.
pub proof fn fingers_are_reported_as_seen(ids: Seq<i32>, xs: Seq<u32>, ys: Seq<u32>, i: int)
    requires
        xs.len() == ids.len(),
        ys.len() == ids.len(),
        ids.len() <= u64::MAX,
        0 <= i < ids.len(),
    ensures
        parse_client(client_bytes(touches_msg(ids, xs, ys))) matches Some(
            ClientMsg::Touches { points },
        ) && {
            &&& points.len() == ids.len()
            &&& points[i].x == xs[i] && points[i].y == ys[i]
            &&& (points[i].id - ids[i]) % 0x1_0000_0000 == 0
        },
{
    let msg = touches_msg(ids, xs, ys);
    client_round_trip(msg, seq![]);
    assert(client_bytes(msg) + seq![] =~= client_bytes(msg));
    ids_keep_their_bits(ids[i]);
}

/// Input is written while a session has published its writer, until that session ends, a write fails
/// or the user disconnects. What happens to the accessory does not matter for that, and the
/// descriptor is that of the accessory that was opened last, as long as it is open.
pub proof fn link_follows_session(st: LinkState, fd: i32)
    ensures
        link_next(st, LinkEvent::Published) == (LinkState { published: true, fd: st.fd }),
        link_next(st, LinkEvent::Ended) == (LinkState { published: false, fd: st.fd }),
        link_next(st, LinkEvent::WriteFailed) == (LinkState { published: false, fd: st.fd }),
        link_next(st, LinkEvent::Opened(fd)) == (LinkState { published: st.published, fd }),
        link_next(st, LinkEvent::Closed) == (LinkState { published: st.published, fd: -1i32 }),
        open_fd(fd) == Some(fd) <==> fd >= 0,
        open_fd(fd) is None <==> fd < 0,
{
}

} // verus!
