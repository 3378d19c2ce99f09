//! The messages that host and client exchange, and the host's status record.
//!
//! Coordinates and pressure travel as IEEE 754 single-precision numbers. Nothing here computes with
//! them, so they are held as their 32-bit patterns.

use vstd::prelude::*;
use vstd::string::*;

verus! {

/// Live host status, written by the host every half second and read by the panel.
#[derive(Debug, Default)]
pub struct Status {
    pub listen_addr: String,
    pub mode: String,
    pub clients: Vec<ClientStatus>,
}

/// One connected client.
#[derive(Debug, Default)]
pub struct ClientStatus {
    pub peer: String,
    pub width: u32,
    pub height: u32,
}

/// How the payload of a video frame is encoded.
#[derive(Debug, Clone, Copy, PartialEq, Eq, Structural)]
pub enum PixelFormat {
    /// Row-major, 8 bits per channel, R, G, B, A byte order per pixel. The payload holds
    /// `width * height * 4` bytes.
    Rgba8,
    /// Standard JPEG bytes. The payload is one encoded frame.
    Jpeg,
    /// H.264 Annex-B byte stream. The payload is a chunk of the continuous encoded stream.
    H264,
}

/// What the host sends.
#[derive(Debug)]
pub enum HostMessage {
    VideoFrame { format: PixelFormat, width: u32, height: u32, data: Vec<u8> },
    Ping,
}

/// The tool behind a pointer event.
#[derive(Debug, Clone, Copy, PartialEq, Eq, Structural)]
pub enum PointerTool {
    Finger,
    Pen,
    Eraser,
}

/// One finger that is down.
#[derive(Debug, Clone, Copy, PartialEq, Eq, Structural)]
pub struct TouchPoint {
    /// Stable per-finger identifier from the client's input layer.
    pub id: u32,
    /// Bit pattern of the horizontal position.
    pub x: u32,
    /// Bit pattern of the vertical position.
    pub y: u32,
}

/// What a client sends.
#[derive(Debug)]
pub enum ClientMessage {
    /// First message of a session: the client's name and its screen size in pixels.
    Hello { device_name: String, width: u32, height: u32 },
    /// Pen, stylus or eraser: one tool with pressure and proximity.
    Pointer { x: u32, y: u32, pressed: bool, pressure: u32, tool: PointerTool, in_range: bool },
    /// Snapshot of the fingers that are down. An empty list means that all are released.
    Touches { points: Vec<TouchPoint> },
    Pong,
}

/// The value of a [`HostMessage`].
pub enum HostMsg {
    VideoFrame { format: PixelFormat, width: u32, height: u32, data: Seq<u8> },
    Ping,
}

impl View for HostMessage {
    type V = HostMsg;

    open spec fn view(&self) -> HostMsg {
        match *self {
            HostMessage::VideoFrame { format, width, height, data } => HostMsg::VideoFrame {
                format,
                width,
                height,
                data: data@,
            },
            HostMessage::Ping => HostMsg::Ping,
        }
    }
}

/// The value of a [`ClientMessage`].
pub enum ClientMsg {
    Hello { device_name: Seq<char>, width: u32, height: u32 },
    Pointer { x: u32, y: u32, pressed: bool, pressure: u32, tool: PointerTool, in_range: bool },
    Touches { points: Seq<TouchPoint> },
    Pong,
}

impl View for ClientMessage {
    type V = ClientMsg;

    open spec fn view(&self) -> ClientMsg {
        match *self {
            ClientMessage::Hello { device_name, width, height } => ClientMsg::Hello {
                device_name: device_name@,
                width,
                height,
            },
            ClientMessage::Pointer { x, y, pressed, pressure, tool, in_range } => {
                ClientMsg::Pointer { x, y, pressed, pressure, tool, in_range }
            },
            ClientMessage::Touches { points } => ClientMsg::Touches { points: points@ },
            ClientMessage::Pong => ClientMsg::Pong,
        }
    }
}

/// The value of a [`ClientStatus`].
pub struct ClientRecord {
    pub peer: Seq<char>,
    pub width: u32,
    pub height: u32,
}

impl View for ClientStatus {
    type V = ClientRecord;

    open spec fn view(&self) -> ClientRecord {
        ClientRecord { peer: self.peer@, width: self.width, height: self.height }
    }
}

/// The value of a [`Status`].
pub struct StatusRecord {
    pub listen_addr: Seq<char>,
    pub mode: Seq<char>,
    pub clients: Seq<ClientRecord>,
}

impl View for Status {
    type V = StatusRecord;

    open spec fn view(&self) -> StatusRecord {
        StatusRecord {
            listen_addr: self.listen_addr@,
            mode: self.mode@,
            clients: self.clients@.map_values(|c: ClientStatus| c@),
        }
    }
}

impl Clone for ClientStatus {
    fn clone(&self) -> (copy: ClientStatus)
        ensures
            copy@ == self@,
    {
        ClientStatus {
            peer: String::from_str(self.peer.as_str()),
            width: self.width,
            height: self.height,
        }
    }
}

impl Clone for Status {
    fn clone(&self) -> (copy: Status)
        ensures
            copy@ == self@,
    {
        let mut clients: Vec<ClientStatus> = Vec::new();
        let ghost all = self@.clients;
        let mut i: usize = 0;
        while i < self.clients.len()
            invariant
                i <= self.clients@.len(),
                all == self.clients@.map_values(|c: ClientStatus| c@),
                clients@.map_values(|c: ClientStatus| c@) == all.take(i as int),
            decreases self.clients@.len() - i,
        {
            let ghost before = clients@;
            let c = self.clients[i].clone();
            let ghost r = c@;
            clients.push(c);
            i += 1;
            assert(clients@.map_values(|c: ClientStatus| c@) =~= before.map_values(
                |c: ClientStatus| c@,
            ).push(r));
            assert(all.take(i as int) =~= all.take(i - 1).push(all[i - 1]));
        }
        assert(all.take(i as int) =~= all);
        Status {
            listen_addr: String::from_str(self.listen_addr.as_str()),
            mode: String::from_str(self.mode.as_str()),
            clients,
        }
    }
}

} // verus!
