//! The body of a wire frame: one message in bincode's default encoding.
//!
//! Integers are little-endian and of fixed width, an enum starts with its variant's index as a
//! `u32`, a string or list starts with its length as a `u64`, and fields follow one another without
//! padding. Bytes behind the last field are ignored when a message is read.

use vstd::prelude::*;
use vstd::utf8::{
    decode_utf8, decode_utf8_encode_utf8, encode_utf8, encode_utf8_decode_utf8,
    encode_utf8_valid_utf8, valid_utf8,
};

use crate::bytes::{le_u32, le_u32_at, le_u32_round_trip, le_u64, le_u64_at, le_u64_round_trip};
use crate::message::{ClientMessage, HostMessage, PixelFormat, PointerTool, TouchPoint};
use crate::message::{ClientMsg, HostMsg};

verus! {

broadcast use {crate::bytes::le_u32_len, crate::bytes::le_u64_len};

/// `bincode::ErrorKind`, the reason why a message could not be read.
#[verifier::external_type_specification]
#[verifier::external_body]
pub struct ExErrorKind(bincode::ErrorKind);

/// A frame body that is not a message.
#[derive(Debug, Clone, Copy, PartialEq, Eq, Structural)]
pub struct DecodeError;

// --- what the encoding of each message looks like ---------------------------------------------

/// The byte that stands for a `bool`.
pub open spec fn bool_byte(b: bool) -> u8 {
    if b {
        1
    } else {
        0
    }
}

/// Variant index of a pixel format.
pub open spec fn format_index(format: PixelFormat) -> u32 {
    match format {
        PixelFormat::Rgba8 => 0,
        PixelFormat::Jpeg => 1,
        PixelFormat::H264 => 2,
    }
}

/// The pixel format with a given variant index.
pub open spec fn format_of_index(index: u32) -> Option<PixelFormat> {
    if index == 0 {
        Some(PixelFormat::Rgba8)
    } else if index == 1 {
        Some(PixelFormat::Jpeg)
    } else if index == 2 {
        Some(PixelFormat::H264)
    } else {
        None
    }
}

/// Variant index of a pointer tool.
pub open spec fn tool_index(tool: PointerTool) -> u32 {
    match tool {
        PointerTool::Finger => 0,
        PointerTool::Pen => 1,
        PointerTool::Eraser => 2,
    }
}

/// The pointer tool with a given variant index.
pub open spec fn tool_of_index(index: u32) -> Option<PointerTool> {
    if index == 0 {
        Some(PointerTool::Finger)
    } else if index == 1 {
        Some(PointerTool::Pen)
    } else if index == 2 {
        Some(PointerTool::Eraser)
    } else {
        None
    }
}

/// Encoding of a tag, four-byte fields and a byte list, in that order.
pub open spec fn video_bytes(tag: u32, format: u32, width: u32, height: u32, data: Seq<u8>) -> Seq<
    u8,
> {
    le_u32(tag) + le_u32(format) + le_u32(width) + le_u32(height) + le_u64(data.len() as u64) + data
}

/// Encoding of a tag, a string and two four-byte fields, in that order.
pub open spec fn hello_bytes(tag: u32, name: Seq<char>, width: u32, height: u32) -> Seq<u8> {
    le_u32(tag) + le_u64(encode_utf8(name).len() as u64) + encode_utf8(name) + le_u32(width)
        + le_u32(height)
}

/// Encoding of a tag and the fields of a pointer event, in that order.
pub open spec fn pointer_bytes(
    tag: u32,
    x: u32,
    y: u32,
    pressed: bool,
    pressure: u32,
    tool: u32,
    in_range: bool,
) -> Seq<u8> {
    le_u32(tag) + le_u32(x) + le_u32(y) + seq![bool_byte(pressed)] + le_u32(pressure) + le_u32(tool)
        + seq![bool_byte(in_range)]
}

/// Encoding of a list of triples without its length.
pub open spec fn triples_bytes(triples: Seq<(u32, u32, u32)>) -> Seq<u8>
    decreases triples.len(),
{
    if triples.len() == 0 {
        seq![]
    } else {
        let last = triples.last();
        triples_bytes(triples.drop_last()) + le_u32(last.0) + le_u32(last.1) + le_u32(last.2)
    }
}

/// Encoding of a tag and a list of triples.
pub open spec fn touches_bytes(tag: u32, triples: Seq<(u32, u32, u32)>) -> Seq<u8> {
    le_u32(tag) + le_u64(triples.len() as u64) + triples_bytes(triples)
}

/// The triple of fields behind a touch point.
pub open spec fn triple_of(p: TouchPoint) -> (u32, u32, u32) {
    (p.id, p.x, p.y)
}

/// The frame body of a host message.
pub open spec fn host_bytes(msg: HostMsg) -> Seq<u8> {
    match msg {
        HostMsg::VideoFrame { format, width, height, data } => video_bytes(
            0,
            format_index(format),
            width,
            height,
            data,
        ),
        HostMsg::Ping => le_u32(1),
    }
}

/// The frame body of a client message.
pub open spec fn client_bytes(msg: ClientMsg) -> Seq<u8> {
    match msg {
        ClientMsg::Hello { device_name, width, height } => hello_bytes(
            0,
            device_name,
            width,
            height,
        ),
        ClientMsg::Pointer { x, y, pressed, pressure, tool, in_range } => pointer_bytes(
            1,
            x,
            y,
            pressed,
            pressure,
            tool_index(tool),
            in_range,
        ),
        ClientMsg::Touches { points } => touches_bytes(
            2,
            points.map_values(|p: TouchPoint| triple_of(p)),
        ),
        ClientMsg::Pong => le_u32(3),
    }
}

// --- what is read out of bytes ----------------------------------------------------------------

/// The tag at the start of `s`.
pub open spec fn read_tag(s: Seq<u8>) -> Option<u32> {
    if s.len() < 4 {
        None
    } else {
        Some(le_u32_at(s, 0))
    }
}

/// The tag, four-byte fields and byte list at the start of `s`.
pub open spec fn read_video(s: Seq<u8>) -> Option<(u32, u32, u32, u32, Seq<u8>)> {
    if s.len() < 24 || s.len() < 24 + le_u64_at(s, 16) {
        None
    } else {
        Some(
            (
                le_u32_at(s, 0),
                le_u32_at(s, 4),
                le_u32_at(s, 8),
                le_u32_at(s, 12),
                s.subrange(24, 24 + le_u64_at(s, 16)),
            ),
        )
    }
}

/// The tag, string and two four-byte fields at the start of `s`.
pub open spec fn read_name_and_size(s: Seq<u8>) -> Option<(u32, Seq<char>, u32, u32)> {
    if s.len() < 12 || s.len() < 20 + le_u64_at(s, 4) || !valid_utf8(
        s.subrange(12, 12 + le_u64_at(s, 4)),
    ) {
        None
    } else {
        let end = 12 + le_u64_at(s, 4);
        Some(
            (
                le_u32_at(s, 0),
                decode_utf8(s.subrange(12, end)),
                le_u32_at(s, end),
                le_u32_at(s, end + 4),
            ),
        )
    }
}

/// The tag and the fields of a pointer event at the start of `s`.
pub open spec fn read_pointer(s: Seq<u8>) -> Option<(u32, u32, u32, bool, u32, u32, bool)> {
    if s.len() < 22 || s[12] > 1 || s[21] > 1 {
        None
    } else {
        Some(
            (
                le_u32_at(s, 0),
                le_u32_at(s, 4),
                le_u32_at(s, 8),
                s[12] == 1,
                le_u32_at(s, 13),
                le_u32_at(s, 17),
                s[21] == 1,
            ),
        )
    }
}

/// The tag and the list of triples at the start of `s`.
pub open spec fn read_triples(s: Seq<u8>) -> Option<(u32, Seq<(u32, u32, u32)>)> {
    if s.len() < 12 || s.len() < 12 + le_u64_at(s, 4) * 12 {
        None
    } else {
        Some(
            (
                le_u32_at(s, 0),
                Seq::new(
                    le_u64_at(s, 4) as nat,
                    |i: int|
                        (
                            le_u32_at(s, 12 + i * 12),
                            le_u32_at(s, 16 + i * 12),
                            le_u32_at(s, 20 + i * 12),
                        ),
                ),
            ),
        )
    }
}

/// The touch point made of a triple of fields.
pub open spec fn point_of(t: (u32, u32, u32)) -> TouchPoint {
    TouchPoint { id: t.0, x: t.1, y: t.2 }
}

/// The host message in a frame body.
pub open spec fn parse_host(s: Seq<u8>) -> Option<HostMsg> {
    match read_tag(s) {
        Some(0u32) => match read_video(s) {
            Some((_, index, width, height, data)) => match format_of_index(index) {
                Some(format) => Some(HostMsg::VideoFrame { format, width, height, data }),
                None => None,
            },
            None => None,
        },
        Some(1u32) => Some(HostMsg::Ping),
        _ => None,
    }
}

/// The client message in a frame body.
pub open spec fn parse_client(s: Seq<u8>) -> Option<ClientMsg> {
    match read_tag(s) {
        Some(0u32) => match read_name_and_size(s) {
            Some((_, device_name, width, height)) => Some(
                ClientMsg::Hello { device_name, width, height },
            ),
            None => None,
        },
        Some(1u32) => match read_pointer(s) {
            Some((_, x, y, pressed, pressure, index, in_range)) => match tool_of_index(index) {
                Some(tool) => Some(
                    ClientMsg::Pointer { x, y, pressed, pressure, tool, in_range },
                ),
                None => None,
            },
            None => None,
        },
        Some(2u32) => match read_triples(s) {
            Some((_, triples)) => Some(
                ClientMsg::Touches {
                    points: triples.map_values(|t: (u32, u32, u32)| point_of(t)),
                },
            ),
            None => None,
        },
        Some(3u32) => Some(ClientMsg::Pong),
        _ => None,
    }
}

// --- reading gives back what was written -------------------------------------------------------

/// A message that fits the format's 64-bit lengths.
pub open spec fn lengths_fit(msg: ClientMsg) -> bool {
    match msg {
        ClientMsg::Hello { device_name, .. } => encode_utf8(device_name).len() <= u64::MAX,
        ClientMsg::Touches { points } => points.len() <= u64::MAX,
        _ => true,
    }
}

/// The `i`-th triple of a list is found at its place in the encoding.
proof fn triples_at(triples: Seq<(u32, u32, u32)>, i: int)
    requires
        0 <= i < triples.len(),
    ensures
        triples_bytes(triples).len() == triples.len() * 12,
        triples_bytes(triples).subrange(i * 12, i * 12 + 4) == le_u32(triples[i].0),
        triples_bytes(triples).subrange(i * 12 + 4, i * 12 + 8) == le_u32(triples[i].1),
        triples_bytes(triples).subrange(i * 12 + 8, i * 12 + 12) == le_u32(triples[i].2),
    decreases triples.len(),
{
    let init = triples.drop_last();
    let last = triples.last();
    let b = triples_bytes(triples);
    let a = triples_bytes(init);
    triples_bytes_len(init);
    assert(b == a + le_u32(last.0) + le_u32(last.1) + le_u32(last.2));
    if i == triples.len() - 1 {
        assert(b.subrange(i * 12, i * 12 + 4) =~= le_u32(last.0));
        assert(b.subrange(i * 12 + 4, i * 12 + 8) =~= le_u32(last.1));
        assert(b.subrange(i * 12 + 8, i * 12 + 12) =~= le_u32(last.2));
    } else {
        triples_at(init, i);
        assert(b.subrange(i * 12, i * 12 + 4) =~= a.subrange(i * 12, i * 12 + 4));
        assert(b.subrange(i * 12 + 4, i * 12 + 8) =~= a.subrange(i * 12 + 4, i * 12 + 8));
        assert(b.subrange(i * 12 + 8, i * 12 + 12) =~= a.subrange(i * 12 + 8, i * 12 + 12));
    }
}

/// A list of triples takes twelve bytes for each.
proof fn triples_bytes_len(triples: Seq<(u32, u32, u32)>)
    ensures
        triples_bytes(triples).len() == triples.len() * 12,
    decreases triples.len(),
{
    if triples.len() > 0 {
        triples_bytes_len(triples.drop_last());
    }
}

/// A message whose encoding is shorter than 2^64 bytes has no longer part.
pub proof fn short_message_lengths_fit(msg: ClientMsg)
    requires
        client_bytes(msg).len() <= u64::MAX,
    ensures
        lengths_fit(msg),
{
    if let ClientMsg::Touches { points } = msg {
        triples_bytes_len(points.map_values(|p: TouchPoint| triple_of(p)));
    }
}

/// Reading the frame body of a host message gives the message back, whatever follows it.
pub proof fn host_round_trip(msg: HostMsg, rest: Seq<u8>)
    requires
        msg matches HostMsg::VideoFrame { data, .. } ==> data.len() <= u64::MAX,
    ensures
        parse_host(host_bytes(msg) + rest) == Some(msg),
{
    let s = host_bytes(msg) + rest;
    match msg {
        HostMsg::VideoFrame { format, width, height, data } => {
            let index = format_index(format);
            assert(s.subrange(0, 4) =~= le_u32(0));
            assert(s.subrange(4, 8) =~= le_u32(index));
            assert(s.subrange(8, 12) =~= le_u32(width));
            assert(s.subrange(12, 16) =~= le_u32(height));
            assert(s.subrange(16, 24) =~= le_u64(data.len() as u64));
            le_u32_round_trip(s, 0, 0);
            le_u32_round_trip(s, 4, index);
            le_u32_round_trip(s, 8, width);
            le_u32_round_trip(s, 12, height);
            le_u64_round_trip(s, 16, data.len() as u64);
            assert(s.subrange(24, 24 + data.len() as int) =~= data);
        },
        HostMsg::Ping => {
            assert(s.subrange(0, 4) =~= le_u32(1));
            le_u32_round_trip(s, 0, 1);
        },
    }
}

/// Reading the frame body of a client message gives the message back, whatever follows it.
pub proof fn client_round_trip(msg: ClientMsg, rest: Seq<u8>)
    requires
        lengths_fit(msg),
    ensures
        parse_client(client_bytes(msg) + rest) == Some(msg),
{
    let s = client_bytes(msg) + rest;
    match msg {
        ClientMsg::Hello { device_name, width, height } => {
            let name = encode_utf8(device_name);
            let end = 12 + name.len() as int;
            assert(s.subrange(0, 4) =~= le_u32(0));
            assert(s.subrange(4, 12) =~= le_u64(name.len() as u64));
            assert(s.subrange(12, end) =~= name);
            assert(s.subrange(end, end + 4) =~= le_u32(width));
            assert(s.subrange(end + 4, end + 8) =~= le_u32(height));
            le_u32_round_trip(s, 0, 0);
            le_u64_round_trip(s, 4, name.len() as u64);
            le_u32_round_trip(s, end, width);
            le_u32_round_trip(s, end + 4, height);
            encode_utf8_valid_utf8(device_name);
            encode_utf8_decode_utf8(device_name);
        },
        ClientMsg::Pointer { x, y, pressed, pressure, tool, in_range } => {
            let index = tool_index(tool);
            assert(s.subrange(0, 4) =~= le_u32(1));
            assert(s.subrange(4, 8) =~= le_u32(x));
            assert(s.subrange(8, 12) =~= le_u32(y));
            assert(s.subrange(13, 17) =~= le_u32(pressure));
            assert(s.subrange(17, 21) =~= le_u32(index));
            le_u32_round_trip(s, 0, 1);
            le_u32_round_trip(s, 4, x);
            le_u32_round_trip(s, 8, y);
            le_u32_round_trip(s, 13, pressure);
            le_u32_round_trip(s, 17, index);
        },
        ClientMsg::Touches { points } => {
            let triples = points.map_values(|p: TouchPoint| triple_of(p));
            let body = triples_bytes(triples);
            triples_bytes_len(triples);
            assert(s.subrange(0, 4) =~= le_u32(2));
            assert(s.subrange(4, 12) =~= le_u64(triples.len() as u64));
            le_u32_round_trip(s, 0, 2);
            le_u64_round_trip(s, 4, triples.len() as u64);
            let read = read_triples(s).unwrap().1;
            assert forall|i: int| 0 <= i < points.len() implies #[trigger] read[i]
                == triples[i] by {
                triples_at(triples, i);
                let at = 12 + i * 12;
                assert(s.subrange(at, at + 4) =~= body.subrange(i * 12, i * 12 + 4));
                assert(s.subrange(at + 4, at + 8) =~= body.subrange(i * 12 + 4, i * 12 + 8));
                assert(s.subrange(at + 8, at + 12) =~= body.subrange(i * 12 + 8, i * 12 + 12));
                le_u32_round_trip(s, at, triples[i].0);
                le_u32_round_trip(s, at + 4, triples[i].1);
                le_u32_round_trip(s, at + 8, triples[i].2);
            }
            assert(read.map_values(|t: (u32, u32, u32)| point_of(t)) =~= points);
        },
        ClientMsg::Pong => {
            assert(s.subrange(0, 4) =~= le_u32(3));
            le_u32_round_trip(s, 0, 3);
        },
    }
}

// --- calls into bincode -----------------------------------------------------------------------

/// `bincode::serialize` of a tag: four little-endian bytes. It does not fail.
#[verifier::external_body]
fn bincode_tag(tag: u32) -> (body: Result<Vec<u8>, bincode::Error>)
    ensures
        body is Ok,
        body->Ok_0@ == le_u32(tag),
{
    bincode::serialize(&tag)
}

/// `bincode::serialize` of a tag, three `u32` and a byte slice: the fields one after another, the
/// slice behind its length. It does not fail.
#[verifier::external_body]
fn bincode_video(tag: u32, format: u32, width: u32, height: u32, data: &[u8]) -> (body: Result<
    Vec<u8>,
    bincode::Error,
>)
    ensures
        body is Ok,
        body->Ok_0@ == video_bytes(tag, format, width, height, data@),
{
    bincode::serialize(&(tag, format, width, height, data))
}

/// `bincode::serialize` of a tag, a string and two `u32`: the fields one after another, the string
/// as UTF-8 behind its length in bytes. It does not fail.
#[verifier::external_body]
fn bincode_hello(tag: u32, name: &str, width: u32, height: u32) -> (body: Result<
    Vec<u8>,
    bincode::Error,
>)
    ensures
        body is Ok,
        body->Ok_0@ == hello_bytes(tag, name@, width, height),
{
    bincode::serialize(&(tag, name, width, height))
}

/// `bincode::serialize` of a tag and the fields of a pointer event: one after another, a `bool` as
/// one byte that is 0 or 1. It does not fail.
#[verifier::external_body]
fn bincode_pointer(
    tag: u32,
    x: u32,
    y: u32,
    pressed: bool,
    pressure: u32,
    tool: u32,
    in_range: bool,
) -> (body: Result<Vec<u8>, bincode::Error>)
    ensures
        body is Ok,
        body->Ok_0@ == pointer_bytes(tag, x, y, pressed, pressure, tool, in_range),
{
    bincode::serialize(&(tag, x, y, pressed, pressure, tool, in_range))
}

/// `bincode::serialize` of a tag and a list of triples of `u32`: the tag, the list's length, then
/// the triples one after another. It does not fail.
#[verifier::external_body]
fn bincode_touches(tag: u32, triples: &Vec<(u32, u32, u32)>) -> (body: Result<
    Vec<u8>,
    bincode::Error,
>)
    ensures
        body is Ok,
        body->Ok_0@ == touches_bytes(tag, triples@),
{
    bincode::serialize(&(tag, triples))
}

/// `bincode::deserialize` to a `u32`: the first four bytes, little-endian. It fails when there are
/// fewer; further bytes are ignored.
#[verifier::external_body]
fn unbincode_tag(body: &[u8]) -> (tag: Result<u32, bincode::Error>)
    ensures
        match tag {
            Ok(t) => read_tag(body@) == Some(t),
            Err(_) => read_tag(body@) is None,
        },
{
    bincode::deserialize(body)
}

/// `bincode::deserialize` to four `u32` and a byte list. It fails when bytes are missing; further
/// bytes are ignored.
#[verifier::external_body]
fn unbincode_video(body: &[u8]) -> (fields: Result<
    (u32, u32, u32, u32, Vec<u8>),
    bincode::Error,
>)
    ensures
        match fields {
            Ok(f) => read_video(body@) == Some((f.0, f.1, f.2, f.3, f.4@)),
            Err(_) => read_video(body@) is None,
        },
{
    bincode::deserialize(body)
}

/// `bincode::deserialize` to a `u32`, a string and two `u32`. It fails when bytes are missing or
/// the string is not UTF-8; further bytes are ignored.
#[verifier::external_body]
fn unbincode_hello(body: &[u8]) -> (fields: Result<(u32, String, u32, u32), bincode::Error>)
    ensures
        match fields {
            Ok(f) => read_name_and_size(body@) == Some((f.0, f.1@, f.2, f.3)),
            Err(_) => read_name_and_size(body@) is None,
        },
{
    bincode::deserialize(body)
}

/// `bincode::deserialize` to the fields of a pointer event. It fails when bytes are missing or a
/// `bool` is neither 0 nor 1; further bytes are ignored.
#[verifier::external_body]
fn unbincode_pointer(body: &[u8]) -> (fields: Result<
    (u32, u32, u32, bool, u32, u32, bool),
    bincode::Error,
>)
    ensures
        match fields {
            Ok(f) => read_pointer(body@) == Some(f),
            Err(_) => read_pointer(body@) is None,
        },
{
    bincode::deserialize(body)
}

/// `bincode::deserialize` to a `u32` and a list of triples of `u32`. It fails when bytes are
/// missing; further bytes are ignored.
#[verifier::external_body]
fn unbincode_touches(body: &[u8]) -> (fields: Result<
    (u32, Vec<(u32, u32, u32)>),
    bincode::Error,
>)
    ensures
        match fields {
            Ok(f) => read_triples(body@) == Some((f.0, f.1@)),
            Err(_) => read_triples(body@) is None,
        },
{
    bincode::deserialize(body)
}

// --- messages ---------------------------------------------------------------------------------

impl HostMessage {
    /// The frame body of this message.
    pub fn encode(&self) -> (body: Vec<u8>)
        ensures
            body@ == host_bytes(self@),
    {
        let body = match self {
            HostMessage::VideoFrame { format, width, height, data } => {
                let index: u32 = match format {
                    PixelFormat::Rgba8 => 0,
                    PixelFormat::Jpeg => 1,
                    PixelFormat::H264 => 2,
                };
                bincode_video(0, index, *width, *height, data.as_slice())
            },
            HostMessage::Ping => bincode_tag(1),
        };
        body.unwrap()
    }

    /// The message in a frame body.
    pub fn decode(body: &[u8]) -> (msg: Result<HostMessage, DecodeError>)
        ensures
            match msg {
                Ok(m) => parse_host(body@) == Some(m@),
                Err(_) => parse_host(body@) is None,
            },
    {
        let tag: u32 = match unbincode_tag(body) {
            Ok(tag) => tag,
            Err(_) => return Err(DecodeError),
        };
        if tag == 0 {
            match unbincode_video(body) {
                Ok((_, index, width, height, data)) => {
                    let format = if index == 0 {
                        PixelFormat::Rgba8
                    } else if index == 1 {
                        PixelFormat::Jpeg
                    } else if index == 2 {
                        PixelFormat::H264
                    } else {
                        return Err(DecodeError);
                    };
                    Ok(HostMessage::VideoFrame { format, width, height, data })
                },
                Err(_) => Err(DecodeError),
            }
        } else if tag == 1 {
            Ok(HostMessage::Ping)
        } else {
            Err(DecodeError)
        }
    }
}

impl ClientMessage {
    /// The frame body of this message.
    pub fn encode(&self) -> (body: Vec<u8>)
        ensures
            body@ == client_bytes(self@),
    {
        let body = match self {
            ClientMessage::Hello { device_name, width, height } => bincode_hello(
                0,
                device_name.as_str(),
                *width,
                *height,
            ),
            ClientMessage::Pointer { x, y, pressed, pressure, tool, in_range } => {
                let index: u32 = match tool {
                    PointerTool::Finger => 0,
                    PointerTool::Pen => 1,
                    PointerTool::Eraser => 2,
                };
                bincode_pointer(1, *x, *y, *pressed, *pressure, index, *in_range)
            },
            ClientMessage::Touches { points } => {
                let mut triples: Vec<(u32, u32, u32)> = Vec::with_capacity(points.len());
                for i in 0..points.len()
                    invariant
                        triples@.len() == i,
                        forall|j: int| 0 <= j < i ==> triples@[j] == triple_of(points@[j]),
                {
                    triples.push((points[i].id, points[i].x, points[i].y));
                }
                assert(triples@ =~= points@.map_values(|p: TouchPoint| triple_of(p)));
                bincode_touches(2, &triples)
            },
            ClientMessage::Pong => bincode_tag(3),
        };
        body.unwrap()
    }

    /// The message in a frame body.
    pub fn decode(body: &[u8]) -> (msg: Result<ClientMessage, DecodeError>)
        ensures
            match msg {
                Ok(m) => parse_client(body@) == Some(m@),
                Err(_) => parse_client(body@) is None,
            },
    {
        let tag: u32 = match unbincode_tag(body) {
            Ok(tag) => tag,
            Err(_) => return Err(DecodeError),
        };
        if tag == 0 {
            match unbincode_hello(body) {
                Ok((_, device_name, width, height)) => Ok(
                    ClientMessage::Hello { device_name, width, height },
                ),
                Err(_) => Err(DecodeError),
            }
        } else if tag == 1 {
            match unbincode_pointer(body) {
                Ok((_, x, y, pressed, pressure, index, in_range)) => {
                    let tool = if index == 0 {
                        PointerTool::Finger
                    } else if index == 1 {
                        PointerTool::Pen
                    } else if index == 2 {
                        PointerTool::Eraser
                    } else {
                        return Err(DecodeError);
                    };
                    Ok(ClientMessage::Pointer { x, y, pressed, pressure, tool, in_range })
                },
                Err(_) => Err(DecodeError),
            }
        } else if tag == 2 {
            match unbincode_touches(body) {
                Ok((_, triples)) => {
                    let mut points: Vec<TouchPoint> = Vec::with_capacity(triples.len());
                    for i in 0..triples.len()
                        invariant
                            points@.len() == i,
                            forall|j: int| 0 <= j < i ==> points@[j] == point_of(triples@[j]),
                    {
                        let t = triples[i];
                        points.push(TouchPoint { id: t.0, x: t.1, y: t.2 });
                    }
                    assert(points@ =~= triples@.map_values(|t: (u32, u32, u32)| point_of(t)));
                    Ok(ClientMessage::Touches { points })
                },
                Err(_) => Err(DecodeError),
            }
        } else if tag == 3 {
            Ok(ClientMessage::Pong)
        } else {
            Err(DecodeError)
        }
    }
}

// --- where each field stands ----------------------------------------------------------------------

/// The number in the four bytes at an index, the least significant first.
pub open spec fn number_at(b: Seq<u8>, at: int) -> int {
    b[at] + b[at + 1] * 0x100 + b[at + 2] * 0x1_0000 + b[at + 3] * 0x100_0000
}

/// Four bytes in the middle of an encoding hold a number.
proof fn number_stands_at(b: Seq<u8>, at: int, x: u32)
    requires
        0 <= at,
        at + 4 <= b.len(),
        b.subrange(at, at + 4) == le_u32(x),
    ensures
        number_at(b, at) == x,
{
    reveal(le_u32);
    let part = b.subrange(at, at + 4);
    assert(part[0] == b[at] && part[1] == b[at + 1] && part[2] == b[at + 2] && part[3] == b[at + 3]);
}

/// Eight bytes in the middle of an encoding hold a number.
proof fn long_number_stands_at(b: Seq<u8>, at: int, x: u64)
    requires
        0 <= at,
        at + 8 <= b.len(),
        b.subrange(at, at + 8) == le_u64(x),
    ensures
        number_at(b, at) + number_at(b, at + 4) * 0x1_0000_0000 == x,
{
    reveal(le_u64);
    let part = b.subrange(at, at + 8);
    let low = (x % 0x1_0000_0000) as u32;
    let high = (x / 0x1_0000_0000) as u32;
    assert(b.subrange(at, at + 4) =~= part.subrange(0, 4));
    assert(b.subrange(at + 4, at + 8) =~= part.subrange(4, 8));
    assert(part.subrange(0, 4) =~= le_u32(low));
    assert(part.subrange(4, 8) =~= le_u32(high));
    number_stands_at(b, at, low);
    number_stands_at(b, at + 4, high);
}

/// A frame of the video is its kind, its format, its size, its length and its data, and a ping is its
/// kind alone.
pub proof fn host_message_layout(format: PixelFormat, width: u32, height: u32, data: Seq<u8>)
    requires
        data.len() <= u64::MAX,
    ensures
        ({
            let b = host_bytes(HostMsg::VideoFrame { format, width, height, data });
            &&& b.len() == 24 + data.len()
            &&& number_at(b, 0) == 0
            &&& number_at(b, 4) == (match format {
                PixelFormat::Rgba8 => 0int,
                PixelFormat::Jpeg => 1,
                PixelFormat::H264 => 2,
            })
            &&& number_at(b, 8) == width
            &&& number_at(b, 12) == height
            &&& number_at(b, 16) + number_at(b, 20) * 0x1_0000_0000 == data.len()
            &&& b.skip(24) == data
        }),
        host_bytes(HostMsg::Ping).len() == 4,
        number_at(host_bytes(HostMsg::Ping), 0) == 1,
{
    let index = format_index(format);
    let b = host_bytes(HostMsg::VideoFrame { format, width, height, data });
    assert(b.subrange(0, 4) =~= le_u32(0));
    assert(b.subrange(4, 8) =~= le_u32(index));
    assert(b.subrange(8, 12) =~= le_u32(width));
    assert(b.subrange(12, 16) =~= le_u32(height));
    assert(b.subrange(16, 24) =~= le_u64(data.len() as u64));
    number_stands_at(b, 0, 0);
    number_stands_at(b, 4, index);
    number_stands_at(b, 8, width);
    number_stands_at(b, 12, height);
    long_number_stands_at(b, 16, data.len() as u64);
    assert(b.skip(24) =~= data);
    let p = host_bytes(HostMsg::Ping);
    assert(p.subrange(0, 4) =~= le_u32(1));
    number_stands_at(p, 0, 1);
}

/// An introduction is its kind, the length and the letters of the name, and the size of the screen; a
/// report about a tool is its kind and its fields in their order; an answer is its kind alone.
pub proof fn client_message_layout(
    device_name: Seq<char>,
    width: u32,
    height: u32,
    x: u32,
    y: u32,
    pressed: bool,
    pressure: u32,
    tool: PointerTool,
    in_range: bool,
)
    requires
        encode_utf8(device_name).len() <= u64::MAX,
    ensures
        ({
            let b = client_bytes(ClientMsg::Hello { device_name, width, height });
            let name = encode_utf8(device_name);
            &&& b.len() == 20 + name.len()
            &&& number_at(b, 0) == 0
            &&& number_at(b, 4) + number_at(b, 8) * 0x1_0000_0000 == name.len()
            &&& b.subrange(12, 12 + name.len() as int) == name
            &&& number_at(b, 12 + name.len() as int) == width
            &&& number_at(b, 16 + name.len() as int) == height
        }),
        ({
            let b = client_bytes(
                ClientMsg::Pointer { x, y, pressed, pressure, tool, in_range },
            );
            &&& b.len() == 22
            &&& number_at(b, 0) == 1
            &&& number_at(b, 4) == x
            &&& number_at(b, 8) == y
            &&& b[12] == (if pressed {
                1u8
            } else {
                0u8
            })
            &&& number_at(b, 13) == pressure
            &&& number_at(b, 17) == (match tool {
                PointerTool::Finger => 0int,
                PointerTool::Pen => 1,
                PointerTool::Eraser => 2,
            })
            &&& b[21] == (if in_range {
                1u8
            } else {
                0u8
            })
        }),
        client_bytes(ClientMsg::Pong).len() == 4,
        number_at(client_bytes(ClientMsg::Pong), 0) == 3,
{
    let name = encode_utf8(device_name);
    let end = 12 + name.len() as int;
    let h = client_bytes(ClientMsg::Hello { device_name, width, height });
    assert(h.subrange(0, 4) =~= le_u32(0));
    assert(h.subrange(4, 12) =~= le_u64(name.len() as u64));
    assert(h.subrange(12, end) =~= name);
    assert(h.subrange(end, end + 4) =~= le_u32(width));
    assert(h.subrange(end + 4, end + 8) =~= le_u32(height));
    number_stands_at(h, 0, 0);
    long_number_stands_at(h, 4, name.len() as u64);
    number_stands_at(h, end, width);
    number_stands_at(h, end + 4, height);
    let p = client_bytes(ClientMsg::Pointer { x, y, pressed, pressure, tool, in_range });
    assert(p.subrange(0, 4) =~= le_u32(1));
    assert(p.subrange(4, 8) =~= le_u32(x));
    assert(p.subrange(8, 12) =~= le_u32(y));
    assert(p.subrange(13, 17) =~= le_u32(pressure));
    assert(p.subrange(17, 21) =~= le_u32(tool_index(tool)));
    number_stands_at(p, 0, 1);
    number_stands_at(p, 4, x);
    number_stands_at(p, 8, y);
    number_stands_at(p, 13, pressure);
    number_stands_at(p, 17, tool_index(tool));
    let a = client_bytes(ClientMsg::Pong);
    assert(a.subrange(0, 4) =~= le_u32(3));
    number_stands_at(a, 0, 3);
}

/// A snapshot of fingers is its kind, their number, and of each its id and its position.
pub proof fn touches_layout(points: Seq<TouchPoint>, i: int)
    requires
        points.len() <= u64::MAX,
    ensures
        ({
            let b = client_bytes(ClientMsg::Touches { points });
            &&& b.len() == 12 + 12 * points.len()
            &&& number_at(b, 0) == 2
            &&& number_at(b, 4) + number_at(b, 8) * 0x1_0000_0000 == points.len()
            &&& 0 <= i < points.len() ==> {
                &&& number_at(b, 12 + i * 12) == points[i].id
                &&& number_at(b, 16 + i * 12) == points[i].x
                &&& number_at(b, 20 + i * 12) == points[i].y
            }
        }),
{
    let triples = points.map_values(|p: TouchPoint| triple_of(p));
    let b = client_bytes(ClientMsg::Touches { points });
    let body = triples_bytes(triples);
    triples_bytes_len(triples);
    assert(b.subrange(0, 4) =~= le_u32(2));
    assert(b.subrange(4, 12) =~= le_u64(triples.len() as u64));
    number_stands_at(b, 0, 2);
    long_number_stands_at(b, 4, triples.len() as u64);
    if 0 <= i < points.len() {
        triples_at(triples, i);
        assert(b.subrange(12 + i * 12, 16 + i * 12) =~= body.subrange(i * 12, i * 12 + 4));
        assert(b.subrange(16 + i * 12, 20 + i * 12) =~= body.subrange(i * 12 + 4, i * 12 + 8));
        assert(b.subrange(20 + i * 12, 24 + i * 12) =~= body.subrange(i * 12 + 8, i * 12 + 12));
        number_stands_at(b, 12 + i * 12, points[i].id);
        number_stands_at(b, 16 + i * 12, points[i].x);
        number_stands_at(b, 20 + i * 12, points[i].y);
    }
}

// --- only what was written is read ----------------------------------------------------------------

/// The four digits of a number, to the base of a byte.
proof fn digits_of(a: int, b: int, c: int, d: int, x: int)
    requires
        0 <= a < 0x100,
        0 <= b < 0x100,
        0 <= c < 0x100,
        0 <= d < 0x100,
        x == a + b * 0x100 + c * 0x1_0000 + d * 0x100_0000,
    ensures
        x % 0x100 == a,
        x / 0x100 % 0x100 == b,
        x / 0x1_0000 % 0x100 == c,
        x / 0x100_0000 % 0x100 == d,
{
    let q1 = b + c * 0x100 + d * 0x1_0000;
    let q2 = c + d * 0x100;
    assert(x == q1 * 0x100 + a);
    assert(x / 0x100 == q1);
    assert(x == q2 * 0x1_0000 + (a + b * 0x100));
    assert(x / 0x1_0000 == q2);
    assert(x / 0x100_0000 == d);
    assert(q1 == q2 * 0x100 + b);
}

/// The number that is read from four bytes is the one that is written as these bytes.
proof fn bytes_of_read(s: Seq<u8>, at: int)
    requires
        0 <= at,
        at + 4 <= s.len(),
    ensures
        le_u32(le_u32_at(s, at)) == s.subrange(at, at + 4),
{
    reveal(le_u32);
    reveal(le_u32_at);
    let (a, b, c, d) = (s[at] as int, s[at + 1] as int, s[at + 2] as int, s[at + 3] as int);
    let x = le_u32_at(s, at);
    assert(x == a + b * 0x100 + c * 0x1_0000 + d * 0x100_0000);
    digits_of(a, b, c, d, x as int);
    assert(le_u32(x) =~= s.subrange(at, at + 4));
}

proof fn bytes_of_long_read(s: Seq<u8>, at: int)
    requires
        0 <= at,
        at + 8 <= s.len(),
    ensures
        le_u64(le_u64_at(s, at)) == s.subrange(at, at + 8),
{
    reveal(le_u64);
    reveal(le_u64_at);
    bytes_of_read(s, at);
    bytes_of_read(s, at + 4);
    let low = le_u32_at(s, at);
    let high = le_u32_at(s, at + 4);
    let x = le_u64_at(s, at);
    assert(x == low + high * 0x1_0000_0000);
    assert(x % 0x1_0000_0000 == low && x / 0x1_0000_0000 == high);
    assert(s.subrange(at, at + 8) =~= s.subrange(at, at + 4) + s.subrange(at + 4, at + 8));
}

/// A message of the host is read only from bytes that start with its encoding.
pub proof fn host_message_is_its_encoding(s: Seq<u8>, msg: HostMsg)
    requires
        parse_host(s) == Some(msg),
    ensures
        host_bytes(msg).len() <= s.len(),
        s.take(host_bytes(msg).len() as int) == host_bytes(msg),
{
    bytes_of_read(s, 0);
    let b = host_bytes(msg);
    match msg {
        HostMsg::VideoFrame { format, width, height, data } => {
            bytes_of_read(s, 4);
            bytes_of_read(s, 8);
            bytes_of_read(s, 12);
            bytes_of_long_read(s, 16);
            assert(le_u32_at(s, 4) == format_index(format));
            assert(s.take(b.len() as int) =~= s.subrange(0, 4) + s.subrange(4, 8) + s.subrange(8, 12)
                + s.subrange(12, 16) + s.subrange(16, 24) + data);
        },
        HostMsg::Ping => {
            assert(s.take(4) =~= s.subrange(0, 4));
        },
    }
}

/// Three fields of each of some triples stand where they were read.
proof fn triples_are_their_bytes(s: Seq<u8>, triples: Seq<(u32, u32, u32)>)
    requires
        12 + 12 * triples.len() <= s.len(),
        forall|i: int|
            0 <= i < triples.len() ==> #[trigger] triples[i] == (
                le_u32_at(s, 12 + i * 12),
                le_u32_at(s, 16 + i * 12),
                le_u32_at(s, 20 + i * 12),
            ),
    ensures
        triples_bytes(triples) == s.subrange(12, 12 + 12 * triples.len() as int),
    decreases triples.len(),
{
    if triples.len() == 0 {
        assert(s.subrange(12, 12) =~= seq![]);
    } else {
        let most = triples.drop_last();
        let k = triples.len() - 1;
        assert forall|i: int| 0 <= i < most.len() implies #[trigger] most[i] == (
            le_u32_at(s, 12 + i * 12),
            le_u32_at(s, 16 + i * 12),
            le_u32_at(s, 20 + i * 12),
        ) by {
            assert(most[i] == triples[i]);
        }
        triples_are_their_bytes(s, most);
        let at = 12 + 12 * k;
        assert(triples[k] == triples.last());
        assert(12 + k * 12 == at);
        bytes_of_read(s, at);
        bytes_of_read(s, at + 4);
        bytes_of_read(s, at + 8);
        assert(s.subrange(12, at + 12) =~= s.subrange(12, at) + s.subrange(at, at + 4) + s.subrange(
            at + 4,
            at + 8,
        ) + s.subrange(at + 8, at + 12));
    }
}

/// A message of a client is read only from bytes that start with its encoding.
pub proof fn client_message_is_its_encoding(s: Seq<u8>, msg: ClientMsg)
    requires
        parse_client(s) == Some(msg),
    ensures
        client_bytes(msg).len() <= s.len(),
        s.take(client_bytes(msg).len() as int) == client_bytes(msg),
{
    bytes_of_read(s, 0);
    let b = client_bytes(msg);
    match msg {
        ClientMsg::Hello { device_name, width, height } => {
            let end = 12 + le_u64_at(s, 4);
            bytes_of_long_read(s, 4);
            bytes_of_read(s, end);
            bytes_of_read(s, end + 4);
            let name = s.subrange(12, end);
            decode_utf8_encode_utf8(name);
            assert(s.take(end + 8) =~= s.subrange(0, 4) + s.subrange(4, 12) + name + s.subrange(
                end,
                end + 4,
            ) + s.subrange(end + 4, end + 8));
        },
        ClientMsg::Pointer { x, y, pressed, pressure, tool, in_range } => {
            bytes_of_read(s, 4);
            bytes_of_read(s, 8);
            bytes_of_read(s, 13);
            bytes_of_read(s, 17);
            assert(le_u32_at(s, 17) == tool_index(tool));
            assert(s.take(22) =~= s.subrange(0, 4) + s.subrange(4, 8) + s.subrange(8, 12) + seq![
                s[12],
            ] + s.subrange(13, 17) + s.subrange(17, 21) + seq![s[21]]);
        },
        ClientMsg::Touches { points } => {
            let triples = read_triples(s).unwrap().1;
            bytes_of_long_read(s, 4);
            assert(points.map_values(|p: TouchPoint| triple_of(p)) =~= triples);
            triples_are_their_bytes(s, triples);
            assert(s.take(12 + 12 * triples.len() as int) =~= s.subrange(0, 4) + s.subrange(4, 12)
                + s.subrange(12, 12 + 12 * triples.len() as int));
        },
        ClientMsg::Pong => {
            assert(s.take(4) =~= s.subrange(0, 4));
        },
    }
}

} // verus!
