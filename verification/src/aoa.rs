//! Android Open Accessory (AOA): a tablet is asked to become an accessory, and then bytes flow over
//! its two bulk endpoints.
//!
//! A device that answers the protocol request with a version of at least 1 is sent six strings that
//! identify the host, then the start request. It disconnects and comes back as an accessory.

use vstd::prelude::*;
use vstd::utf8::encode_utf8;

use crate::bytes::copy_range;

verus! {

pub const MANUFACTURER: &'static str = "co.dealdrive";

pub const MODEL: &'static str = "Ferrite";

pub const DESCRIPTION: &'static str = "Ferrite host";

pub const VERSION: &'static str = "1";

pub const URI: &'static str = "https://github.com/marcusrognes/ferrite";

pub const SERIAL: &'static str = "0000000001";

/// Vendor id of every accessory.
pub const AOA_VID: u16 = 0x18D1;

/// Smallest product id of an accessory.
pub const AOA_PID_FIRST: u16 = 0x2D00;

/// Largest product id of an accessory.
pub const AOA_PID_LAST: u16 = 0x2D05;

/// Device class of a hub.
pub const CLASS_HUB: u8 = 9;

/// Asks for the protocol version.
pub const REQ_GET_PROTOCOL: u8 = 51;

/// Sends an identifying string.
pub const REQ_SEND_STRING: u8 = 52;

/// Makes the device an accessory.
pub const REQ_START: u8 = 53;

/// Largest bulk write. It is no multiple of the packet size, so that a full write ends in a short
/// packet, which marks the end of the transfer.
pub const CHUNK: usize = 16383;

/// Packet size of a high-speed bulk endpoint.
pub const MAX_PACKET: usize = 512;

// --- control requests -------------------------------------------------------------------------

/// Who the host says it is. The tablet starts the app that matches.
#[derive(Debug, Clone, Copy)]
pub struct Identity {
    pub manufacturer: &'static str,
    pub model: &'static str,
    pub description: &'static str,
    pub version: &'static str,
    pub uri: &'static str,
    pub serial: &'static str,
}

impl Identity {
    /// The strings in the order of their indices.
    pub open spec fn strings(self) -> Seq<Seq<char>> {
        seq![
            self.manufacturer@,
            self.model@,
            self.description@,
            self.version@,
            self.uri@,
            self.serial@,
        ]
    }

    /// The host itself.
    pub fn host() -> (id: Identity)
        ensures
            id.strings() == seq![
                "co.dealdrive"@,
                "Ferrite"@,
                "Ferrite host"@,
                "1"@,
                "https://github.com/marcusrognes/ferrite"@,
                "0000000001"@,
            ],
    {
        Identity {
            manufacturer: MANUFACTURER,
            model: MODEL,
            description: DESCRIPTION,
            version: VERSION,
            uri: URI,
            serial: SERIAL,
        }
    }

    /// The echo test.
    pub fn echo() -> (id: Identity)
        ensures
            id.strings() == seq![
                "co.dealdrive"@,
                "FerriteEcho"@,
                "Ferrite AOA echo test"@,
                "1"@,
                "https://example.invalid/ferrite-aoa-test"@,
                "echo-0001"@,
            ],
    {
        Identity {
            manufacturer: MANUFACTURER,
            model: "FerriteEcho",
            description: "Ferrite AOA echo test",
            version: VERSION,
            uri: "https://example.invalid/ferrite-aoa-test",
            serial: "echo-0001",
        }
    }

    /// The protocol test.
    pub fn proto() -> (id: Identity)
        ensures
            id.strings() == seq![
                "co.dealdrive"@,
                "FerriteProto"@,
                "Ferrite AOA protocol test"@,
                "1"@,
                "https://example.invalid/ferrite-aoa-proto"@,
                "proto-0001"@,
            ],
    {
        Identity {
            manufacturer: MANUFACTURER,
            model: "FerriteProto",
            description: "Ferrite AOA protocol test",
            version: VERSION,
            uri: "https://example.invalid/ferrite-aoa-proto",
            serial: "proto-0001",
        }
    }
}

/// A control request to write.
#[derive(Debug)]
pub struct ControlRequest {
    pub request_type: u8,
    pub request: u8,
    pub value: u16,
    pub index: u16,
    pub payload: Vec<u8>,
}

/// The value of a [`ControlRequest`].
pub struct Control {
    pub request_type: u8,
    pub request: u8,
    pub value: u16,
    pub index: u16,
    pub payload: Seq<u8>,
}

impl View for ControlRequest {
    type V = Control;

    open spec fn view(&self) -> Control {
        Control {
            request_type: self.request_type,
            request: self.request,
            value: self.value,
            index: self.index,
            payload: self.payload@,
        }
    }
}

/// `rusb::request_type` for a vendor request to the device itself: bit 7 is set when the device is
/// to answer, and bit 6 marks the request as the vendor's.
#[verifier::external_body]
fn vendor_request(inbound: bool) -> (bits: u8)
    ensures
        bits == (if inbound {
            0xC0u8
        } else {
            0x40u8
        }),
{
    let direction = if inbound {
        rusb::Direction::In
    } else {
        rusb::Direction::Out
    };
    rusb::request_type(direction, rusb::RequestType::Vendor, rusb::Recipient::Device)
}

/// The request for the protocol version: request type, request, value, index. The answer has two
/// bytes.
pub fn version_request() -> (request: (u8, u8, u16, u16))
    ensures
        request == (0xC0u8, REQ_GET_PROTOCOL, 0u16, 0u16),
{
    (vendor_request(true), REQ_GET_PROTOCOL, 0, 0)
}

/// The protocol version in the `n` bytes of an answer, or the number of bytes if there are too few.
pub fn query_aoa_version(answer: [u8; 2], n: usize) -> (version: Result<u16, usize>)
    ensures
        version == (if n < 2 {
            Err::<u16, usize>(n)
        } else {
            Ok::<u16, usize>((answer@[0] + answer@[1] * 256) as u16)
        }),
{
    if n < 2 {
        Err(n)
    } else {
        Ok(answer[0] as u16 + answer[1] as u16 * 256)
    }
}

/// The request that sends string number `index`, with a zero byte behind it.
pub open spec fn string_request(index: int, text: Seq<char>) -> Control {
    Control {
        request_type: 0x40,
        request: REQ_SEND_STRING,
        value: 0,
        index: index as u16,
        payload: encode_utf8(text).push(0u8),
    }
}

/// The request that makes the device an accessory.
pub open spec fn start_request() -> Control {
    Control { request_type: 0x40, request: REQ_START, value: 0, index: 0, payload: seq![] }
}

/// The contents of a list of requests.
pub open spec fn control_views(requests: Seq<ControlRequest>) -> Seq<Control> {
    requests.map_values(|r: ControlRequest| r@)
}

/// What makes a device an accessory: the six strings in their order, then the start.
pub open spec fn switch_requests(strings: Seq<Seq<char>>) -> Seq<Control> {
    Seq::new(strings.len(), |i: int| string_request(i, strings[i])).push(start_request())
}

/// One string as a request.
fn send_string(index: u16, text: &str) -> (request: ControlRequest)
    ensures
        request@ == string_request(index as int, text@),
{
    let bytes = text.as_bytes();
    let mut payload: Vec<u8> = copy_range(bytes, 0, bytes.len());
    payload.push(0);
    let request = ControlRequest {
        request_type: vendor_request(false),
        request: REQ_SEND_STRING,
        value: 0,
        index,
        payload,
    };
    assert(request@.payload =~= encode_utf8(text@).push(0u8));
    request
}

/// The requests that make a device an accessory of this host.
pub fn send_strings_and_start(id: &Identity) -> (requests: Vec<ControlRequest>)
    ensures
        control_views(requests@) == switch_requests(id.strings()),
{
    let mut requests: Vec<ControlRequest> = Vec::new();
    requests.push(send_string(0, id.manufacturer));
    requests.push(send_string(1, id.model));
    requests.push(send_string(2, id.description));
    requests.push(send_string(3, id.version));
    requests.push(send_string(4, id.uri));
    requests.push(send_string(5, id.serial));
    let payload: Vec<u8> = Vec::new();
    requests.push(
        ControlRequest {
            request_type: vendor_request(false),
            request: REQ_START,
            value: 0,
            index: 0,
            payload,
        },
    );
    assert(requests@[6]@.payload =~= start_request().payload);
    assert(control_views(requests@) =~= switch_requests(id.strings()));
    requests
}

// --- devices ----------------------------------------------------------------------------------

/// What a device's descriptor says.
#[derive(Debug, Clone, Copy, PartialEq, Eq, Structural)]
pub struct DeviceId {
    pub vendor: u16,
    pub product: u16,
    pub class: u8,
}

/// The device is an accessory.
pub open spec fn accessory(id: DeviceId) -> bool {
    id.vendor == AOA_VID && AOA_PID_FIRST <= id.product <= AOA_PID_LAST
}

/// Whether the device is an accessory.
pub fn is_accessory(id: DeviceId) -> (yes: bool)
    ensures
        yes == accessory(id),
{
    id.vendor == AOA_VID && AOA_PID_FIRST <= id.product && id.product <= AOA_PID_LAST
}

/// The device at an index has a descriptor, and it is an accessory.
pub open spec fn accessory_at(devices: Seq<Option<DeviceId>>, i: int) -> bool {
    devices[i] matches Some(id) && accessory(id)
}

/// The first device on the bus that is an accessory. A device without a readable descriptor is
/// passed over.
pub fn find_accessory(devices: &[Option<DeviceId>]) -> (found: Option<usize>)
    ensures
        match found {
            Some(i) => i < devices@.len() && accessory_at(devices@, i as int) && forall|j: int|
                0 <= j < i ==> !#[trigger] accessory_at(devices@, j),
            None => forall|j: int|
                0 <= j < devices@.len() ==> !#[trigger] accessory_at(devices@, j),
        },
{
    let mut i: usize = 0;
    while i < devices.len()
        invariant
            i <= devices@.len(),
            forall|j: int| 0 <= j < i ==> !#[trigger] accessory_at(devices@, j),
        decreases devices@.len() - i,
    {
        if let Some(id) = devices[i] {
            if is_accessory(id) {
                assert(accessory_at(devices@, i as int));
                return Some(i);
            }
        }
        i += 1;
    }
    None
}

/// How an endpoint transfers data.
#[derive(Debug, Clone, Copy, PartialEq, Eq, Structural)]
pub enum TransferKind {
    Control,
    Isochronous,
    Bulk,
    Interrupt,
}

/// One endpoint of an interface.
#[derive(Debug, Clone, Copy, PartialEq, Eq, Structural)]
pub struct Endpoint {
    pub kind: TransferKind,
    pub inbound: bool,
    pub address: u8,
}

/// One interface descriptor.
#[derive(Debug)]
pub struct UsbInterface {
    pub number: u8,
    pub endpoints: Vec<Endpoint>,
}

/// The interface over which bytes flow.
#[derive(Debug, Clone, Copy, PartialEq, Eq, Structural)]
pub struct BulkPair {
    pub iface: u8,
    pub ep_in: u8,
    pub ep_out: u8,
}

/// The address of the last bulk endpoint with a direction among the endpoints.
pub open spec fn last_bulk(endpoints: Seq<Endpoint>, inbound: bool) -> Option<u8>
    decreases endpoints.len(),
{
    if endpoints.len() == 0 {
        None
    } else if endpoints.last().kind == TransferKind::Bulk && endpoints.last().inbound == inbound {
        Some(endpoints.last().address)
    } else {
        last_bulk(endpoints.drop_last(), inbound)
    }
}

/// The interface with its bulk endpoints, if it has one for each direction.
pub open spec fn bulk_pair(iface: UsbInterface) -> Option<BulkPair> {
    match (last_bulk(iface.endpoints@, true), last_bulk(iface.endpoints@, false)) {
        (Some(ep_in), Some(ep_out)) => Some(BulkPair { iface: iface.number, ep_in, ep_out }),
        _ => None,
    }
}

/// The pair of bulk endpoints of one interface.
fn pair_of(iface: &UsbInterface) -> (pair: Option<BulkPair>)
    ensures
        pair == bulk_pair(*iface),
{
    let mut ep_in: Option<u8> = None;
    let mut ep_out: Option<u8> = None;
    let mut i: usize = 0;
    while i < iface.endpoints.len()
        invariant
            i <= iface.endpoints@.len(),
            ep_in == last_bulk(iface.endpoints@.take(i as int), true),
            ep_out == last_bulk(iface.endpoints@.take(i as int), false),
        decreases iface.endpoints@.len() - i,
    {
        let ep = iface.endpoints[i];
        assert(iface.endpoints@.take(i + 1).drop_last() =~= iface.endpoints@.take(i as int));
        if ep.kind == TransferKind::Bulk {
            if ep.inbound {
                ep_in = Some(ep.address);
            } else {
                ep_out = Some(ep.address);
            }
        }
        i += 1;
    }
    assert(iface.endpoints@.take(i as int) =~= iface.endpoints@);
    match (ep_in, ep_out) {
        (Some(ep_in), Some(ep_out)) => Some(BulkPair { iface: iface.number, ep_in, ep_out }),
        _ => None,
    }
}

/// The first interface with a bulk endpoint for each direction. Of several endpoints with the same
/// direction the last one is taken. None is an error of an accessory.
pub fn find_bulk_interface(interfaces: &[UsbInterface]) -> (pair: Option<BulkPair>)
    ensures
        match pair {
            Some(p) => exists|i: int|
                0 <= i < interfaces@.len() && #[trigger] bulk_pair(interfaces@[i]) == Some(p)
                    && forall|j: int|
                    0 <= j < i ==> #[trigger] bulk_pair(interfaces@[j]) is None,
            None => forall|j: int|
                0 <= j < interfaces@.len() ==> #[trigger] bulk_pair(interfaces@[j]) is None,
        },
{
    let mut i: usize = 0;
    while i < interfaces.len()
        invariant
            i <= interfaces@.len(),
            forall|j: int| 0 <= j < i ==> #[trigger] bulk_pair(interfaces@[j]) is None,
        decreases interfaces@.len() - i,
    {
        if let Some(p) = pair_of(&interfaces[i]) {
            assert(bulk_pair(interfaces@[i as int]) == Some(p));
            return Some(p);
        }
        i += 1;
    }
    None
}

// --- switching a device -----------------------------------------------------------------------

/// What has become known about the device that is tried.
#[derive(Debug, Clone, Copy)]
pub enum SwitchEvent {
    /// Its descriptor, if it could be read.
    Described(Option<DeviceId>),
    /// Whether it could be opened.
    Opened(bool),
    /// The number of bytes of its answer to the protocol request, and the answer; none if the
    /// request failed.
    Answered(Option<(usize, [u8; 2])>),
    /// Whether it took the strings and the start request.
    Started(bool),
}

/// What to do next.
#[derive(Debug, Clone, Copy, PartialEq, Eq, Structural)]
pub enum SwitchAction {
    /// Try the next device.
    Next,
    /// Open this device.
    Open,
    /// Ask this device for its protocol version.
    Ask,
    /// Send this device the strings and the start request.
    Start,
    /// The device becomes an accessory: stop here.
    Done,
    /// The device refused in the middle of the handshake: stop with an error.
    Fail,
}

/// The protocol version of an answer, 0 if it is too short.
pub open spec fn answered_version(answer: Option<(usize, [u8; 2])>) -> int {
    match answer {
        Some((n, bytes)) => if n < 2 {
            0
        } else {
            bytes@[0] + bytes@[1] * 256
        },
        None => 0,
    }
}

/// The step after an event. Accessories and hubs are passed over, and so is whatever cannot be
/// opened or does not speak the protocol. With `strict` a handshake that fails half way is an error,
/// otherwise the device is passed over too.
pub open spec fn switch_action(event: SwitchEvent, strict: bool) -> SwitchAction {
    match event {
        SwitchEvent::Described(Some(id)) => if accessory(id) || id.class == CLASS_HUB {
            SwitchAction::Next
        } else {
            SwitchAction::Open
        },
        SwitchEvent::Described(None) => SwitchAction::Next,
        SwitchEvent::Opened(opened) => if opened {
            SwitchAction::Ask
        } else {
            SwitchAction::Next
        },
        SwitchEvent::Answered(answer) => if answered_version(answer) >= 1 {
            SwitchAction::Start
        } else {
            SwitchAction::Next
        },
        SwitchEvent::Started(started) => if started {
            SwitchAction::Done
        } else if strict {
            SwitchAction::Fail
        } else {
            SwitchAction::Next
        },
    }
}

/// Decides what to do with the device that is tried.
pub fn switch_to_accessory(event: SwitchEvent, strict: bool) -> (action: SwitchAction)
    ensures
        action == switch_action(event, strict),
{
    match event {
        SwitchEvent::Described(Some(id)) => {
            if is_accessory(id) || id.class == CLASS_HUB {
                SwitchAction::Next
            } else {
                SwitchAction::Open
            }
        },
        SwitchEvent::Described(None) => SwitchAction::Next,
        SwitchEvent::Opened(opened) => if opened {
            SwitchAction::Ask
        } else {
            SwitchAction::Next
        },
        SwitchEvent::Answered(None) => SwitchAction::Next,
        SwitchEvent::Answered(Some((n, bytes))) => match query_aoa_version(bytes, n) {
            Ok(version) => if version >= 1 {
                SwitchAction::Start
            } else {
                SwitchAction::Next
            },
            Err(_) => SwitchAction::Next,
        },
        SwitchEvent::Started(started) => if started {
            SwitchAction::Done
        } else if strict {
            SwitchAction::Fail
        } else {
            SwitchAction::Next
        },
    }
}

/// How a device would respond to everything that can be asked of it.
pub struct Responses {
    pub id: Option<DeviceId>,
    pub opens: bool,
    pub answer: Option<(usize, [u8; 2])>,
    pub starts: bool,
}

/// What becomes of one device, asked step by step.
pub open spec fn tried(r: Responses, strict: bool) -> SwitchAction {
    let described = switch_action(SwitchEvent::Described(r.id), strict);
    let opened = switch_action(SwitchEvent::Opened(r.opens), strict);
    let answered = switch_action(SwitchEvent::Answered(r.answer), strict);
    if described != SwitchAction::Open {
        described
    } else if opened != SwitchAction::Ask {
        opened
    } else if answered != SwitchAction::Start {
        answered
    } else {
        switch_action(SwitchEvent::Started(r.starts), strict)
    }
}

/// A device becomes an accessory exactly if it is none yet and no hub, can be opened, speaks
/// version 1 or later of the protocol and takes the handshake; and no other device is ever sent the
/// start request.
pub proof fn only_willing_devices_switch(r: Responses, strict: bool)
    ensures
        ({
            let willing = r.opens && answered_version(r.answer) >= 1 && (r.id matches Some(id)
                && !accessory(id) && id.class != CLASS_HUB);
            &&& (tried(r, strict) == SwitchAction::Done <==> willing && r.starts)
            &&& (tried(r, strict) == SwitchAction::Fail <==> willing && !r.starts && strict)
            &&& (tried(r, strict) == SwitchAction::Next <==> !willing || (!r.starts && !strict))
        }),
{
}

/// The next step of a pass over the devices of the bus. Devices are given by their index.
#[derive(Debug, Clone, Copy, PartialEq, Eq, Structural)]
pub enum PassStep {
    /// Read the descriptor of this device.
    Describe(usize),
    /// Open this device.
    Open(usize),
    /// Ask this device for its protocol version.
    Ask(usize),
    /// Send this device the strings and the start request.
    Start(usize),
    /// This device becomes an accessory.
    Switched(usize),
    /// This device refused in the middle of the handshake.
    Failed(usize),
    /// No device is left.
    Exhausted,
}

/// One pass over the devices of the bus, of which at most one is switched.
#[derive(Debug, Clone, Copy, PartialEq, Eq, Structural)]
pub struct SwitchPass {
    /// The device that is tried.
    pub device: usize,
    /// How many devices there are.
    pub count: usize,
    /// A handshake that fails half way ends the pass.
    pub strict: bool,
}

/// The step that tries a device, if there is one with this index.
pub open spec fn try_device(device: int, count: int) -> PassStep {
    if device < count {
        PassStep::Describe(device as usize)
    } else {
        PassStep::Exhausted
    }
}

/// The pass and its next step after an event of the device that is tried.
pub open spec fn pass_next(pass: SwitchPass, event: SwitchEvent) -> (SwitchPass, PassStep) {
    match switch_action(event, pass.strict) {
        SwitchAction::Next => (
            SwitchPass { device: (pass.device + 1) as usize, ..pass },
            try_device(pass.device + 1, pass.count as int),
        ),
        SwitchAction::Open => (pass, PassStep::Open(pass.device)),
        SwitchAction::Ask => (pass, PassStep::Ask(pass.device)),
        SwitchAction::Start => (pass, PassStep::Start(pass.device)),
        SwitchAction::Done => (pass, PassStep::Switched(pass.device)),
        SwitchAction::Fail => (pass, PassStep::Failed(pass.device)),
    }
}

impl SwitchPass {
    /// A pass over `count` devices and its first step.
    pub fn try_switch_one(count: usize, strict: bool) -> (pass: (SwitchPass, PassStep))
        ensures
            pass.0 == (SwitchPass { device: 0, count, strict }),
            pass.1 == try_device(0, count as int),
    {
        let step = if count > 0 {
            PassStep::Describe(0)
        } else {
            PassStep::Exhausted
        };
        (SwitchPass { device: 0, count, strict }, step)
    }

    /// Takes what has become known about the device that is tried.
    pub fn on_event(&mut self, event: SwitchEvent) -> (step: PassStep)
        requires
            old(self).device < old(self).count,
        ensures
            (*final(self), step) == pass_next(*old(self), event),
    {
        match switch_to_accessory(event, self.strict) {
            SwitchAction::Next => {
                self.device = self.device + 1;
                if self.device < self.count {
                    PassStep::Describe(self.device)
                } else {
                    PassStep::Exhausted
                }
            },
            SwitchAction::Open => PassStep::Open(self.device),
            SwitchAction::Ask => PassStep::Ask(self.device),
            SwitchAction::Start => PassStep::Start(self.device),
            SwitchAction::Done => PassStep::Switched(self.device),
            SwitchAction::Fail => PassStep::Failed(self.device),
        }
    }
}

/// How a device responds to a step. None if the step asks for nothing.
pub open spec fn response(r: Responses, step: PassStep) -> Option<SwitchEvent> {
    match step {
        PassStep::Describe(_) => Some(SwitchEvent::Described(r.id)),
        PassStep::Open(_) => Some(SwitchEvent::Opened(r.opens)),
        PassStep::Ask(_) => Some(SwitchEvent::Answered(r.answer)),
        PassStep::Start(_) => Some(SwitchEvent::Started(r.starts)),
        _ => None,
    }
}

/// The pass and its step after `n` more responses of the devices.
pub open spec fn pass_after(
    pass: SwitchPass,
    step: PassStep,
    devices: Seq<Responses>,
    n: nat,
) -> (SwitchPass, PassStep)
    decreases n,
{
    match response(devices[pass.device as int], step) {
        Some(event) => if n == 0 {
            (pass, step)
        } else {
            let (next, then) = pass_next(pass, event);
            pass_after(next, then, devices, (n - 1) as nat)
        },
        None => (pass, step),
    }
}

/// The first device from index `from` on that is not passed over, or the number of devices.
pub open spec fn first_tried(devices: Seq<Responses>, strict: bool, from: int) -> int
    decreases devices.len() - from,
{
    if from >= devices.len() || tried(devices[from], strict) != SwitchAction::Next {
        from
    } else {
        first_tried(devices, strict, from + 1)
    }
}

proof fn pass_from(pass: SwitchPass, devices: Seq<Responses>, n: nat)
    requires
        pass.device <= pass.count == devices.len(),
        n >= 4 * (pass.count - pass.device),
    ensures
        ({
            let i = first_tried(devices, pass.strict, pass.device as int);
            let step = try_device(pass.device as int, pass.count as int);
            &&& pass.device <= i <= devices.len()
            &&& pass_after(pass, step, devices, n).1 == (if i == devices.len() {
                PassStep::Exhausted
            } else if tried(devices[i], pass.strict) == SwitchAction::Done {
                PassStep::Switched(i as usize)
            } else {
                PassStep::Failed(i as usize)
            })
        }),
    decreases pass.count - pass.device,
{
    if pass.device < pass.count {
        let r = devices[pass.device as int];
        let next = SwitchPass { device: (pass.device + 1) as usize, ..pass };
        only_willing_devices_switch(r, pass.strict);
        reveal_with_fuel(pass_after, 5);
        if tried(r, pass.strict) == SwitchAction::Next {
            pass_from(next, devices, (n - 1) as nat);
            if n >= 2 {
                pass_from(next, devices, (n - 2) as nat);
            }
            if n >= 3 {
                pass_from(next, devices, (n - 3) as nat);
            }
            if n >= 4 {
                pass_from(next, devices, (n - 4) as nat);
            }
        }
    }
}

/// A pass over the bus ends after at most four responses of each device: with the first device that
/// is not passed over, or with none if all are. No device behind it is touched.
pub proof fn first_willing_device_is_switched(devices: Seq<Responses>, strict: bool)
    requires
        devices.len() <= usize::MAX,
    ensures
        ({
            let pass = SwitchPass { device: 0, count: devices.len() as usize, strict };
            let step = try_device(0, devices.len() as int);
            let i = first_tried(devices, strict, 0);
            pass_after(pass, step, devices, 4 * devices.len()).1 == (if i == devices.len() {
                PassStep::Exhausted
            } else if tried(devices[i], strict) == SwitchAction::Done {
                PassStep::Switched(i as usize)
            } else {
                PassStep::Failed(i as usize)
            })
        }),
{
    pass_from(
        SwitchPass { device: 0, count: devices.len() as usize, strict },
        devices,
        4 * devices.len(),
    );
}

/// One attempt to get hold of an accessory.
#[derive(Debug, Clone, Copy, PartialEq, Eq, Structural)]
pub enum Attempt {
    /// An accessory has been opened.
    Opened,
    /// There is none yet.
    Absent,
    /// The attempt failed.
    Failed,
}

// --- bulk transfers ---------------------------------------------------------------------------

/// How a bulk transfer ended.
#[derive(Debug, Clone, Copy, PartialEq, Eq, Structural)]
pub enum Transfer {
    /// So many bytes were transferred.
    Done(usize),
    /// Nothing was transferred in time.
    Timeout,
    /// The device is gone or the pipe is broken.
    Failed,
}

/// A transfer that ends a stream.
#[derive(Debug, Clone, Copy, PartialEq, Eq, Structural)]
pub struct StreamError;

/// An open accessory.
#[derive(Debug, Clone, Copy, PartialEq, Eq, Structural)]
pub struct AoaStream {
    pub iface: u8,
    pub ep_in: u8,
    pub ep_out: u8,
}

/// The number of bytes that a read brought.
pub open spec fn bytes_read(transfer: Transfer) -> Result<usize, StreamError> {
    match transfer {
        Transfer::Done(n) => Ok(n),
        Transfer::Timeout => Ok(0),
        Transfer::Failed => Err(StreamError),
    }
}

/// The number of bytes that a write took.
pub open spec fn bytes_written(transfer: Transfer) -> Result<usize, StreamError> {
    match transfer {
        Transfer::Done(n) => Ok(n),
        Transfer::Timeout => Err(StreamError),
        Transfer::Failed => Err(StreamError),
    }
}

/// A read that times out has brought nothing and is no error, for a tablet may be silent; a write
/// that times out is one, for its bytes would be lost. What was transferred is counted.
pub proof fn only_reads_may_time_out(n: usize)
    ensures
        bytes_read(Transfer::Done(n)) == Ok::<usize, StreamError>(n),
        bytes_written(Transfer::Done(n)) == Ok::<usize, StreamError>(n),
        bytes_read(Transfer::Timeout) == Ok::<usize, StreamError>(0),
        bytes_written(Transfer::Timeout) is Err,
        bytes_read(Transfer::Failed) is Err,
        bytes_written(Transfer::Failed) is Err,
{
}

impl AoaStream {
    /// The stream over a pair of bulk endpoints.
    pub fn new(pair: BulkPair) -> (stream: AoaStream)
        ensures
            stream.iface == pair.iface,
            stream.ep_in == pair.ep_in,
            stream.ep_out == pair.ep_out,
    {
        AoaStream { iface: pair.iface, ep_in: pair.ep_in, ep_out: pair.ep_out }
    }

    /// Whether to go on waiting, a second later, for a device: until one has been opened.
    pub fn wait_for_device(attempt: Attempt) -> (wait: bool)
        ensures
            wait == (attempt != Attempt::Opened),
    {
        match attempt {
            Attempt::Opened => false,
            Attempt::Absent => true,
            Attempt::Failed => true,
        }
    }

    /// The number of bytes that a bulk read brought: none when it timed out.
    pub fn read(&self, transfer: Transfer) -> (n: Result<usize, StreamError>)
        ensures
            n == (match transfer {
                Transfer::Done(n) => Ok::<usize, StreamError>(n),
                Transfer::Timeout => Ok::<usize, StreamError>(0),
                Transfer::Failed => Err::<usize, StreamError>(StreamError),
            }),
            n == bytes_read(transfer),
    {
        match transfer {
            Transfer::Done(n) => Ok(n),
            Transfer::Timeout => Ok(0),
            Transfer::Failed => Err(StreamError),
        }
    }

    /// The number of bytes that a bulk write took. One that timed out is an error.
    pub fn write(&self, transfer: Transfer) -> (n: Result<usize, StreamError>)
        ensures
            n == (match transfer {
                Transfer::Done(n) => Ok::<usize, StreamError>(n),
                Transfer::Timeout => Err::<usize, StreamError>(StreamError),
                Transfer::Failed => Err::<usize, StreamError>(StreamError),
            }),
            n == bytes_written(transfer),
    {
        match transfer {
            Transfer::Done(n) => Ok(n),
            Transfer::Timeout => Err(StreamError),
            Transfer::Failed => Err(StreamError),
        }
    }
}

/// Bytes that a new session reads and drops, so that what an earlier session left in the pipe does
/// not reach it.
#[derive(Debug)]
pub struct StaleDrain {
    /// How many reads are left; none for no limit.
    pub left: Option<u32>,
    /// How many bytes were dropped.
    pub total: u64,
}

/// Reads of a session before it gives up on an endless stale stream.
pub const DRAIN_READS: u32 = 50;

impl StaleDrain {
    /// A drain that makes at most [`DRAIN_READS`] reads.
    pub fn limited() -> (drain: StaleDrain)
        ensures
            drain.left == Some(DRAIN_READS),
            drain.total == 0,
    {
        StaleDrain { left: Some(DRAIN_READS), total: 0 }
    }

    /// A drain that reads until nothing comes.
    pub fn unlimited() -> (drain: StaleDrain)
        ensures
            drain.left is None,
            drain.total == 0,
    {
        StaleDrain { left: None, total: 0 }
    }
}

/// What a drain has dropped and how many reads are left to it after one more, and whether to read on.
pub open spec fn drain_next(drain: StaleDrain, read: Result<usize, StreamError>) -> (
    StaleDrain,
    bool,
) {
    let left = match drain.left {
        Some(left) => Some((left - 1) as u32),
        None => None,
    };
    match read {
        Ok(n) => (
            StaleDrain { left, total: (drain.total + n) as u64 },
            n > 0 && left != Some(0u32),
        ),
        Err(_) => (StaleDrain { left, total: drain.total }, false),
    }
}

/// How many reads a drain makes of a pipe that brings so many bytes at each.
pub open spec fn drain_reads(drain: StaleDrain, reads: Seq<usize>) -> nat
    decreases reads.len(),
{
    if reads.len() == 0 {
        0
    } else {
        let (next, more) = drain_next(drain, Ok(reads[0]));
        1 + (if more {
            drain_reads(next, reads.drop_first())
        } else {
            0
        })
    }
}

/// A drain goes on as long as bytes come and stops at the first read without any, and a limited one
/// also when it has made as many reads as it may. What came is counted. An error ends it.
pub proof fn drain_stops_at_silence(drain: StaleDrain, reads: Seq<usize>, n: usize)
    requires
        drain.left matches Some(left) ==> left > 0,
        drain.total + n <= u64::MAX,
    ensures
        drain_next(drain, Ok(n)).0.total == drain.total + n,
        drain_next(drain, Err(StreamError)).0.total == drain.total,
        !drain_next(drain, Err(StreamError)).1,
        !drain_next(drain, Ok(0)).1,
        n > 0 && drain.left is None ==> drain_next(drain, Ok(n)).1,
        n > 0 && (drain.left matches Some(left) && left > 1) ==> drain_next(drain, Ok(n)).1,
        drain.left matches Some(left) ==> drain_reads(drain, reads) <= left,
        drain.left is None && (forall|i: int| 0 <= i < reads.len() ==> #[trigger] reads[i] > 0)
            ==> drain_reads(drain, reads) == reads.len(),
    decreases reads.len(),
{
    if reads.len() > 0 {
        let (next, more) = drain_next(drain, Ok(reads[0]));
        let rest = reads.drop_first();
        if more {
            drain_reads_bounded(next, rest);
        }
        assert(forall|i: int| 0 <= i < rest.len() ==> #[trigger] rest[i] == reads[i + 1]);
    }
}

proof fn drain_reads_bounded(drain: StaleDrain, reads: Seq<usize>)
    requires
        drain.left matches Some(left) ==> left > 0,
    ensures
        drain.left matches Some(left) ==> drain_reads(drain, reads) <= left,
        drain.left is None && (forall|i: int| 0 <= i < reads.len() ==> #[trigger] reads[i] > 0)
            ==> drain_reads(drain, reads) == reads.len(),
    decreases reads.len(),
{
    if reads.len() > 0 {
        let (next, more) = drain_next(drain, Ok(reads[0]));
        let rest = reads.drop_first();
        if more {
            drain_reads_bounded(next, rest);
        }
        assert(forall|i: int| 0 <= i < rest.len() ==> #[trigger] rest[i] == reads[i + 1]);
    }
}

/// Takes the result of a read: whether to read on. An empty read or an error ends the drain, and so
/// does the last read that is allowed.
pub fn drain_stale(drain: &mut StaleDrain, read: Result<usize, StreamError>) -> (more: bool)
    requires
        old(drain).left matches Some(left) ==> left > 0,
        read matches Ok(n) ==> old(drain).total + n <= u64::MAX,
    ensures
        final(drain).total == old(drain).total + (match read {
            Ok(n) => n as int,
            Err(_) => 0,
        }),
        final(drain).left == (match old(drain).left {
            Some(left) => Some((left - 1) as u32),
            None => None,
        }),
        more == ((read matches Ok(n) && n > 0) && final(drain).left != Some(0u32)),
        more ==> (final(drain).left matches Some(left) ==> left > 0),
        (*final(drain), more) == drain_next(*old(drain), read),
{
    if let Some(left) = drain.left {
        drain.left = Some(left - 1);
    }
    let last = match drain.left {
        Some(left) => left == 0,
        None => false,
    };
    match read {
        Ok(n) => {
            drain.total = drain.total + n as u64;
            n > 0 && !last
        },
        Err(_) => false,
    }
}

/// What one side of the bridge between an accessory and a session does next.
#[derive(Debug, Clone, Copy, PartialEq, Eq, Structural)]
pub enum BridgeStep {
    /// Pass on so many bytes, then go on.
    Forward(usize),
    /// Go on at once.
    Poll,
    /// Close this side.
    Close,
}

/// The step after a read from the accessory.
pub open spec fn inbound_step(read: Result<usize, StreamError>) -> BridgeStep {
    match read {
        Ok(n) => if n > 0 {
            BridgeStep::Forward(n)
        } else {
            BridgeStep::Poll
        },
        Err(_) => BridgeStep::Close,
    }
}

/// The step after a read from the session.
pub open spec fn outbound_step(read: Option<usize>) -> BridgeStep {
    match read {
        Some(n) => if n > 0 {
            BridgeStep::Forward(n)
        } else {
            BridgeStep::Close
        },
        None => BridgeStep::Close,
    }
}

/// Every byte that comes is passed on, in both directions. A silent accessory is polled again, while
/// a session that brings nothing has ended; an error ends either side.
pub proof fn bridge_passes_everything_on(n: usize)
    ensures
        n > 0 ==> inbound_step(Ok(n)) == BridgeStep::Forward(n) && outbound_step(Some(n))
            == BridgeStep::Forward(n),
        inbound_step(Ok(0)) == BridgeStep::Poll,
        outbound_step(Some(0)) == BridgeStep::Close,
        inbound_step(Err(StreamError)) == BridgeStep::Close,
        outbound_step(None) == BridgeStep::Close,
{
}

/// The step after a read from the accessory. Silence is normal; an error closes.
pub fn bridge_inbound(read: Result<usize, StreamError>) -> (step: BridgeStep)
    ensures
        step == (match read {
            Ok(n) => if n > 0 {
                BridgeStep::Forward(n)
            } else {
                BridgeStep::Poll
            },
            Err(_) => BridgeStep::Close,
        }),
        step == inbound_step(read),
{
    match read {
        Ok(n) => if n > 0 {
            BridgeStep::Forward(n)
        } else {
            BridgeStep::Poll
        },
        Err(_) => BridgeStep::Close,
    }
}

/// The step after a read from the session. Its end closes, and so does an error.
pub fn bridge_outbound(read: Option<usize>) -> (step: BridgeStep)
    ensures
        step == (match read {
            Some(n) => if n > 0 {
                BridgeStep::Forward(n)
            } else {
                BridgeStep::Close
            },
            None => BridgeStep::Close,
        }),
        step == outbound_step(read),
{
    match read {
        Some(n) => if n > 0 {
            BridgeStep::Forward(n)
        } else {
            BridgeStep::Close
        },
        None => BridgeStep::Close,
    }
}

/// How many of `left` bytes go into the next bulk write: at most [`CHUNK`], and one byte less where
/// they would fill their packets exactly.
pub open spec fn piece_len(left: int) -> int {
    if left > CHUNK {
        CHUNK as int
    } else if left > 0 && left % (MAX_PACKET as int) == 0 {
        left - 1
    } else {
        left
    }
}

/// How many of `left` bytes go into the next bulk write.
fn next_piece(left: usize) -> (n: usize)
    ensures
        n == piece_len(left as int),
{
    if left > CHUNK {
        CHUNK
    } else if left > 0 && left % MAX_PACKET == 0 {
        left - 1
    } else {
        left
    }
}

/// A bulk write is never empty, never too long, and ends in a short packet.
pub proof fn piece_ends_short(left: int)
    requires
        left > 0,
    ensures
        0 < piece_len(left) <= left,
        piece_len(left) <= CHUNK,
        piece_len(left) % (MAX_PACKET as int) != 0,
{
}

/// `data` cut into the bulk writes that carry it.
pub open spec fn chunks_of(data: Seq<u8>) -> Seq<Seq<u8>>
    decreases data.len(),
{
    if data.len() == 0 {
        seq![]
    } else {
        let n = piece_len(data.len() as int);
        seq![data.take(n)] + chunks_of(data.skip(n))
    }
}

/// The contents of a list of pieces.
pub open spec fn chunk_views(chunks: Seq<Vec<u8>>) -> Seq<Seq<u8>> {
    chunks.map_values(|c: Vec<u8>| c@)
}

/// Cuts what goes to the accessory into bulk writes. Each of them ends in a short packet: a last
/// piece that fills its packets exactly is sent as all but one byte, then that byte.
pub fn bridge_chunks(data: &[u8]) -> (chunks: Vec<Vec<u8>>)
    ensures
        chunk_views(chunks@) == chunks_of(data@),
{
    let mut chunks: Vec<Vec<u8>> = Vec::new();
    let len: usize = data.len();
    let mut offset: usize = 0;
    assert(data@.skip(0) =~= data@);
    assert(chunk_views(chunks@) + chunks_of(data@.skip(0)) =~= chunks_of(data@));
    while offset < len
        invariant
            offset <= len,
            len == data@.len(),
            chunk_views(chunks@) + chunks_of(data@.skip(offset as int)) == chunks_of(data@),
        decreases len - offset,
    {
        proof {
            piece_ends_short(len - offset);
        }
        let end: usize = offset + next_piece(len - offset);
        let ghost rest = data@.skip(offset as int);
        let ghost before = chunks@;
        let chunk = copy_range(data, offset, end);
        let ghost piece = chunk@;
        chunks.push(chunk);
        proof {
            assert(chunk_views(chunks@) =~= chunk_views(before).push(piece));
            assert(piece =~= rest.take(end - offset));
            assert(data@.skip(end as int) =~= rest.skip(end - offset));
            assert(chunks_of(rest) == seq![piece] + chunks_of(data@.skip(end as int)));
            assert(chunk_views(chunks@) + chunks_of(data@.skip(end as int)) =~= chunk_views(before)
                + chunks_of(rest));
        }
        offset = end;
    }
    assert(data@.skip(offset as int) =~= seq![]);
    assert(chunk_views(chunks@) =~= chunk_views(chunks@) + seq![]);
    chunks
}

/// Writing the pieces one after another writes the data. No piece is empty or too long, and every
/// one ends in a short packet, which the tablet needs in order to release the bytes.
pub proof fn chunks_cover_data(data: Seq<u8>)
    ensures
        chunks_of(data).flatten() == data,
        forall|i: int|
            0 <= i < chunks_of(data).len() ==> {
                &&& 0 < (#[trigger] chunks_of(data)[i]).len() <= CHUNK
                &&& chunks_of(data)[i].len() % (MAX_PACKET as nat) != 0
            },
    decreases data.len(),
{
    let chunks = chunks_of(data);
    if data.len() == 0 {
        assert(chunks.flatten() =~= data);
    } else {
        let n = piece_len(data.len() as int);
        piece_ends_short(data.len() as int);
        let rest = data.skip(n);
        chunks_cover_data(rest);
        assert(chunks.drop_first() =~= chunks_of(rest));
        assert(chunks.first() == data.take(n));
        assert(data =~= data.take(n) + rest);
        assert forall|i: int| 0 <= i < chunks.len() implies {
            &&& 0 < (#[trigger] chunks[i]).len() <= CHUNK
            &&& chunks[i].len() % (MAX_PACKET as nat) != 0
        } by {
            if i > 0 {
                assert(chunks[i] == chunks_of(rest)[i - 1]);
            }
        }
    }
}

/// What the bridge does next with what the session sent.
#[derive(Debug, Clone, Copy, PartialEq, Eq, Structural)]
pub enum WriteStep {
    /// Offer the accessory the bytes from `from` to before `to`.
    Offer { from: usize, to: usize },
    /// The accessory has taken everything.
    Complete,
    /// The write failed: close this side.
    Close,
}

/// How far the accessory has taken a number of bytes.
pub struct WriteState {
    pub done: int,
    pub len: int,
}

/// At most everything has been taken.
pub open spec fn write_wf(st: WriteState) -> bool {
    0 <= st.done <= st.len <= usize::MAX
}

/// The step that follows from how far the write has come.
pub open spec fn write_step(st: WriteState) -> WriteStep {
    if st.done < st.len {
        WriteStep::Offer {
            from: st.done as usize,
            to: (st.done + piece_len(st.len - st.done)) as usize,
        }
    } else {
        WriteStep::Complete
    }
}

/// A write of what the session sent to the accessory, which may take less than it is offered.
#[derive(Debug)]
pub struct BridgeWrite {
    done: usize,
    len: usize,
}

impl View for BridgeWrite {
    type V = WriteState;

    closed spec fn view(&self) -> WriteState {
        WriteState { done: self.done as int, len: self.len as int }
    }
}

impl BridgeWrite {
    /// A write of `len` bytes, none of which has been taken.
    pub fn new(len: usize) -> (write: BridgeWrite)
        ensures
            write@ == (WriteState { done: 0, len: len as int }),
            write_wf(write@),
    {
        BridgeWrite { done: 0, len }
    }

    /// The next step.
    pub fn step(&self) -> (step: WriteStep)
        requires
            write_wf(self@),
        ensures
            step == write_step(self@),
    {
        if self.done < self.len {
            proof {
                piece_ends_short(self.len - self.done);
            }
            WriteStep::Offer { from: self.done, to: self.done + next_piece(self.len - self.done) }
        } else {
            WriteStep::Complete
        }
    }

    /// Takes the number of bytes that the accessory took of an offer, and goes on with the first one
    /// that it did not take. A failure closes.
    pub fn on_write(&mut self, written: Result<usize, StreamError>) -> (step: WriteStep)
        requires
            write_wf(old(self)@),
            written matches Ok(n) ==> n <= piece_len(old(self)@.len - old(self)@.done),
        ensures
            write_wf(final(self)@),
            final(self)@.len == old(self)@.len,
            final(self)@.done == old(self)@.done + (match written {
                Ok(n) => n as int,
                Err(_) => 0,
            }),
            step == (match written {
                Ok(_) => write_step(final(self)@),
                Err(_) => WriteStep::Close,
            }),
    {
        match written {
            Ok(n) => {
                self.done = self.done + n;
                self.step()
            },
            Err(_) => WriteStep::Close,
        }
    }
}

/// What is offered is the first of the pieces that the rest is cut into, so every offer is a bulk
/// write that ends in a short packet, also after one of which only a part was taken.
pub proof fn offer_is_first_piece(data: Seq<u8>, done: int)
    requires
        0 <= done < data.len() <= usize::MAX,
    ensures
        ({
            let step = write_step(WriteState { done, len: data.len() as int });
            &&& step matches WriteStep::Offer { from, to }
            &&& from == done
            &&& from < to <= data.len()
            &&& data.subrange(from as int, to as int) == chunks_of(data.skip(done))[0]
            &&& to - from <= CHUNK
            &&& (to - from) % (MAX_PACKET as int) != 0
        }),
{
    piece_ends_short(data.len() - done);
    let n = piece_len(data.len() - done);
    assert(data.skip(done).take(n) =~= data.subrange(done, done + n));
}

/// The bytes that an accessory has taken in all, which took `takes[0]` of the first offer, then
/// `takes[1]` of the next one, and so on.
pub open spec fn bytes_taken(data: Seq<u8>, done: int, takes: Seq<int>) -> Seq<u8>
    decreases takes.len(),
{
    if takes.len() == 0 {
        seq![]
    } else {
        let offer = data.subrange(done, done + piece_len(data.len() - done));
        offer.take(takes[0]) + bytes_taken(data, done + takes[0], takes.drop_first())
    }
}

/// How far such a write has come.
pub open spec fn done_after(done: int, takes: Seq<int>) -> int
    decreases takes.len(),
{
    if takes.len() == 0 {
        done
    } else {
        done_after(done + takes[0], takes.drop_first())
    }
}

/// No offer was taken beyond its end.
pub open spec fn takes_fit(len: int, done: int, takes: Seq<int>) -> bool
    decreases takes.len(),
{
    takes.len() > 0 ==> {
        &&& 0 <= takes[0] <= piece_len(len - done)
        &&& takes_fit(len, done + takes[0], takes.drop_first())
    }
}

proof fn taken_from(data: Seq<u8>, done: int, takes: Seq<int>)
    requires
        0 <= done <= data.len(),
        takes_fit(data.len() as int, done, takes),
    ensures
        done <= done_after(done, takes) <= data.len(),
        bytes_taken(data, done, takes) == data.subrange(done, done_after(done, takes)),
    decreases takes.len(),
{
    if takes.len() == 0 {
        assert(data.subrange(done, done) =~= seq![]);
    } else {
        let n = takes[0];
        taken_from(data, done + n, takes.drop_first());
        let offer = data.subrange(done, done + piece_len(data.len() - done));
        assert(offer.take(n) =~= data.subrange(done, done + n));
        assert(data.subrange(done, done_after(done, takes)) =~= data.subrange(done, done + n)
            + data.subrange(done + n, done_after(done, takes)));
    }
}

/// However little of each offer an accessory takes, what it has taken, in order, is the beginning of
/// the data, without a gap and without a repetition, and once the write is complete it is the data.
pub proof fn bridge_loses_nothing(data: Seq<u8>, takes: Seq<int>)
    requires
        takes_fit(data.len() as int, 0, takes),
    ensures
        0 <= done_after(0, takes) <= data.len(),
        bytes_taken(data, 0, takes) == data.take(done_after(0, takes)),
        write_step(WriteState { done: done_after(0, takes), len: data.len() as int })
            == WriteStep::Complete ==> bytes_taken(data, 0, takes) == data,
{
    taken_from(data, 0, takes);
    assert(data.take(data.len() as int) =~= data);
}

// --- what devices and requests are -----------------------------------------------------------------

/// A device that is an accessory already: of Google, with one of the six product ids.
pub open spec fn switched_already(id: DeviceId) -> bool {
    id.vendor == 0x18D1 && (id.product == 0x2D00 || id.product == 0x2D01 || id.product == 0x2D02
        || id.product == 0x2D03 || id.product == 0x2D04 || id.product == 0x2D05)
}

/// A device that takes the handshake up to the start: it is no accessory and no hub, can be opened,
/// and answers with a version other than zero.
pub open spec fn ready_to_start(r: Responses) -> bool {
    &&& r.id matches Some(id) && !switched_already(id) && id.class != 9
    &&& r.opens
    &&& r.answer matches Some((n, bytes)) && n >= 2 && (bytes@[0] != 0 || bytes@[1] != 0)
}

/// A device is switched exactly if it takes the whole handshake. One that refuses the start is passed
/// over, or ends the pass where that is asked for; every other device is passed over.
pub proof fn handshake_decides(r: Responses, strict: bool, id: DeviceId)
    ensures
        accessory(id) <==> switched_already(id),
        tried(r, strict) == SwitchAction::Done <==> ready_to_start(r) && r.starts,
        tried(r, strict) == SwitchAction::Fail <==> ready_to_start(r) && !r.starts && strict,
        tried(r, strict) == SwitchAction::Done || tried(r, strict) == SwitchAction::Fail || tried(
            r,
            strict,
        ) == SwitchAction::Next,
{
    only_willing_devices_switch(r, strict);
}

/// Of the devices of the bus the first one that takes the handshake is switched, and those before it
/// do not keep it from that.
pub proof fn first_taker_is_switched(devices: Seq<Responses>, i: int)
    requires
        devices.len() <= usize::MAX,
        0 <= i < devices.len(),
        ready_to_start(devices[i]) && devices[i].starts,
        forall|j: int| 0 <= j < i ==> !(ready_to_start(#[trigger] devices[j]) && devices[j].starts),
    ensures
        ({
            let pass = SwitchPass { device: 0, count: devices.len() as usize, strict: false };
            let step = try_device(0, devices.len() as int);
            pass_after(pass, step, devices, 4 * devices.len()).1 == PassStep::Switched(i as usize)
        }),
{
    first_willing_device_is_switched(devices, false);
    first_tried_is(devices, 0, i);
    handshake_decides(devices[i], false, DeviceId { vendor: 0, product: 0, class: 0 });
}

proof fn first_tried_is(devices: Seq<Responses>, from: int, i: int)
    requires
        0 <= from <= i < devices.len(),
        ready_to_start(devices[i]) && devices[i].starts,
        forall|j: int|
            from <= j < i ==> !(ready_to_start(#[trigger] devices[j]) && devices[j].starts),
    ensures
        first_tried(devices, false, from) == i,
    decreases i - from,
{
    handshake_decides(devices[from], false, DeviceId { vendor: 0, product: 0, class: 0 });
    if from < i {
        assert(!(ready_to_start(devices[from]) && devices[from].starts));
        first_tried_is(devices, from + 1, i);
    }
}

/// Where no device takes the handshake none is switched.
pub proof fn no_taker_no_switch(devices: Seq<Responses>)
    requires
        devices.len() <= usize::MAX,
        forall|j: int|
            0 <= j < devices.len() ==> !(ready_to_start(#[trigger] devices[j]) && devices[j].starts),
    ensures
        ({
            let pass = SwitchPass { device: 0, count: devices.len() as usize, strict: false };
            let step = try_device(0, devices.len() as int);
            pass_after(pass, step, devices, 4 * devices.len()).1 == PassStep::Exhausted
        }),
{
    first_willing_device_is_switched(devices, false);
    none_tried(devices, 0);
}

proof fn none_tried(devices: Seq<Responses>, from: int)
    requires
        0 <= from <= devices.len(),
        forall|j: int|
            from <= j < devices.len() ==> !(ready_to_start(#[trigger] devices[j])
                && devices[j].starts),
    ensures
        first_tried(devices, false, from) == devices.len(),
    decreases devices.len() - from,
{
    if from < devices.len() {
        handshake_decides(devices[from], false, DeviceId { vendor: 0, product: 0, class: 0 });
        none_tried(devices, from + 1);
    }
}

/// The handshake is seven requests to the device: each string under its number, ended by a zero byte,
/// and then the start, which carries nothing.
pub proof fn handshake_requests(strings: Seq<Seq<char>>, i: int)
    requires
        strings.len() == 6,
        0 <= i < 6,
    ensures
        ({
            let all = switch_requests(strings);
            &&& all.len() == 7
            &&& all[i].request_type == 0x40 && all[i].request == 52 && all[i].value == 0
            &&& all[i].index == i
            &&& all[i].payload == encode_utf8(strings[i]) + seq![0u8]
            &&& all[6].request_type == 0x40 && all[6].request == 53 && all[6].value == 0
            &&& all[6].index == 0 && all[6].payload.len() == 0
        }),
{
    assert(switch_requests(strings)[i].payload =~= encode_utf8(strings[i]) + seq![0u8]);
}

/// The bulk endpoint of a direction is one that the interface has, with that direction, and none
/// follows it. There is none exactly if the interface has none.
pub proof fn bulk_endpoint_is_there(endpoints: Seq<Endpoint>, inbound: bool)
    ensures
        match last_bulk(endpoints, inbound) {
            Some(address) => exists|i: int|
                0 <= i < endpoints.len() && (#[trigger] endpoints[i]) == (Endpoint {
                    kind: TransferKind::Bulk,
                    inbound,
                    address,
                }) && forall|j: int|
                    i < j < endpoints.len() ==> (#[trigger] endpoints[j]).kind != TransferKind::Bulk
                        || endpoints[j].inbound != inbound,
            None => forall|j: int|
                0 <= j < endpoints.len() ==> (#[trigger] endpoints[j]).kind != TransferKind::Bulk
                    || endpoints[j].inbound != inbound,
        },
    decreases endpoints.len(),
{
    if endpoints.len() > 0 {
        let most = endpoints.drop_last();
        let n = endpoints.len() - 1;
        bulk_endpoint_is_there(most, inbound);
        assert(forall|j: int| 0 <= j < n ==> #[trigger] most[j] == endpoints[j]);
        if endpoints[n].kind == TransferKind::Bulk && endpoints[n].inbound == inbound {
            assert(endpoints[n] == (Endpoint {
                kind: TransferKind::Bulk,
                inbound,
                address: endpoints[n].address,
            }));
        } else if last_bulk(most, inbound) is Some {
            let address = last_bulk(most, inbound)->0;
            let i = choose|i: int|
                0 <= i < most.len() && (#[trigger] most[i]) == (Endpoint {
                    kind: TransferKind::Bulk,
                    inbound,
                    address,
                }) && forall|j: int|
                    i < j < most.len() ==> (#[trigger] most[j]).kind != TransferKind::Bulk
                        || most[j].inbound != inbound;
            assert(endpoints[i] == most[i]);
            assert forall|j: int| i < j < endpoints.len() implies (#[trigger] endpoints[j]).kind
                != TransferKind::Bulk || endpoints[j].inbound != inbound by {
                if j < n {
                    assert(most[j] == endpoints[j]);
                }
            }
        } else {
            assert forall|j: int| 0 <= j < endpoints.len() implies (#[trigger] endpoints[j]).kind
                != TransferKind::Bulk || endpoints[j].inbound != inbound by {
                if j < n {
                    assert(most[j] == endpoints[j]);
                }
            }
        }
    }
}

/// Bytes flow over an interface that has a bulk endpoint for each direction, what is read over the
/// inbound one and what is written over the outbound one.
pub proof fn pair_has_both_directions(iface: UsbInterface)
    ensures
        bulk_pair(iface) matches Some(p) ==> p.iface == iface.number && last_bulk(
            iface.endpoints@,
            true,
        ) == Some(p.ep_in) && last_bulk(iface.endpoints@, false) == Some(p.ep_out),
        bulk_pair(iface) is Some <==> (exists|i: int|
            0 <= i < iface.endpoints@.len() && (#[trigger] iface.endpoints@[i]).kind
                == TransferKind::Bulk && iface.endpoints@[i].inbound) && (exists|i: int|
            0 <= i < iface.endpoints@.len() && (#[trigger] iface.endpoints@[i]).kind
                == TransferKind::Bulk && !iface.endpoints@[i].inbound),
{
    bulk_endpoint_is_there(iface.endpoints@, true);
    bulk_endpoint_is_there(iface.endpoints@, false);
}

/// A bulk write carries 16383 bytes as long as there are more, and then all that are left, but one
/// less where these would fill their packets of 512 bytes.
pub proof fn writes_are_full(left: int)
    ensures
        left > 16383 ==> piece_len(left) == 16383,
        0 < left <= 16383 && left % 512 != 0 ==> piece_len(left) == left,
        0 < left <= 16383 && left % 512 == 0 ==> piece_len(left) == left - 1,
{
}

} // verus!
