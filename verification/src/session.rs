//! The host: its mode, the clients that it serves, and the course of a session.

use vstd::prelude::*;

use crate::input::{read_hello, HelloError};
use crate::message::{ClientStatus, Status};
use crate::message::{ClientMsg, ClientRecord};
use crate::text::str_eq;
use crate::wire::parse_client;

verus! {

/// Where clients connect.
pub const ADDR: &'static str = "0.0.0.0:7543";

/// Frames per second of the stream.
pub const STREAM_FPS: u32 = 60;

/// Bytes that are read from the encoder at once.
pub const READ_CHUNK: usize = 65536;

// --- settings ---------------------------------------------------------------------------------

/// What is streamed.
#[derive(Debug, Clone, Copy, PartialEq, Eq, Structural)]
pub enum Mode {
    /// An existing output.
    Mirror,
    /// A monitor of its own for each client.
    Virtual,
}

/// The name of a mode.
pub open spec fn mode_name(mode: Mode) -> Seq<char> {
    match mode {
        Mode::Mirror => "mirror"@,
        Mode::Virtual => "virtual"@,
    }
}

/// The mode that a setting names. Anything but the name of the virtual mode, and no setting at all,
/// means mirroring.
pub open spec fn mode_named(setting: Option<Seq<char>>) -> Mode {
    if setting == Some("virtual"@) {
        Mode::Virtual
    } else {
        Mode::Mirror
    }
}

/// The contents of an optional string.
pub open spec fn opt_view(s: Option<&str>) -> Option<Seq<char>> {
    match s {
        Some(s) => Some(s@),
        None => None,
    }
}

impl Mode {
    /// The name of the mode, as it stands in the environment and in the status.
    pub fn env(self) -> (name: &'static str)
        ensures
            name@ == mode_name(self),
            self == Mode::Mirror ==> name@ == "mirror"@,
            self == Mode::Virtual ==> name@ == "virtual"@,
    {
        match self {
            Mode::Mirror => "mirror",
            Mode::Virtual => "virtual",
        }
    }

    /// The mode that the environment asks for.
    pub fn from_env(setting: Option<&str>) -> (mode: Mode)
        ensures
            mode == mode_named(opt_view(setting)),
            mode == Mode::Virtual <==> (setting matches Some(s) && s@ == "virtual"@),
    {
        match setting {
            Some(name) => if str_eq(name, "virtual") {
                Mode::Virtual
            } else {
                Mode::Mirror
            },
            None => Mode::Mirror,
        }
    }
}

/// Clients connect at port 7543 of every address, and the stream has 60 frames a second.
pub proof fn host_listens_everywhere()
    ensures
        ADDR@ == "0.0.0.0:7543"@,
        STREAM_FPS == 60,
        READ_CHUNK == 65536,
{
}

/// A host that is started with the name of a mode runs in that mode.
pub proof fn mode_survives_environment(mode: Mode)
    ensures
        mode_named(Some(mode_name(mode))) == mode,
{
    reveal_strlit("mirror");
    reveal_strlit("virtual");
    assert("mirror"@.len() != "virtual"@.len());
}

/// A host runs in the virtual mode exactly if it is told so by name, and mirrors otherwise.
pub proof fn only_virtual_means_virtual(setting: Option<Seq<char>>)
    ensures
        mode_named(setting) == Mode::Virtual <==> setting == Some("virtual"@),
        mode_named(None) == Mode::Mirror,
{
}

/// Whether the host waits for accessories: unless the setting is `0`.
pub fn aoa_enabled(setting: Option<&str>) -> (enabled: bool)
    ensures
        enabled == (opt_view(setting) != Some("0"@)),
{
    match setting {
        Some(value) => !str_eq(value, "0"),
        None => true,
    }
}

// --- clients ----------------------------------------------------------------------------------

/// The first record of a peer from index `from` on, or the number of records.
pub open spec fn peer_from(clients: Seq<ClientRecord>, peer: Seq<char>, from: int) -> int
    decreases clients.len() - from,
{
    if from >= clients.len() {
        clients.len() as int
    } else if clients[from].peer == peer {
        from
    } else {
        peer_from(clients, peer, from + 1)
    }
}

/// The record of a peer.
pub open spec fn client_of(clients: Seq<ClientRecord>, peer: Seq<char>) -> Option<ClientRecord> {
    let i = peer_from(clients, peer, 0);
    if i < clients.len() {
        Some(clients[i])
    } else {
        None
    }
}

/// The records with one more, or with a new one in the place of the peer's old one.
pub open spec fn with_client(clients: Seq<ClientRecord>, r: ClientRecord) -> Seq<ClientRecord> {
    let i = peer_from(clients, r.peer, 0);
    if i < clients.len() {
        clients.update(i, r)
    } else {
        clients.push(r)
    }
}

/// The records without that of a peer.
pub open spec fn without_client(clients: Seq<ClientRecord>, peer: Seq<char>) -> Seq<ClientRecord> {
    let i = peer_from(clients, peer, 0);
    if i < clients.len() {
        clients.remove(i)
    } else {
        clients
    }
}

/// No peer has two records.
pub open spec fn peers_differ(clients: Seq<ClientRecord>) -> bool {
    forall|i: int, j: int|
        0 <= i < j < clients.len() ==> (#[trigger] clients[i]).peer != (#[trigger] clients[j]).peer
}

/// The contents of some records.
pub open spec fn client_views(clients: Seq<ClientStatus>) -> Seq<ClientRecord> {
    clients.map_values(|c: ClientStatus| c@)
}

/// The clients that are being served.
#[derive(Debug)]
pub struct ClientTable {
    clients: Vec<ClientStatus>,
}

impl View for ClientTable {
    type V = Seq<ClientRecord>;

    closed spec fn view(&self) -> Seq<ClientRecord> {
        client_views(self.clients@)
    }
}

/// `peer_from` is the first record of the peer.
pub proof fn peer_from_is_first(clients: Seq<ClientRecord>, peer: Seq<char>, from: int)
    requires
        0 <= from <= clients.len(),
    ensures
        from <= peer_from(clients, peer, from) <= clients.len(),
        peer_from(clients, peer, from) < clients.len() ==> clients[peer_from(
            clients,
            peer,
            from,
        )].peer == peer,
        forall|i: int|
            from <= i < peer_from(clients, peer, from) ==> (#[trigger] clients[i]).peer != peer,
    decreases clients.len() - from,
{
    if from < clients.len() && clients[from].peer != peer {
        peer_from_is_first(clients, peer, from + 1);
    }
}

impl ClientTable {
    /// No clients.
    pub fn new() -> (table: ClientTable)
        ensures
            table@ == Seq::<ClientRecord>::empty(),
            peers_differ(table@),
    {
        let table = ClientTable { clients: Vec::new() };
        assert(table@ =~= Seq::<ClientRecord>::empty());
        table
    }

    /// The first record of a peer.
    fn position(&self, peer: &str) -> (i: usize)
        ensures
            i == peer_from(self@, peer@, 0),
            i <= self.clients@.len(),
    {
        let mut i: usize = 0;
        while i < self.clients.len()
            invariant
                i <= self.clients@.len(),
                peer_from(self@, peer@, 0) == peer_from(self@, peer@, i as int),
            decreases self.clients@.len() - i,
        {
            assert(self@[i as int].peer == self.clients@[i as int].peer@);
            if str_eq(self.clients[i].peer.as_str(), peer) {
                return i;
            }
            i += 1;
        }
        i
    }

    /// A client's stream starts.
    pub fn insert(&mut self, peer: &str, width: u32, height: u32)
        requires
            peers_differ(old(self)@),
        ensures
            final(self)@ == with_client(old(self)@, ClientRecord { peer: peer@, width, height }),
            peers_differ(final(self)@),
    {
        let ghost before = self@;
        let i: usize = self.position(peer);
        let status = ClientStatus { peer: String::from_str(peer), width, height };
        let ghost r = status@;
        if i < self.clients.len() {
            self.clients.set(i, status);
            assert(self@ =~= before.update(i as int, r));
        } else {
            self.clients.push(status);
            assert(self@ =~= before.push(r));
        }
        proof {
            client_is_listed(before, r);
        }
    }

    /// A client's session has ended.
    pub fn remove(&mut self, peer: &str)
        requires
            peers_differ(old(self)@),
        ensures
            final(self)@ == without_client(old(self)@, peer@),
            peers_differ(final(self)@),
    {
        let ghost before = self@;
        let i: usize = self.position(peer);
        if i < self.clients.len() {
            self.clients.remove(i);
            assert(self@ =~= before.remove(i as int));
        }
        proof {
            client_is_gone(before, peer@);
        }
    }

    /// The status to publish.
    pub fn status(&self, mode: Mode) -> (status: Status)
        ensures
            status.listen_addr@ == ADDR@,
            status.mode@ == mode_name(mode),
            client_views(status.clients@) == self@,
    {
        let mut clients: Vec<ClientStatus> = Vec::new();
        let mut i: usize = 0;
        while i < self.clients.len()
            invariant
                i <= self.clients@.len(),
                client_views(clients@) == self@.take(i as int),
            decreases self.clients@.len() - i,
        {
            let copy = self.clients[i].clone();
            let ghost before = clients@;
            let ghost r = copy@;
            clients.push(copy);
            assert(client_views(clients@) =~= client_views(before).push(r));
            assert(self@.take(i + 1) =~= self@.take(i as int).push(self@[i as int]));
            i += 1;
        }
        assert(self@.take(i as int) =~= self@);
        Status {
            listen_addr: String::from_str(ADDR),
            mode: String::from_str(mode.env()),
            clients,
        }
    }
}

/// A client whose stream starts is listed with its size, and no other record changes.
pub proof fn client_is_listed(clients: Seq<ClientRecord>, r: ClientRecord)
    requires
        peers_differ(clients),
    ensures
        peers_differ(with_client(clients, r)),
        client_of(with_client(clients, r), r.peer) == Some(r),
        forall|p: Seq<char>|
            p != r.peer ==> #[trigger] client_of(with_client(clients, r), p) == client_of(
                clients,
                p,
            ),
{
    let after = with_client(clients, r);
    let i = peer_from(clients, r.peer, 0);
    peer_from_is_first(clients, r.peer, 0);
    peer_from_is_first(after, r.peer, 0);
    assert(after[i] == r);
    assert forall|p: Seq<char>| p != r.peer implies #[trigger] client_of(after, p) == client_of(
        clients,
        p,
    ) by {
        peer_from_is_first(clients, p, 0);
        peer_from_is_first(after, p, 0);
        let a = peer_from(clients, p, 0);
        let b = peer_from(after, p, 0);
        if b < after.len() {
            assert(b != i);
            assert(after[b] == clients[b]);
        }
        if a < clients.len() {
            assert(a != i);
            assert(after[a] == clients[a]);
        }
    }
}

/// A client whose session has ended is listed no more, and no other record changes.
pub proof fn client_is_gone(clients: Seq<ClientRecord>, peer: Seq<char>)
    requires
        peers_differ(clients),
    ensures
        peers_differ(without_client(clients, peer)),
        client_of(without_client(clients, peer), peer) is None,
        forall|p: Seq<char>|
            p != peer ==> #[trigger] client_of(without_client(clients, peer), p) == client_of(
                clients,
                p,
            ),
{
    let after = without_client(clients, peer);
    let i = peer_from(clients, peer, 0);
    peer_from_is_first(clients, peer, 0);
    peer_from_is_first(after, peer, 0);
    if i < clients.len() {
        assert forall|k: int| 0 <= k < after.len() implies #[trigger] after[k] == clients[if k < i {
            k
        } else {
            k + 1
        }] by {}
        let b = peer_from(after, peer, 0);
        if b < after.len() {
            let k = if b < i {
                b
            } else {
                b + 1
            };
            assert(after[b] == clients[k]);
            assert(clients[k].peer == peer && clients[i].peer == peer && k != i);
        }
        assert forall|p: Seq<char>| p != peer implies #[trigger] client_of(after, p) == client_of(
            clients,
            p,
        ) by {
            peer_from_is_first(clients, p, 0);
            peer_from_is_first(after, p, 0);
            let a = peer_from(clients, p, 0);
            let c = peer_from(after, p, 0);
            if a < clients.len() {
                let k = if a < i {
                    a
                } else {
                    a - 1
                };
                assert(after[k] == clients[a]);
                if c < after.len() {
                    let m = if c < i {
                        c
                    } else {
                        c + 1
                    };
                    assert(after[c] == clients[m]);
                    assert(clients[m].peer == clients[a].peer);
                }
            } else if c < after.len() {
                let m = if c < i {
                    c
                } else {
                    c + 1
                };
                assert(after[c] == clients[m]);
            }
        }
    }
}

/// A client that starts a stream is in the list with the size of its stream, and only once; every
/// other client is in the list exactly if it was. A client that has gone is not in the list.
pub proof fn list_holds_clients(clients: Seq<ClientRecord>, r: ClientRecord, other: ClientRecord)
    requires
        peers_differ(clients),
    ensures
        with_client(clients, r).contains(r),
        with_client(clients, r).contains(other) && other.peer == r.peer ==> other == r,
        other.peer != r.peer ==> (with_client(clients, r).contains(other) <==> clients.contains(
            other,
        )),
        without_client(clients, r.peer).contains(other) <==> clients.contains(other) && other.peer
            != r.peer,
{
    let i = peer_from(clients, r.peer, 0);
    peer_from_is_first(clients, r.peer, 0);
    let w = with_client(clients, r);
    let v = without_client(clients, r.peer);
    assert(w[i] == r);
    if clients.contains(other) {
        let k = choose|k: int| 0 <= k < clients.len() && clients[k] == other;
        if k != i {
            assert(w[k] == other);
            if i < clients.len() {
                assert(v[if k < i {
                    k
                } else {
                    k - 1
                }] == other);
            }
        }
    }
    if w.contains(other) {
        let k = choose|k: int| 0 <= k < w.len() && w[k] == other;
        if k != i {
            assert(clients[k] == other);
            if i < clients.len() {
                assert(clients[k].peer != clients[i].peer);
            }
        }
    }
    if v.contains(other) {
        let k = choose|k: int| 0 <= k < v.len() && v[k] == other;
        if i < clients.len() {
            let m = if k < i {
                k
            } else {
                k + 1
            };
            assert(clients[m] == other);
            assert(clients[m].peer != clients[i].peer);
        } else {
            assert(clients[k] == other);
        }
    }
}

// --- the course of a session --------------------------------------------------------------------

/// Where a session stands: what it waits for.
#[derive(Debug, Clone, Copy, PartialEq, Eq, Structural)]
pub enum Phase {
    /// The preamble is being written.
    Preamble,
    /// The client has to introduce itself.
    Hello,
    /// The source of frames is being started.
    Source,
    /// The virtual devices are being created.
    Devices,
    /// The client's monitor is being looked for among the connectors.
    Connector,
    /// The compositor's configuration is being written.
    Mapping,
    /// The first frame has to come, for its size.
    FirstFrame,
    /// The encoder is being started.
    Encoder,
    /// Frames go out, input comes in.
    Streaming,
    /// The session is over.
    Over,
}

/// Why a session failed.
#[derive(Debug, Clone, Copy, PartialEq, Eq, Structural)]
pub enum SessionError {
    /// The connection broke before the stream started.
    Connection,
    /// The first frame is not a message.
    BadHello,
    /// The first message is not an introduction.
    ExpectedHello,
    /// The virtual monitor could not be started.
    Display,
    /// Nothing is being captured.
    NoCapture,
    /// The source ended before its first frame.
    CaptureEnded,
    /// The encoder could not be started.
    Encoder,
    /// The stream broke.
    Stream,
}

/// What to do next.
#[derive(Debug, Clone, Copy, PartialEq, Eq, Structural)]
pub enum SessionAction {
    WritePreamble,
    ReadHello,
    /// Start a monitor of the client's size.
    StartDisplay,
    /// Take frames from the shared capture.
    UseCapture,
    /// Create the two devices named after the client.
    CreateDevices,
    FindConnector,
    /// Write the compositor's configuration for the client's devices, with the connector that was
    /// found.
    WriteMapping,
    WaitForFrame,
    /// List the client and start an encoder for frames of this size.
    StartEncoder { width: u32, height: u32 },
    /// Run the three pumps until one of them ends.
    Stream,
    /// Take the client off the list: the session ended.
    Close,
    /// Take the client off the list: the session failed.
    Fail(SessionError),
}

/// What has happened.
#[derive(Debug)]
pub enum SessionEvent {
    /// Whether the preamble was written.
    PreambleWritten(bool),
    /// The body of the first frame, if one came.
    FirstMessage(Option<Vec<u8>>),
    /// Whether the source of frames is there.
    SourceStarted(bool),
    /// Whether the devices were created. Without them input is dropped.
    DevicesCreated(bool),
    /// The connector of the client's monitor, if it was found.
    ConnectorFound(Option<String>),
    /// The compositor's configuration was written, or could not be.
    MappingDone,
    /// The size of the first frame, if one came.
    FrameArrived(Option<(u32, u32)>),
    /// Whether the encoder was started.
    EncoderStarted(bool),
    /// One of the pumps ended, and whether without an error.
    PumpEnded(bool),
}

/// A session's state.
pub struct SessionState {
    pub mode: Mode,
    pub capture: bool,
    pub phase: Phase,
    pub device_name: Seq<char>,
    pub width: u32,
    pub height: u32,
    pub devices: bool,
    pub map_to: Option<Seq<char>>,
    pub listed: bool,
}

/// The session fails.
pub open spec fn failed(st: SessionState, e: SessionError) -> (SessionState, SessionAction) {
    (SessionState { phase: Phase::Over, listed: false, ..st }, SessionAction::Fail(e))
}

/// The session goes on.
pub open spec fn goes_on(st: SessionState, phase: Phase, action: SessionAction) -> (
    SessionState,
    SessionAction,
) {
    (SessionState { phase, ..st }, action)
}

/// The client has introduced itself. A virtual monitor is started for it; mirroring needs a capture.
pub open spec fn introduced(st: SessionState, name: Seq<char>, width: u32, height: u32) -> (
    SessionState,
    SessionAction,
) {
    let next = SessionState { device_name: name, width, height, ..st };
    match st.mode {
        Mode::Virtual => goes_on(next, Phase::Source, SessionAction::StartDisplay),
        Mode::Mirror => if st.capture {
            goes_on(next, Phase::Source, SessionAction::UseCapture)
        } else {
            failed(next, SessionError::NoCapture)
        },
    }
}

/// The event is one that the phase waits for.
pub open spec fn awaited(phase: Phase, event: SessionEvent) -> bool {
    match phase {
        Phase::Preamble => event is PreambleWritten,
        Phase::Hello => event is FirstMessage,
        Phase::Source => event is SourceStarted,
        Phase::Devices => event is DevicesCreated,
        Phase::Connector => event is ConnectorFound,
        Phase::Mapping => event is MappingDone,
        Phase::FirstFrame => event is FrameArrived,
        Phase::Encoder => event is EncoderStarted,
        Phase::Streaming => event is PumpEnded,
        Phase::Over => false,
    }
}

/// The contents of an optional string.
pub open spec fn opt_string_view(s: Option<String>) -> Option<Seq<char>> {
    match s {
        Some(s) => Some(s@),
        None => None,
    }
}

/// The state and the action after an event.
pub open spec fn session_next(st: SessionState, event: SessionEvent) -> (
    SessionState,
    SessionAction,
) {
    match event {
        SessionEvent::PreambleWritten(ok) => if ok {
            goes_on(st, Phase::Hello, SessionAction::ReadHello)
        } else {
            failed(st, SessionError::Connection)
        },
        SessionEvent::FirstMessage(Some(body)) => match parse_client(body@) {
            Some(ClientMsg::Hello { device_name, width, height }) => introduced(
                st,
                device_name,
                width,
                height,
            ),
            Some(_) => failed(st, SessionError::ExpectedHello),
            None => failed(st, SessionError::BadHello),
        },
        SessionEvent::FirstMessage(None) => failed(st, SessionError::Connection),
        SessionEvent::SourceStarted(ok) => if ok {
            goes_on(st, Phase::Devices, SessionAction::CreateDevices)
        } else {
            failed(st, SessionError::Display)
        },
        SessionEvent::DevicesCreated(ok) => {
            let next = SessionState { devices: ok, ..st };
            if !ok {
                goes_on(next, Phase::FirstFrame, SessionAction::WaitForFrame)
            } else if st.mode == Mode::Virtual {
                goes_on(next, Phase::Connector, SessionAction::FindConnector)
            } else {
                goes_on(next, Phase::Mapping, SessionAction::WriteMapping)
            }
        },
        SessionEvent::ConnectorFound(connector) => goes_on(
            SessionState { map_to: opt_string_view(connector), ..st },
            Phase::Mapping,
            SessionAction::WriteMapping,
        ),
        SessionEvent::MappingDone => goes_on(st, Phase::FirstFrame, SessionAction::WaitForFrame),
        SessionEvent::FrameArrived(Some((width, height))) => goes_on(
            SessionState { listed: true, ..st },
            Phase::Encoder,
            SessionAction::StartEncoder { width, height },
        ),
        SessionEvent::FrameArrived(None) => failed(st, SessionError::CaptureEnded),
        SessionEvent::EncoderStarted(ok) => if ok {
            goes_on(st, Phase::Streaming, SessionAction::Stream)
        } else {
            failed(st, SessionError::Encoder)
        },
        SessionEvent::PumpEnded(ok) => if ok {
            goes_on(SessionState { listed: false, ..st }, Phase::Over, SessionAction::Close)
        } else {
            failed(st, SessionError::Stream)
        },
    }
}

/// A state that a session can be in: the client is listed from its first frame to the end, and its
/// devices are pinned to a connector only in virtual mode.
pub open spec fn session_wf(st: SessionState) -> bool {
    &&& st.listed <==> st.phase == Phase::Encoder || st.phase == Phase::Streaming
    &&& st.map_to is Some ==> st.mode == Mode::Virtual && st.devices && rank(st.phase) >= rank(
        Phase::Mapping,
    )
    &&& st.phase == Phase::Connector ==> st.mode == Mode::Virtual && st.devices
    &&& st.phase == Phase::Mapping ==> st.devices
}

/// One client's session.
#[derive(Debug)]
pub struct Session {
    pub mode: Mode,
    pub capture: bool,
    pub phase: Phase,
    pub device_name: String,
    pub width: u32,
    pub height: u32,
    pub devices: bool,
    pub map_to: Option<String>,
    pub listed: bool,
}

impl View for Session {
    type V = SessionState;

    open spec fn view(&self) -> SessionState {
        SessionState {
            mode: self.mode,
            capture: self.capture,
            phase: self.phase,
            device_name: self.device_name@,
            width: self.width,
            height: self.height,
            devices: self.devices,
            map_to: opt_string_view(self.map_to),
            listed: self.listed,
        }
    }
}

impl Session {
    /// A client has connected. `capture` says whether there is a shared capture.
    pub fn new(mode: Mode, capture: bool) -> (session: (Session, SessionAction))
        ensures
            session_wf(session.0@),
            session.0@ == (SessionState {
                mode,
                capture,
                phase: Phase::Preamble,
                device_name: seq![],
                width: 0,
                height: 0,
                devices: false,
                map_to: None,
                listed: false,
            }),
            session.1 == SessionAction::WritePreamble,
    {
        let session = Session {
            mode,
            capture,
            phase: Phase::Preamble,
            device_name: String::new(),
            width: 0,
            height: 0,
            devices: false,
            map_to: None,
            listed: false,
        };
        assert(session@.device_name =~= seq![]);
        (session, SessionAction::WritePreamble)
    }

    /// The session fails.
    fn fail(&mut self, e: SessionError) -> (action: SessionAction)
        ensures
            (final(self)@, action) == failed(old(self)@, e),
    {
        self.phase = Phase::Over;
        self.listed = false;
        SessionAction::Fail(e)
    }

    /// The session goes on.
    fn go_on(&mut self, phase: Phase, action: SessionAction) -> (next: SessionAction)
        ensures
            (final(self)@, next) == goes_on(old(self)@, phase, action),
    {
        self.phase = phase;
        action
    }

    /// Takes an event: what to do next.
    pub fn handle(&mut self, event: SessionEvent) -> (action: SessionAction)
        requires
            session_wf(old(self)@),
            awaited(old(self)@.phase, event),
        ensures
            session_wf(final(self)@),
            (final(self)@, action) == session_next(old(self)@, event),
    {
        match event {
            SessionEvent::PreambleWritten(ok) => if ok {
                self.go_on(Phase::Hello, SessionAction::ReadHello)
            } else {
                self.fail(SessionError::Connection)
            },
            SessionEvent::FirstMessage(Some(body)) => match read_hello(body.as_slice()) {
                Ok((name, width, height)) => {
                    self.device_name = name;
                    self.width = width;
                    self.height = height;
                    match self.mode {
                        Mode::Virtual => self.go_on(Phase::Source, SessionAction::StartDisplay),
                        Mode::Mirror => if self.capture {
                            self.go_on(Phase::Source, SessionAction::UseCapture)
                        } else {
                            self.fail(SessionError::NoCapture)
                        },
                    }
                },
                Err(HelloError::Unexpected) => self.fail(SessionError::ExpectedHello),
                Err(HelloError::Decode) => self.fail(SessionError::BadHello),
            },
            SessionEvent::FirstMessage(None) => self.fail(SessionError::Connection),
            SessionEvent::SourceStarted(ok) => if ok {
                self.go_on(Phase::Devices, SessionAction::CreateDevices)
            } else {
                self.fail(SessionError::Display)
            },
            SessionEvent::DevicesCreated(ok) => {
                self.devices = ok;
                if !ok {
                    self.go_on(Phase::FirstFrame, SessionAction::WaitForFrame)
                } else if self.mode == Mode::Virtual {
                    self.go_on(Phase::Connector, SessionAction::FindConnector)
                } else {
                    self.go_on(Phase::Mapping, SessionAction::WriteMapping)
                }
            },
            SessionEvent::ConnectorFound(connector) => {
                self.map_to = connector;
                self.go_on(Phase::Mapping, SessionAction::WriteMapping)
            },
            SessionEvent::MappingDone => self.go_on(Phase::FirstFrame, SessionAction::WaitForFrame),
            SessionEvent::FrameArrived(Some((width, height))) => {
                self.listed = true;
                self.go_on(Phase::Encoder, SessionAction::StartEncoder { width, height })
            },
            SessionEvent::FrameArrived(None) => self.fail(SessionError::CaptureEnded),
            SessionEvent::EncoderStarted(ok) => if ok {
                self.go_on(Phase::Streaming, SessionAction::Stream)
            } else {
                self.fail(SessionError::Encoder)
            },
            SessionEvent::PumpEnded(ok) => if ok {
                self.listed = false;
                self.go_on(Phase::Over, SessionAction::Close)
            } else {
                self.fail(SessionError::Stream)
            },
        }
    }
}

/// The state after a course of events.
pub open spec fn session_course(st: SessionState, events: Seq<SessionEvent>) -> SessionState
    decreases events.len(),
{
    if events.len() == 0 {
        st
    } else {
        session_next(session_course(st, events.drop_last()), events.last()).0
    }
}

/// Every event of a course was awaited when it came.
pub open spec fn course_fits(st: SessionState, events: Seq<SessionEvent>) -> bool
    decreases events.len(),
{
    events.len() > 0 ==> {
        &&& course_fits(st, events.drop_last())
        &&& awaited(session_course(st, events.drop_last()).phase, events.last())
    }
}

/// The phases in the order in which a session goes through them.
pub open spec fn rank(phase: Phase) -> int {
    match phase {
        Phase::Preamble => 0,
        Phase::Hello => 1,
        Phase::Source => 2,
        Phase::Devices => 3,
        Phase::Connector => 4,
        Phase::Mapping => 5,
        Phase::FirstFrame => 6,
        Phase::Encoder => 7,
        Phase::Streaming => 8,
        Phase::Over => 9,
    }
}

/// A session only goes forward: every event takes it to a later phase.
pub proof fn session_goes_forward(st: SessionState, event: SessionEvent)
    requires
        awaited(st.phase, event),
    ensures
        rank(session_next(st, event).0.phase) > rank(st.phase),
{
}

/// A session comes to an end: it takes no more events than there are phases before the last one.
pub proof fn session_is_short(st: SessionState, events: Seq<SessionEvent>)
    requires
        st.phase == Phase::Preamble,
        course_fits(st, events),
    ensures
        events.len() <= rank(session_course(st, events).phase) <= rank(Phase::Over),
    decreases events.len(),
{
    if events.len() > 0 {
        session_is_short(st, events.drop_last());
        session_goes_forward(session_course(st, events.drop_last()), events.last());
    }
}

/// A client that has been served introduced itself with its first message: whatever a session has
/// gone through, once it is past the introduction its second event was a valid one, and it holds the
/// name and the size that came with it.
pub proof fn served_clients_are_introduced(st: SessionState, events: Seq<SessionEvent>)
    requires
        st.phase == Phase::Preamble,
        course_fits(st, events),
        session_course(st, events).phase != Phase::Over,
        rank(session_course(st, events).phase) >= rank(Phase::Source),
    ensures
        events.len() >= 2,
        events[1] is FirstMessage,
        events[1]->FirstMessage_0 is Some,
        parse_client(events[1]->FirstMessage_0->0@) == Some(
            ClientMsg::Hello {
                device_name: session_course(st, events).device_name,
                width: session_course(st, events).width,
                height: session_course(st, events).height,
            },
        ),
    decreases events.len(),
{
    if events.len() > 0 {
        let most = events.drop_last();
        let before = session_course(st, most);
        if rank(before.phase) >= rank(Phase::Source) {
            served_clients_are_introduced(st, most);
            assert(most[1] == events[1]);
        } else if before.phase == Phase::Hello {
            hello_is_second(st, most);
            assert(events.last() == events[1]);
        }
    }
}

/// A session waits for the introduction after exactly one event.
proof fn hello_is_second(st: SessionState, events: Seq<SessionEvent>)
    requires
        st.phase == Phase::Preamble,
        course_fits(st, events),
        session_course(st, events).phase == Phase::Hello,
    ensures
        events.len() == 1,
{
    if events.len() > 0 {
        let most = events.drop_last();
        if most.len() > 0 {
            past_preamble(st, most);
        }
    }
}

/// After an event a session is past the preamble.
proof fn past_preamble(st: SessionState, events: Seq<SessionEvent>)
    requires
        st.phase == Phase::Preamble,
        course_fits(st, events),
        events.len() > 0,
    ensures
        rank(session_course(st, events).phase) > 0,
{
    session_goes_forward(session_course(st, events.drop_last()), events.last());
}

/// The encoder is started for frames of the size of the first one that came, in every mode and
/// whatever size the client has introduced itself with, and it is started for no other reason. The
/// client is listed from then on.
pub proof fn encoder_gets_frame_size(st: SessionState, event: SessionEvent, width: u32, height: u32)
    requires
        awaited(st.phase, event),
    ensures
        session_next(st, event).1 == (SessionAction::StartEncoder { width, height }) <==> event
            == SessionEvent::FrameArrived(Some((width, height))),
        event == SessionEvent::FrameArrived(Some((width, height))) ==> session_next(
            st,
            event,
        ).0.listed,
{
}

/// What a session does, event by event.
pub open spec fn session_actions(st: SessionState, events: Seq<SessionEvent>) -> Seq<SessionAction>
    decreases events.len(),
{
    if events.len() == 0 {
        seq![]
    } else {
        seq![session_next(st, events.first()).1] + session_actions(
            session_next(st, events.first()).0,
            events.drop_first(),
        )
    }
}

/// The whole course of a client that gets a monitor of its own: it introduces itself, its monitor is
/// started, its devices are created and pinned to the connector of that monitor, and once the first
/// frame has come, frames of its size are encoded and streamed until a pump ends.
pub proof fn virtual_session_runs(
    st: SessionState,
    body: Vec<u8>,
    name: Seq<char>,
    size: (u32, u32),
    connector: Option<String>,
    frame: (u32, u32),
)
    requires
        st.phase == Phase::Preamble,
        st.mode == Mode::Virtual,
        parse_client(body@) == Some(
            ClientMsg::Hello { device_name: name, width: size.0, height: size.1 },
        ),
    ensures
        session_actions(
            st,
            seq![
                SessionEvent::PreambleWritten(true),
                SessionEvent::FirstMessage(Some(body)),
                SessionEvent::SourceStarted(true),
                SessionEvent::DevicesCreated(true),
                SessionEvent::ConnectorFound(connector),
                SessionEvent::MappingDone,
                SessionEvent::FrameArrived(Some(frame)),
                SessionEvent::EncoderStarted(true),
                SessionEvent::PumpEnded(true),
            ],
        ) == seq![
            SessionAction::ReadHello,
            SessionAction::StartDisplay,
            SessionAction::CreateDevices,
            SessionAction::FindConnector,
            SessionAction::WriteMapping,
            SessionAction::WaitForFrame,
            SessionAction::StartEncoder { width: frame.0, height: frame.1 },
            SessionAction::Stream,
            SessionAction::Close,
        ],
        ({
            let e1 = session_next(st, SessionEvent::PreambleWritten(true)).0;
            let e2 = session_next(e1, SessionEvent::FirstMessage(Some(body))).0;
            let e3 = session_next(e2, SessionEvent::SourceStarted(true)).0;
            let e4 = session_next(e3, SessionEvent::DevicesCreated(true)).0;
            let e5 = session_next(e4, SessionEvent::ConnectorFound(connector)).0;
            &&& e5.device_name == name && e5.width == size.0 && e5.height == size.1
            &&& e5.devices
            &&& connector is None ==> e5.map_to is None
            &&& connector matches Some(c) ==> e5.map_to == Some(c@)
        }),
{
    reveal_with_fuel(session_actions, 10);
    let events = seq![
        SessionEvent::PreambleWritten(true),
        SessionEvent::FirstMessage(Some(body)),
        SessionEvent::SourceStarted(true),
        SessionEvent::DevicesCreated(true),
        SessionEvent::ConnectorFound(connector),
        SessionEvent::MappingDone,
        SessionEvent::FrameArrived(Some(frame)),
        SessionEvent::EncoderStarted(true),
        SessionEvent::PumpEnded(true),
    ];
    assert(session_actions(st, events) =~= seq![
        SessionAction::ReadHello,
        SessionAction::StartDisplay,
        SessionAction::CreateDevices,
        SessionAction::FindConnector,
        SessionAction::WriteMapping,
        SessionAction::WaitForFrame,
        SessionAction::StartEncoder { width: frame.0, height: frame.1 },
        SessionAction::Stream,
        SessionAction::Close,
    ]);
}

/// The whole course of a client that mirrors: the frames come from the shared capture, and its
/// devices are pinned to no connector.
pub proof fn mirror_session_runs(
    st: SessionState,
    body: Vec<u8>,
    name: Seq<char>,
    size: (u32, u32),
    frame: (u32, u32),
)
    requires
        st.phase == Phase::Preamble,
        st.mode == Mode::Mirror,
        st.capture,
        session_wf(st),
        parse_client(body@) == Some(
            ClientMsg::Hello { device_name: name, width: size.0, height: size.1 },
        ),
    ensures
        session_actions(
            st,
            seq![
                SessionEvent::PreambleWritten(true),
                SessionEvent::FirstMessage(Some(body)),
                SessionEvent::SourceStarted(true),
                SessionEvent::DevicesCreated(true),
                SessionEvent::MappingDone,
                SessionEvent::FrameArrived(Some(frame)),
                SessionEvent::EncoderStarted(true),
                SessionEvent::PumpEnded(true),
            ],
        ) == seq![
            SessionAction::ReadHello,
            SessionAction::UseCapture,
            SessionAction::CreateDevices,
            SessionAction::WriteMapping,
            SessionAction::WaitForFrame,
            SessionAction::StartEncoder { width: frame.0, height: frame.1 },
            SessionAction::Stream,
            SessionAction::Close,
        ],
        ({
            let e1 = session_next(st, SessionEvent::PreambleWritten(true)).0;
            let e2 = session_next(e1, SessionEvent::FirstMessage(Some(body))).0;
            let e3 = session_next(e2, SessionEvent::SourceStarted(true)).0;
            let e4 = session_next(e3, SessionEvent::DevicesCreated(true)).0;
            &&& e4.device_name == name && e4.width == size.0 && e4.height == size.1
            &&& e4.devices
            &&& e4.map_to is None
        }),
{
    reveal_with_fuel(session_actions, 9);
    let events = seq![
        SessionEvent::PreambleWritten(true),
        SessionEvent::FirstMessage(Some(body)),
        SessionEvent::SourceStarted(true),
        SessionEvent::DevicesCreated(true),
        SessionEvent::MappingDone,
        SessionEvent::FrameArrived(Some(frame)),
        SessionEvent::EncoderStarted(true),
        SessionEvent::PumpEnded(true),
    ];
    assert(session_actions(st, events) =~= seq![
        SessionAction::ReadHello,
        SessionAction::UseCapture,
        SessionAction::CreateDevices,
        SessionAction::WriteMapping,
        SessionAction::WaitForFrame,
        SessionAction::StartEncoder { width: frame.0, height: frame.1 },
        SessionAction::Stream,
        SessionAction::Close,
    ]);
}

/// What went wrong, where an event ends a session.
pub open spec fn mishap(st: SessionState, event: SessionEvent) -> Option<SessionError> {
    match event {
        SessionEvent::PreambleWritten(false) => Some(SessionError::Connection),
        SessionEvent::FirstMessage(None) => Some(SessionError::Connection),
        SessionEvent::SourceStarted(false) => Some(SessionError::Display),
        SessionEvent::FrameArrived(None) => Some(SessionError::CaptureEnded),
        SessionEvent::EncoderStarted(false) => Some(SessionError::Encoder),
        SessionEvent::PumpEnded(false) => Some(SessionError::Stream),
        SessionEvent::FirstMessage(Some(body)) => match parse_client(body@) {
            None => Some(SessionError::BadHello),
            Some(msg) => if !(msg is Hello) {
                Some(SessionError::ExpectedHello)
            } else if st.mode == Mode::Mirror && !st.capture {
                Some(SessionError::NoCapture)
            } else {
                None
            },
        },
        _ => None,
    }
}

/// A session fails exactly when something goes wrong, says what did, and lists its client no more.
/// Devices that could not be created and a configuration that could not be written end no session:
/// without devices the configuration is left alone and the picture comes all the same.
pub proof fn only_mishaps_end_a_session(st: SessionState, event: SessionEvent)
    requires
        awaited(st.phase, event),
    ensures
        ({
            let (next, action) = session_next(st, event);
            &&& match mishap(st, event) {
                Some(e) => action == SessionAction::Fail(e),
                None => !(action is Fail),
            }
            &&& mishap(st, event) is Some ==> next.phase == Phase::Over && !next.listed
            &&& next.phase == Phase::Over <==> mishap(st, event) is Some || event is PumpEnded
            &&& event is PumpEnded ==> !next.listed
            &&& event == SessionEvent::DevicesCreated(false) ==> action
                == SessionAction::WaitForFrame && !next.devices
            &&& action == SessionAction::StartDisplay ==> st.mode == Mode::Virtual
            &&& action == SessionAction::UseCapture ==> st.mode == Mode::Mirror
            &&& action == SessionAction::FindConnector ==> st.mode == Mode::Virtual
        }),
{
}

// --- looking for the monitor --------------------------------------------------------------------

/// How often the connectors are scanned.
pub const CONNECTOR_SCANS: u32 = 20;

/// What to do after a scan.
#[derive(Debug, Clone, Copy, PartialEq, Eq, Structural)]
pub enum ScanStep {
    /// The scan found the connector.
    Found,
    /// Scan again after so many milliseconds.
    Again(u64),
    /// Give up after so many milliseconds.
    Missing(u64),
}

/// The step after scan number `scan`, counted from 1.
pub open spec fn scan_step(scan: u32, found: bool) -> ScanStep {
    if found {
        ScanStep::Found
    } else if scan < CONNECTOR_SCANS {
        ScanStep::Again(100)
    } else {
        ScanStep::Missing(100)
    }
}

/// A connector is taken at the scan that finds it, and looked for ten times a second until then, for
/// two seconds at most.
pub proof fn connector_is_looked_for_two_seconds(scan: u32)
    ensures
        scan_step(scan, true) == ScanStep::Found,
        scan < 20 ==> scan_step(scan, false) == ScanStep::Again(100),
        scan >= 20 ==> scan_step(scan, false) == ScanStep::Missing(100),
{
}

/// Decides on scan number `scan`, counted from 1. The kernel needs a moment until a new monitor
/// shows up.
pub fn find_evdi_connector(scan: u32, found: bool) -> (step: ScanStep)
    ensures
        step == (if found {
            ScanStep::Found
        } else if scan < CONNECTOR_SCANS {
            ScanStep::Again(100)
        } else {
            ScanStep::Missing(100)
        }),
        step == scan_step(scan, found),
{
    if found {
        ScanStep::Found
    } else if scan < CONNECTOR_SCANS {
        ScanStep::Again(100)
    } else {
        ScanStep::Missing(100)
    }
}

} // verus!
