use ferrite::cosmic::{
    ensure_cosmic_input_entries, has_entries, read_current_touch_mapping, write_touch_mapping,
    CosmicInputEntry, CosmicInputState,
};
use ferrite::drm::{card_of, list_outputs, scan_evdi_connector, DrmEntry};
use ferrite::encoder::{size_string, H264Dump, H264Encoder, PROGRAM};
use ferrite::idle::IdleFilter;
use ferrite::message::{ClientMessage, ClientStatus, Status};
use ferrite::session::{
    aoa_enabled, find_evdi_connector, ClientTable, Mode, Phase, ScanStep, Session, SessionAction,
    SessionError, SessionEvent, ADDR,
};

#[test]
fn modes_have_names() {
    assert_eq!(Mode::Mirror.env(), "mirror");
    assert_eq!(Mode::Virtual.env(), "virtual");
    assert_eq!(Mode::from_env(None), Mode::Mirror);
    assert_eq!(Mode::from_env(Some("virtual")), Mode::Virtual);
    assert_eq!(Mode::from_env(Some("Virtual")), Mode::Mirror);
    for mode in [Mode::Mirror, Mode::Virtual] {
        assert_eq!(Mode::from_env(Some(mode.env())), mode);
    }
}

#[test]
fn accessories_are_on_unless_switched_off() {
    assert!(aoa_enabled(None));
    assert!(aoa_enabled(Some("1")));
    assert!(!aoa_enabled(Some("0")));
}

#[test]
fn clients_are_listed_while_they_are_served() {
    let mut table = ClientTable::new();
    table.insert("10.0.0.1:5", 1920, 1080);
    table.insert("aoa", 800, 600);
    table.insert("10.0.0.1:5", 1280, 720);
    let status = table.status(Mode::Virtual);
    assert_eq!(status.listen_addr, "0.0.0.0:7543");
    assert_eq!(status.listen_addr, ADDR);
    assert_eq!(status.mode, "virtual");
    let listed: Vec<(&str, u32, u32)> =
        status.clients.iter().map(|c| (c.peer.as_str(), c.width, c.height)).collect();
    assert_eq!(listed, vec![("10.0.0.1:5", 1280, 720), ("aoa", 800, 600)]);
    table.remove("10.0.0.1:5");
    table.remove("nobody");
    assert_eq!(table.status(Mode::Mirror).clients.len(), 1);
    assert_eq!(table.status(Mode::Mirror).clients[0].peer, "aoa");
}

#[test]
fn status_can_be_cloned() {
    let status = Status {
        listen_addr: "a".to_string(),
        mode: "m".to_string(),
        clients: vec![ClientStatus { peer: "p".to_string(), width: 1, height: 2 }],
    };
    let copy = status.clone();
    assert_eq!(copy.listen_addr, "a");
    assert_eq!(copy.mode, "m");
    assert_eq!(copy.clients.len(), 1);
    assert_eq!((copy.clients[0].width, copy.clients[0].height), (1, 2));
    assert!(Status::default().clients.is_empty());
}

fn hello() -> Vec<u8> {
    ClientMessage::Hello { device_name: "Tab".to_string(), width: 2800, height: 1720 }.encode()
}

#[test]
fn virtual_session_runs_its_course() {
    let (mut s, action) = Session::new(Mode::Virtual, false);
    assert_eq!(action, SessionAction::WritePreamble);
    assert_eq!(s.handle(SessionEvent::PreambleWritten(true)), SessionAction::ReadHello);
    assert_eq!(s.handle(SessionEvent::FirstMessage(Some(hello()))), SessionAction::StartDisplay);
    assert_eq!((s.device_name.as_str(), s.width, s.height), ("Tab", 2800, 1720));
    assert_eq!(s.handle(SessionEvent::SourceStarted(true)), SessionAction::CreateDevices);
    assert_eq!(s.handle(SessionEvent::DevicesCreated(true)), SessionAction::FindConnector);
    let found = SessionEvent::ConnectorFound(Some("DVI-I-1".to_string()));
    assert_eq!(s.handle(found), SessionAction::WriteMapping);
    assert_eq!(s.map_to.as_deref(), Some("DVI-I-1"));
    assert_eq!(s.handle(SessionEvent::MappingDone), SessionAction::WaitForFrame);
    assert!(!s.listed);
    assert_eq!(
        s.handle(SessionEvent::FrameArrived(Some((1920, 1080)))),
        SessionAction::StartEncoder { width: 1920, height: 1080 }
    );
    assert!(s.listed);
    assert_eq!(s.handle(SessionEvent::EncoderStarted(true)), SessionAction::Stream);
    assert_eq!(s.handle(SessionEvent::PumpEnded(true)), SessionAction::Close);
    assert!(!s.listed);
    assert_eq!(s.phase, Phase::Over);
}

#[test]
fn mirror_session_needs_a_capture() {
    let (mut s, _) = Session::new(Mode::Mirror, false);
    s.handle(SessionEvent::PreambleWritten(true));
    assert_eq!(
        s.handle(SessionEvent::FirstMessage(Some(hello()))),
        SessionAction::Fail(SessionError::NoCapture)
    );
    let (mut s, _) = Session::new(Mode::Mirror, true);
    s.handle(SessionEvent::PreambleWritten(true));
    assert_eq!(s.handle(SessionEvent::FirstMessage(Some(hello()))), SessionAction::UseCapture);
    s.handle(SessionEvent::SourceStarted(true));
    // Without a connector to pin the devices to.
    assert_eq!(s.handle(SessionEvent::DevicesCreated(true)), SessionAction::WriteMapping);
    assert_eq!(s.map_to, None);
}

#[test]
fn session_without_devices_still_streams() {
    let (mut s, _) = Session::new(Mode::Virtual, false);
    s.handle(SessionEvent::PreambleWritten(true));
    s.handle(SessionEvent::FirstMessage(Some(hello())));
    s.handle(SessionEvent::SourceStarted(true));
    assert_eq!(s.handle(SessionEvent::DevicesCreated(false)), SessionAction::WaitForFrame);
    assert!(!s.devices);
}

#[test]
fn session_failures() {
    let fail = |events: Vec<SessionEvent>| {
        let (mut s, mut last) = Session::new(Mode::Virtual, false);
        for e in events {
            last = s.handle(e);
        }
        assert!(!s.listed);
        last
    };
    assert_eq!(
        fail(vec![SessionEvent::PreambleWritten(false)]),
        SessionAction::Fail(SessionError::Connection)
    );
    assert_eq!(
        fail(vec![SessionEvent::PreambleWritten(true), SessionEvent::FirstMessage(None)]),
        SessionAction::Fail(SessionError::Connection)
    );
    assert_eq!(
        fail(vec![SessionEvent::PreambleWritten(true), SessionEvent::FirstMessage(Some(vec![9]))]),
        SessionAction::Fail(SessionError::BadHello)
    );
    let pong = ClientMessage::Pong.encode();
    assert_eq!(
        fail(vec![SessionEvent::PreambleWritten(true), SessionEvent::FirstMessage(Some(pong))]),
        SessionAction::Fail(SessionError::ExpectedHello)
    );
    let start = || {
        vec![SessionEvent::PreambleWritten(true), SessionEvent::FirstMessage(Some(hello()))]
    };
    let mut events = start();
    events.push(SessionEvent::SourceStarted(false));
    assert_eq!(fail(events), SessionAction::Fail(SessionError::Display));
    let mut events = start();
    events.push(SessionEvent::SourceStarted(true));
    events.push(SessionEvent::DevicesCreated(false));
    events.push(SessionEvent::FrameArrived(None));
    assert_eq!(fail(events), SessionAction::Fail(SessionError::CaptureEnded));
    let mut events = start();
    events.push(SessionEvent::SourceStarted(true));
    events.push(SessionEvent::DevicesCreated(false));
    events.push(SessionEvent::FrameArrived(Some((1, 1))));
    events.push(SessionEvent::EncoderStarted(false));
    assert_eq!(fail(events), SessionAction::Fail(SessionError::Encoder));
    let mut events = start();
    events.push(SessionEvent::SourceStarted(true));
    events.push(SessionEvent::DevicesCreated(false));
    events.push(SessionEvent::FrameArrived(Some((1, 1))));
    events.push(SessionEvent::EncoderStarted(true));
    events.push(SessionEvent::PumpEnded(false));
    assert_eq!(fail(events), SessionAction::Fail(SessionError::Stream));
}

#[test]
fn connectors_are_scanned_twenty_times() {
    assert_eq!(find_evdi_connector(1, true), ScanStep::Found);
    assert_eq!(find_evdi_connector(1, false), ScanStep::Again(100));
    assert_eq!(find_evdi_connector(19, false), ScanStep::Again(100));
    assert_eq!(find_evdi_connector(20, false), ScanStep::Missing(100));
}

#[test]
fn encoder_arguments() {
    assert_eq!(PROGRAM, "ffmpeg");
    assert_eq!(size_string(1920, 0), "1920x0");
    let args = H264Encoder::spawn(1920, 1080, 60).args;
    assert_eq!(
        args.join(" "),
        "-loglevel warning -f rawvideo -pix_fmt rgb24 -s 1920x1080 -framerate 60 -i pipe:0 \
         -vaapi_device /dev/dri/renderD128 -vf format=nv12,hwupload -c:v h264_vaapi -rc_mode CQP \
         -qp 22 -quality 7 -g 30 -bf 0 -async_depth 1 -aud 1 -bsf:v dump_extra=freq=keyframe \
         -f h264 pipe:1"
    );
    let slow = H264Encoder::spawn(1, 1, 1).args;
    let g = slow.iter().position(|a| a == "-g").unwrap();
    assert_eq!(slow[g + 1], "1");
}

#[test]
fn dump_arguments() {
    let mut dump = H264Dump::new(640, 480, 30, Some("/tmp/x.h264")).unwrap();
    assert_eq!(
        dump.args.join(" "),
        "-y -loglevel warning -f rawvideo -pix_fmt rgb24 -s 640x480 -framerate 30 -i pipe:0 \
         -vaapi_device /dev/dri/renderD128 -vf format=nv12,hwupload -c:v h264_vaapi -b:v 8M -g 60 \
         /tmp/x.h264"
    );
    assert!(dump.open);
    dump.write_rgb(true);
    assert!(dump.open);
    dump.write_rgb(false);
    dump.write_rgb(true);
    assert!(!dump.open);
    assert!(H264Dump::new(640, 480, 30, None).is_none());
}

#[test]
fn idle_frames_are_skipped() {
    let mut filter = IdleFilter::new();
    assert!(filter.pump_rgb(&[1, 2, 3]));
    assert!(!filter.pump_rgb(&[1, 2, 3]));
    assert!(filter.pump_rgb(&[1, 2, 4]));
    assert!(filter.pump_rgb(&[1, 2, 3]));
    assert!(!filter.pump_rgb(&[1, 2, 3]));
}

#[test]
fn hash_is_xxh3() {
    let mut filter = IdleFilter::new();
    filter.pump_rgb(b"");
    assert_eq!(filter.last_hash, Some(0x2d06800538d394c2));
    assert!(!filter.pass(0x2d06800538d394c2));
    assert!(filter.pass(1));
    assert!(!filter.pass(1));
    filter.pump_rgb(b"abc");
    assert_eq!(filter.last_hash, Some(xxhash_rust::xxh3::xxh3_64(b"abc")));
}

fn entry(name: &str, output: Option<&str>) -> CosmicInputEntry {
    CosmicInputEntry {
        name: name.to_string(),
        state: CosmicInputState::Disabled,
        map_to_output: output.map(str::to_string),
    }
}

#[test]
fn client_devices_are_pinned() {
    let mut entries = vec![entry("mouse", None), entry("ferrite virtual pen (Tab)", Some("old"))];
    ensure_cosmic_input_entries(&mut entries, "Tab", Some("DVI-I-1"));
    assert_eq!(entries.len(), 3);
    assert_eq!(entries[0].name, "mouse");
    assert_eq!(entries[0].state, CosmicInputState::Disabled);
    assert_eq!(entries[1].name, "ferrite virtual pen (Tab)");
    assert_eq!(entries[1].state, CosmicInputState::Enabled);
    assert_eq!(entries[1].map_to_output.as_deref(), Some("DVI-I-1"));
    assert_eq!(entries[2].name, "ferrite virtual touchscreen (Tab)");
    assert_eq!(entries[2].map_to_output.as_deref(), Some("DVI-I-1"));
    ensure_cosmic_input_entries(&mut entries, "Tab", None);
    assert_eq!(entries.len(), 3);
    assert_eq!(entries[2].map_to_output, None);
}

#[test]
fn touch_mapping_is_read_back() {
    let mut entries = vec![entry("mouse", Some("HDMI-A-1"))];
    assert_eq!(read_current_touch_mapping(&entries), None);
    write_touch_mapping(&mut entries, Some("DP-1"));
    assert_eq!(read_current_touch_mapping(&entries).as_deref(), Some("DP-1"));
    write_touch_mapping(&mut entries, None);
    assert_eq!(read_current_touch_mapping(&entries), None);
    assert_eq!(entries.len(), 2);
    assert_eq!(entries[0].map_to_output.as_deref(), Some("HDMI-A-1"));
}

#[test]
fn blank_configuration_has_no_entries() {
    assert!(!has_entries(" \n\t\u{3000}"));
    assert!(!has_entries(""));
    assert!(has_entries(" {} "));
}

fn drm(name: &str, status: &str, uevent: &str) -> DrmEntry {
    DrmEntry { name: name.to_string(), status: status.to_string(), uevent: uevent.to_string() }
}

#[test]
fn evdi_connector_is_found() {
    let evdi = "DRIVER=evdi\nMODALIAS=platform:evdi\n";
    let entries = [
        drm("version", "connected", evdi),
        drm("card0", "connected", evdi),
        drm("card0-DP-1", "connected\n", "DRIVER=amdgpu\n"),
        drm("card1-DVI-I-1", "disconnected\n", evdi),
        drm("card2-DVI-I-2", "connected\n", "X=1\r\nDRIVER=evdi\r\n"),
        drm("card3-DVI-I-3", "connected\n", evdi),
    ];
    assert_eq!(scan_evdi_connector(&entries).as_deref(), Some("DVI-I-2"));
    assert_eq!(scan_evdi_connector(&entries[..4]), None);
    assert_eq!(scan_evdi_connector(&[drm("card9-A", "connected", "DRIVER=evdi2")]), None);
    assert_eq!(card_of("card2-DVI-I-2").as_deref(), Some("card2"));
    assert_eq!(card_of("renderD128"), None);
}

#[test]
fn outputs_are_listed_in_order() {
    let names: Vec<String> = [
        "card1-HDMI-A-2",
        "card0-DP-10",
        "card0",
        "renderD128",
        "card0-Writeback-1",
        "card1-DP-2",
        "card2-HDMI-A-2",
        "card3-",
    ]
    .iter()
    .map(|s| s.to_string())
    .collect();
    assert_eq!(list_outputs(&names), vec!["", "DP-10", "DP-2", "HDMI-A-2"]);
    assert!(list_outputs(&[]).is_empty());
}
