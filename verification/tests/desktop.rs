use ferrite::message::{ClientStatus, Status};
use ferrite::panel::{
    adb_devices, adb_devices_first, adb_remove_args, adb_reverse, adb_reverse_args, connect_url,
    evdi_present, transport_label, AdbRun, Panel, Section, Transport, EVDI_SETUP_CMD, PORT,
};
use ferrite::paths::{
    adb_path, config_path, cosmic_input_devices_path, host_input_devices_path, join,
    portal_token_path, portal_token_present, sdk_adb_path, sibling_exe, status_path,
};
use ferrite::qr::{png_for_drawing, qr_png_for_url};
use ferrite::session::Mode;
use ferrite::text::{
    chars_of, contains, decimal_string, lines, parse_u32, precedes, starts_with, str_eq, string_of,
    trim, words,
};
use ferrite::tray::{
    menu_label, mode_label, Config, HostStart, HostToggle, MenuEntry, ModeChoice, Tray,
};
use std::path::PathBuf;

fn strings(v: &[Vec<char>]) -> Vec<String> {
    v.iter().map(|c| c.iter().collect()).collect()
}

#[test]
fn text_agrees_with_std() {
    let samples = [
        "",
        " ",
        "a",
        "  a b\tc  ",
        "x\r\ny\n\nz",
        "x\ny\r",
        "\u{2003}é\u{85}ü",
        "\n",
        "a\n",
        "\r\n\r",
        "+12 34",
    ];
    for s in samples {
        let c = chars_of(s);
        assert_eq!(string_of(&c), s);
        assert_eq!(string_of(&trim(&c)), s.trim());
        assert_eq!(strings(&words(&c)), s.split_whitespace().collect::<Vec<_>>());
        assert_eq!(strings(&lines(&c)), s.lines().collect::<Vec<_>>());
        for t in samples {
            let d = chars_of(t);
            assert_eq!(str_eq(s, t), s == t);
            assert_eq!(precedes(&c, &d), s < t);
            assert_eq!(contains(&c, &d), s.contains(t));
            assert_eq!(starts_with(&c, &d), s.starts_with(t));
        }
    }
}

#[test]
fn numbers_agree_with_std() {
    for n in [0u64, 9, 10, 99, 100, 7543, u64::MAX] {
        assert_eq!(decimal_string(n), n.to_string());
    }
    for s in ["", "+", "0", "007", "+5", "-5", "4294967295", "4294967296", "1a", " 1", "99999999999999999999"] {
        assert_eq!(parse_u32(&chars_of(s)), s.parse::<u32>().ok(), "{s}");
    }
}

#[test]
fn every_white_space_is_trimmed() {
    for u in 0..0x11_0000u32 {
        if let Some(c) = char::from_u32(u) {
            assert_eq!(ferrite::text::white(c), c.is_whitespace(), "{u:x}");
        }
    }
}

fn bytes(p: PathBuf) -> Vec<u8> {
    p.to_str().unwrap().as_bytes().to_vec()
}

#[test]
fn paths_agree_with_std() {
    for base in ["", "/", "a", "a/", "/run/user/1000", "/tmp//"] {
        for part in ["x", "x/y", "", "/abs", "x/"] {
            assert_eq!(join(base.as_bytes(), part), bytes(PathBuf::from(base).join(part)));
        }
    }
}

#[test]
fn status_is_in_the_runtime_directory() {
    assert_eq!(status_path(Some(b"/run/user/1000")), b"/run/user/1000/ferrite-status.json");
    assert_eq!(status_path(None), b"/tmp/ferrite-status.json");
}

#[test]
fn user_directories_fall_back_to_the_home() {
    assert_eq!(portal_token_path(Some(b"/c"), Some(b"/h")).unwrap(), b"/c/ferrite/portal_token");
    assert_eq!(portal_token_path(None, Some(b"/h")).unwrap(), b"/h/.cache/ferrite/portal_token");
    assert!(portal_token_path(None, None).is_none());
    assert_eq!(config_path(None, Some(b"/h")).unwrap(), b"/h/.config/ferrite/tray.ron");
    assert_eq!(config_path(Some(b"/x"), None).unwrap(), b"/x/ferrite/tray.ron");
    assert!(config_path(None, None).is_none());
    let devices = b"/h/.config/cosmic/com.system76.CosmicComp/v1/input_devices";
    assert_eq!(cosmic_input_devices_path(None, Some(b"/h")).unwrap(), devices);
    assert_eq!(host_input_devices_path(Some(b"/h")).unwrap(), devices);
    assert!(cosmic_input_devices_path(None, None).is_none());
    assert!(host_input_devices_path(None).is_none());
}

#[test]
fn programs_are_found() {
    let sdk = sdk_adb_path(Some(b"/h"));
    assert_eq!(sdk.as_deref(), Some(&b"/h/Android/Sdk/platform-tools/adb"[..]));
    assert_eq!(adb_path(sdk.clone(), true), b"/h/Android/Sdk/platform-tools/adb");
    assert_eq!(adb_path(sdk, false), b"adb");
    assert_eq!(adb_path(None, true), b"adb");
    assert_eq!(sibling_exe(Some(b"/opt/bin"), "ferrite-host"), b"/opt/bin/ferrite-host");
    assert_eq!(sibling_exe(None, "ferrite-ui"), b"ferrite-ui");
}

#[test]
fn token_is_present_if_its_file_is() {
    assert!(portal_token_present(Some(true)));
    assert!(!portal_token_present(Some(false)));
    assert!(!portal_token_present(None));
}

#[test]
fn evdi_counter_is_read() {
    assert!(evdi_present(Some("1\n")));
    assert!(evdi_present(Some(" 12 ")));
    assert!(!evdi_present(Some("0\n")));
    assert!(!evdi_present(Some("x")));
    assert!(!evdi_present(None));
}

#[test]
fn adb_listing_is_read() {
    let listing = "List of devices attached\nR52T\tdevice\nabc\tunauthorized\nemulator-5554 device\nx device usb\n\n";
    let devices = adb_devices(Some(listing));
    assert_eq!(devices, vec!["R52T", "emulator-5554"]);
    assert_eq!(adb_devices_first(&devices).as_deref(), Some("R52T"));
    assert_eq!(adb_devices_first(&[]), None);
    assert!(adb_devices(None).is_empty());
    assert!(adb_devices(Some("a device")).is_empty());
}

#[test]
fn adb_forwards_the_port() {
    assert_eq!(
        adb_reverse_args(Some("R52T"), 7543),
        vec!["-s", "R52T", "reverse", "tcp:7543", "tcp:7543"]
    );
    assert_eq!(adb_reverse_args(None, 1), vec!["reverse", "tcp:1", "tcp:1"]);
    assert_eq!(adb_remove_args(7543), vec!["reverse", "--remove", "tcp:7543"]);
    assert_eq!(adb_reverse(AdbRun::Ran { success: true, stderr: "x".to_string() }), Ok(()));
    assert_eq!(
        adb_reverse(AdbRun::Ran { success: false, stderr: " no device\n".to_string() }),
        Err("no device".to_string())
    );
    assert_eq!(adb_reverse(AdbRun::NotRun("gone".to_string())), Err("gone".to_string()));
}

#[test]
fn connect_address_depends_on_the_transport() {
    assert_eq!(connect_url(Some("10.0.0.5"), PORT, Transport::Wifi), "ferrite://10.0.0.5:7543");
    assert_eq!(connect_url(None, PORT, Transport::Wifi), "ferrite://127.0.0.1:7543");
    assert_eq!(connect_url(Some("10.0.0.5"), PORT, Transport::Usb), "ferrite://127.0.0.1:7543");
    assert_eq!(transport_label(Transport::Wifi), "Wi-Fi (LAN)");
    assert_eq!(transport_label(Transport::Usb), "USB (adb reverse)");
}

#[test]
fn qr_code_is_a_png() {
    let png = qr_png_for_url("ferrite://10.0.0.5:7543").unwrap();
    assert_eq!(&png[..8], &[0x89, b'P', b'N', b'G', 0x0d, 0x0a, 0x1a, 0x0a]);
    let img = image::load_from_memory(&png).unwrap().to_luma8();
    // Version 2: 25 modules and a border of four on each side, eight pixels each.
    assert_eq!((img.width(), img.height()), (264, 264));
    assert!(img.pixels().all(|p| p.0[0] == 0 || p.0[0] == 255));
    for i in 0..264 {
        for b in 0..32 {
            assert_eq!(img.get_pixel(i, b).0[0], 255);
            assert_eq!(img.get_pixel(b, i).0[0], 255);
            assert_eq!(img.get_pixel(i, 263 - b).0[0], 255);
            assert_eq!(img.get_pixel(263 - b, i).0[0], 255);
        }
    }
    // The corner of the finder pattern is dark.
    assert_eq!(img.get_pixel(32, 32).0[0], 0);
    assert_ne!(qr_png_for_url("ferrite://10.0.0.6:7543").unwrap(), png);
}

#[test]
fn every_module_is_drawn_as_a_square() {
    let text = "ferrite://192.168.178.20:7543";
    let png = qr_png_for_url(text).unwrap();
    let img = image::load_from_memory(&png).unwrap().to_luma8();
    let code = qrcode::QrCode::with_error_correction_level(text, qrcode::EcLevel::L).unwrap();
    let modules = code.width() as u32;
    let dark = code.to_colors();
    assert_eq!(img.width(), (modules + 8) * 8);
    assert_eq!(img.height(), img.width());
    for (px, py, pixel) in img.enumerate_pixels() {
        let (column, row) = (px / 8, py / 8);
        let inside = (4..modules + 4).contains(&column) && (4..modules + 4).contains(&row);
        let black = inside
            && dark[((row - 4) * modules + (column - 4)) as usize] == qrcode::Color::Dark;
        assert_eq!(pixel.0[0], if black { 0 } else { 255 }, "pixel {px}, {py}");
    }
}

#[test]
fn too_long_a_text_has_no_qr_code() {
    assert!(qr_png_for_url(&"x".repeat(4000)).is_none());
    assert!(png_for_drawing(None).is_none());
    let png = png_for_drawing(Some((2, vec![0, 255, 255, 0]))).unwrap();
    let img = image::load_from_memory(&png).unwrap().to_luma8();
    assert_eq!(img.into_raw(), vec![0, 255, 255, 0]);
}

fn panel() -> Panel {
    Panel::init(Some("10.0.0.5".to_string()), Some("1"), Some(false), None)
}

#[test]
fn panel_starts_with_wifi() {
    let p = panel();
    assert_eq!(p.qr_png, qr_png_for_url("ferrite://10.0.0.5:7543"));
    let v = p.view_model();
    assert_eq!(v.status, "host not running");
    assert_eq!(v.host, "Host: 10.0.0.5");
    assert_eq!(v.port, "Port: 7543");
    assert_eq!(v.transport_index, 0);
    assert_eq!(v.touch_index, Some(0));
    assert_eq!(
        v.touch_caption,
        "Edits ~/.config/cosmic/.../input_devices. May need re-login to apply."
    );
    assert_eq!(
        v.sections,
        vec![
            Section::Title,
            Section::Status,
            Section::Divider,
            Section::Connection,
            Section::Qr,
            Section::Transport,
            Section::Divider,
            Section::TouchMapping,
            Section::TouchCaption,
        ]
    );
    let unknown = Panel::init(None, None, None, None);
    assert_eq!(unknown.view_model().host, "Host: (unknown)");
    assert!(!unknown.evdi_present);
    assert!(EVDI_SETUP_CMD.contains("/sys/devices/evdi/add"));
}

#[test]
fn panel_forwards_over_usb() {
    let mut p = panel();
    assert!(!p.select_transport(0));
    assert!(!p.select_transport(5));
    assert!(!p.select_transport(1));
    assert_eq!(p.transport, Transport::Usb);
    assert_eq!(p.qr_png, qr_png_for_url("ferrite://127.0.0.1:7543"));
    assert_eq!(p.view_model().usb, "Looking for USB device...");
    assert!(p.tick(Some("1"), None, None, &[]));
    assert_eq!(p.adb_listed(Some("List\n")), None);
    assert_eq!(p.view_model().usb, "adb: no USB device");
    assert_eq!(p.adb_listed(Some("List\nR52T device\n")).as_deref(), Some("R52T"));
    p.adb_answered(AdbRun::Ran { success: true, stderr: String::new() });
    assert_eq!(p.view_model().usb, "USB device R52T forwarded ✓");
    p.adb_answered(AdbRun::Ran { success: false, stderr: "bad\n".to_string() });
    assert_eq!(p.view_model().usb, "adb: bad");
    assert!(p.view_model().sections.contains(&Section::UsbStatus));
    assert!(p.select_transport(0));
    assert_eq!(p.adb_reverse_ok, None);
    assert!(!p.tick(Some("1"), None, None, &[]));
}

#[test]
fn panel_maps_the_touchscreen() {
    let mut p = panel();
    let names = vec!["card1-HDMI-A-1".to_string(), "card0-DP-1".to_string()];
    p.tick(Some("0"), Some(true), None, &names);
    assert_eq!(p.outputs, vec!["DP-1", "HDMI-A-1"]);
    assert_eq!(p.touch_labels, vec!["Auto (no override)", "DP-1", "HDMI-A-1"]);
    assert_eq!(p.touch_target(0), None);
    assert_eq!(p.touch_target(2).as_deref(), Some("HDMI-A-1"));
    assert_eq!(p.touch_target(3), None);
    let target = p.touch_target(2);
    p.touch_written(target, Ok(()));
    assert_eq!(p.view_model().touch_index, Some(2));
    p.touch_written(None, Err("denied".to_string()));
    let v = p.view_model();
    assert_eq!(v.touch_caption, "err: denied");
    assert_eq!(v.touch_index, Some(2));
    assert!(v.sections.contains(&Section::EvdiSetup));
    assert!(v.sections.contains(&Section::PortalGrant));
    p.tick(Some("1"), Some(false), None, &[]);
    assert_eq!(p.view_model().touch_index, None);
}

#[test]
fn panel_lists_clients() {
    let mut p = panel();
    let mut status =
        Status { listen_addr: "x".to_string(), mode: "virtual".to_string(), clients: Vec::new() };
    p.tick(None, None, Some(status.clone()), &[]);
    let v = p.view_model();
    assert_eq!(v.status, "virtual — 0 client(s)");
    assert_eq!(v.clients_heading, "Clients (0)");
    assert_eq!(v.client_lines, vec!["(none connected)"]);
    status.clients.push(ClientStatus { peer: "1.2.3.4:5".to_string(), width: 2800, height: 1720 });
    p.tick(None, None, Some(status), &[]);
    let v = p.view_model();
    assert_eq!(v.status, "virtual — 1 client(s)");
    assert_eq!(v.client_lines, vec!["• 1.2.3.4:5  (2800×1720)"]);
    assert_eq!(v.sections.last(), Some(&Section::Clients));
}

#[test]
fn panel_forgets_the_grant() {
    let mut p = Panel::init(None, None, Some(true), None);
    assert!(p.portal_token_present);
    p.forget_portal_grant(None);
    assert!(p.portal_token_present);
    p.forget_portal_grant(Some(false));
    assert!(!p.portal_token_present);
}

#[test]
fn tray_starts_in_the_mode_of_the_last_run() {
    assert_eq!(Config { mode: None }.start_mode(), Mode::Virtual);
    let (tray, start) = Tray::new(Config { mode: Some(Mode::Mirror) });
    assert_eq!(tray.mode, Mode::Mirror);
    assert_eq!(start, HostStart { stop: false, mode: Mode::Mirror });
    assert_eq!(start.variable(), "mirror");
}

#[test]
fn tray_restarts_the_host_in_another_mode() {
    let (mut tray, _) = Tray::new(Config { mode: None });
    tray.host_started(true);
    assert_eq!(tray.set_mode(Mode::Virtual), ModeChoice::Unchanged);
    assert_eq!(
        tray.set_mode(Mode::Mirror),
        ModeChoice::Restart {
            save: Config { mode: Some(Mode::Mirror) },
            start: HostStart { stop: true, mode: Mode::Mirror },
        }
    );
    assert!(!tray.running);
    assert!(!tray.stop());
    tray.host_started(true);
    assert!(tray.stop());
}

#[test]
fn tray_menu_checks_the_mode() {
    let (tray, _) = Tray::new(Config { mode: None });
    let menu = tray.menu();
    assert_eq!(
        menu,
        vec![
            MenuEntry::OpenPanel,
            MenuEntry::Separator,
            MenuEntry::Host { running: false },
            MenuEntry::ModeMenu { virtual_checked: true, mirror_checked: false },
            MenuEntry::Separator,
            MenuEntry::Quit,
        ]
    );
    let labels: Vec<&str> = menu.iter().map(|e| menu_label(*e)).collect();
    assert_eq!(labels, vec!["Open Panel", "", "Enable", "Mode", "", "Quit"]);
    assert_eq!(mode_label(Mode::Virtual), "Virtual monitor");
    assert_eq!(mode_label(Mode::Mirror), "Mirror");
}

#[test]
fn tray_disables_and_enables_the_host() {
    let (mut tray, start) = Tray::new(Config { mode: Some(Mode::Mirror) });
    assert_eq!(start, HostStart { stop: false, mode: Mode::Mirror });
    tray.host_started(true);
    assert!(tray.menu().contains(&MenuEntry::Host { running: true }));
    assert_eq!(menu_label(MenuEntry::Host { running: true }), "Disable");
    assert_eq!(tray.toggle(), HostToggle::Stop);
    assert_eq!(tray, Tray { mode: Mode::Mirror, running: false });
    assert!(tray.menu().contains(&MenuEntry::Host { running: false }));
    assert_eq!(menu_label(MenuEntry::Host { running: false }), "Enable");
    assert_eq!(
        tray.toggle(),
        HostToggle::Start(HostStart { stop: false, mode: Mode::Mirror })
    );
    assert_eq!(tray, Tray { mode: Mode::Mirror, running: false });
    tray.host_started(true);
    assert_eq!(tray.toggle(), HostToggle::Stop);
    tray.set_mode(Mode::Virtual);
    assert_eq!(
        tray.toggle(),
        HostToggle::Start(HostStart { stop: false, mode: Mode::Virtual })
    );
}
