//! The control panel: what it knows, what it does, and what it shows.

use vstd::prelude::*;

use crate::drm::list_outputs;
use crate::drm::{in_order, is_output};
use crate::encoder::string_views;
use crate::message::Status;
use crate::message::{ClientRecord, StatusRecord};
use crate::paths::portal_token_present;
use crate::qr::{qr_png_for_url, Correction};
use crate::qr::{bytes_view, png_of, qr_modules};
use crate::session::{opt_string_view, opt_view};
use crate::text::{
    chars_eq, chars_of, decimal_string, lines, parse_u32, str_eq, string_of, trim, words,
};
use crate::text::{
    char_views, decimal, decimal_is_read_back, is_digit, lines_are_cut, lines_of, none_white,
    trim_takes_only_ends, trimmed, u32_of, white_space_is_not_printed, words_are_cut, words_of,
};

verus! {

/// The port at which the host listens.
pub const PORT: u16 = 7543;

/// What creates a device for a virtual monitor.
pub const EVDI_SETUP_CMD: &'static str = "echo 1 | sudo tee /sys/devices/evdi/add";

/// How the tablet connects.
#[derive(Debug, Clone, Copy, PartialEq, Eq, Structural)]
pub enum Transport {
    Wifi,
    Usb,
}

/// The label of a transport.
pub fn transport_label(transport: Transport) -> (label: &'static str)
    ensures
        label@ == (match transport {
            Transport::Wifi => "Wi-Fi (LAN)"@,
            Transport::Usb => "USB (adb reverse)"@,
        }),
{
    match transport {
        Transport::Wifi => "Wi-Fi (LAN)",
        Transport::Usb => "USB (adb reverse)",
    }
}

/// The transport at an index of the list.
pub open spec fn transport_at(index: int) -> Option<Transport> {
    if index == 0 {
        Some(Transport::Wifi)
    } else if index == 1 {
        Some(Transport::Usb)
    } else {
        None
    }
}

/// The index of a transport in the list.
pub open spec fn transport_index(transport: Transport) -> int {
    match transport {
        Transport::Wifi => 0,
        Transport::Usb => 1,
    }
}

// --- what others say ----------------------------------------------------------------------------

/// The number of evdi devices in the text of the driver's counter is positive.
pub open spec fn counts_devices(text: Option<Seq<char>>) -> bool {
    match text {
        Some(text) => match u32_of(trimmed(text)) {
            Some(n) => n > 0,
            None => false,
        },
        None => false,
    }
}

/// Whether there is an evdi device: `count` is the text of the driver's counter, if it could be
/// read.
pub fn evdi_present(count: Option<&str>) -> (present: bool)
    ensures
        present == counts_devices(opt_view(count)),
{
    match count {
        Some(text) => {
            let chars = chars_of(text);
            let word = trim(chars.as_slice());
            match parse_u32(word.as_slice()) {
                Some(n) => n > 0,
                None => false,
            }
        },
        None => false,
    }
}

/// The serial number in a line of adb's listing, if the line is about a device that is ready.
pub open spec fn ready_serial(line: Seq<char>) -> Option<Seq<char>> {
    let w = words_of(line);
    if w.len() == 2 && w[1] == "device"@ {
        Some(w[0])
    } else {
        None
    }
}

/// The serial numbers in the lines from index `from` on.
pub open spec fn serials_from(lines: Seq<Seq<char>>, from: int) -> Seq<Seq<char>>
    decreases lines.len() - from,
{
    if from >= lines.len() {
        seq![]
    } else {
        (match ready_serial(lines[from]) {
            Some(serial) => seq![serial],
            None => seq![],
        }) + serials_from(lines, from + 1)
    }
}

/// The devices in adb's listing. Its first line is a heading.
pub open spec fn listed_devices(text: Option<Seq<char>>) -> Seq<Seq<char>> {
    match text {
        Some(text) => serials_from(lines_of(text), 1),
        None => seq![],
    }
}

/// The serial number in a line of adb's listing.
fn serial_in(line: &[char]) -> (serial: Option<String>)
    ensures
        match serial {
            Some(s) => ready_serial(line@) == Some(s@),
            None => ready_serial(line@) is None,
        },
{
    let parts = words(line);
    let ghost w = words_of(line@);
    assert(w == char_views(parts@));
    if parts.len() != 2 {
        return None;
    }
    assert(w[0] == parts@[0]@ && w[1] == parts@[1]@);
    let device = chars_of("device");
    if chars_eq(parts[1].as_slice(), device.as_slice()) {
        Some(string_of(parts[0].as_slice()))
    } else {
        None
    }
}

/// The devices that are ready, from the output of `adb devices`, if it could be run.
pub fn adb_devices(listing: Option<&str>) -> (serials: Vec<String>)
    ensures
        string_views(serials@) == listed_devices(opt_view(listing)),
{
    let mut serials: Vec<String> = Vec::new();
    let text = match listing {
        Some(text) => text,
        None => {
            assert(string_views(serials@) =~= seq![]);
            return serials;
        },
    };
    let chars = chars_of(text);
    let all = lines(chars.as_slice());
    let ghost views = lines_of(text@);
    assert(views == char_views(all@));
    assert(views.len() == all@.len());
    let mut i: usize = 1;
    assert(string_views(serials@) + serials_from(views, 1) =~= serials_from(views, 1));
    while i < all.len()
        invariant
            1 <= i,
            views == char_views(all@),
            views.len() == all@.len(),
            string_views(serials@) + serials_from(views, i as int) == serials_from(views, 1),
        decreases all@.len() - i,
    {
        assert(views[i as int] == all@[i as int]@);
        let ghost before = serials@;
        let ghost rest = serials_from(views, i + 1);
        match serial_in(all[i].as_slice()) {
            Some(s) => {
                let ghost serial = s@;
                serials.push(s);
                assert(string_views(serials@) =~= string_views(before).push(serial));
                assert(string_views(serials@) + rest =~= string_views(before) + (seq![serial]
                    + rest));
            },
            None => {
                assert(seq![] + rest =~= rest);
            },
        }
        i += 1;
    }
    assert(string_views(serials@) + seq![] =~= string_views(serials@));
    serials
}

/// The first device.
pub fn adb_devices_first(devs: &[String]) -> (first: Option<String>)
    ensures
        opt_string_view(first) == (if devs@.len() > 0 {
            Some(devs@[0]@)
        } else {
            None
        }),
{
    if devs.len() > 0 {
        Some(String::from_str(devs[0].as_str()))
    } else {
        None
    }
}

/// The local end of a forwarded connection.
pub open spec fn tcp_port(port: u16) -> Seq<char> {
    "tcp:"@ + decimal(port as nat)
}

fn tcp_port_string(port: u16) -> (s: String)
    ensures
        s@ == tcp_port(port),
{
    let mut s = String::from_str("tcp:");
    s.append(decimal_string(port as u64).as_str());
    s
}

/// The arguments that make adb forward the port from a device to this host.
pub open spec fn reverse_args(serial: Option<Seq<char>>, port: u16) -> Seq<Seq<char>> {
    (match serial {
        Some(s) => seq!["-s"@, s],
        None => seq![],
    }) + seq!["reverse"@, tcp_port(port), tcp_port(port)]
}

/// The arguments that make adb forward the port from a device to this host.
pub fn adb_reverse_args(serial: Option<&str>, port: u16) -> (args: Vec<String>)
    ensures
        string_views(args@) == reverse_args(opt_view(serial), port),
{
    let mut args: Vec<String> = Vec::new();
    if let Some(s) = serial {
        args.push(String::from_str("-s"));
        args.push(String::from_str(s));
    }
    args.push(String::from_str("reverse"));
    args.push(tcp_port_string(port));
    args.push(tcp_port_string(port));
    assert(string_views(args@) =~= reverse_args(opt_view(serial), port));
    args
}

/// The arguments that make adb stop forwarding the port.
pub fn adb_remove_args(port: u16) -> (args: Vec<String>)
    ensures
        string_views(args@) == seq!["reverse"@, "--remove"@, tcp_port(port)],
{
    let mut args: Vec<String> = Vec::new();
    args.push(String::from_str("reverse"));
    args.push(String::from_str("--remove"));
    args.push(tcp_port_string(port));
    assert(string_views(args@) =~= seq!["reverse"@, "--remove"@, tcp_port(port)]);
    args
}

/// How adb ended.
#[derive(Debug)]
pub enum AdbRun {
    /// It could not be run, for a reason.
    NotRun(String),
    /// It ran, with or without success, and wrote this to its error output.
    Ran { success: bool, stderr: String },
}

/// The contents of a result without a value.
pub open spec fn result_view(r: Result<(), String>) -> Result<(), Seq<char>> {
    match r {
        Ok(()) => Ok(()),
        Err(e) => Err(e@),
    }
}

/// Whether adb did what it was asked for, or else what it complained about.
pub open spec fn reverse_result(run: AdbRun) -> Result<(), Seq<char>> {
    match run {
        AdbRun::NotRun(e) => Err(e@),
        AdbRun::Ran { success, stderr } => if success {
            Ok(())
        } else {
            Err(trimmed(stderr@))
        },
    }
}

/// Whether adb did what it was asked for, or else what it complained about.
pub fn adb_reverse(run: AdbRun) -> (result: Result<(), String>)
    ensures
        result_view(result) == reverse_result(run),
{
    match run {
        AdbRun::NotRun(e) => Err(e),
        AdbRun::Ran { success, stderr } => {
            if success {
                Ok(())
            } else {
                let chars = chars_of(stderr.as_str());
                let text = trim(chars.as_slice());
                Err(string_of(text.as_slice()))
            }
        },
    }
}

/// The address that the tablet connects to. Without a local address, or over USB, the tablet's own.
pub open spec fn connect_address(
    ip: Option<Seq<char>>,
    port: u16,
    transport: Transport,
) -> Seq<char> {
    let host = match (transport, ip) {
        (Transport::Wifi, Some(ip)) => ip,
        _ => "127.0.0.1"@,
    };
    "ferrite://"@ + host + ":"@ + decimal(port as nat)
}

/// The address that the tablet connects to.
pub fn connect_url(ip: Option<&str>, port: u16, transport: Transport) -> (url: String)
    ensures
        url@ == connect_address(opt_view(ip), port, transport),
{
    let mut url = String::from_str("ferrite://");
    match (transport, ip) {
        (Transport::Wifi, Some(ip)) => {
            url.append(ip);
        },
        _ => {
            url.append("127.0.0.1");
        },
    }
    url.append(":");
    url.append(decimal_string(port as u64).as_str());
    url
}

// --- state --------------------------------------------------------------------------------------

/// What the panel knows.
pub struct PanelState {
    pub local_ip: Option<Seq<char>>,
    pub qr_png: Option<Seq<u8>>,
    pub evdi_present: bool,
    pub portal_token_present: bool,
    pub host_status: Option<StatusRecord>,
    pub transport: Transport,
    pub adb_devices: Seq<Seq<char>>,
    pub adb_reverse_ok: Option<Result<(), Seq<char>>>,
    pub outputs: Seq<Seq<char>>,
    pub touch_labels: Seq<Seq<char>>,
    pub touch_output: Option<Seq<char>>,
    pub touch_apply_err: Option<Seq<char>>,
}

/// The panel.
#[derive(Debug)]
pub struct Panel {
    pub local_ip: Option<String>,
    pub qr_png: Option<Vec<u8>>,
    pub evdi_present: bool,
    pub portal_token_present: bool,
    pub host_status: Option<Status>,
    pub transport: Transport,
    pub adb_devices: Vec<String>,
    pub adb_reverse_ok: Option<Result<(), String>>,
    pub outputs: Vec<String>,
    pub touch_labels: Vec<String>,
    pub touch_output: Option<String>,
    pub touch_apply_err: Option<String>,
}

/// The contents of an optional status.
pub open spec fn status_view(s: Option<Status>) -> Option<StatusRecord> {
    match s {
        Some(s) => Some(s@),
        None => None,
    }
}

/// The contents of an optional result.
pub open spec fn opt_result_view(r: Option<Result<(), String>>) -> Option<Result<(), Seq<char>>> {
    match r {
        Some(r) => Some(result_view(r)),
        None => None,
    }
}

impl View for Panel {
    type V = PanelState;

    open spec fn view(&self) -> PanelState {
        PanelState {
            local_ip: opt_string_view(self.local_ip),
            qr_png: bytes_view(self.qr_png),
            evdi_present: self.evdi_present,
            portal_token_present: self.portal_token_present,
            host_status: status_view(self.host_status),
            transport: self.transport,
            adb_devices: string_views(self.adb_devices@),
            adb_reverse_ok: opt_result_view(self.adb_reverse_ok),
            outputs: string_views(self.outputs@),
            touch_labels: string_views(self.touch_labels@),
            touch_output: opt_string_view(self.touch_output),
            touch_apply_err: opt_string_view(self.touch_apply_err),
        }
    }
}

/// The QR code of the address over a transport.
pub open spec fn qr_of(ip: Option<Seq<char>>, transport: Transport) -> Option<Seq<u8>> {
    png_of(qr_modules(connect_address(ip, PORT, transport), Correction::Low))
}

/// Borrows the text of an optional string.
fn opt_str(s: &Option<String>) -> (text: Option<&str>)
    ensures
        opt_view(text) == opt_string_view(*s),
{
    match s {
        Some(s) => Some(s.as_str()),
        None => None,
    }
}

/// The labels of the choices for the touchscreen: none, then the outputs.
pub open spec fn labels_for(outputs: Seq<Seq<char>>) -> Seq<Seq<char>> {
    seq!["Auto (no override)"@] + outputs
}

fn labels(outputs: &Vec<String>) -> (labels: Vec<String>)
    ensures
        string_views(labels@) == labels_for(string_views(outputs@)),
{
    let mut labels: Vec<String> = Vec::new();
    labels.push(String::from_str("Auto (no override)"));
    let ghost all = string_views(outputs@);
    let mut i: usize = 0;
    assert(string_views(labels@) =~= labels_for(all.take(0)));
    while i < outputs.len()
        invariant
            i <= outputs@.len(),
            all == string_views(outputs@),
            string_views(labels@) == labels_for(all.take(i as int)),
        decreases outputs@.len() - i,
    {
        let s = String::from_str(outputs[i].as_str());
        let ghost before = labels@;
        let ghost text = s@;
        labels.push(s);
        assert(text == all[i as int]);
        assert(string_views(labels@) =~= string_views(before).push(text));
        i += 1;
        assert(string_views(labels@) =~= labels_for(all.take(i as int)));
    }
    assert(all.take(i as int) =~= all);
    labels
}

/// A panel after a transport was chosen, and whether adb is to stop forwarding.
pub open spec fn transport_chosen(st: PanelState, index: int) -> (PanelState, bool) {
    match transport_at(index) {
        Some(t) => if t != st.transport {
            (
                PanelState {
                    transport: t,
                    qr_png: qr_of(st.local_ip, t),
                    adb_reverse_ok: if t == Transport::Wifi {
                        None
                    } else {
                        st.adb_reverse_ok
                    },
                    ..st
                },
                t == Transport::Wifi,
            )
        } else {
            (st, false)
        },
        None => (st, false),
    }
}

/// A panel after the choice for the touchscreen was written or could not be.
pub open spec fn choice_written(
    st: PanelState,
    target: Option<Seq<char>>,
    result: Result<(), Seq<char>>,
) -> PanelState {
    match result {
        Ok(()) => PanelState { touch_output: target, touch_apply_err: None, ..st },
        Err(e) => PanelState { touch_apply_err: Some(e), ..st },
    }
}

/// A panel after adb has listed its devices, and the device for which the port is to be forwarded.
pub open spec fn devices_listed(st: PanelState, devices: Seq<Seq<char>>) -> (
    PanelState,
    Option<Seq<char>>,
) {
    if devices.len() > 0 {
        (PanelState { adb_devices: devices, ..st }, Some(devices[0]))
    } else {
        (
            PanelState {
                adb_devices: devices,
                adb_reverse_ok: Some(Err("no USB device"@)),
                ..st
            },
            None,
        )
    }
}

/// The code that is shown is always that of the address over the transport that is chosen. adb stops
/// forwarding exactly when Wi-Fi is chosen in place of USB, and nothing is said of it any more. An
/// index without a transport, or the transport that is chosen already, changes nothing.
pub proof fn code_follows_transport(st: PanelState, index: int)
    requires
        st.qr_png == qr_of(st.local_ip, st.transport),
    ensures
        ({
            let (next, stop) = transport_chosen(st, index);
            &&& next.qr_png == qr_of(next.local_ip, next.transport)
            &&& next.local_ip == st.local_ip
            &&& index == 0 ==> next.transport == Transport::Wifi
            &&& index == 1 ==> next.transport == Transport::Usb
            &&& index != 0 && index != 1 ==> next == st
            &&& stop <==> st.transport == Transport::Usb && next.transport == Transport::Wifi
            &&& stop ==> next.adb_reverse_ok is None
            &&& !stop ==> next.adb_reverse_ok == st.adb_reverse_ok
            &&& next.transport == st.transport ==> next == st
        }),
{
}

/// The touchscreen's output is taken as changed only when it was written, and an earlier failure is
/// forgotten then; a failure is shown and leaves the output as it was.
pub proof fn only_written_choices_count(st: PanelState, target: Option<Seq<char>>, e: Seq<char>)
    ensures
        choice_written(st, target, Ok(())).touch_output == target,
        choice_written(st, target, Ok(())).touch_apply_err is None,
        choice_written(st, target, Err(e)).touch_output == st.touch_output,
        choice_written(st, target, Err(e)).touch_apply_err == Some(e),
{
}

/// The port is forwarded for the first device that is listed. Without one the panel says so, and
/// with one it says what it said before until adb has answered.
pub proof fn port_is_forwarded_for_first_device(st: PanelState, devices: Seq<Seq<char>>)
    ensures
        ({
            let (next, serial) = devices_listed(st, devices);
            &&& next.adb_devices == devices
            &&& serial is Some <==> devices.len() > 0
            &&& serial matches Some(s) ==> s == devices.first() && next.adb_reverse_ok
                == st.adb_reverse_ok
            &&& serial is None ==> next.adb_reverse_ok == Some(
                Err::<(), Seq<char>>("no USB device"@),
            )
        }),
{
}

/// The output at an index of the choices for the touchscreen.
pub open spec fn chosen_output(outputs: Seq<Seq<char>>, index: int) -> Option<Seq<char>> {
    if 0 < index <= outputs.len() {
        Some(outputs[index - 1])
    } else {
        None
    }
}

impl Panel {
    /// A panel that has just been opened.
    pub fn init(
        local_ip: Option<String>,
        evdi_count: Option<&str>,
        token_exists: Option<bool>,
        touch_output: Option<String>,
    ) -> (panel: Panel)
        ensures
            panel@ == (PanelState {
                local_ip: opt_string_view(local_ip),
                qr_png: qr_of(opt_string_view(local_ip), Transport::Wifi),
                evdi_present: counts_devices(opt_view(evdi_count)),
                portal_token_present: token_exists == Some(true),
                host_status: None,
                transport: Transport::Wifi,
                adb_devices: seq![],
                adb_reverse_ok: None,
                outputs: seq![],
                touch_labels: seq![],
                touch_output: opt_string_view(touch_output),
                touch_apply_err: None,
            }),
    {
        let url = connect_url(opt_str(&local_ip), PORT, Transport::Wifi);
        let qr_png = qr_png_for_url(url.as_str());
        let panel = Panel {
            local_ip,
            qr_png,
            evdi_present: evdi_present(evdi_count),
            portal_token_present: portal_token_present(token_exists),
            host_status: None,
            transport: Transport::Wifi,
            adb_devices: Vec::new(),
            adb_reverse_ok: None,
            outputs: Vec::new(),
            touch_labels: Vec::new(),
            touch_output,
            touch_apply_err: None,
        };
        assert(panel@.adb_devices =~= seq![]);
        assert(panel@.outputs =~= seq![]);
        assert(panel@.touch_labels =~= seq![]);
        panel
    }

    /// A transport was chosen: whether adb is to stop forwarding.
    pub fn select_transport(&mut self, index: usize) -> (stop_forwarding: bool)
        ensures
            match transport_at(index as int) {
                Some(t) => if t != old(self)@.transport {
                    &&& stop_forwarding == (t == Transport::Wifi)
                    &&& final(self)@ == (PanelState {
                        transport: t,
                        qr_png: qr_of(old(self)@.local_ip, t),
                        adb_reverse_ok: if t == Transport::Wifi {
                            None
                        } else {
                            old(self)@.adb_reverse_ok
                        },
                        ..old(self)@
                    })
                } else {
                    !stop_forwarding && final(self)@ == old(self)@
                },
                None => !stop_forwarding && final(self)@ == old(self)@,
            },
            (final(self)@, stop_forwarding) == transport_chosen(old(self)@, index as int),
    {
        let t = if index == 0 {
            Transport::Wifi
        } else if index == 1 {
            Transport::Usb
        } else {
            return false;
        };
        if t == self.transport {
            return false;
        }
        self.transport = t;
        let url = connect_url(opt_str(&self.local_ip), PORT, t);
        self.qr_png = qr_png_for_url(url.as_str());
        if t == Transport::Wifi {
            self.adb_reverse_ok = None;
            true
        } else {
            false
        }
    }

    /// An output was chosen for the touchscreen: what is to be written into the compositor's
    /// configuration.
    pub fn touch_target(&self, index: usize) -> (target: Option<String>)
        ensures
            opt_string_view(target) == chosen_output(self@.outputs, index as int),
    {
        if index > 0 && index - 1 < self.outputs.len() {
            assert(self@.outputs[index - 1] == self.outputs@[index - 1]@);
            Some(String::from_str(self.outputs[index - 1].as_str()))
        } else {
            None
        }
    }

    /// The choice was written, or could not be.
    pub fn touch_written(&mut self, target: Option<String>, result: Result<(), String>)
        ensures
            final(self)@ == (match result_view(result) {
                Ok(()) => PanelState {
                    touch_output: opt_string_view(target),
                    touch_apply_err: None,
                    ..old(self)@
                },
                Err(e) => PanelState { touch_apply_err: Some(e), ..old(self)@ },
            }),
            final(self)@ == choice_written(
                old(self)@,
                opt_string_view(target),
                result_view(result),
            ),
    {
        match result {
            Ok(()) => {
                self.touch_output = target;
                self.touch_apply_err = None;
            },
            Err(e) => {
                self.touch_apply_err = Some(e);
            },
        }
    }

    /// Takes what can be read at a tick: whether adb is to be asked for its devices. `connectors`
    /// are the names of the kernel's connector entries.
    pub fn tick(
        &mut self,
        evdi_count: Option<&str>,
        token_exists: Option<bool>,
        status: Option<Status>,
        connectors: &[String],
    ) -> (ask_adb: bool)
        ensures
            ask_adb == (old(self)@.transport == Transport::Usb),
            in_order(final(self)@.outputs),
            forall|s: Seq<char>| #[trigger]
                final(self)@.outputs.contains(s) <==> is_output(
                    string_views(connectors@),
                    connectors@.len() as int,
                    s,
                ),
            final(self)@ == (PanelState {
                evdi_present: counts_devices(opt_view(evdi_count)),
                portal_token_present: token_exists == Some(true),
                host_status: status_view(status),
                outputs: final(self)@.outputs,
                touch_labels: labels_for(final(self)@.outputs),
                adb_reverse_ok: if ask_adb {
                    old(self)@.adb_reverse_ok
                } else {
                    None
                },
                ..old(self)@
            }),
    {
        self.evdi_present = evdi_present(evdi_count);
        self.portal_token_present = portal_token_present(token_exists);
        self.host_status = status;
        self.outputs = list_outputs(connectors);
        self.touch_labels = labels(&self.outputs);
        if self.transport == Transport::Usb {
            true
        } else {
            self.adb_reverse_ok = None;
            false
        }
    }

    /// Takes adb's listing: the device for which the port is to be forwarded.
    pub fn adb_listed(&mut self, listing: Option<&str>) -> (serial: Option<String>)
        ensures
            ({
                let devices = listed_devices(opt_view(listing));
                &&& opt_string_view(serial) == (if devices.len() > 0 {
                    Some(devices[0])
                } else {
                    None
                })
                &&& final(self)@ == (PanelState {
                    adb_devices: devices,
                    adb_reverse_ok: if devices.len() > 0 {
                        old(self)@.adb_reverse_ok
                    } else {
                        Some(Err("no USB device"@))
                    },
                    ..old(self)@
                })
            }),
            (final(self)@, opt_string_view(serial)) == devices_listed(
                old(self)@,
                listed_devices(opt_view(listing)),
            ),
    {
        self.adb_devices = adb_devices(listing);
        let first = adb_devices_first(self.adb_devices.as_slice());
        proof {
            if self.adb_devices@.len() > 0 {
                assert(self@.adb_devices[0] == self.adb_devices@[0]@);
            }
        }
        if first.is_none() {
            self.adb_reverse_ok = Some(Err(String::from_str("no USB device")));
        }
        first
    }

    /// Takes the end of adb's attempt to forward the port.
    pub fn adb_answered(&mut self, run: AdbRun)
        ensures
            final(self)@ == (PanelState {
                adb_reverse_ok: Some(reverse_result(run)),
                ..old(self)@
            }),
    {
        self.adb_reverse_ok = Some(adb_reverse(run));
    }

    /// The portal's grant was to be deleted: `exists` is whether it is still there, none if there is
    /// no place for it.
    pub fn forget_portal_grant(&mut self, exists: Option<bool>)
        ensures
            final(self)@ == (PanelState {
                portal_token_present: match exists {
                    Some(e) => e,
                    None => old(self)@.portal_token_present,
                },
                ..old(self)@
            }),
    {
        if let Some(e) = exists {
            self.portal_token_present = e;
        }
    }
}

// --- what is shown --------------------------------------------------------------------------------

/// A part of the panel.
#[derive(Debug, Clone, Copy, PartialEq, Eq, Structural)]
pub enum Section {
    Title,
    Status,
    Divider,
    Connection,
    Qr,
    Transport,
    UsbStatus,
    EvdiSetup,
    PortalGrant,
    TouchMapping,
    TouchCaption,
    Clients,
}

/// The parts from top to bottom.
pub open spec fn layout(st: PanelState) -> Seq<Section> {
    seq![
        Section::Title,
        Section::Status,
        Section::Divider,
        Section::Connection,
        Section::Qr,
        Section::Transport,
    ] + (if st.transport == Transport::Usb {
        seq![Section::UsbStatus]
    } else {
        seq![]
    }) + (if !st.evdi_present {
        seq![Section::Divider, Section::EvdiSetup]
    } else {
        seq![]
    }) + (if st.portal_token_present {
        seq![Section::PortalGrant]
    } else {
        seq![]
    }) + seq![Section::Divider, Section::TouchMapping, Section::TouchCaption] + (
    if st.host_status is Some {
        seq![Section::Divider, Section::Clients]
    } else {
        seq![]
    })
}

/// The line about the host.
pub open spec fn status_line(status: Option<StatusRecord>) -> Seq<char> {
    match status {
        Some(s) => s.mode + " — "@ + decimal(s.clients.len()) + " client(s)"@,
        None => "host not running"@,
    }
}

/// The line about the host's address.
pub open spec fn host_line(ip: Option<Seq<char>>) -> Seq<char> {
    "Host: "@ + (match ip {
        Some(ip) => ip,
        None => "(unknown)"@,
    })
}

/// The line about adb.
pub open spec fn usb_line(
    reverse: Option<Result<(), Seq<char>>>,
    devices: Seq<Seq<char>>,
) -> Seq<char> {
    match reverse {
        Some(Ok(())) => if devices.len() > 0 {
            "USB device "@ + devices[0] + " forwarded ✓"@
        } else {
            "Looking for USB device..."@
        },
        Some(Err(e)) => "adb: "@ + e,
        None => "Looking for USB device..."@,
    }
}

/// The line below the choice for the touchscreen.
pub open spec fn touch_line(error: Option<Seq<char>>) -> Seq<char> {
    match error {
        Some(e) => "err: "@ + e,
        None => "Edits ~/.config/cosmic/.../input_devices. May need re-login to apply."@,
    }
}

/// The line about a client.
pub open spec fn client_line(c: ClientRecord) -> Seq<char> {
    "• "@ + c.peer + "  ("@ + decimal(c.width as nat) + "×"@ + decimal(c.height as nat) + ")"@
}

/// The heading of the clients.
pub open spec fn clients_heading(n: nat) -> Seq<char> {
    "Clients ("@ + decimal(n) + ")"@
}

/// The lines about the clients.
pub open spec fn client_lines(clients: Seq<ClientRecord>) -> Seq<Seq<char>> {
    if clients.len() == 0 {
        seq!["(none connected)"@]
    } else {
        clients.map_values(|c: ClientRecord| client_line(c))
    }
}

/// The first index from `from` on at which a text stands.
pub open spec fn text_index(v: Seq<Seq<char>>, s: Seq<char>, from: int) -> Option<int>
    decreases v.len() - from,
{
    if from >= v.len() {
        None
    } else if v[from] == s {
        Some(from)
    } else {
        text_index(v, s, from + 1)
    }
}

/// The index of the touchscreen's output among the choices. None if it is not among them.
pub open spec fn touch_index(output: Option<Seq<char>>, outputs: Seq<Seq<char>>) -> Option<int> {
    match output {
        None => Some(0),
        Some(o) => match text_index(outputs, o, 0) {
            Some(i) => Some(i + 1),
            None => None,
        },
    }
}

/// Everything that the panel shows.
#[derive(Debug)]
pub struct PanelView {
    pub sections: Vec<Section>,
    pub status: String,
    pub host: String,
    pub port: String,
    pub transport_index: usize,
    pub usb: String,
    pub touch_index: Option<usize>,
    pub touch_caption: String,
    pub clients_heading: String,
    pub client_lines: Vec<String>,
}

/// The clients of an optional status.
pub open spec fn shown_clients(status: Option<StatusRecord>) -> Seq<ClientRecord> {
    match status {
        Some(s) => s.clients,
        None => seq![],
    }
}

impl Panel {
    /// The parts from top to bottom.
    fn sections(&self) -> (sections: Vec<Section>)
        ensures
            sections@ == layout(self@),
    {
        let mut v: Vec<Section> = Vec::new();
        v.push(Section::Title);
        v.push(Section::Status);
        v.push(Section::Divider);
        v.push(Section::Connection);
        v.push(Section::Qr);
        v.push(Section::Transport);
        if self.transport == Transport::Usb {
            v.push(Section::UsbStatus);
        }
        if !self.evdi_present {
            v.push(Section::Divider);
            v.push(Section::EvdiSetup);
        }
        if self.portal_token_present {
            v.push(Section::PortalGrant);
        }
        v.push(Section::Divider);
        v.push(Section::TouchMapping);
        v.push(Section::TouchCaption);
        if self.host_status.is_some() {
            v.push(Section::Divider);
            v.push(Section::Clients);
        }
        assert(v@ =~= layout(self@));
        v
    }

    fn status_text(&self) -> (line: String)
        ensures
            line@ == status_line(self@.host_status),
    {
        match &self.host_status {
            Some(s) => {
                let mut line = String::from_str(s.mode.as_str());
                line.append(" — ");
                line.append(decimal_string(s.clients.len() as u64).as_str());
                line.append(" client(s)");
                line
            },
            None => String::from_str("host not running"),
        }
    }

    fn usb_text(&self) -> (line: String)
        ensures
            line@ == usb_line(self@.adb_reverse_ok, self@.adb_devices),
    {
        match &self.adb_reverse_ok {
            Some(Ok(())) => {
                if self.adb_devices.len() > 0 {
                    assert(self@.adb_devices[0] == self.adb_devices@[0]@);
                    let mut line = String::from_str("USB device ");
                    line.append(self.adb_devices[0].as_str());
                    line.append(" forwarded ✓");
                    line
                } else {
                    String::from_str("Looking for USB device...")
                }
            },
            Some(Err(e)) => {
                let mut line = String::from_str("adb: ");
                line.append(e.as_str());
                line
            },
            None => String::from_str("Looking for USB device..."),
        }
    }

    fn touch_choice(&self) -> (index: Option<usize>)
        ensures
            (match index {
                Some(i) => Some(i as int),
                None => None,
            }) == touch_index(self@.touch_output, self@.outputs),
    {
        let wanted = match &self.touch_output {
            None => return Some(0),
            Some(o) => o.as_str(),
        };
        let len: usize = self.outputs.len();
        let ghost all = self@.outputs;
        let mut i: usize = 0;
        while i < len
            invariant
                i <= len,
                len == self.outputs@.len(),
                all == self@.outputs,
                all == string_views(self.outputs@),
                self@.touch_output == Some(wanted@),
                text_index(all, wanted@, 0) == text_index(all, wanted@, i as int),
            decreases len - i,
        {
            assert(all[i as int] == self.outputs@[i as int]@);
            if str_eq(self.outputs[i].as_str(), wanted) {
                return Some(i + 1);
            }
            i += 1;
        }
        None
    }

    fn client_texts(&self) -> (lines: Vec<String>)
        ensures
            string_views(lines@) == client_lines(shown_clients(self@.host_status)),
    {
        let ghost clients = shown_clients(self@.host_status);
        let mut lines: Vec<String> = Vec::new();
        if let Some(s) = &self.host_status {
            let n: usize = s.clients.len();
            if n > 0 {
                let mut i: usize = 0;
                assert(string_views(lines@) =~= client_lines(clients).take(0));
                while i < n
                    invariant
                        i <= n,
                        n > 0,
                        n == s.clients@.len(),
                        clients == s@.clients,
                        string_views(lines@) == client_lines(clients).take(i as int),
                    decreases n - i,
                {
                    let c = &s.clients[i];
                    assert(clients[i as int] == c@);
                    let mut line = String::from_str("• ");
                    line.append(c.peer.as_str());
                    line.append("  (");
                    line.append(decimal_string(c.width as u64).as_str());
                    line.append("×");
                    line.append(decimal_string(c.height as u64).as_str());
                    line.append(")");
                    let ghost before = lines@;
                    let ghost text = line@;
                    lines.push(line);
                    assert(string_views(lines@) =~= string_views(before).push(text));
                    i += 1;
                    assert(string_views(lines@) =~= client_lines(clients).take(i as int));
                }
                assert(client_lines(clients).take(i as int) =~= client_lines(clients));
                return lines;
            }
        }
        lines.push(String::from_str("(none connected)"));
        assert(clients.len() == 0);
        assert(string_views(lines@) =~= seq!["(none connected)"@]);
        lines
    }

    /// What the panel shows.
    pub fn view_model(&self) -> (view: PanelView)
        ensures
            view.sections@ == layout(self@),
            view.status@ == status_line(self@.host_status),
            view.host@ == host_line(self@.local_ip),
            view.port@ == "Port: "@ + decimal(PORT as nat),
            view.transport_index == transport_index(self@.transport),
            view.usb@ == usb_line(self@.adb_reverse_ok, self@.adb_devices),
            (match view.touch_index {
                Some(i) => Some(i as int),
                None => None,
            }) == touch_index(self@.touch_output, self@.outputs),
            view.touch_caption@ == touch_line(self@.touch_apply_err),
            view.clients_heading@ == clients_heading(shown_clients(self@.host_status).len()),
            string_views(view.client_lines@) == client_lines(shown_clients(self@.host_status)),
    {
        let mut host = String::from_str("Host: ");
        match &self.local_ip {
            Some(ip) => {
                host.append(ip.as_str());
            },
            None => {
                host.append("(unknown)");
            },
        }
        let mut port = String::from_str("Port: ");
        port.append(decimal_string(PORT as u64).as_str());
        let touch_caption = match &self.touch_apply_err {
            Some(e) => {
                let mut line = String::from_str("err: ");
                line.append(e.as_str());
                line
            },
            None => String::from_str(
                "Edits ~/.config/cosmic/.../input_devices. May need re-login to apply.",
            ),
        };
        let count: usize = match &self.host_status {
            Some(s) => s.clients.len(),
            None => 0,
        };
        let mut heading = String::from_str("Clients (");
        heading.append(decimal_string(count as u64).as_str());
        heading.append(")");
        let transport_index: usize = match self.transport {
            Transport::Wifi => 0,
            Transport::Usb => 1,
        };
        PanelView {
            sections: self.sections(),
            status: self.status_text(),
            host,
            port,
            transport_index,
            usb: self.usb_text(),
            touch_index: self.touch_choice(),
            touch_caption,
            clients_heading: heading,
            client_lines: self.client_texts(),
        }
    }
}

// --- what holds of the panel ----------------------------------------------------------------------

/// The transport that is shown as chosen is the one whose choice changes nothing.
pub proof fn shown_transport_is_current(transport: Transport)
    ensures
        transport_at(transport_index(transport)) == Some(transport),
{
}

/// `text_index` finds the text.
proof fn text_index_finds(v: Seq<Seq<char>>, s: Seq<char>, from: int)
    requires
        0 <= from,
    ensures
        text_index(v, s, from) matches Some(i) ==> from <= i < v.len() && v[i] == s,
    decreases v.len() - from,
{
    if from < v.len() && v[from] != s {
        text_index_finds(v, s, from + 1);
    }
}

/// The output that is shown as chosen for the touchscreen is its output, and its label is the one at
/// that place of the choices.
pub proof fn shown_output_is_current(output: Option<Seq<char>>, outputs: Seq<Seq<char>>)
    ensures
        touch_index(output, outputs) matches Some(i) ==> {
            &&& 0 <= i < labels_for(outputs).len()
            &&& chosen_output(outputs, i) == output
            &&& output matches Some(o) ==> labels_for(outputs)[i] == o
        },
{
    if let Some(o) = output {
        text_index_finds(outputs, o, 0);
    }
}

/// One line of adb's listing: a serial number, a tab and a state.
pub open spec fn listing_line(serial: Seq<char>, state: Seq<char>) -> Seq<char> {
    serial + seq!['\t'] + state
}

/// adb's listing: a heading, then a line for each device.
pub open spec fn listing_body(devices: Seq<(Seq<char>, Seq<char>)>) -> Seq<char>
    decreases devices.len(),
{
    if devices.len() == 0 {
        seq![]
    } else {
        listing_line(devices[0].0, devices[0].1) + seq!['\n'] + listing_body(devices.drop_first())
    }
}

/// The serial numbers of the devices that are ready, in their order.
pub open spec fn ready_devices(devices: Seq<(Seq<char>, Seq<char>)>) -> Seq<Seq<char>>
    decreases devices.len(),
{
    if devices.len() == 0 {
        seq![]
    } else {
        (if devices[0].1 == "device"@ {
            seq![devices[0].0]
        } else {
            seq![]
        }) + ready_devices(devices.drop_first())
    }
}

/// A word of a listing.
pub open spec fn plain_word(w: Seq<char>) -> bool {
    w.len() > 0 && none_white(w)
}

proof fn no_line_end(w: Seq<char>, i: int)
    requires
        none_white(w),
        0 <= i < w.len(),
    ensures
        w[i] != '\n' && w[i] != '\r',
{
    white_space_is_not_printed('\n');
    white_space_is_not_printed('\r');
}

proof fn line_is_read(serial: Seq<char>, state: Seq<char>, rest: Seq<char>)
    requires
        plain_word(serial),
        plain_word(state),
    ensures
        ready_serial(listing_line(serial, state)) == (if state == "device"@ {
            Some(serial)
        } else {
            None
        }),
        lines_of(listing_line(serial, state) + seq!['\n'] + rest) == seq![
            listing_line(serial, state),
        ] + lines_of(rest),
{
    let line = listing_line(serial, state);
    white_space_is_not_printed('\t');
    words_are_cut(seq![], serial, seq!['\t'], state, seq![]);
    assert(seq![] + serial + seq!['\t'] + state + seq![] =~= line);
    assert forall|i: int| 0 <= i < line.len() implies #[trigger] line[i] != '\n' by {
        if i < serial.len() {
            no_line_end(serial, i);
        } else if i > serial.len() {
            no_line_end(state, i - serial.len() - 1);
        }
    }
    no_line_end(state, state.len() - 1);
    assert(line.last() == state.last());
    lines_are_cut(line, rest);
}

proof fn body_is_read(devices: Seq<(Seq<char>, Seq<char>)>)
    requires
        forall|i: int|
            0 <= i < devices.len() ==> plain_word((#[trigger] devices[i]).0) && plain_word(
                devices[i].1,
            ),
    ensures
        serials_from(lines_of(listing_body(devices)), 0) == ready_devices(devices),
    decreases devices.len(),
{
    if devices.len() == 0 {
        lines_are_cut(seq![], seq![]);
    } else {
        let (serial, state) = devices[0];
        let more = devices.drop_first();
        assert(plain_word(devices[0].0));
        assert forall|i: int| 0 <= i < more.len() implies plain_word((#[trigger] more[i]).0)
            && plain_word(more[i].1) by {
            assert(more[i] == devices[i + 1]);
        }
        body_is_read(more);
        line_is_read(serial, state, listing_body(more));
        let all = lines_of(listing_body(devices));
        let rest = lines_of(listing_body(more));
        assert(all.drop_first() =~= rest);
        serials_in_suffix(all, rest, 0);
    }
}

proof fn serials_in_suffix(all: Seq<Seq<char>>, rest: Seq<Seq<char>>, from: int)
    requires
        all.len() == rest.len() + 1,
        all.drop_first() == rest,
        0 <= from <= rest.len(),
    ensures
        serials_from(all, from + 1) == serials_from(rest, from),
    decreases rest.len() - from,
{
    if from < rest.len() {
        assert(all.drop_first()[from] == all[from + 1]);
        serials_in_suffix(all, rest, from + 1);
    }
}

/// Of the devices that adb lists below its heading, those that are ready are taken, in their order,
/// and those in any other state are not. Without a listing there is none.
pub proof fn ready_devices_are_listed(heading: Seq<char>, devices: Seq<(Seq<char>, Seq<char>)>)
    requires
        forall|i: int| 0 <= i < heading.len() ==> #[trigger] heading[i] != '\n',
        heading.len() > 0 ==> heading.last() != '\r',
        forall|i: int|
            0 <= i < devices.len() ==> plain_word((#[trigger] devices[i]).0) && plain_word(
                devices[i].1,
            ),
    ensures
        listed_devices(Some(heading + seq!['\n'] + listing_body(devices))) == ready_devices(devices),
        listed_devices(None).len() == 0,
{
    lines_are_cut(heading, listing_body(devices));
    body_is_read(devices);
    let all = lines_of(heading + seq!['\n'] + listing_body(devices));
    let rest = lines_of(listing_body(devices));
    assert(all.drop_first() =~= rest);
    serials_in_suffix(all, rest, 0);
}

/// There is a device exactly if the driver's counter, which ends in a line end, is not zero. A counter
/// that cannot be read counts none.
pub proof fn counter_is_read(n: nat)
    requires
        n <= u32::MAX,
    ensures
        counts_devices(Some(decimal(n) + seq!['\n'])) == (n > 0),
        !counts_devices(None),
{
    decimal_is_read_back(n);
    let core = decimal(n);
    white_space_is_not_printed('\n');
    assert(is_digit(core[0]) && is_digit(core[core.len() - 1]));
    white_space_is_not_printed(core.first());
    white_space_is_not_printed(core.last());
    trim_takes_only_ends(seq![], core, seq!['\n']);
    assert(seq![] + core + seq!['\n'] =~= core + seq!['\n']);
}

/// The tablet is told the host's own address over Wi-Fi, and its own over USB, where the port is
/// forwarded, whatever the host's address is. The port is the one at which the host listens.
pub proof fn address_fits_transport(ip: Seq<char>, other: Option<Seq<char>>)
    ensures
        connect_address(Some(ip), 7543, Transport::Wifi) == "ferrite://"@ + ip + ":"@ + decimal(
            7543,
        ),
        connect_address(other, 7543, Transport::Usb) == "ferrite://"@ + "127.0.0.1"@ + ":"@ + decimal(
            7543,
        ),
        connect_address(None, 7543, Transport::Wifi) == "ferrite://"@ + "127.0.0.1"@ + ":"@
            + decimal(7543),
        PORT == 7543,
        transport_at(0) == Some(Transport::Wifi),
        transport_at(1) == Some(Transport::Usb),
{
}

/// Forwarding is asked for from the port to the same port, on the device that is named if one is.
pub proof fn port_is_forwarded_to_itself(serial: Seq<char>, port: u16)
    ensures
        reverse_args(None, port) == seq![
            "reverse"@,
            "tcp:"@ + decimal(port as nat),
            "tcp:"@ + decimal(port as nat),
        ],
        reverse_args(Some(serial), port) == seq!["-s"@, serial] + reverse_args(None, port),
{
    assert(reverse_args(None, port) =~= seq![
        "reverse"@,
        "tcp:"@ + decimal(port as nat),
        "tcp:"@ + decimal(port as nat),
    ]);
    assert(reverse_args(Some(serial), port) =~= seq!["-s"@, serial] + reverse_args(None, port));
}

/// adb has done its work exactly if it ran with success. Otherwise what it wrote is what it complains
/// about, or why it could not be run.
pub proof fn adb_success_counts(run: AdbRun)
    ensures
        reverse_result(run) is Ok <==> (run matches AdbRun::Ran { success, .. } && success),
        run matches AdbRun::NotRun(e) ==> reverse_result(run) == Err::<(), Seq<char>>(e@),
        run matches AdbRun::Ran { success: false, stderr } ==> reverse_result(run) == Err::<
            (),
            Seq<char>,
        >(trimmed(stderr@)),
{
}

/// Each part of the panel is shown when it has something to say: the state of USB while that is the
/// transport, the setup while there is no device, the grant while there is one, and the clients while
/// the host runs. The other parts are always shown.
pub proof fn parts_are_shown_when_needed(st: PanelState)
    ensures
        layout(st).contains(Section::UsbStatus) <==> st.transport == Transport::Usb,
        layout(st).contains(Section::EvdiSetup) <==> !st.evdi_present,
        layout(st).contains(Section::PortalGrant) <==> st.portal_token_present,
        layout(st).contains(Section::Clients) <==> st.host_status is Some,
        layout(st).contains(Section::Title),
        layout(st).contains(Section::Status),
        layout(st).contains(Section::Connection),
        layout(st).contains(Section::Qr),
        layout(st).contains(Section::Transport),
        layout(st).contains(Section::TouchMapping),
        layout(st).contains(Section::TouchCaption),
{
    let head = seq![
        Section::Title,
        Section::Status,
        Section::Divider,
        Section::Connection,
        Section::Qr,
        Section::Transport,
    ];
    let usb: Seq<Section> = if st.transport == Transport::Usb {
        seq![Section::UsbStatus]
    } else {
        seq![]
    };
    let setup: Seq<Section> = if !st.evdi_present {
        seq![Section::Divider, Section::EvdiSetup]
    } else {
        seq![]
    };
    let grant: Seq<Section> = if st.portal_token_present {
        seq![Section::PortalGrant]
    } else {
        seq![]
    };
    let touch = seq![Section::Divider, Section::TouchMapping, Section::TouchCaption];
    let all = layout(st);
    let a = 6int;
    let b = a + usb.len();
    let c = b + setup.len();
    let d = c + grant.len();
    assert(all[0] == Section::Title && all[1] == Section::Status && all[3] == Section::Connection
        && all[4] == Section::Qr && all[5] == Section::Transport);
    assert(st.transport == Transport::Usb ==> all[a] == Section::UsbStatus);
    assert(!st.evdi_present ==> all[b + 1] == Section::EvdiSetup);
    assert(st.portal_token_present ==> all[c] == Section::PortalGrant);
    assert(all[d + 1] == Section::TouchMapping && all[d + 2] == Section::TouchCaption);
    assert(st.host_status is Some ==> all[d + 4] == Section::Clients);
}

/// What the panel says about the host, its address, adb and a client.
pub proof fn lines_say_what_is_known(
    s: StatusRecord,
    ip: Seq<char>,
    devices: Seq<Seq<char>>,
    e: Seq<char>,
    c: ClientRecord,
)
    ensures
        status_line(None) == "host not running"@,
        status_line(Some(s)) == s.mode + " — "@ + decimal(s.clients.len()) + " client(s)"@,
        host_line(Some(ip)) == "Host: "@ + ip,
        host_line(None) == "Host: "@ + "(unknown)"@,
        devices.len() > 0 ==> usb_line(Some(Ok(())), devices) == "USB device "@ + devices[0]
            + " forwarded ✓"@,
        usb_line(Some(Err(e)), devices) == "adb: "@ + e,
        usb_line(None, devices) == "Looking for USB device..."@,
        touch_line(Some(e)) == "err: "@ + e,
        clients_heading(s.clients.len()) == "Clients ("@ + decimal(s.clients.len()) + ")"@,
        client_lines(seq![]) == seq!["(none connected)"@],
        client_lines(seq![c]) == seq![
            "• "@ + c.peer + "  ("@ + decimal(c.width as nat) + "×"@ + decimal(c.height as nat)
                + ")"@,
        ],
        client_lines(s.clients).len() == (if s.clients.len() == 0 {
            1
        } else {
            s.clients.len()
        }),
{
    assert(client_lines(seq![c]) =~= seq![client_line(c)]);
}

/// The choices for the touchscreen are one for no output and one for each output; the one that is
/// chosen is the one that is shown, as long as its output is there.
pub proof fn every_output_can_be_chosen(outputs: Seq<Seq<char>>, i: int)
    requires
        0 <= i < outputs.len(),
    ensures
        labels_for(outputs).len() == outputs.len() + 1,
        labels_for(outputs)[0] == "Auto (no override)"@,
        labels_for(outputs)[i + 1] == outputs[i],
        chosen_output(outputs, 0) is None,
        chosen_output(outputs, i + 1) == Some(outputs[i]),
        touch_index(None, outputs) == Some(0int),
        touch_index(Some(outputs[i]), outputs) is Some,
{
    text_index_exists(outputs, outputs[i], 0, i);
}

proof fn text_index_exists(v: Seq<Seq<char>>, s: Seq<char>, from: int, i: int)
    requires
        0 <= from <= i < v.len(),
        v[i] == s,
    ensures
        text_index(v, s, from) is Some,
    decreases i - from,
{
    if from < i && v[from] != s {
        text_index_exists(v, s, from + 1, i);
    }
}

} // verus!
