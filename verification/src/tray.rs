//! The tray: the mode that the user has chosen, the menu, and the host that it runs.

use vstd::prelude::*;

use crate::session::Mode;
use crate::session::mode_name;

verus! {

/// Identifier of the tray item.
pub const TRAY_ID: &'static str = "co.dealdrive.Ferrite";

/// Title of the tray item.
pub const TRAY_TITLE: &'static str = "Ferrite";

/// Icon of the tray item.
pub const TRAY_ICON: &'static str = "video-display";

/// The program that captures and streams.
pub const HOST_PROGRAM: &'static str = "ferrite-host";

/// The control panel.
pub const PANEL_PROGRAM: &'static str = "ferrite-ui";

/// The variable that tells the host its mode.
pub const MODE_VARIABLE: &'static str = "FERRITE_MODE";

/// What is remembered from one run to the next.
#[derive(Debug, Clone, Copy, PartialEq, Eq, Structural)]
pub struct Config {
    pub mode: Option<Mode>,
}

/// The mode to start in: the one that was chosen last, or else the virtual one.
pub open spec fn first_mode(config: Config) -> Mode {
    match config.mode {
        Some(mode) => mode,
        None => Mode::Virtual,
    }
}

impl Config {
    /// The mode to start in: the one that was chosen last, or else the virtual one.
    pub fn start_mode(&self) -> (mode: Mode)
        ensures
            mode == first_mode(*self),
    {
        match self.mode {
            Some(mode) => mode,
            None => Mode::Virtual,
        }
    }
}

/// An entry of the menu.
#[derive(Debug, Clone, Copy, PartialEq, Eq, Structural)]
pub enum MenuEntry {
    OpenPanel,
    Separator,
    /// Disables the host where it runs, and enables it otherwise.
    Host { running: bool },
    /// A submenu with an entry for each mode, of which the current one is checked.
    ModeMenu { virtual_checked: bool, mirror_checked: bool },
    Quit,
}

/// The label of a menu entry. A separator has none.
pub fn menu_label(entry: MenuEntry) -> (label: &'static str)
    ensures
        label@ == (match entry {
            MenuEntry::OpenPanel => "Open Panel"@,
            MenuEntry::Separator => ""@,
            MenuEntry::Host { running } => if running {
                "Disable"@
            } else {
                "Enable"@
            },
            MenuEntry::ModeMenu { .. } => "Mode"@,
            MenuEntry::Quit => "Quit"@,
        }),
{
    match entry {
        MenuEntry::OpenPanel => "Open Panel",
        MenuEntry::Separator => "",
        MenuEntry::Host { running } => if running {
            "Disable"
        } else {
            "Enable"
        },
        MenuEntry::ModeMenu { .. } => "Mode",
        MenuEntry::Quit => "Quit",
    }
}

/// The label of a mode in the submenu.
pub fn mode_label(mode: Mode) -> (label: &'static str)
    ensures
        label@ == (match mode {
            Mode::Virtual => "Virtual monitor"@,
            Mode::Mirror => "Mirror"@,
        }),
{
    match mode {
        Mode::Virtual => "Virtual monitor",
        Mode::Mirror => "Mirror",
    }
}

/// The tray's state.
#[derive(Debug, Clone, Copy, PartialEq, Eq, Structural)]
pub struct Tray {
    pub mode: Mode,
    /// The host is running.
    pub running: bool,
}

/// What to do with the host.
#[derive(Debug, Clone, Copy, PartialEq, Eq, Structural)]
pub struct HostStart {
    /// Stop the host that is running first.
    pub stop: bool,
    /// Start one in this mode.
    pub mode: Mode,
}

impl HostStart {
    /// The value of the variable that tells the host its mode.
    pub fn variable(&self) -> (value: &'static str)
        ensures
            value@ == mode_name(self.mode),
    {
        self.mode.env()
    }
}

/// What a choice of mode asks for.
#[derive(Debug, Clone, Copy, PartialEq, Eq, Structural)]
pub enum ModeChoice {
    /// The mode is the current one.
    Unchanged,
    /// Remember the mode, then restart the host.
    Restart { save: Config, start: HostStart },
}

/// The tray after a choice of mode, and what the choice asks for. A host that is running is stopped
/// before another is started.
pub open spec fn choose_mode(tray: Tray, mode: Mode) -> (Tray, ModeChoice) {
    if mode == tray.mode {
        (tray, ModeChoice::Unchanged)
    } else {
        (
            Tray { mode, running: false },
            ModeChoice::Restart {
                save: Config { mode: Some(mode) },
                start: HostStart { stop: tray.running, mode },
            },
        )
    }
}

/// What enabling or disabling the host asks for.
#[derive(Debug, Clone, Copy, PartialEq, Eq, Structural)]
pub enum HostToggle {
    /// Stop the host that is running.
    Stop,
    /// Start one.
    Start(HostStart),
}

/// The tray after the host was disabled or enabled, and what that asks for. The mode stays.
pub open spec fn toggle_host(tray: Tray) -> (Tray, HostToggle) {
    (
        Tray { running: false, ..tray },
        if tray.running {
            HostToggle::Stop
        } else {
            HostToggle::Start(HostStart { stop: false, mode: tray.mode })
        },
    )
}

impl Tray {
    /// The tray with a host to start.
    pub fn new(config: Config) -> (tray: (Tray, HostStart))
        ensures
            tray.0 == (Tray { mode: first_mode(config), running: false }),
            tray.1 == (HostStart { stop: false, mode: tray.0.mode }),
    {
        let mode = config.start_mode();
        (Tray { mode, running: false }, HostStart { stop: false, mode })
    }

    /// The menu.
    pub fn menu(&self) -> (entries: Vec<MenuEntry>)
        ensures
            entries@ == seq![
                MenuEntry::OpenPanel,
                MenuEntry::Separator,
                MenuEntry::Host { running: self.running },
                MenuEntry::ModeMenu {
                    virtual_checked: self.mode == Mode::Virtual,
                    mirror_checked: self.mode == Mode::Mirror,
                },
                MenuEntry::Separator,
                MenuEntry::Quit,
            ],
    {
        let mut entries: Vec<MenuEntry> = Vec::new();
        entries.push(MenuEntry::OpenPanel);
        entries.push(MenuEntry::Separator);
        entries.push(MenuEntry::Host { running: self.running });
        entries.push(
            MenuEntry::ModeMenu {
                virtual_checked: self.mode == Mode::Virtual,
                mirror_checked: self.mode == Mode::Mirror,
            },
        );
        entries.push(MenuEntry::Separator);
        entries.push(MenuEntry::Quit);
        entries
    }

    /// The user has chosen a mode.
    pub fn set_mode(&mut self, mode: Mode) -> (choice: ModeChoice)
        ensures
            (*final(self), choice) == choose_mode(*old(self), mode),
    {
        if mode == self.mode {
            return ModeChoice::Unchanged;
        }
        self.mode = mode;
        let start = HostStart { stop: self.stop(), mode };
        ModeChoice::Restart { save: Config { mode: Some(mode) }, start }
    }

    /// The user disables a host that is running, or enables one that is not.
    pub fn toggle(&mut self) -> (toggle: HostToggle)
        ensures
            (*final(self), toggle) == toggle_host(*old(self)),
    {
        if self.stop() {
            HostToggle::Stop
        } else {
            HostToggle::Start(HostStart { stop: false, mode: self.mode })
        }
    }

    /// The host was started, or could not be.
    pub fn host_started(&mut self, started: bool)
        ensures
            *final(self) == (Tray { running: started, ..*old(self) }),
    {
        self.running = started;
    }

    /// The host is to be stopped: whether there is one.
    pub fn stop(&mut self) -> (running: bool)
        ensures
            running == old(self).running,
            *final(self) == (Tray { running: false, ..*old(self) }),
    {
        let running = self.running;
        self.running = false;
        running
    }
}

/// A choice of mode takes effect at once and in the next run, and never runs two hosts: the host is
/// restarted in the chosen mode after one that runs has been stopped, what is saved makes the tray
/// start in that mode, and choosing it once more changes nothing.
pub proof fn choice_takes_effect(tray: Tray, mode: Mode)
    ensures
        ({
            let (after, choice) = choose_mode(tray, mode);
            &&& after.mode == mode
            &&& choose_mode(after, mode) == (after, ModeChoice::Unchanged)
            &&& choice matches ModeChoice::Restart { save, start } ==> {
                &&& first_mode(save) == mode
                &&& start == (HostStart { stop: tray.running, mode })
                &&& !after.running
            }
        }),
{
}

/// Disabling a host and enabling it again starts it in the mode that is set, also one that was set
/// in between, and never beside another: no host runs when one is started.
pub proof fn toggle_restarts_in_mode(tray: Tray, mode: Mode)
    ensures
        ({
            let (after, toggle) = toggle_host(tray);
            &&& after.mode == tray.mode && !after.running
            &&& toggle == HostToggle::Stop <==> tray.running
            &&& toggle_host(after) == (
                after,
                HostToggle::Start(HostStart { stop: false, mode: tray.mode }),
            )
            &&& toggle_host(choose_mode(after, mode).0).1 == HostToggle::Start(
                HostStart { stop: false, mode },
            )
            &&& toggle_host(Tray { running: true, ..after }).1 == HostToggle::Stop
        }),
{
}

/// Without a remembered mode the tray starts in the virtual one, and otherwise in the one that is
/// remembered.
pub proof fn tray_starts_in_remembered_mode(mode: Mode)
    ensures
        first_mode(Config { mode: Some(mode) }) == mode,
        first_mode(Config { mode: None }) == Mode::Virtual,
{
}

} // verus!
