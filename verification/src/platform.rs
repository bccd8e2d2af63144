//! What the machine's input devices and monitors look like to the rest of the library.
use vstd::prelude::*;
use vstd::string::*;

verus! {

/// Why the machine could not do what was asked.
#[derive(Debug, Clone, PartialEq, Eq)]
pub enum PlatformError {
    NoBackend,
    Io(String),
    Hyprland(String),
    NoDevices,
}

/// The words for an error.
pub open spec fn platform_error_text(e: PlatformError) -> Seq<char> {
    match e {
        PlatformError::NoBackend =>
            "no supported compositor/window manager detected (checked: Hyprland)"@,
        PlatformError::Io(why) => "input device error: "@ + why@,
        PlatformError::Hyprland(why) => "Hyprland IPC error: "@ + why@,
        PlatformError::NoDevices => "no usable input devices found (mouse + keyboard required)"@,
    }
}

impl PlatformError {
    /// The words for this error.
    pub fn describe(&self) -> (text: String)
        ensures
            text@ == platform_error_text(*self),
    {
        match self {
            PlatformError::NoBackend => {
                "no supported compositor/window manager detected (checked: Hyprland)".to_owned()
            },
            PlatformError::Io(why) => {
                let mut text = "input device error: ".to_owned();
                text.append(why.as_str());
                text
            },
            PlatformError::Hyprland(why) => {
                let mut text = "Hyprland IPC error: ".to_owned();
                text.append(why.as_str());
                text
            },
            PlatformError::NoDevices => {
                "no usable input devices found (mouse + keyboard required)".to_owned()
            },
        }
    }
}

/// What a captured device is.
#[derive(Debug, Clone, Copy, PartialEq, Eq, Structural)]
pub enum DeviceKind {
    Mouse,
    Keyboard,
    ConsumerControl,
}

/// The name of a kind of device.
pub open spec fn kind_label(kind: DeviceKind) -> Seq<char> {
    match kind {
        DeviceKind::Mouse => "mouse"@,
        DeviceKind::Keyboard => "keyboard"@,
        DeviceKind::ConsumerControl => "consumer-control"@,
    }
}

impl DeviceKind {
    /// The name of this kind of device.
    pub fn label(&self) -> (label: &'static str)
        ensures
            label@ == kind_label(*self),
    {
        match self {
            DeviceKind::Mouse => "mouse",
            DeviceKind::Keyboard => "keyboard",
            DeviceKind::ConsumerControl => "consumer-control",
        }
    }
}

/// An input device: the path of its device file, its name, and what it is.
#[derive(Debug, Clone, PartialEq, Eq)]
pub struct DeviceInfo {
    pub path: String,
    pub name: String,
    pub kind: DeviceKind,
}

/// The contents of a [`DeviceInfo`].
pub struct DeviceModel {
    pub path: Seq<char>,
    pub name: Seq<char>,
    pub kind: DeviceKind,
}

impl View for DeviceInfo {
    type V = DeviceModel;

    open spec fn view(&self) -> DeviceModel {
        DeviceModel { path: self.path@, name: self.name@, kind: self.kind }
    }
}

/// One event of a captured device.
#[derive(Debug, Clone, Copy, PartialEq, Eq, Structural)]
pub enum RawInputEvent {
    RelMotion { dx: i32, dy: i32 },
    Key { code: u16, pressed: bool },
    Button { code: u16, pressed: bool },
    Scroll { dx: i32, dy: i32, hi_res: bool },
}

/// The events that a device reported together.
pub type CaptureBatch = Vec<RawInputEvent>;

/// A monitor and its place on the desktop.
#[derive(Debug, Clone, PartialEq, Eq)]
pub struct RealMonitor {
    pub name: String,
    pub x: i32,
    pub y: i32,
    pub width: u32,
    pub height: u32,
    pub focused: bool,
}

/// The contents of a [`RealMonitor`].
pub struct MonitorModel {
    pub name: Seq<char>,
    pub x: i32,
    pub y: i32,
    pub width: u32,
    pub height: u32,
    pub focused: bool,
}

impl View for RealMonitor {
    type V = MonitorModel;

    open spec fn view(&self) -> MonitorModel {
        MonitorModel {
            name: self.name@,
            x: self.x,
            y: self.y,
            width: self.width,
            height: self.height,
            focused: self.focused,
        }
    }
}

} // verus!
