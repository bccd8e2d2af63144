//! The values that travel between the two machines.
use vstd::prelude::*;

verus! {

/// A pixel position.
#[derive(Debug, Clone, Copy, PartialEq, Eq, Structural)]
pub struct Point {
    pub x: i32,
    pub y: i32,
}

impl Point {
    pub fn new(x: i32, y: i32) -> (p: Self)
        ensures
            p == (Point { x, y }),
    {
        Self { x, y }
    }
}

/// Size, refresh rate (in millihertz) and scale (in percent) of a screen.
#[derive(Debug, Clone, Copy, PartialEq, Eq, Structural)]
pub struct DisplayGeometry {
    pub width: u32,
    pub height: u32,
    pub refresh_mhz: u32,
    pub scale_pct: u32,
}

/// A side of a monitor.
#[derive(Debug, Clone, Copy, PartialEq, Eq, Structural)]
pub enum Edge {
    Left,
    Right,
    Top,
    Bottom,
}

/// One input event, as the controlled machine replays it.
#[derive(Debug, Clone, Copy, PartialEq, Eq, Structural)]
pub enum InputEvent {
    Motion { x: i32, y: i32 },
    Button { code: u16, pressed: bool, at: Point },
    Key { code: u16, pressed: bool },
    Scroll { dx: i32, dy: i32, hi_res: bool },
    Enter { at: Point },
    Leave,
    ReleaseAll,
}

/// What the slave says of itself when it connects.
#[derive(Debug, Clone, PartialEq)]
pub struct HelloInfo {
    pub proto_version: u32,
    pub hostname: String,
    pub screen: DisplayGeometry,
}

/// The contents of a [`HelloInfo`].
pub struct HelloModel {
    pub proto_version: u32,
    pub hostname: Seq<char>,
    pub screen: DisplayGeometry,
}

impl View for HelloInfo {
    type V = HelloModel;

    open spec fn view(&self) -> HelloModel {
        HelloModel {
            proto_version: self.proto_version,
            hostname: self.hostname@,
            screen: self.screen,
        }
    }
}

/// The master's answer to a [`HelloInfo`].
#[derive(Debug, Clone, Copy, PartialEq, Eq, Structural)]
pub struct WelcomeInfo {
    pub proto_version: u32,
}

pub const PROTO_VERSION: u32 = 1;

} // verus!
