//! From the events of a device to the batches that are sent on.
use crate::capture::{
    REL_HWHEEL, REL_HWHEEL_HI_RES, REL_WHEEL, REL_WHEEL_HI_RES, REL_X, REL_Y, UNITS_PER_NOTCH,
};
use crate::platform::{CaptureBatch, DeviceKind, RawInputEvent};
use crate::pointer::fits_i32;
use vstd::prelude::*;

verus! {

/// The type of the events that end a report.
pub const EV_SYN: u16 = 0;

/// The type of the events of keys and buttons.
pub const EV_KEY: u16 = 1;

/// The type of the events of relative axes.
pub const EV_REL: u16 = 2;

/// The code of the event that ends a report.
pub const SYN_REPORT: u16 = 0;

/// An event of a device, as far as it matters here.
#[derive(Debug, Clone, Copy, PartialEq, Eq, Structural)]
pub enum DeviceEvent {
    Synchronization { code: u16 },
    Key { code: u16, value: i32 },
    RelativeAxis { code: u16, value: i32 },
    Other,
}

/// What the type, code and value of an event mean.
pub open spec fn event_of(type_: u16, code: u16, value: i32) -> DeviceEvent {
    if type_ == EV_SYN {
        DeviceEvent::Synchronization { code }
    } else if type_ == EV_KEY {
        DeviceEvent::Key { code, value }
    } else if type_ == EV_REL {
        DeviceEvent::RelativeAxis { code, value }
    } else {
        DeviceEvent::Other
    }
}

/// `evdev::InputEvent::destructure`: the type of an event tells its sort, and its code and value
/// are handed on as they are.
#[verifier::external_body]
fn destructure(type_: u16, code: u16, value: i32) -> (event: DeviceEvent)
    ensures
        event == event_of(type_, code, value),
{
    match evdev::InputEvent::new(type_, code, value).destructure() {
        evdev::EventSummary::Synchronization(_, code, _) => DeviceEvent::Synchronization {
            code: code.0,
        },
        evdev::EventSummary::Key(_, code, value) => DeviceEvent::Key { code: code.0, value },
        evdev::EventSummary::RelativeAxis(_, code, value) => DeviceEvent::RelativeAxis {
            code: code.0,
            value,
        },
        _ => DeviceEvent::Other,
    }
}

/// What a device reported since its last complete report.
pub struct BatchModel {
    pub dx: i32,
    pub dy: i32,
    pub wheel_hi_res: i32,
    pub hwheel_hi_res: i32,
    pub wheel_legacy: i32,
    pub hwheel_legacy: i32,
    pub others: Seq<RawInputEvent>,
}

/// Nothing was reported.
pub open spec fn empty_batch() -> BatchModel {
    BatchModel {
        dx: 0,
        dy: 0,
        wheel_hi_res: 0,
        hwheel_hi_res: 0,
        wheel_legacy: 0,
        hwheel_legacy: 0,
        others: Seq::empty(),
    }
}

/// What a key event of a device means: on a mouse a button, else a key.
pub open spec fn press_of(kind: DeviceKind, code: u16, value: i32) -> RawInputEvent {
    if kind == DeviceKind::Mouse {
        RawInputEvent::Button { code, pressed: value != 0 }
    } else {
        RawInputEvent::Key { code, pressed: value != 0 }
    }
}

/// A batch with one more event. Movements along one axis add up.
pub open spec fn with_event(b: BatchModel, event: DeviceEvent, kind: DeviceKind) -> BatchModel {
    match event {
        DeviceEvent::Key { code, value } => BatchModel {
            others: b.others.push(press_of(kind, code, value)),
            ..b
        },
        DeviceEvent::RelativeAxis { code, value } => if code == REL_X {
            BatchModel { dx: (b.dx + value) as i32, ..b }
        } else if code == REL_Y {
            BatchModel { dy: (b.dy + value) as i32, ..b }
        } else if code == REL_WHEEL {
            BatchModel { wheel_legacy: (b.wheel_legacy + value) as i32, ..b }
        } else if code == REL_HWHEEL {
            BatchModel { hwheel_legacy: (b.hwheel_legacy + value) as i32, ..b }
        } else if code == REL_WHEEL_HI_RES {
            BatchModel { wheel_hi_res: (b.wheel_hi_res + value) as i32, ..b }
        } else if code == REL_HWHEEL_HI_RES {
            BatchModel { hwheel_hi_res: (b.hwheel_hi_res + value) as i32, ..b }
        } else {
            b
        },
        _ => b,
    }
}

/// Whether the movements still fit after one more event.
pub open spec fn event_fits(b: BatchModel, event: DeviceEvent) -> bool {
    match event {
        DeviceEvent::RelativeAxis { code, value } => {
            &&& code == REL_X ==> fits_i32(b.dx + value)
            &&& code == REL_Y ==> fits_i32(b.dy + value)
            &&& code == REL_WHEEL ==> fits_i32(b.wheel_legacy + value)
            &&& code == REL_HWHEEL ==> fits_i32(b.hwheel_legacy + value)
            &&& code == REL_WHEEL_HI_RES ==> fits_i32(b.wheel_hi_res + value)
            &&& code == REL_HWHEEL_HI_RES ==> fits_i32(b.hwheel_hi_res + value)
        },
        _ => true,
    }
}

/// Whether an event ends a report.
pub open spec fn ends_report(event: DeviceEvent) -> bool {
    event == (DeviceEvent::Synchronization { code: SYN_REPORT })
}

/// Whether the wheels moved in high resolution.
pub open spec fn scrolls_hi_res(b: BatchModel) -> bool {
    b.wheel_hi_res != 0 || b.hwheel_hi_res != 0
}

/// How far a batch scrolls sideways. Where the wheels report high resolution, their notches do not
/// count.
pub open spec fn scroll_dx(b: BatchModel) -> int {
    if scrolls_hi_res(b) {
        b.hwheel_hi_res as int
    } else {
        b.hwheel_legacy * UNITS_PER_NOTCH
    }
}

/// How far a batch scrolls up or down.
pub open spec fn scroll_dy(b: BatchModel) -> int {
    if b.wheel_hi_res != 0 {
        b.wheel_hi_res as int
    } else {
        b.wheel_legacy * UNITS_PER_NOTCH
    }
}

/// The events of a complete report: keys and buttons in their order, then the movement, then the
/// scrolling.
pub open spec fn batch_events(b: BatchModel) -> Seq<RawInputEvent> {
    let motion = if b.dx != 0 || b.dy != 0 {
        seq![RawInputEvent::RelMotion { dx: b.dx, dy: b.dy }]
    } else {
        Seq::empty()
    };
    let scroll = if scroll_dx(b) != 0 || scroll_dy(b) != 0 {
        seq![
            RawInputEvent::Scroll {
                dx: scroll_dx(b) as i32,
                dy: scroll_dy(b) as i32,
                hi_res: scrolls_hi_res(b),
            },
        ]
    } else {
        Seq::empty()
    };
    b.others + motion + scroll
}

/// Whether the scrolling of a batch can be told.
pub open spec fn scroll_fits(b: BatchModel) -> bool {
    fits_i32(scroll_dx(b)) && fits_i32(scroll_dy(b))
}

/// What a device reported since its last complete report.
#[derive(Debug)]
pub struct PendingBatch {
    dx: i32,
    dy: i32,
    wheel_hi_res: i32,
    hwheel_hi_res: i32,
    wheel_legacy: i32,
    hwheel_legacy: i32,
    others: CaptureBatch,
}

impl View for PendingBatch {
    type V = BatchModel;

    closed spec fn view(&self) -> BatchModel {
        BatchModel {
            dx: self.dx,
            dy: self.dy,
            wheel_hi_res: self.wheel_hi_res,
            hwheel_hi_res: self.hwheel_hi_res,
            wheel_legacy: self.wheel_legacy,
            hwheel_legacy: self.hwheel_legacy,
            others: self.others@,
        }
    }
}

impl Default for PendingBatch {
    fn default() -> (batch: Self)
        ensures
            batch@ == empty_batch(),
    {
        PendingBatch {
            dx: 0,
            dy: 0,
            wheel_hi_res: 0,
            hwheel_hi_res: 0,
            wheel_legacy: 0,
            hwheel_legacy: 0,
            others: Vec::new(),
        }
    }
}

fn sum_fits(a: i32, b: i32) -> (res: bool)
    ensures
        res == fits_i32(a + b),
{
    a.checked_add(b).is_some()
}

fn notches_fit(notches: i32) -> (res: bool)
    ensures
        res == fits_i32(notches * UNITS_PER_NOTCH),
{
    let units: i64 = notches as i64 * UNITS_PER_NOTCH as i64;
    i32::MIN as i64 <= units && units <= i32::MAX as i64
}

impl PendingBatch {
    /// Whether [`push`](Self::push) can take the event.
    pub fn can_push(&self, type_: u16, code: u16, value: i32) -> (res: bool)
        ensures
            res == event_fits(self@, event_of(type_, code, value)),
    {
        match destructure(type_, code, value) {
            DeviceEvent::RelativeAxis { code, value } => if code == REL_X {
                sum_fits(self.dx, value)
            } else if code == REL_Y {
                sum_fits(self.dy, value)
            } else if code == REL_WHEEL {
                sum_fits(self.wheel_legacy, value)
            } else if code == REL_HWHEEL {
                sum_fits(self.hwheel_legacy, value)
            } else if code == REL_WHEEL_HI_RES {
                sum_fits(self.wheel_hi_res, value)
            } else if code == REL_HWHEEL_HI_RES {
                sum_fits(self.hwheel_hi_res, value)
            } else {
                true
            },
            _ => true,
        }
    }

    /// Take in an event of a device of the given kind, and say whether it ends a report.
    pub fn push(&mut self, type_: u16, code: u16, value: i32, kind: DeviceKind) -> (complete: bool)
        requires
            event_fits(old(self)@, event_of(type_, code, value)),
        ensures
            final(self)@ == with_event(old(self)@, event_of(type_, code, value), kind),
            complete == ends_report(event_of(type_, code, value)),
    {
        match destructure(type_, code, value) {
            DeviceEvent::Synchronization { code } => code == SYN_REPORT,
            DeviceEvent::Key { code, value } => {
                let pressed = value != 0;
                let raw = match kind {
                    DeviceKind::Mouse => RawInputEvent::Button { code, pressed },
                    DeviceKind::Keyboard | DeviceKind::ConsumerControl => RawInputEvent::Key {
                        code,
                        pressed,
                    },
                };
                self.others.push(raw);
                false
            },
            DeviceEvent::RelativeAxis { code, value } => {
                if code == REL_X {
                    self.dx += value;
                } else if code == REL_Y {
                    self.dy += value;
                } else if code == REL_WHEEL {
                    self.wheel_legacy += value;
                } else if code == REL_HWHEEL {
                    self.hwheel_legacy += value;
                } else if code == REL_WHEEL_HI_RES {
                    self.wheel_hi_res += value;
                } else if code == REL_HWHEEL_HI_RES {
                    self.hwheel_hi_res += value;
                }
                false
            },
            DeviceEvent::Other => false,
        }
    }

    /// Whether [`take`](Self::take) can tell the scrolling.
    pub fn can_take(&self) -> (res: bool)
        ensures
            res == scroll_fits(self@),
    {
        let hi_res = self.wheel_hi_res != 0 || self.hwheel_hi_res != 0;
        (hi_res || notches_fit(self.hwheel_legacy)) && (self.wheel_hi_res != 0 || notches_fit(
            self.wheel_legacy,
        ))
    }

    /// The events of a complete report. A new one begins.
    pub fn take(&mut self) -> (batch: CaptureBatch)
        requires
            scroll_fits(old(self)@),
        ensures
            batch@ == batch_events(old(self)@),
            final(self)@ == empty_batch(),
    {
        let mut batch: CaptureBatch = Vec::new();
        batch.append(&mut self.others);
        if self.dx != 0 || self.dy != 0 {
            batch.push(RawInputEvent::RelMotion { dx: self.dx, dy: self.dy });
        }
        let hi_res = self.wheel_hi_res != 0 || self.hwheel_hi_res != 0;
        let dx: i32 = if hi_res {
            self.hwheel_hi_res
        } else {
            self.hwheel_legacy * UNITS_PER_NOTCH
        };
        let dy: i32 = if self.wheel_hi_res != 0 {
            self.wheel_hi_res
        } else {
            self.wheel_legacy * UNITS_PER_NOTCH
        };
        if dx != 0 || dy != 0 {
            batch.push(RawInputEvent::Scroll { dx, dy, hi_res });
        }
        assert(batch@ =~= batch_events(old(self)@));
        self.dx = 0;
        self.dy = 0;
        self.wheel_hi_res = 0;
        self.hwheel_hi_res = 0;
        self.wheel_legacy = 0;
        self.hwheel_legacy = 0;
        assert(self@.others =~= Seq::empty());
        batch
    }

    /// Take in an event, and return the batch that it completes. An event that the sums have no
    /// room for is an error.
    pub fn feed(&mut self, type_: u16, code: u16, value: i32, kind: DeviceKind) -> (res: Result<
        Option<CaptureBatch>,
        (),
    >)
        ensures
            ({
                let event = event_of(type_, code, value);
                let next = with_event(old(self)@, event, kind);
                match res {
                    Ok(Some(batch)) => {
                        &&& ends_report(event) && scroll_fits(next)
                        &&& batch@ == batch_events(next)
                        &&& final(self)@ == empty_batch()
                    },
                    Ok(None) => {
                        &&& event_fits(old(self)@, event) && !ends_report(event)
                        &&& final(self)@ == next
                    },
                    Err(_) => if event_fits(old(self)@, event) {
                        ends_report(event) && !scroll_fits(next) && final(self)@ == next
                    } else {
                        final(self)@ == old(self)@
                    },
                }
            }),
    {
        if !self.can_push(type_, code, value) {
            return Err(());
        }
        if self.push(type_, code, value, kind) {
            if !self.can_take() {
                return Err(());
            }
            Ok(Some(self.take()))
        } else {
            Ok(None)
        }
    }
}

/// A batch after several events.
pub open spec fn with_events(b: BatchModel, events: Seq<DeviceEvent>, kind: DeviceKind) -> BatchModel
    decreases events.len(),
{
    if events.len() == 0 {
        b
    } else {
        with_event(with_events(b, events.drop_last(), kind), events.last(), kind)
    }
}

/// The sum of the movements along one axis.
pub open spec fn axis_sum(events: Seq<DeviceEvent>, axis: u16) -> int
    decreases events.len(),
{
    if events.len() == 0 {
        0
    } else {
        let rest = axis_sum(events.drop_last(), axis);
        match events.last() {
            DeviceEvent::RelativeAxis { code, value } => if code == axis {
                rest + value
            } else {
                rest
            },
            _ => rest,
        }
    }
}

/// Whether the movements fit at every moment.
pub open spec fn all_fit(b: BatchModel, events: Seq<DeviceEvent>, kind: DeviceKind) -> bool
    decreases events.len(),
{
    events.len() == 0 || {
        &&& all_fit(b, events.drop_last(), kind)
        &&& event_fits(with_events(b, events.drop_last(), kind), events.last())
    }
}

/// No movement is lost between two reports: what a batch tells is the sum of what the device
/// reported.
pub proof fn law_motion_is_summed(events: Seq<DeviceEvent>, kind: DeviceKind)
    requires
        all_fit(empty_batch(), events, kind),
    ensures
        ({
            let b = with_events(empty_batch(), events, kind);
            &&& b.dx == axis_sum(events, REL_X)
            &&& b.dy == axis_sum(events, REL_Y)
            &&& b.wheel_legacy == axis_sum(events, REL_WHEEL)
            &&& b.hwheel_legacy == axis_sum(events, REL_HWHEEL)
            &&& b.wheel_hi_res == axis_sum(events, REL_WHEEL_HI_RES)
            &&& b.hwheel_hi_res == axis_sum(events, REL_HWHEEL_HI_RES)
        }),
    decreases events.len(),
{
    if events.len() > 0 {
        law_motion_is_summed(events.drop_last(), kind);
    }
}

/// The type of an event tells its sort: 0 for the end of a report, 1 for keys and buttons, 2 for
/// movements.
pub proof fn law_types_of_events(code: u16, value: i32, type_: u16)
    ensures
        event_of(0, code, value) == (DeviceEvent::Synchronization { code }),
        event_of(1, code, value) == (DeviceEvent::Key { code, value }),
        event_of(2, code, value) == (DeviceEvent::RelativeAxis { code, value }),
        type_ > 2 ==> event_of(type_, code, value) == DeviceEvent::Other,
        ends_report(event_of(type_, code, value)) <==> type_ == 0 && code == 0,
{
}

/// A key or button is noted behind those before it, with its code, and as pressed where its value is
/// not zero: on a mouse as a button, on any other device as a key. No movement changes.
pub proof fn law_presses_are_noted_in_order(
    b: BatchModel,
    code: u16,
    value: i32,
    kind: DeviceKind,
)
    ensures
        ({
            let after = with_event(b, DeviceEvent::Key { code, value }, kind);
            &&& after.others.len() == b.others.len() + 1
            &&& forall|i: int| 0 <= i < b.others.len() ==> after.others[i] == b.others[i]
            &&& kind == DeviceKind::Mouse ==> after.others.last() == (RawInputEvent::Button {
                code,
                pressed: value != 0,
            })
            &&& kind != DeviceKind::Mouse ==> after.others.last() == (RawInputEvent::Key {
                code,
                pressed: value != 0,
            })
            &&& after == (BatchModel { others: after.others, ..b })
        }),
{
}

/// A movement is added to its own sum and to no other: axis 0 is sideways, 1 up and down, 8 and 6 are
/// the wheels in notches, 11 and 12 the wheels in high resolution.
pub proof fn law_movement_goes_to_its_axis(b: BatchModel, code: u16, value: i32, kind: DeviceKind)
    requires
        event_fits(b, DeviceEvent::RelativeAxis { code, value }),
    ensures
        ({
            let after = with_event(b, DeviceEvent::RelativeAxis { code, value }, kind);
            let share = |axis: u16|
                if code == axis {
                    value as int
                } else {
                    0int
                };
            &&& after.dx == b.dx + share(0)
            &&& after.dy == b.dy + share(1)
            &&& after.hwheel_legacy == b.hwheel_legacy + share(6)
            &&& after.wheel_legacy == b.wheel_legacy + share(8)
            &&& after.wheel_hi_res == b.wheel_hi_res + share(11)
            &&& after.hwheel_hi_res == b.hwheel_hi_res + share(12)
            &&& after.others == b.others
        }),
{
}

/// A movement is refused only where its sum would leave the range, and no other event ever is.
pub proof fn law_only_overflow_is_refused(b: BatchModel, event: DeviceEvent)
    requires
        -0x4000_0000 <= b.dx < 0x4000_0000,
        -0x4000_0000 <= b.dy < 0x4000_0000,
        -0x4000_0000 <= b.wheel_legacy < 0x4000_0000,
        -0x4000_0000 <= b.hwheel_legacy < 0x4000_0000,
        -0x4000_0000 <= b.wheel_hi_res < 0x4000_0000,
        -0x4000_0000 <= b.hwheel_hi_res < 0x4000_0000,
        event matches DeviceEvent::RelativeAxis { value, .. } ==> -0x4000_0000 <= value
            <= 0x4000_0000,
    ensures
        event_fits(b, event),
{
}

/// The end of a report and events of other sorts leave what was reported alone.
pub proof fn law_other_events_change_nothing(b: BatchModel, code: u16, kind: DeviceKind)
    ensures
        with_event(b, DeviceEvent::Synchronization { code }, kind) == b,
        with_event(b, DeviceEvent::Other, kind) == b,
{
}

/// A complete report tells first the keys and buttons, as they were noted, then the movement, then
/// the scrolling, and nothing that did not happen. A notch of a wheel counts 120; where a wheel told
/// its movement in high resolution, that counts instead.
pub proof fn law_report_tells_all(b: BatchModel)
    requires
        scroll_fits(b),
    ensures
        ({
            let told = batch_events(b);
            let n = b.others.len() as int;
            let moves = b.dx != 0 || b.dy != 0;
            let fine = b.wheel_hi_res != 0 || b.hwheel_hi_res != 0;
            let dx = if fine {
                b.hwheel_hi_res as int
            } else {
                120 * b.hwheel_legacy
            };
            let dy = if b.wheel_hi_res != 0 {
                b.wheel_hi_res as int
            } else {
                120 * b.wheel_legacy
            };
            let scrolls = dx != 0 || dy != 0;
            &&& told.len() == n + (if moves {
                1int
            } else {
                0int
            }) + (if scrolls {
                1int
            } else {
                0int
            })
            &&& forall|i: int| 0 <= i < n ==> told[i] == b.others[i]
            &&& moves ==> told[n] == (RawInputEvent::RelMotion { dx: b.dx, dy: b.dy })
            &&& scrolls ==> told.last() is Scroll && told.last()->Scroll_dx == dx
                && told.last()->Scroll_dy == dy && told.last()->hi_res == fine
        }),
{
}

/// Nothing of a report is left for the next one.
pub proof fn law_next_report_begins_empty()
    ensures
        ({
            let b = empty_batch();
            &&& b.dx == 0 && b.dy == 0
            &&& b.wheel_hi_res == 0 && b.hwheel_hi_res == 0
            &&& b.wheel_legacy == 0 && b.hwheel_legacy == 0
            &&& batch_events(b).len() == 0
        }),
{
}

} // verus!
