//! Replaying input: what the virtual devices are told.
use crate::batch::{EV_KEY, EV_REL};
use crate::capture::{
    kind_of, TraitsModel, REL_HWHEEL, REL_HWHEEL_HI_RES, REL_WHEEL, REL_WHEEL_HI_RES,
};
use crate::event::{DisplayGeometry, InputEvent};
use crate::keys::{self, keyboard_keys_from};
use crate::pointer::{cast_i32, last_index, to_i32};
use crate::safety::held_after;
use std::collections::HashSet;
use vstd::prelude::*;
use vstd::std_specs::iter::IteratorSpec;

verus! {

broadcast use vstd::std_specs::hash::group_hash_axioms;

/// The type of the events of absolute axes.
pub const EV_ABS: u16 = 3;

pub const ABS_X: u16 = 0;

pub const ABS_Y: u16 = 1;

/// One past the last code that is tried as a key.
pub const KEY_END: u16 = 0x2ff;

/// An event as a virtual device takes it.
#[derive(Debug, Clone, Copy, PartialEq, Eq, Structural)]
pub struct OutEvent {
    pub type_: u16,
    pub code: u16,
    pub value: i32,
}

/// The virtual device that gets an event.
#[derive(Debug, Clone, Copy, PartialEq, Eq, Structural)]
pub enum OutDevice {
    Pointer,
    Keyboard,
}

pub open spec fn abs_out(code: u16, value: i32) -> OutEvent {
    OutEvent { type_: EV_ABS, code, value }
}

pub open spec fn key_out(code: u16, pressed: bool) -> OutEvent {
    OutEvent {
        type_: EV_KEY,
        code,
        value: if pressed {
            1
        } else {
            0
        },
    }
}

pub open spec fn rel_out(code: u16, value: i32) -> OutEvent {
    OutEvent { type_: EV_REL, code, value }
}

fn abs_event(code: u16, value: i32) -> (event: OutEvent)
    ensures
        event == abs_out(code, value),
{
    OutEvent { type_: EV_ABS, code, value }
}

fn key_event(code: u16, pressed: bool) -> (event: OutEvent)
    ensures
        event == key_out(code, pressed),
{
    OutEvent {
        type_: EV_KEY,
        code,
        value: if pressed {
            1
        } else {
            0
        },
    }
}

fn rel_event(code: u16, value: i32) -> (event: OutEvent)
    ensures
        event == rel_out(code, value),
{
    OutEvent { type_: EV_REL, code, value }
}

/// What is to be done to replay an event.
#[derive(Debug, Clone, PartialEq, Eq)]
pub enum Emission {
    Nothing,
    /// Send these events together to one of the virtual devices.
    Send { device: OutDevice, events: Vec<OutEvent> },
    /// Let go of all that is held.
    ReleaseAll,
}

/// The contents of an [`Emission`].
pub enum EmissionModel {
    Nothing,
    Send { device: OutDevice, events: Seq<OutEvent> },
    ReleaseAll,
}

impl View for Emission {
    type V = EmissionModel;

    open spec fn view(&self) -> EmissionModel {
        match self {
            Emission::Nothing => EmissionModel::Nothing,
            Emission::Send { device, events } => EmissionModel::Send {
                device: *device,
                events: events@,
            },
            Emission::ReleaseAll => EmissionModel::ReleaseAll,
        }
    }
}

/// The events that put the pointer somewhere.
pub open spec fn place_pointer(x: i32, y: i32) -> Seq<OutEvent> {
    seq![abs_out(ABS_X, x), abs_out(ABS_Y, y)]
}

/// The events that turn the wheels, one for each wheel that turns.
pub open spec fn turn_wheels(dx: i32, dy: i32, hi_res: bool) -> Seq<OutEvent> {
    let xs = if dx == 0 {
        Seq::empty()
    } else if hi_res {
        seq![rel_out(REL_HWHEEL_HI_RES, dx)]
    } else {
        seq![rel_out(REL_HWHEEL, dx)]
    };
    let ys = if dy == 0 {
        Seq::empty()
    } else if hi_res {
        seq![rel_out(REL_WHEEL_HI_RES, dy)]
    } else {
        seq![rel_out(REL_WHEEL, dy)]
    };
    xs + ys
}

/// What is to be done to replay an event.
pub open spec fn emission_of(event: InputEvent) -> EmissionModel {
    match event {
        InputEvent::Motion { x, y } => EmissionModel::Send {
            device: OutDevice::Pointer,
            events: place_pointer(x, y),
        },
        InputEvent::Button { code, pressed, at } => EmissionModel::Send {
            device: OutDevice::Pointer,
            events: place_pointer(at.x, at.y).push(key_out(code, pressed)),
        },
        InputEvent::Key { code, pressed } => EmissionModel::Send {
            device: OutDevice::Keyboard,
            events: seq![key_out(code, pressed)],
        },
        InputEvent::Scroll { dx, dy, hi_res } => if dx == 0 && dy == 0 {
            EmissionModel::Nothing
        } else {
            EmissionModel::Send {
                device: OutDevice::Pointer,
                events: turn_wheels(dx, dy, hi_res),
            }
        },
        InputEvent::Enter { at } => EmissionModel::Send {
            device: OutDevice::Pointer,
            events: place_pointer(at.x, at.y),
        },
        InputEvent::Leave => EmissionModel::Nothing,
        InputEvent::ReleaseAll => EmissionModel::ReleaseAll,
    }
}

fn pointer_at(x: i32, y: i32) -> (events: Vec<OutEvent>)
    ensures
        events@ == place_pointer(x, y),
{
    let mut events: Vec<OutEvent> = Vec::new();
    events.push(abs_event(ABS_X, x));
    events.push(abs_event(ABS_Y, y));
    assert(events@ =~= place_pointer(x, y));
    events
}

/// What is to be done to replay an event.
pub fn plan_emission(event: &InputEvent) -> (plan: Emission)
    ensures
        plan@ == emission_of(*event),
{
    match *event {
        InputEvent::Motion { x, y } => Emission::Send {
            device: OutDevice::Pointer,
            events: pointer_at(x, y),
        },
        InputEvent::Button { code, pressed, at } => {
            let mut events = pointer_at(at.x, at.y);
            events.push(key_event(code, pressed));
            Emission::Send { device: OutDevice::Pointer, events }
        },
        InputEvent::Key { code, pressed } => {
            let events = vec![key_event(code, pressed)];
            assert(events@ =~= seq![key_out(code, pressed)]);
            Emission::Send { device: OutDevice::Keyboard, events }
        },
        InputEvent::Scroll { dx, dy, hi_res } => {
            let x_axis: u16 = if hi_res {
                REL_HWHEEL_HI_RES
            } else {
                REL_HWHEEL
            };
            let y_axis: u16 = if hi_res {
                REL_WHEEL_HI_RES
            } else {
                REL_WHEEL
            };
            let mut events: Vec<OutEvent> = Vec::new();
            if dx != 0 {
                events.push(rel_event(x_axis, dx));
            }
            if dy != 0 {
                events.push(rel_event(y_axis, dy));
            }
            if events.len() == 0 {
                return Emission::Nothing;
            }
            assert(events@ =~= turn_wheels(dx, dy, hi_res));
            Emission::Send { device: OutDevice::Pointer, events }
        },
        InputEvent::Enter { at } => Emission::Send {
            device: OutDevice::Pointer,
            events: pointer_at(at.x, at.y),
        },
        InputEvent::Leave => Emission::Nothing,
        InputEvent::ReleaseAll => Emission::ReleaseAll,
    }
}

/// The keys and buttons that were pressed and not let go of.
pub struct HeldModel {
    pub keys: Set<u16>,
    pub buttons: Set<u16>,
}

/// What is held after an event was replayed.
pub open spec fn held_after_event(held: HeldModel, event: InputEvent) -> HeldModel {
    match event {
        InputEvent::Button { code, pressed, .. } => HeldModel {
            buttons: held_after(held.buttons, code, pressed),
            ..held
        },
        InputEvent::Key { code, pressed } => HeldModel {
            keys: held_after(held.keys, code, pressed),
            ..held
        },
        _ => held,
    }
}

/// Whether `events` let go of exactly the given keys, each once, in some order.
pub open spec fn releases(events: Seq<OutEvent>, codes: Set<u16>) -> bool {
    &&& forall|i: int|
        0 <= i < events.len() ==> #[trigger] events[i] == key_out(events[i].code, false)
            && codes.contains(events[i].code)
    &&& forall|i: int, j: int|
        0 <= i < j < events.len() ==> #[trigger] events[i].code != #[trigger] events[j].code
    &&& forall|c: u16| #[trigger] codes.contains(c) ==> events.contains(key_out(c, false))
}

/// The keys and buttons that were pressed and not let go of.
#[derive(Debug)]
pub struct HeldInputs {
    keys: HashSet<u16>,
    buttons: HashSet<u16>,
}

impl View for HeldInputs {
    type V = HeldModel;

    closed spec fn view(&self) -> HeldModel {
        HeldModel { keys: self.keys@, buttons: self.buttons@ }
    }
}

fn track(held: &mut HashSet<u16>, code: u16, pressed: bool)
    ensures
        final(held)@ == held_after(old(held)@, code, pressed),
{
    if pressed {
        held.insert(code);
    } else {
        held.remove(&code);
    }
}

/// The events that let go of all held keys. Afterwards nothing is held.
fn drain_releases(held: &mut HashSet<u16>) -> (events: Vec<OutEvent>)
    ensures
        releases(events@, old(held)@),
        final(held)@ == Set::<u16>::empty(),
{
    let mut events: Vec<OutEvent> = Vec::new();
    let iter = held.iter();
    let ghost all = iter.remaining();
    for code in it: iter
        invariant
            it.seq() == all,
            events@.len() == it.index(),
            forall|i: int| 0 <= i < it.index() ==> #[trigger] events@[i] == key_out(*all[i], false),
    {
        events.push(key_event(*code, false));
    }
    proof {
        let codes = old(held)@;
        assert forall|i: int| 0 <= i < events@.len() implies #[trigger] events@[i] == key_out(
            events@[i].code,
            false,
        ) && codes.contains(events@[i].code) by {
            assert(all.unref()[i] == *all[i]);
            assert(all.unref().to_set().contains(*all[i]));
        }
        assert forall|i: int, j: int| 0 <= i < j < events@.len() implies
            #[trigger] events@[i].code != #[trigger] events@[j].code by {
            assert(all[i] != all[j]);
        }
        assert forall|c: u16| #[trigger] codes.contains(c) implies events@.contains(
            key_out(c, false),
        ) by {
            assert(all.unref().to_set().contains(c));
            let i = choose|i: int| 0 <= i < all.len() && all.unref()[i] == c;
            assert(events@[i] == key_out(c, false));
        }
    }
    held.clear();
    events
}

/// Nothing is held.
pub open spec fn nothing_held() -> HeldModel {
    HeldModel { keys: Set::empty(), buttons: Set::empty() }
}

impl Default for HeldInputs {
    fn default() -> (held: Self)
        ensures
            held@ == nothing_held(),
    {
        HeldInputs { keys: HashSet::new(), buttons: HashSet::new() }
    }
}

impl HeldInputs {
    /// Take note of an event that was sent to a virtual device, and whether it arrived there. What
    /// did not arrive is not held.
    pub fn note_emitted(&mut self, event: &InputEvent, arrived: bool)
        ensures
            final(self)@ == (if arrived {
                held_after_event(old(self)@, *event)
            } else {
                old(self)@
            }),
    {
        if !arrived {
            return;
        }
        match *event {
            InputEvent::Button { code, pressed, .. } => track(&mut self.buttons, code, pressed),
            InputEvent::Key { code, pressed } => track(&mut self.keys, code, pressed),
            _ => {},
        }
    }

    /// What to send next to let go of all that is held, given whether the last thing that was sent
    /// for that arrived. The keys go first; where that fails, the buttons stay held.
    pub fn release_next(&mut self, arrived: bool) -> (step: Emission)
        ensures
            match step {
                Emission::Send { device: OutDevice::Keyboard, events } => {
                    &&& arrived && !old(self)@.keys.is_empty()
                    &&& releases(events@, old(self)@.keys)
                    &&& final(self)@ == (HeldModel { keys: Set::empty(), ..old(self)@ })
                },
                Emission::Send { device: OutDevice::Pointer, events } => {
                    &&& arrived && old(self)@.keys.is_empty() && !old(self)@.buttons.is_empty()
                    &&& releases(events@, old(self)@.buttons)
                    &&& final(self)@ == (HeldModel { buttons: Set::empty(), ..old(self)@ })
                },
                Emission::Nothing => {
                    &&& arrived ==> old(self)@ == nothing_held()
                    &&& final(self)@ == old(self)@
                },
                Emission::ReleaseAll => false,
            },
    {
        if !arrived {
            return Emission::Nothing;
        }
        if !self.keys.is_empty() {
            return Emission::Send { device: OutDevice::Keyboard, events: self.release_keys() };
        }
        if !self.buttons.is_empty() {
            return Emission::Send { device: OutDevice::Pointer, events: self.release_buttons() };
        }
        Emission::Nothing
    }

    /// The events by which the keyboard lets go of all held keys. From then on none is held,
    /// whether or not the events arrive.
    pub fn release_keys(&mut self) -> (events: Vec<OutEvent>)
        ensures
            releases(events@, old(self)@.keys),
            final(self)@ == (HeldModel { keys: Set::empty(), ..old(self)@ }),
    {
        drain_releases(&mut self.keys)
    }

    /// The events by which the pointer lets go of all held buttons. From then on none is held,
    /// whether or not the events arrive.
    pub fn release_buttons(&mut self) -> (events: Vec<OutEvent>)
        ensures
            releases(events@, old(self)@.buttons),
            final(self)@ == (HeldModel { buttons: Set::empty(), ..old(self)@ }),
    {
        drain_releases(&mut self.buttons)
    }
}

/// What is held after several events were replayed.
pub open spec fn held_after_events(events: Seq<InputEvent>) -> HeldModel
    decreases events.len(),
{
    if events.len() == 0 {
        nothing_held()
    } else {
        held_after_event(held_after_events(events.drop_last()), events.last())
    }
}

/// Whether the last event of a key among `events` is a press.
pub open spec fn key_left_pressed(events: Seq<InputEvent>, key: u16) -> bool
    decreases events.len(),
{
    if events.len() == 0 {
        false
    } else {
        match events.last() {
            InputEvent::Key { code, pressed } if code == key => pressed,
            _ => key_left_pressed(events.drop_last(), key),
        }
    }
}

/// Whether the last event of a button among `events` is a press.
pub open spec fn button_left_pressed(events: Seq<InputEvent>, button: u16) -> bool
    decreases events.len(),
{
    if events.len() == 0 {
        false
    } else {
        match events.last() {
            InputEvent::Button { code, pressed, .. } if code == button => pressed,
            _ => button_left_pressed(events.drop_last(), button),
        }
    }
}

/// The keys and buttons that are held are those whose last event was a press: releasing what is
/// held leaves none stuck, and touches no other.
pub proof fn law_held_are_those_left_pressed(events: Seq<InputEvent>, code: u16)
    ensures
        held_after_events(events).keys.contains(code) <==> key_left_pressed(events, code),
        held_after_events(events).buttons.contains(code) <==> button_left_pressed(events, code),
    decreases events.len(),
{
    if events.len() > 0 {
        law_held_are_those_left_pressed(events.drop_last(), code);
    }
}

/// The codes of the buttons of the virtual pointer, from the left button on.
pub const FIRST_BUTTON: u16 = 0x110;

/// One past the code of the last button of the virtual pointer.
pub const BUTTON_END: u16 = 0x118;

/// The virtual pointer: its name, buttons and wheels, and the largest coordinates.
#[derive(Debug, Clone, PartialEq, Eq)]
pub struct PointerSetup {
    pub name: &'static str,
    pub buttons: Vec<u16>,
    pub relative_axes: Vec<u16>,
    pub max_x: i32,
    pub max_y: i32,
}

/// The virtual pointer for a screen. Its name marks it as made here.
pub fn pointer_setup(screen: DisplayGeometry) -> (setup: PointerSetup)
    ensures
        setup.name@ == "smkb-virtual-pointer"@,
        setup.buttons@ == Seq::new(
            (BUTTON_END - FIRST_BUTTON) as nat,
            |i: int| (FIRST_BUTTON + i) as u16,
        ),
        setup.relative_axes@ == seq![
            REL_WHEEL,
            REL_HWHEEL,
            REL_WHEEL_HI_RES,
            REL_HWHEEL_HI_RES,
        ],
        setup.max_x == to_i32(last_index(screen.width)),
        setup.max_y == to_i32(last_index(screen.height)),
        setup.buttons@.len() == 8,
        forall|i: int| 0 <= i < 8 ==> #[trigger] setup.buttons@[i] == 0x110 + i,
        setup.relative_axes@ == seq![8u16, 6u16, 11u16, 12u16],
        0 < screen.width <= 0x8000_0000 ==> setup.max_x == screen.width - 1,
        0 < screen.height <= 0x8000_0000 ==> setup.max_y == screen.height - 1,
{
    let mut buttons: Vec<u16> = Vec::new();
    let mut code: u16 = FIRST_BUTTON;
    while code < BUTTON_END
        invariant
            FIRST_BUTTON <= code <= BUTTON_END,
            buttons@ == Seq::new(
                (code - FIRST_BUTTON) as nat,
                |i: int| (FIRST_BUTTON + i) as u16,
            ),
        decreases BUTTON_END - code,
    {
        buttons.push(code);
        code += 1;
        assert(buttons@ =~= Seq::new(
            (code - FIRST_BUTTON) as nat,
            |i: int| (FIRST_BUTTON + i) as u16,
        ));
    }
    let mut relative_axes: Vec<u16> = Vec::new();
    relative_axes.push(REL_WHEEL);
    relative_axes.push(REL_HWHEEL);
    relative_axes.push(REL_WHEEL_HI_RES);
    relative_axes.push(REL_HWHEEL_HI_RES);
    assert(relative_axes@ =~= seq![REL_WHEEL, REL_HWHEEL, REL_WHEEL_HI_RES, REL_HWHEEL_HI_RES]);
    PointerSetup {
        name: "smkb-virtual-pointer",
        buttons,
        relative_axes,
        max_x: cast_i32(screen.width.saturating_sub(1)),
        max_y: cast_i32(screen.height.saturating_sub(1)),
    }
}

/// The virtual keyboard: its name and keys.
#[derive(Debug, Clone, PartialEq, Eq)]
pub struct KeyboardSetup {
    pub name: &'static str,
    pub keys: Vec<u16>,
}

/// The virtual keyboard, with every key that a keyboard can have. Its name marks it as made here.
pub fn keyboard_setup() -> (setup: KeyboardSetup)
    ensures
        setup.name@ == "smkb-virtual-keyboard"@,
        setup.keys@ == keyboard_keys_from(1, KEY_END as int),
        setup.keys@ == keyboard_keys_from(1, 0x2ff),
{
    KeyboardSetup { name: "smkb-virtual-keyboard", keys: keys::keyboard_keys(1, KEY_END) }
}

/// The virtual devices are never captured themselves, whatever they can do.
pub proof fn law_virtual_devices_are_not_captured(t: TraitsModel)
    requires
        t.name == Some("smkb-virtual-pointer"@) || t.name == Some("smkb-virtual-keyboard"@),
    ensures
        kind_of(t) is None,
{
    reveal_strlit("smkb-");
    reveal_strlit("smkb-virtual-pointer");
    reveal_strlit("smkb-virtual-keyboard");
    assert("smkb-"@.is_prefix_of("smkb-virtual-pointer"@));
    assert("smkb-"@.is_prefix_of("smkb-virtual-keyboard"@));
}

/// What is held down on a device after it got an event: events of keys and buttons have type 1, and
/// their value tells a press from a release.
pub open spec fn down_after(down: Set<u16>, event: OutEvent) -> Set<u16> {
    if event.type_ != 1 {
        down
    } else if event.value != 0 {
        down.insert(event.code)
    } else {
        down.remove(event.code)
    }
}

/// What is held down on a device after it got several events in turn.
pub open spec fn down_after_all(down: Set<u16>, events: Seq<OutEvent>) -> Set<u16>
    decreases events.len(),
{
    if events.len() == 0 {
        down
    } else {
        down_after(down_after_all(down, events.drop_last()), events.last())
    }
}

/// What is held down on one of the virtual devices after input events were replayed.
pub open spec fn device_down(events: Seq<InputEvent>, device: OutDevice) -> Set<u16>
    decreases events.len(),
{
    if events.len() == 0 {
        Set::empty()
    } else {
        let before = device_down(events.drop_last(), device);
        match emission_of(events.last()) {
            EmissionModel::Send { device: target, events: out } => if target == device {
                down_after_all(before, out)
            } else {
                before
            },
            _ => before,
        }
    }
}

/// The press or release of a key reaches the virtual keyboard as exactly that: one event of type 1,
/// with its code, and value 1 for a press and 0 for a release.
pub proof fn law_keyboard_sees_the_key(code: u16, pressed: bool)
    ensures
        ({
            let plan = emission_of(InputEvent::Key { code, pressed });
            &&& plan is Send && plan->device == OutDevice::Keyboard
            &&& plan->events.len() == 1
            &&& plan->events[0].type_ == 1 && plan->events[0].code == code
            &&& plan->events[0].value == (if pressed {
                1int
            } else {
                0int
            })
        }),
{
}

/// The press or release of a button reaches the virtual pointer as exactly that, after the pointer
/// was put to its place: an event of type 3 for each coordinate, then one of type 1.
pub proof fn law_pointer_sees_the_button(code: u16, pressed: bool, at: crate::event::Point)
    ensures
        ({
            let plan = emission_of(InputEvent::Button { code, pressed, at });
            &&& plan is Send && plan->device == OutDevice::Pointer
            &&& plan->events.len() == 3
            &&& plan->events[0].type_ == 3 && plan->events[0].code == 0 && plan->events[0].value
                == at.x
            &&& plan->events[1].type_ == 3 && plan->events[1].code == 1 && plan->events[1].value
                == at.y
            &&& plan->events[2].type_ == 1 && plan->events[2].code == code
            &&& plan->events[2].value == (if pressed {
                1int
            } else {
                0int
            })
        }),
{
}

/// A movement, and the entry of the pointer, put the virtual pointer to the place that was told.
pub proof fn law_pointer_goes_where_it_is_told(at: crate::event::Point)
    ensures
        ({
            let moved = emission_of(InputEvent::Motion { x: at.x, y: at.y });
            &&& moved is Send && moved->device == OutDevice::Pointer
            &&& moved->events.len() == 2
            &&& moved->events[0].type_ == 3 && moved->events[0].code == 0 && moved->events[0].value
                == at.x
            &&& moved->events[1].type_ == 3 && moved->events[1].code == 1 && moved->events[1].value
                == at.y
            &&& emission_of(InputEvent::Enter { at }) == moved
        }),
{
}

/// Scrolling turns the wheels by what was told, in the resolution that was told: the wheels have the
/// axes 6 and 8, and 12 and 11 in high resolution. A wheel that does not turn gets no event.
pub proof fn law_wheels_turn_as_told(dx: i32, dy: i32, hi_res: bool)
    ensures
        ({
            let plan = emission_of(InputEvent::Scroll { dx, dy, hi_res });
            let sideways = OutEvent {
                type_: 2,
                code: if hi_res {
                    12
                } else {
                    6
                },
                value: dx,
            };
            let upright = OutEvent {
                type_: 2,
                code: if hi_res {
                    11
                } else {
                    8
                },
                value: dy,
            };
            if dx == 0 && dy == 0 {
                plan is Nothing
            } else {
                &&& plan is Send && plan->device == OutDevice::Pointer
                &&& plan->events == (if dy == 0 {
                    seq![sideways]
                } else if dx == 0 {
                    seq![upright]
                } else {
                    seq![sideways, upright]
                })
            }
        }),
{
    let events = turn_wheels(dx, dy, hi_res);
    if dy == 0 {
        assert(dx != 0 ==> events =~= seq![events[0]]);
    } else if dx == 0 {
        assert(events =~= seq![events[0]]);
    } else {
        assert(events =~= seq![events[0], events[1]]);
    }
}

/// That the pointer left touches no device, and that everything is to be let go of is not taken for
/// an event of a device.
pub proof fn law_leaving_touches_no_device()
    ensures
        emission_of(InputEvent::Leave) is Nothing,
        emission_of(InputEvent::ReleaseAll) is ReleaseAll,
{
}

/// What the devices hold down is what is noted as held, after any events: the keyboard's keys and
/// the pointer's buttons.
pub proof fn law_devices_hold_what_is_noted(events: Seq<InputEvent>)
    ensures
        device_down(events, OutDevice::Keyboard) == held_after_events(events).keys,
        device_down(events, OutDevice::Pointer) == held_after_events(events).buttons,
    decreases events.len(),
{
    reveal_with_fuel(down_after_all, 5);
    if events.len() > 0 {
        let earlier = events.drop_last();
        law_devices_hold_what_is_noted(earlier);
        let keys = device_down(earlier, OutDevice::Keyboard);
        let buttons = device_down(earlier, OutDevice::Pointer);
        match events.last() {
            InputEvent::Key { code, pressed } => {
                let out = emission_of(events.last())->events;
                law_keyboard_sees_the_key(code, pressed);
                assert(out.drop_last() =~= Seq::<OutEvent>::empty());
                assert(down_after_all(keys, out) == down_after(keys, out[0]));
            },
            InputEvent::Button { code, pressed, at } => {
                let out = emission_of(events.last())->events;
                law_pointer_sees_the_button(code, pressed, at);
                lemma_no_key_event(buttons, out.drop_last());
                assert(down_after_all(buttons, out) == down_after(buttons, out[2]));
            },
            InputEvent::Scroll { dx, dy, hi_res } => {
                law_wheels_turn_as_told(dx, dy, hi_res);
                if dx != 0 || dy != 0 {
                    lemma_no_key_event(buttons, emission_of(events.last())->events);
                }
            },
            InputEvent::Motion { x, y } => {
                lemma_no_key_event(buttons, emission_of(events.last())->events);
            },
            InputEvent::Enter { at } => {
                lemma_no_key_event(buttons, emission_of(events.last())->events);
            },
            _ => {},
        }
    }
}

/// Events that are not of type 1 press and release nothing.
proof fn lemma_no_key_event(down: Set<u16>, events: Seq<OutEvent>)
    requires
        forall|i: int| 0 <= i < events.len() ==> (#[trigger] events[i]).type_ != 1,
    ensures
        down_after_all(down, events) == down,
    decreases events.len(),
{
    if events.len() > 0 {
        lemma_no_key_event(down, events.drop_last());
    }
}

/// Sending what lets go of all that is held leaves nothing held down on the device.
pub proof fn law_releasing_frees_the_device(events: Seq<OutEvent>, down: Set<u16>)
    requires
        releases(events, down),
    ensures
        down_after_all(down, events) == Set::<u16>::empty(),
{
    lemma_releases(down, events);
    assert forall|c: u16| !down_after_all(down, events).contains(c) by {
        if down.contains(c) {
            assert(events.contains(key_out(c, false)));
            let i = choose|i: int| 0 <= i < events.len() && events[i] == key_out(c, false);
            assert(events[i].code == c);
        }
    }
    assert(down_after_all(down, events) =~= Set::<u16>::empty());
}

proof fn lemma_releases(down: Set<u16>, events: Seq<OutEvent>)
    requires
        forall|i: int|
            0 <= i < events.len() ==> (#[trigger] events[i]).type_ == 1 && events[i].value == 0,
    ensures
        forall|c: u16| #[trigger]
            down_after_all(down, events).contains(c) <==> down.contains(c) && forall|i: int|
                0 <= i < events.len() ==> (#[trigger] events[i]).code != c,
    decreases events.len(),
{
    if events.len() > 0 {
        let earlier = events.drop_last();
        lemma_releases(down, earlier);
        assert forall|c: u16| #[trigger]
            down_after_all(down, events).contains(c) <==> down.contains(c) && forall|i: int|
                0 <= i < events.len() ==> (#[trigger] events[i]).code != c by {
            let before = down_after_all(down, earlier);
            assert(before.contains(c) <==> down.contains(c) && forall|i: int|
                0 <= i < earlier.len() ==> (#[trigger] earlier[i]).code != c);
            assert(events.last() == events[events.len() - 1]);
            if before.contains(c) && events.last().code != c {
                assert forall|i: int| 0 <= i < events.len() implies (#[trigger] events[i]).code
                    != c by {
                    if i < earlier.len() {
                        assert(earlier[i].code != c);
                    }
                }
            }
            if down.contains(c) && (forall|i: int|
                0 <= i < events.len() ==> (#[trigger] events[i]).code != c) {
                assert forall|i: int| 0 <= i < earlier.len() implies (#[trigger] earlier[i]).code
                    != c by {
                    assert(events[i].code != c);
                }
            }
        }
    }
}

/// A device that lets go of what it holds gets events of type 1 and value 0, and one for each key.
pub proof fn law_releases_are_releases(events: Seq<OutEvent>, codes: Set<u16>)
    requires
        releases(events, codes),
    ensures
        forall|i: int|
            0 <= i < events.len() ==> (#[trigger] events[i]).type_ == 1 && events[i].value == 0
                && codes.contains(events[i].code),
        forall|c: u16| #[trigger]
            codes.contains(c) ==> exists|i: int| 0 <= i < events.len() && events[i].code == c,
{
    assert forall|c: u16| #[trigger] codes.contains(c) implies exists|i: int|
        0 <= i < events.len() && events[i].code == c by {
        assert(events.contains(key_out(c, false)));
        let i = choose|i: int| 0 <= i < events.len() && events[i] == key_out(c, false);
        assert(events[i].code == c);
    }
}

/// Replaying a press or a release notes just that key or button, and no other event notes anything.
pub proof fn law_only_presses_are_noted(held: HeldModel, event: InputEvent, c: u16)
    ensures
        ({
            let after = held_after_event(held, event);
            &&& after.keys.contains(c) <==> match event {
                InputEvent::Key { code, pressed } => if code == c {
                    pressed
                } else {
                    held.keys.contains(c)
                },
                _ => held.keys.contains(c),
            }
            &&& after.buttons.contains(c) <==> match event {
                InputEvent::Button { code, pressed, .. } => if code == c {
                    pressed
                } else {
                    held.buttons.contains(c)
                },
                _ => held.buttons.contains(c),
            }
        }),
{
}

} // verus!
