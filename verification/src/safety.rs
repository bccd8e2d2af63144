//! Ways out of a capture that goes wrong: a hotkey, and a timeout.
use crate::reliable::elapsed;
use std::collections::HashSet;
use vstd::prelude::*;

verus! {

broadcast use vstd::std_specs::hash::group_hash_axioms;

/// Nanoseconds in a millisecond.
pub const NANOS_PER_MILLI: u64 = 1_000_000;

/// A duration in nanoseconds; one that is too long to be told is the longest there is.
pub open spec fn nanos_of(ms: u64) -> u64 {
    if ms * NANOS_PER_MILLI > u64::MAX {
        u64::MAX
    } else {
        (ms * NANOS_PER_MILLI) as u64
    }
}

/// A duration in nanoseconds; one that is too long to be told is the longest there is.
pub fn millis(ms: u64) -> (nanos: u64)
    ensures
        nanos == nanos_of(ms),
{
    if ms > u64::MAX / NANOS_PER_MILLI {
        u64::MAX
    } else {
        ms * NANOS_PER_MILLI
    }
}

/// The keys of a hotkey, and the keys that are held down.
pub struct HotkeyModel {
    pub combo: Seq<u16>,
    pub held: Set<u16>,
}

/// The keys that are held down after one more event.
pub open spec fn held_after(held: Set<u16>, code: u16, pressed: bool) -> Set<u16> {
    if pressed {
        held.insert(code)
    } else {
        held.remove(code)
    }
}

/// The keys that are held down after several more events, each a key and whether it was pressed.
pub open spec fn held_after_events(held: Set<u16>, events: Seq<(u16, bool)>) -> Set<u16>
    decreases events.len(),
{
    if events.len() == 0 {
        held
    } else {
        let (code, pressed) = events.last();
        held_after(held_after_events(held, events.drop_last()), code, pressed)
    }
}

/// Whether all keys of a hotkey are held down. A hotkey without keys never is.
pub open spec fn all_held(combo: Seq<u16>, held: Set<u16>) -> bool {
    &&& combo.len() > 0
    &&& forall|i: int| 0 <= i < combo.len() ==> held.contains(#[trigger] combo[i])
}

/// A hotkey: it triggers on the press that completes its keys.
#[derive(Debug)]
pub struct PanicHotkey {
    combo: Vec<u16>,
    held: HashSet<u16>,
}

impl View for PanicHotkey {
    type V = HotkeyModel;

    closed spec fn view(&self) -> HotkeyModel {
        HotkeyModel { combo: self.combo@, held: self.held@ }
    }
}

impl PanicHotkey {
    pub fn new(combo: Vec<u16>) -> (hotkey: Self)
        ensures
            hotkey@ == (HotkeyModel { combo: combo@, held: Set::empty() }),
    {
        Self { combo, held: HashSet::new() }
    }

    /// Take note of a key event, and say whether it triggers the hotkey.
    pub fn observe(&mut self, code: u16, pressed: bool) -> (triggered: bool)
        ensures
            final(self)@ == (HotkeyModel {
                held: held_after(old(self)@.held, code, pressed),
                ..old(self)@
            }),
            triggered == (pressed && all_held(final(self)@.combo, final(self)@.held)),
    {
        if pressed {
            self.held.insert(code);
        } else {
            self.held.remove(&code);
            return false;
        }
        self.complete_after(&[])
    }

    /// Whether a key will be held down after several more events.
    fn holds_after(&self, code: u16, events: &[(u16, bool)]) -> (holds: bool)
        ensures
            holds == held_after_events(self@.held, events@).contains(code),
    {
        let mut i: usize = events.len();
        assert(events@.take(i as int) =~= events@);
        while i > 0
            invariant
                i <= events@.len(),
                held_after_events(self@.held, events@).contains(code) == held_after_events(
                    self@.held,
                    events@.take(i as int),
                ).contains(code),
            decreases i,
        {
            assert(events@.take(i as int).drop_last() =~= events@.take(i - 1));
            i -= 1;
            if events[i].0 == code {
                return events[i].1;
            }
        }
        self.held.contains(&code)
    }

    /// Whether all keys of the hotkey will be held down after several more events.
    pub fn complete_after(&self, events: &[(u16, bool)]) -> (complete: bool)
        ensures
            complete == all_held(self@.combo, held_after_events(self@.held, events@)),
    {
        if self.combo.len() == 0 {
            return false;
        }
        let mut i: usize = 0;
        while i < self.combo.len()
            invariant
                i <= self.combo@.len(),
                forall|j: int|
                    0 <= j < i ==> held_after_events(self@.held, events@).contains(
                        #[trigger] self.combo@[j],
                    ),
            decreases self.combo@.len() - i,
        {
            if !self.holds_after(self.combo[i], events) {
                assert(!held_after_events(self@.held, events@).contains(self.combo@[i as int]));
                return false;
            }
            i += 1;
        }
        true
    }

    /// Forget which keys are held down.
    pub fn reset(&mut self)
        ensures
            final(self)@ == (HotkeyModel { held: Set::empty(), ..old(self)@ }),
    {
        self.held.clear();
    }
}

/// The keys that are held down after the given presses.
pub open spec fn held_after_presses(presses: Seq<u16>) -> Set<u16>
    decreases presses.len(),
{
    if presses.len() == 0 {
        Set::empty()
    } else {
        held_after(held_after_presses(presses.drop_last()), presses.last(), true)
    }
}

/// Pressing all keys of a hotkey, in any order and with any others between them, completes it: what
/// is held down is exactly what was pressed.
pub proof fn law_pressing_all_keys_completes(combo: Seq<u16>, presses: Seq<u16>)
    ensures
        all_held(combo, held_after_presses(presses)) <==> combo.len() > 0 && forall|i: int|
            0 <= i < combo.len() ==> presses.contains(#[trigger] combo[i]),
{
    lemma_held_is_pressed(presses);
}

proof fn lemma_held_is_pressed(presses: Seq<u16>)
    ensures
        forall|c: u16| #[trigger]
            held_after_presses(presses).contains(c) <==> presses.contains(c),
    decreases presses.len(),
{
    if presses.len() > 0 {
        let earlier = presses.drop_last();
        lemma_held_is_pressed(earlier);
        assert forall|c: u16| #[trigger]
            held_after_presses(presses).contains(c) <==> presses.contains(c) by {
            assert(held_after_presses(earlier).contains(c) <==> earlier.contains(c));
            if earlier.contains(c) {
                let i = choose|i: int| 0 <= i < earlier.len() && earlier[i] == c;
                assert(presses[i] == c);
            }
            if c == presses.last() {
                assert(presses[presses.len() - 1] == c);
            }
            if presses.contains(c) && c != presses.last() {
                let i = choose|i: int| 0 <= i < presses.len() && presses[i] == c;
                assert(earlier[i] == c);
            }
        }
    }
}

/// Releasing one of its keys breaks a hotkey up until the key is pressed again.
pub proof fn law_release_breaks_hotkey(combo: Seq<u16>, held: Set<u16>, code: u16)
    requires
        combo.contains(code),
    ensures
        !all_held(combo, held_after(held, code, false)),
{
    let i = choose|i: int| 0 <= i < combo.len() && combo[i] == code;
    assert(!held_after(held, code, false).contains(combo[i]));
}

/// When something was last heard, and for how long silence is allowed.
pub struct WatchdogModel {
    pub last_activity: u64,
    pub timeout: u64,
}

/// Whether the silence has lasted too long.
pub open spec fn silent_too_long(w: WatchdogModel, now: u64) -> bool {
    elapsed(now, w.last_activity) > w.timeout
}

/// A timeout that starts anew with each sign of life.
#[derive(Debug)]
pub struct Watchdog {
    last_activity: u64,
    timeout: u64,
}

impl View for Watchdog {
    type V = WatchdogModel;

    closed spec fn view(&self) -> WatchdogModel {
        WatchdogModel { last_activity: self.last_activity, timeout: self.timeout }
    }
}

impl Watchdog {
    pub fn new(timeout: u64, now: u64) -> (watchdog: Self)
        ensures
            watchdog@ == (WatchdogModel { last_activity: now, timeout }),
    {
        Self { last_activity: now, timeout }
    }

    /// Something was heard at `now`.
    pub fn poke(&mut self, now: u64)
        ensures
            final(self)@ == (WatchdogModel { last_activity: now, ..old(self)@ }),
    {
        self.last_activity = now;
    }

    /// Whether nothing was heard for longer than is allowed.
    pub fn expired(&self, now: u64) -> (expired: bool)
        ensures
            expired == silent_too_long(self@, now),
    {
        now.saturating_sub(self.last_activity) > self.timeout
    }
}

/// Right after a sign of life, and until the timeout has passed, the watchdog is quiet.
pub proof fn law_poked_watchdog_is_quiet(w: WatchdogModel, poked: u64, now: u64)
    requires
        now <= poked + w.timeout,
    ensures
        !silent_too_long(WatchdogModel { last_activity: poked, ..w }, now),
{
}

/// A millisecond has a million nanoseconds, as long as a `u64` holds them.
pub proof fn law_milliseconds(ms: u64)
    ensures
        ms <= 18_446_744_073_709 ==> nanos_of(ms) == ms * 1_000_000,
        ms > 18_446_744_073_709 ==> nanos_of(ms) == 0xffff_ffff_ffff_ffff,
{
}

/// Silence is too long when more than the timeout has passed since something was heard, and not
/// before.
pub proof fn law_silence_is_noticed(w: WatchdogModel, now: u64)
    ensures
        silent_too_long(w, now) <==> now > w.last_activity + w.timeout,
{
}

/// An event of a key changes whether that key is held down, and nothing else.
pub proof fn law_key_event_concerns_its_key(held: Set<u16>, code: u16, pressed: bool, c: u16)
    ensures
        held_after(held, code, pressed).contains(c) <==> if c == code {
            pressed
        } else {
            held.contains(c)
        },
{
}

/// After several events a key is held down if its last event was a press, or if it was held before
/// and none of the events was its own.
pub proof fn law_last_event_of_a_key_counts(held: Set<u16>, events: Seq<(u16, bool)>, code: u16)
    ensures
        forall|j: int|
            0 <= j < events.len() && (#[trigger] events[j]).0 == code && (forall|k: int|
                j < k < events.len() ==> (#[trigger] events[k]).0 != code) ==> (held_after_events(
                held,
                events,
            ).contains(code) <==> events[j].1),
        (forall|k: int| 0 <= k < events.len() ==> (#[trigger] events[k]).0 != code) ==> (
        held_after_events(held, events).contains(code) <==> held.contains(code)),
    decreases events.len(),
{
    if events.len() > 0 {
        let earlier = events.drop_last();
        law_last_event_of_a_key_counts(held, earlier, code);
        let last = events.len() - 1;
        assert forall|j: int|
            0 <= j < events.len() && (#[trigger] events[j]).0 == code && (forall|k: int|
                j < k < events.len() ==> (#[trigger] events[k]).0 != code) implies (
        held_after_events(held, events).contains(code) <==> events[j].1) by {
            if j < last {
                assert(events[last].0 != code);
                assert(earlier[j] == events[j]);
                assert forall|k: int| j < k < earlier.len() implies (#[trigger] earlier[k]).0
                    != code by {
                    assert(events[k].0 != code);
                }
            }
        }
        if forall|k: int| 0 <= k < events.len() ==> (#[trigger] events[k]).0 != code {
            assert(events[last].0 != code);
            assert forall|k: int| 0 <= k < earlier.len() implies (#[trigger] earlier[k]).0
                != code by {
                assert(events[k].0 != code);
            }
        }
    }
}

/// A hotkey without keys is never complete, and one key that is up keeps a hotkey from being so.
pub proof fn law_hotkey_needs_all_its_keys(combo: Seq<u16>, held: Set<u16>)
    ensures
        combo.len() == 0 ==> !all_held(combo, held),
        forall|i: int|
            0 <= i < combo.len() && !held.contains(#[trigger] combo[i]) ==> !all_held(combo, held),
        combo.len() > 0 && combo.to_set().subset_of(held) ==> all_held(combo, held),
{
    if combo.len() > 0 && combo.to_set().subset_of(held) {
        assert forall|i: int| 0 <= i < combo.len() implies held.contains(#[trigger] combo[i]) by {
            assert(combo.to_set().contains(combo[i]));
        }
    }
}

} // verus!
