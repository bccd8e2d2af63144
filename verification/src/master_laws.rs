//! What the master promises, told by what it does and what its slave reads.
use crate::crypto::SessionKeys;
use crate::delivery;
use crate::event::{Edge, HelloModel, InputEvent, Point, WelcomeInfo};
use crate::frame::FrameModel;
use crate::master::{
    accepted, begin, does, does_all, end, ends_capture, exits_possible, find_monitor,
    first_hello_from, forward, forward_all, fresh_app, give_up, greet, heed_datagram, heed_delay,
    heed_silence, hello_overdue, observed, pings, resend, says_goodbye, send, stop, take_incoming,
    teardown, AppModel, CapturedEvent, MasterAction, MasterPlan, PeerAddr, PhaseTag,
};
use crate::platform::MonitorModel;
use crate::pointer::{entry_in_range, exit_in_range};
use crate::reliable::{accepts, due_packets, seq_of};
use crate::safety::silent_too_long;
use crate::slave::{self, serve_datagram, serve_frames, SlaveAction, SlavePlan};
use crate::transport::{take_datagram, SessionModel};
use crate::wire::{read_packet, Channel, WireError};
use vstd::prelude::*;

verus! {

/// Whether an action sends a packet to the slave of `a` that the slave reads as the given frame.
pub open spec fn slave_reads(
    a: AppModel,
    action: MasterAction,
    chan: Channel,
    seq: u32,
    frame: FrameModel,
) -> bool {
    &&& action is Send
    &&& Some(action->to) == a.peer
    &&& a.session is Some
    &&& read_packet((a.session->0).send_key, action->packet@) == Ok::<
        (Channel, u32, FrameModel),
        WireError,
    >((chan, seq, frame))
}

/// Whether a key that is pressed completes the hotkey: all of its keys are held down then.
pub open spec fn completes(a: AppModel, code: u16) -> bool {
    &&& a.hotkey.combo.len() > 0
    &&& forall|i: int|
        0 <= i < a.hotkey.combo.len() ==> (#[trigger] a.hotkey.combo[i]) == code
            || a.hotkey.held.contains(a.hotkey.combo[i])
}

/// The doorway: the pointer goes over to the slave at the configured side and enters just inside the
/// opposite side of the slave's screen, two pixels from it. The same point is followed here and told
/// to the slave, which first lets go of everything.
pub proof fn law_enters_at_the_opposite_side(
    a: AppModel,
    global: Point,
    now: u64,
    actions: Seq<MasterAction>,
)
    requires
        a.session is Some,
        a.peer is Some,
        a.edge_monitor is Some,
        a.slave_screen is Some,
        2 < a.slave_screen->0.width <= 0x8000_0000,
        2 < a.slave_screen->0.height <= 0x8000_0000,
        entry_in_range(global, a.edge_monitor->0, a.side, a.slave_screen->0),
        does_all(actions, begin(a, global, now).1),
    ensures
        ({
            let width = a.slave_screen->0.width;
            let height = a.slave_screen->0.height;
            let at = actions[0]->at;
            let n = (a.session->0).reliable_seq;
            &&& actions.len() == 4
            &&& actions[0] is TrackPointer && actions[0]->screen == a.slave_screen->0
            &&& actions[1] == MasterAction::SetCursorVisible(false)
            &&& slave_reads(
                a,
                actions[2],
                Channel::Reliable,
                n,
                FrameModel::Event(InputEvent::ReleaseAll),
            )
            &&& slave_reads(
                a,
                actions[3],
                Channel::Reliable,
                seq_of(n + 1),
                FrameModel::Event(InputEvent::Enter { at }),
            )
            &&& a.side == Edge::Right ==> at.x == 2
            &&& a.side == Edge::Left ==> at.x == width - 3
            &&& a.side == Edge::Bottom ==> at.y == 2
            &&& a.side == Edge::Top ==> at.y == height - 3
            &&& 0 <= at.x < width
            &&& 0 <= at.y < height
        }),
{
    let m = a.edge_monitor->0;
    let screen = a.slave_screen->0;
    crate::pointer::law_entry_on_screen(global, m, a.side, screen);
    let plan = begin(a, global, now).1;
    assert(plan.len() == 4);
    assert(does(actions[0], plan[0]));
    assert(does(actions[1], plan[1]));
    assert(does(actions[2], plan[2]));
    assert(does(actions[3], plan[3]));
}

/// Along the doorway the pointer enters at the same fraction of the slave's side at which it left
/// the monitor's, up to one pixel.
pub proof fn law_enters_beside_where_it_left(
    a: AppModel,
    global: Point,
    now: u64,
    actions: Seq<MasterAction>,
)
    requires
        a.edge_monitor is Some,
        a.slave_screen is Some,
        1 < a.edge_monitor->0.width,
        1 < a.edge_monitor->0.height,
        1 <= a.slave_screen->0.width <= 0x8000_0000,
        1 <= a.slave_screen->0.height <= 0x8000_0000,
        entry_in_range(global, a.edge_monitor->0, a.side, a.slave_screen->0),
        does_all(actions, begin(a, global, now).1),
    ensures
        ({
            let m = a.edge_monitor->0;
            let screen = a.slave_screen->0;
            let at = actions[0]->at;
            let rows = m.height - 1;
            let columns = m.width - 1;
            &&& actions[0] is TrackPointer
            &&& (a.side == Edge::Left || a.side == Edge::Right) && 0 <= global.y - m.y <= rows
                ==> -rows <= at.y * rows - (global.y - m.y) * (screen.height - 1) <= rows
            &&& (a.side == Edge::Top || a.side == Edge::Bottom) && 0 <= global.x - m.x <= columns
                ==> -columns <= at.x * columns - (global.x - m.x) * (screen.width - 1) <= columns
        }),
{
    let m = a.edge_monitor->0;
    let screen = a.slave_screen->0;
    let plan = begin(a, global, now).1;
    assert(does(actions[0], plan[0]));
    let max_x = (screen.width - 1) as nat;
    let max_y = (screen.height - 1) as nat;
    crate::scale::lemma_scaled_in_range(global.x - m.x, (m.width - 1) as nat, max_x);
    crate::scale::lemma_scaled_in_range(global.y - m.y, (m.height - 1) as nat, max_y);
    if 0 <= global.y - m.y <= m.height - 1 {
        crate::scale::law_scaled_is_proportional(global.y - m.y, (m.height - 1) as nat, max_y);
    }
    if 0 <= global.x - m.x <= m.width - 1 {
        crate::scale::law_scaled_is_proportional(global.x - m.x, (m.width - 1) as nat, max_x);
    }
}

/// From the beginning of a capture on the input goes to the slave: no key counts as held down, the
/// silence of the slave is counted anew, and the slave, the doorway and the hotkey stay the same.
pub proof fn law_capture_begins_afresh(a: AppModel, global: Point, now: u64)
    ensures
        ({
            let b = begin(a, global, now).0;
            &&& b.phase == PhaseTag::Captured
            &&& forall|code: u16| !b.hotkey.held.contains(code)
            &&& b.hotkey.combo == a.hotkey.combo
            &&& b.watchdog.last_activity == now && b.watchdog.timeout == a.watchdog.timeout
            &&& b.peer == a.peer
            &&& b.monitor == a.monitor && b.side == a.side
            &&& b.edge_monitor == a.edge_monitor && b.slave_screen == a.slave_screen
            &&& b.session is Some <==> a.session is Some
        }),
{
}

/// A key that does not complete the hotkey is sent on unchanged, press and release alike, and is
/// noted as held down or not.
pub proof fn law_key_is_sent_on(
    a: AppModel,
    code: u16,
    pressed: bool,
    now: u64,
    actions: Seq<MasterAction>,
)
    requires
        a.session is Some,
        a.peer is Some,
        !pressed || !completes(a, code),
        does_all(actions, forward(a, CapturedEvent::Key { code, pressed }, now).1),
    ensures
        ({
            let event = CapturedEvent::Key { code, pressed };
            let b = forward(a, event, now).0;
            &&& !ends_capture(a, event)
            &&& actions.len() == 1
            &&& slave_reads(
                a,
                actions[0],
                Channel::Reliable,
                (a.session->0).reliable_seq,
                FrameModel::Event(InputEvent::Key { code, pressed }),
            )
            &&& b.phase == a.phase
            &&& b.hotkey.combo == a.hotkey.combo
            &&& forall|c: u16| #[trigger]
                b.hotkey.held.contains(c) <==> if c == code {
                    pressed
                } else {
                    a.hotkey.held.contains(c)
                }
        }),
{
    let event = CapturedEvent::Key { code, pressed };
    if pressed {
        assert(!crate::master::triggers_hotkey(a, event));
    }
    assert(does(actions[0], forward(a, event, now).1[0]));
}

/// A button is sent on unchanged, with the place of the pointer.
pub proof fn law_button_is_sent_on(
    a: AppModel,
    code: u16,
    pressed: bool,
    at: Point,
    now: u64,
    actions: Seq<MasterAction>,
)
    requires
        a.session is Some,
        a.peer is Some,
        does_all(actions, forward(a, CapturedEvent::Button { code, pressed, at }, now).1),
    ensures
        ({
            let event = CapturedEvent::Button { code, pressed, at };
            &&& !ends_capture(a, event)
            &&& actions.len() == 1
            &&& slave_reads(
                a,
                actions[0],
                Channel::Reliable,
                (a.session->0).reliable_seq,
                FrameModel::Event(InputEvent::Button { code, pressed, at }),
            )
            &&& forward(a, event, now).0.phase == a.phase
            &&& forward(a, event, now).0.hotkey == a.hotkey
        }),
{
    let event = CapturedEvent::Button { code, pressed, at };
    assert(does(actions[0], forward(a, event, now).1[0]));
}

/// Scrolling is sent on unchanged.
pub proof fn law_scroll_is_sent_on(
    a: AppModel,
    dx: i32,
    dy: i32,
    hi_res: bool,
    now: u64,
    actions: Seq<MasterAction>,
)
    requires
        a.session is Some,
        a.peer is Some,
        does_all(actions, forward(a, CapturedEvent::Scroll { dx, dy, hi_res }, now).1),
    ensures
        ({
            let event = CapturedEvent::Scroll { dx, dy, hi_res };
            &&& !ends_capture(a, event)
            &&& actions.len() == 1
            &&& slave_reads(
                a,
                actions[0],
                Channel::Reliable,
                (a.session->0).reliable_seq,
                FrameModel::Event(InputEvent::Scroll { dx, dy, hi_res }),
            )
            &&& forward(a, event, now).0.phase == a.phase
            &&& forward(a, event, now).0.hotkey == a.hotkey
        }),
{
    let event = CapturedEvent::Scroll { dx, dy, hi_res };
    assert(does(actions[0], forward(a, event, now).1[0]));
}

/// A movement is sent on to the place where it took the pointer, on the channel that may lose it. If
/// it stays on the slave's screen the capture goes on; if it goes over a side the capture ends.
pub proof fn law_motion_is_sent_on(
    a: AppModel,
    to: Point,
    edge: Option<Edge>,
    now: u64,
    actions: Seq<MasterAction>,
)
    requires
        a.session is Some,
        a.peer is Some,
        does_all(actions, forward(a, CapturedEvent::Motion { to, edge }, now).1),
    ensures
        ({
            let event = CapturedEvent::Motion { to, edge };
            let b = forward(a, event, now).0;
            &&& ends_capture(a, event) <==> edge is Some
            &&& actions.len() >= 1
            &&& slave_reads(
                a,
                actions[0],
                Channel::Unreliable,
                (a.session->0).unreliable_seq,
                FrameModel::Event(InputEvent::Motion { x: to.x, y: to.y }),
            )
            &&& b.hotkey == a.hotkey
            &&& edge is None ==> actions.len() == 1 && b.phase == a.phase
            &&& edge is Some ==> actions.len() == 7 && b.phase == PhaseTag::Attached && actions[1]
                == MasterAction::ReleaseInput
        }),
{
    let event = CapturedEvent::Motion { to, edge };
    let plan = forward(a, event, now).1;
    assert(does(actions[0], plan[0]));
    if edge is Some {
        assert(plan.len() == 7);
        assert(does(actions[1], plan[1]));
    }
}

/// The press that completes the hotkey ends the capture and does not reach the slave, which reads
/// only that the pointer left and that everything is to be let go of; the cursor is shown where it
/// is.
pub proof fn law_hotkey_frees_the_input(
    a: AppModel,
    code: u16,
    now: u64,
    actions: Seq<MasterAction>,
)
    requires
        a.session is Some,
        a.peer is Some,
        completes(a, code),
        does_all(actions, forward(a, CapturedEvent::Key { code, pressed: true }, now).1),
    ensures
        ({
            let event = CapturedEvent::Key { code, pressed: true };
            let n = (a.session->0).reliable_seq;
            &&& ends_capture(a, event)
            &&& forward(a, event, now).0.phase == PhaseTag::Attached
            &&& actions.len() == 5
            &&& actions[0] == MasterAction::ReleaseInput
            &&& slave_reads(
                a,
                actions[1],
                Channel::Reliable,
                n,
                FrameModel::Event(InputEvent::Leave),
            )
            &&& slave_reads(
                a,
                actions[2],
                Channel::Reliable,
                seq_of(n + 1),
                FrameModel::Event(InputEvent::ReleaseAll),
            )
            &&& actions[3] == MasterAction::SetCursorVisible(true)
            &&& actions[4] == MasterAction::ForgetPointer
        }),
{
    let event = CapturedEvent::Key { code, pressed: true };
    let held = crate::safety::held_after(a.hotkey.held, code, true);
    assert forall|i: int| 0 <= i < a.hotkey.combo.len() implies held.contains(
        #[trigger] a.hotkey.combo[i],
    ) by {}
    assert(crate::master::triggers_hotkey(a, event));
    law_ending_gives_everything_back(observed(a, event), None, now, actions);
}

/// However a capture ends, the devices are released first, the slave is told that the pointer left
/// and then to let go of everything, and at last the cursor is shown again. The slave stays attached.
pub proof fn law_ending_gives_everything_back(
    a: AppModel,
    local_exit: Option<Point>,
    now: u64,
    actions: Seq<MasterAction>,
)
    requires
        a.session is Some,
        a.peer is Some,
        does_all(actions, end(a, local_exit, now).1),
    ensures
        ({
            let b = end(a, local_exit, now).0;
            let n = (a.session->0).reliable_seq;
            let last = actions.len() - 1;
            &&& actions.len() == (if local_exit is Some {
                6int
            } else {
                5int
            })
            &&& actions[0] == MasterAction::ReleaseInput
            &&& slave_reads(
                a,
                actions[1],
                Channel::Reliable,
                n,
                FrameModel::Event(InputEvent::Leave),
            )
            &&& slave_reads(
                a,
                actions[2],
                Channel::Reliable,
                seq_of(n + 1),
                FrameModel::Event(InputEvent::ReleaseAll),
            )
            &&& local_exit is Some ==> actions[3] is Warp
            &&& actions[last - 1] == MasterAction::SetCursorVisible(true)
            &&& actions[last] == MasterAction::ForgetPointer
            &&& b.phase == PhaseTag::Attached
            &&& b.peer == a.peer && b.session is Some
            &&& b.edge_monitor == a.edge_monitor && b.slave_screen == a.slave_screen
            &&& b.hotkey == a.hotkey && b.watchdog == a.watchdog
            &&& b.monitor == a.monitor && b.side == a.side
        }),
{
    let plan = end(a, local_exit, now).1;
    let warp = if local_exit is Some {
        1int
    } else {
        0int
    };
    assert(plan.len() == 5 + warp);
    assert(does(actions[0], plan[0]));
    assert(does(actions[1], plan[1]));
    assert(does(actions[2], plan[2]));
    assert(does(actions[3], plan[3]));
    assert(does(actions[3 + warp], plan[3 + warp]));
    assert(does(actions[4 + warp], plan[4 + warp]));
}

/// A pointer that comes back over a side is put two pixels inside the configured side of the monitor,
/// at the same fraction of its length at which it left the slave's screen, up to one pixel.
pub proof fn law_comes_back_beside_where_it_left(
    a: AppModel,
    local: Point,
    now: u64,
    actions: Seq<MasterAction>,
)
    requires
        a.session is Some,
        a.peer is Some,
        a.edge_monitor is Some,
        a.slave_screen is Some,
        1 < a.slave_screen->0.width,
        1 < a.slave_screen->0.height,
        1 <= a.edge_monitor->0.width <= i32::MAX,
        1 <= a.edge_monitor->0.height <= i32::MAX,
        exit_in_range(local, a.edge_monitor->0, a.side, a.slave_screen->0),
        does_all(actions, end(a, Some(local), now).1),
    ensures
        ({
            let m = a.edge_monitor->0;
            let rows = a.slave_screen->0.height - 1;
            let columns = a.slave_screen->0.width - 1;
            let p = actions[3]->Warp_0;
            &&& actions[3] is Warp
            &&& a.side == Edge::Right ==> p.x == m.x + m.width - 2
            &&& a.side == Edge::Left ==> p.x == m.x + 2
            &&& a.side == Edge::Bottom ==> p.y == m.y + m.height - 2
            &&& a.side == Edge::Top ==> p.y == m.y + 2
            &&& (a.side == Edge::Left || a.side == Edge::Right) && 0 <= local.y <= rows ==> -rows
                <= (p.y - m.y) * rows - local.y * (m.height - 1) <= rows
            &&& (a.side == Edge::Top || a.side == Edge::Bottom) && 0 <= local.x <= columns
                ==> -columns <= (p.x - m.x) * columns - local.x * (m.width - 1) <= columns
        }),
{
    let m = a.edge_monitor->0;
    let screen = a.slave_screen->0;
    let plan = end(a, Some(local), now).1;
    assert(plan.len() == 6);
    assert(does(actions[3], plan[3]));
    let span_x = (screen.width - 1) as nat;
    let span_y = (screen.height - 1) as nat;
    crate::scale::lemma_scaled_in_range(local.x as int, span_x, (m.width - 1) as nat);
    crate::scale::lemma_scaled_in_range(local.y as int, span_y, (m.height - 1) as nat);
    if 0 <= local.y <= span_y {
        crate::scale::law_scaled_is_proportional(local.y as int, span_y, (m.height - 1) as nat);
    }
    if 0 <= local.x <= span_x {
        crate::scale::law_scaled_is_proportional(local.x as int, span_x, (m.width - 1) as nat);
    }
}

/// The channel on which the slave is told of an event: the unreliable one for a movement only.
pub open spec fn told_on(event: CapturedEvent) -> Channel {
    if event is Motion {
        Channel::Unreliable
    } else {
        Channel::Reliable
    }
}

/// Whether an input event tells of a captured event with all its fields.
pub open spec fn tells(input: InputEvent, event: CapturedEvent) -> bool {
    match event {
        CapturedEvent::Motion { to, .. } => input == (InputEvent::Motion { x: to.x, y: to.y }),
        CapturedEvent::Key { code, pressed } => input == (InputEvent::Key { code, pressed }),
        CapturedEvent::Button { code, pressed, at } => input == (InputEvent::Button {
            code,
            pressed,
            at,
        }),
        CapturedEvent::Scroll { dx, dy, hi_res } => input == (InputEvent::Scroll {
            dx,
            dy,
            hi_res,
        }),
    }
}

/// Whether an event leaves a capture alone: it takes the pointer over no side and presses not the
/// given key.
pub open spec fn spares(event: CapturedEvent, key: u16) -> bool {
    &&& event matches CapturedEvent::Motion { edge, .. } ==> edge is None
    &&& event matches CapturedEvent::Key { code, pressed } ==> !pressed || code != key
}

/// Whether a plan sends to the slave of `a` what tells of an event.
spec fn plans_to_tell(a: AppModel, plan: crate::master::MasterPlan, event: CapturedEvent) -> bool {
    &&& plan is Send
    &&& Some(plan->Send_to) == a.peer
    &&& a.session is Some
    &&& plan->key == (a.session->0).send_key
    &&& plan->chan == told_on(event)
    &&& plan->frame is Event
    &&& tells(plan->frame->Event_0, event)
}

proof fn lemma_batch_plan(a: AppModel, batch: Seq<CapturedEvent>, i: int, key: u16, now: u64)
    requires
        0 <= i <= batch.len(),
        a.session is Some,
        a.peer is Some,
        a.hotkey.combo.len() == 0 || (a.hotkey.combo.contains(key) && !a.hotkey.held.contains(key)),
        forall|k: int| i <= k < batch.len() ==> spares(#[trigger] batch[k], key),
    ensures
        forward_all(a, batch, i, now).1.len() == batch.len() - i,
        forall|k: int|
            i <= k < batch.len() ==> plans_to_tell(
                a,
                forward_all(a, batch, i, now).1[k - i],
                #[trigger] batch[k],
            ),
        forward_all(a, batch, i, now).0.phase == a.phase,
        forward_all(a, batch, i, now).0.peer == a.peer,
    decreases batch.len() - i,
{
    if i < batch.len() {
        let event = batch[i];
        let b = forward(a, event, now).0;
        assert(spares(event, key));
        if a.hotkey.combo.len() > 0 {
            let j = choose|j: int| 0 <= j < a.hotkey.combo.len() && a.hotkey.combo[j] == key;
            if let CapturedEvent::Key { code, pressed } = event {
                if pressed {
                    let held = crate::safety::held_after(a.hotkey.held, code, pressed);
                    assert(!held.contains(a.hotkey.combo[j]));
                }
            }
        }
        assert(!ends_capture(a, event));
        lemma_batch_plan(b, batch, i + 1, key, now);
        let first = forward(a, event, now).1;
        let rest = forward_all(b, batch, i + 1, now).1;
        let all = forward_all(a, batch, i, now).1;
        assert(all == first + rest);
        assert(first.len() == 1);
        assert forall|k: int| i <= k < batch.len() implies plans_to_tell(
            a,
            all[k - i],
            #[trigger] batch[k],
        ) by {
            if k > i {
                assert(all[k - i] == rest[k - (i + 1)]);
                assert(plans_to_tell(b, rest[k - (i + 1)], batch[k]));
            }
        }
    }
}

/// As long as one key of the hotkey stays up and the pointer stays on the slave's screen, the slave
/// is told of every event of a batch, once each, in order and unchanged, and the capture goes on.
pub proof fn law_batch_is_sent_on(
    a: AppModel,
    batch: Seq<CapturedEvent>,
    key: u16,
    now: u64,
    actions: Seq<MasterAction>,
)
    requires
        a.session is Some,
        a.peer is Some,
        a.hotkey.combo.len() == 0 || (a.hotkey.combo.contains(key) && !a.hotkey.held.contains(key)),
        forall|k: int| 0 <= k < batch.len() ==> spares(#[trigger] batch[k], key),
        does_all(actions, forward_all(a, batch, 0, now).1),
    ensures
        actions.len() == batch.len(),
        forall|k: int|
            0 <= k < batch.len() ==> {
                let read = read_packet((a.session->0).send_key, actions[k]->packet@);
                &&& actions[k] is Send && Some(actions[k]->to) == a.peer
                &&& read is Ok && (read->Ok_0).0 == told_on(#[trigger] batch[k])
                &&& (read->Ok_0).2 is Event && tells((read->Ok_0).2->Event_0, batch[k])
            },
        forward_all(a, batch, 0, now).0.phase == a.phase,
{
    lemma_batch_plan(a, batch, 0, key, now);
    let plan = forward_all(a, batch, 0, now).1;
    assert forall|k: int| 0 <= k < batch.len() implies {
        let read = read_packet((a.session->0).send_key, actions[k]->packet@);
        &&& actions[k] is Send && Some(actions[k]->to) == a.peer
        &&& read is Ok && (read->Ok_0).0 == told_on(#[trigger] batch[k])
        &&& (read->Ok_0).2 is Event && tells((read->Ok_0).2->Event_0, batch[k])
    } by {
        assert(plans_to_tell(a, plan[k - 0], batch[k]));
        assert(does(actions[k], plan[k]));
    }
}

/// A batch is dealt with in order, one event after the other, up to the one that ends the capture:
/// what comes behind it changes nothing.
pub proof fn law_batch_stops_where_the_capture_ends(
    a: AppModel,
    batch: Seq<CapturedEvent>,
    i: int,
    now: u64,
)
    requires
        0 <= i < batch.len(),
    ensures
        ({
            let stops = match batch[i] {
                CapturedEvent::Motion { edge, .. } => edge is Some,
                CapturedEvent::Key { code, pressed } => pressed && completes(a, code),
                _ => false,
            };
            let first = forward(a, batch[i], now);
            let all = forward_all(a, batch, i, now);
            if stops {
                all == first && all.0.phase == PhaseTag::Attached
            } else {
                let rest = forward_all(first.0, batch, i + 1, now);
                all.0 == rest.0 && all.1 == first.1 + rest.1
            }
        }),
{
    if let CapturedEvent::Key { code, pressed } = batch[i] {
        let held = crate::safety::held_after(a.hotkey.held, code, pressed);
        if pressed && completes(a, code) {
            assert forall|j: int| 0 <= j < a.hotkey.combo.len() implies held.contains(
                #[trigger] a.hotkey.combo[j],
            ) by {}
        }
        if pressed && crate::safety::all_held(a.hotkey.combo, held) {
            assert forall|j: int| 0 <= j < a.hotkey.combo.len() implies (
            #[trigger] a.hotkey.combo[j]) == code || a.hotkey.held.contains(a.hotkey.combo[j]) by {
                assert(held.contains(a.hotkey.combo[j]));
            }
        }
    }
}

/// On a monitor whose corners are coordinates, every batch can be dealt with.
pub proof fn law_ordinary_batches_can_be_handled(a: AppModel, batch: Seq<CapturedEvent>, i: int)
    requires
        0 <= i <= batch.len(),
        a.edge_monitor is Some,
        a.slave_screen is Some,
        2 <= a.edge_monitor->0.width <= i32::MAX,
        2 <= a.edge_monitor->0.height <= i32::MAX,
        a.edge_monitor->0.x + a.edge_monitor->0.width <= i32::MAX,
        a.edge_monitor->0.y + a.edge_monitor->0.height <= i32::MAX,
    ensures
        exits_possible(a, batch, i),
    decreases batch.len() - i,
{
    if i < batch.len() {
        if let CapturedEvent::Motion { to, edge } = batch[i] {
            crate::pointer::law_ordinary_monitors_can_be_crossed(
                to,
                to,
                a.edge_monitor->0,
                a.side,
                a.slave_screen->0,
            );
        }
        law_ordinary_batches_can_be_handled(observed(a, batch[i]), batch, i + 1);
    }
}

/// A slave that is heard of is not silent: from a datagram of it that is accepted on, until the
/// allowed silence has passed, the watchdog is quiet, and no longer.
pub proof fn law_heard_slave_is_not_silent(
    a: AppModel,
    from: PeerAddr,
    packet: Seq<u8>,
    heard: u64,
    now: u64,
)
    requires
        a.peer == Some(from),
        a.session is Some,
        read_packet((a.session->0).recv_key, packet) is Ok,
    ensures
        ({
            let after = take_incoming(a, from, packet, heard).0;
            &&& after.watchdog.last_activity == heard
            &&& after.watchdog.timeout == a.watchdog.timeout
            &&& silent_too_long(after.watchdog, now) <==> now > heard + a.watchdog.timeout
            &&& heed_datagram(a, from, packet, heard).0.watchdog == after.watchdog
        }),
{
}

/// Only the slave itself is heard: a datagram of someone else, or one that is not accepted, does not
/// break the silence, nor does anything that the master sends.
pub proof fn law_only_the_slave_breaks_the_silence(
    a: AppModel,
    from: PeerAddr,
    packet: Seq<u8>,
    chan: Channel,
    frame: FrameModel,
    now: u64,
)
    ensures
        (a.peer != Some(from) || a.session is None || read_packet(
            (a.session->0).recv_key,
            packet,
        ) is Err) ==> take_incoming(a, from, packet, now).0 == a && heed_datagram(
            a,
            from,
            packet,
            now,
        ).0 == a,
        send(a, chan, frame, now).0.watchdog == a.watchdog,
        resend(a, now).0.watchdog == a.watchdog,
{
}

/// What the slave sends is acknowledged to it and handed on, and changes nothing but the session and
/// the silence.
pub proof fn law_slave_is_answered(
    a: AppModel,
    from: PeerAddr,
    packet: Seq<u8>,
    now: u64,
    actions: Seq<MasterAction>,
)
    requires
        a.peer == Some(from),
        a.session is Some,
        read_packet((a.session->0).recv_key, packet) is Ok,
        does_all(actions, take_incoming(a, from, packet, now).1),
    ensures
        ({
            let (chan, seq, frame) = read_packet((a.session->0).recv_key, packet)->Ok_0;
            let (b, plan, ready) = take_incoming(a, from, packet, now);
            let taken = crate::transport::take_datagram(a.session->0, packet);
            &&& b.session == Some(taken.0)
            &&& ready == taken.1->Ok_0.ready
            &&& b == (AppModel { session: b.session, watchdog: b.watchdog, ..a })
            &&& chan == Channel::Reliable ==> actions.len() == 1 && slave_reads(
                a,
                actions[0],
                Channel::Control,
                (a.session->0).control_seq,
                FrameModel::Ack { acked_seq: seq },
            )
            &&& chan != Channel::Reliable ==> actions.len() == 0
        }),
{
    let plan = take_incoming(a, from, packet, now).1;
    if plan.len() > 0 {
        assert(does(actions[0], plan[0]));
    }
}

/// A slave that says goodbye while it is attached is given up, and in a capture the devices are
/// released; while its hello is awaited a goodbye has no effect.
pub proof fn law_goodbye_is_heeded(a: AppModel, from: PeerAddr, packet: Seq<u8>, now: u64, k: int)
    requires
        a.phase == PhaseTag::Attached || a.phase == PhaseTag::Captured || a.phase
            == PhaseTag::AwaitingHello,
        0 <= k < take_incoming(a, from, packet, now).2.len(),
        take_incoming(a, from, packet, now).2[k] is Bye,
    ensures
        ({
            let taken = take_incoming(a, from, packet, now);
            let (b, plan, hello) = heed_datagram(a, from, packet, now);
            if a.phase == PhaseTag::AwaitingHello {
                b == taken.0 && plan == taken.1
            } else {
                &&& hello is None
                &&& b.phase == PhaseTag::Idle
                &&& b.session is None && b.peer is None
                &&& b.edge_monitor is None && b.slave_screen is None
                &&& plan.contains(MasterPlan::ReleaseInput)
                &&& plan.last() == MasterPlan::ForgetPointer
            }
        }),
{
    let taken = take_incoming(a, from, packet, now);
    let (b, plan, hello) = heed_datagram(a, from, packet, now);
    assert(says_goodbye(taken.2));
    if a.phase != PhaseTag::AwaitingHello {
        assert(plan[plan.len() - 2] == MasterPlan::ReleaseInput);
    }
}

/// As long as the slave says neither hello nor goodbye, a datagram of it does no more than bring its
/// frames, and a hello counts only while it is awaited.
pub proof fn law_other_datagrams_change_no_phase(
    a: AppModel,
    from: PeerAddr,
    packet: Seq<u8>,
    now: u64,
)
    ensures
        ({
            let taken = take_incoming(a, from, packet, now);
            let (b, plan, hello) = heed_datagram(a, from, packet, now);
            &&& taken.0.phase == a.phase
            &&& (forall|k: int| 0 <= k < taken.2.len() ==> !((#[trigger] taken.2[k]) is Bye))
                ==> b == taken.0 && plan == taken.1
            &&& hello is Some ==> a.phase == PhaseTag::AwaitingHello
        }),
{
}

/// The hello that is found among frames is the first one, and it is found wherever there is one.
pub proof fn law_first_hello_is_found(frames: Seq<FrameModel>, i: int)
    requires
        0 <= i <= frames.len(),
    ensures
        match first_hello_from(frames, i) {
            Some(hello) => exists|k: int|
                i <= k < frames.len() && #[trigger] frames[k] == FrameModel::Hello(hello) && forall|
                    j: int,
                |
                    i <= j < k ==> !((#[trigger] frames[j]) is Hello),
            None => forall|k: int| i <= k < frames.len() ==> !((#[trigger] frames[k]) is Hello),
        },
    decreases frames.len() - i,
{
    if i < frames.len() && !(frames[i] is Hello) {
        law_first_hello_is_found(frames, i + 1);
        if let Some(hello) = first_hello_from(frames, i + 1) {
            let k = choose|k: int|
                i + 1 <= k < frames.len() && #[trigger] frames[k] == FrameModel::Hello(hello)
                    && forall|j: int| i + 1 <= j < k ==> !((#[trigger] frames[j]) is Hello);
            assert(frames[k] == FrameModel::Hello(hello));
        }
    } else if i < frames.len() {
        assert(frames[i] == FrameModel::Hello(frames[i]->Hello_0));
    }
}

/// A slave is attached just where it speaks version 1 and the configured monitor is there; then the
/// first monitor of that name is the doorway, and the slave is welcomed.
pub proof fn law_slave_is_welcomed(
    a: AppModel,
    hello: HelloModel,
    monitors: Option<Seq<MonitorModel>>,
    now: u64,
    actions: Seq<MasterAction>,
)
    requires
        a.session is Some,
        a.peer is Some,
        does_all(actions, greet(a, hello, monitors, now).1),
    ensures
        ({
            let b = greet(a, hello, monitors, now).0;
            let known = monitors is Some && exists|k: int|
                0 <= k < monitors->0.len() && (#[trigger] monitors->0[k]).name == a.monitor;
            if hello.proto_version == 1 && known {
                &&& b.phase == PhaseTag::Attached
                &&& b.slave_screen == Some(hello.screen)
                &&& b.edge_monitor is Some && b.edge_monitor->0.name == a.monitor
                &&& monitors->0.contains(b.edge_monitor->0)
                &&& b.watchdog.last_activity == now && b.watchdog.timeout == a.watchdog.timeout
                &&& b.peer == a.peer && b.hotkey == a.hotkey && b.side == a.side
                &&& actions.len() == 1
                &&& slave_reads(
                    a,
                    actions[0],
                    Channel::Reliable,
                    (a.session->0).reliable_seq,
                    FrameModel::Welcome(WelcomeInfo { proto_version: 1 }),
                )
            } else {
                &&& b.phase == PhaseTag::Idle
                &&& b.session is None && b.peer is None
                &&& forall|k: int| 0 <= k < actions.len() ==> !((#[trigger] actions[k]) is Send)
            }
        }),
{
    let plan = greet(a, hello, monitors, now).1;
    if monitors is Some {
        law_first_monitor_is_found(monitors->0, a.monitor, 0);
        if let Some(m) = find_monitor(monitors->0, a.monitor, 0) {
            let k = choose|k: int|
                0 <= k < monitors->0.len() && #[trigger] monitors->0[k] == m && forall|j: int|
                    0 <= j < k ==> (#[trigger] monitors->0[j]).name != a.monitor;
            assert(monitors->0[k].name == a.monitor);
        }
    }
    assert forall|k: int| 0 <= k < actions.len() implies does(
        #[trigger] actions[k],
        plan[k],
    ) by {}
    assert(plan.len() > 0);
    assert(does(actions[0], plan[0]));
}

/// The monitor that is found is the first one of its name, and it is found wherever there is one.
pub proof fn law_first_monitor_is_found(monitors: Seq<MonitorModel>, name: Seq<char>, i: int)
    requires
        0 <= i <= monitors.len(),
    ensures
        match find_monitor(monitors, name, i) {
            Some(m) => m.name == name && exists|k: int|
                i <= k < monitors.len() && #[trigger] monitors[k] == m && forall|j: int|
                    i <= j < k ==> (#[trigger] monitors[j]).name != name,
            None => forall|k: int| i <= k < monitors.len() ==> (#[trigger] monitors[k]).name != name,
        },
    decreases monitors.len() - i,
{
    if i < monitors.len() && monitors[i].name != name {
        law_first_monitor_is_found(monitors, name, i + 1);
        if let Some(m) = find_monitor(monitors, name, i + 1) {
            let k = choose|k: int|
                i + 1 <= k < monitors.len() && #[trigger] monitors[k] == m && forall|j: int|
                    i + 1 <= j < k ==> (#[trigger] monitors[j]).name != name;
            assert(monitors[k] == m);
        }
    } else if i < monitors.len() {
        assert(monitors[i] == monitors[i]);
    }
}

/// A slave that is given up is forgotten with its session, its screen and the doorway; the devices
/// are released and the pointer is no longer followed, and nothing is sent.
pub proof fn law_given_up_slave_is_forgotten(
    a: AppModel,
    torn: Seq<MasterAction>,
    given_up: Seq<MasterAction>,
)
    requires
        does_all(torn, teardown(a).1),
        does_all(given_up, give_up(a).1),
    ensures
        ({
            let b = teardown(a).0;
            &&& give_up(a).0 == b
            &&& b.phase == PhaseTag::Idle
            &&& b.session is None && b.peer is None
            &&& b.edge_monitor is None && b.slave_screen is None
            &&& b.monitor == a.monitor && b.side == a.side && b.hotkey == a.hotkey
            &&& b.watchdog == a.watchdog
            &&& torn.len() == 2
            &&& torn[0] == MasterAction::ReleaseInput && torn[1] == MasterAction::ForgetPointer
            &&& given_up.len() == (if a.phase == PhaseTag::Captured {
                3int
            } else {
                2int
            })
            &&& given_up[0] == MasterAction::ReleaseInput
            &&& given_up.last() == MasterAction::ForgetPointer
            &&& forall|k: int| 0 <= k < given_up.len() ==> !((#[trigger] given_up[k]) is Send)
        }),
{
    let plan = teardown(a).1;
    assert(does(torn[0], plan[0]));
    assert(does(torn[1], plan[1]));
    let plan2 = give_up(a).1;
    assert forall|k: int| 0 <= k < given_up.len() implies !((#[trigger] given_up[k]) is Send) by {
        assert(does(given_up[k], plan2[k]));
    }
    assert(does(given_up[0], plan2[0]));
    assert(does(given_up[plan2.len() - 1], plan2[plan2.len() - 1]));
}

/// Before it stops, the master says goodbye to its slave; in a capture it first releases the devices
/// and shows the cursor.
pub proof fn law_stopping_says_goodbye(a: AppModel, now: u64, actions: Seq<MasterAction>)
    requires
        a.session is Some,
        a.peer is Some,
        does_all(actions, stop(a, now).1),
    ensures
        actions.len() == (if a.phase == PhaseTag::Captured {
            3int
        } else {
            1int
        }),
        slave_reads(
            a,
            actions[actions.len() - 1],
            Channel::Control,
            (a.session->0).control_seq,
            FrameModel::Bye,
        ),
        a.phase == PhaseTag::Captured ==> actions[0] == MasterAction::ReleaseInput && actions[1]
            == MasterAction::SetCursorVisible(true),
{
    let plan = stop(a, now).1;
    let last = plan.len() - 1;
    assert(does(actions[last], plan[last]));
    if a.phase == PhaseTag::Captured {
        assert(plan.len() == 3);
        assert(does(actions[0], plan[0]));
        assert(does(actions[1], plan[1]));
    }
}

/// A ping reaches the slave with its own nonce, on the control channel.
pub proof fn law_ping_carries_its_nonce(
    a: AppModel,
    nonce: u64,
    now: u64,
    actions: Seq<MasterAction>,
)
    requires
        a.session is Some,
        a.peer is Some,
        does_all(actions, pings(a, nonce, now).1),
    ensures
        actions.len() == 1,
        slave_reads(
            a,
            actions[0],
            Channel::Control,
            (a.session->0).control_seq,
            FrameModel::Ping { nonce },
        ),
        pings(a, nonce, now).0.phase == a.phase,
{
    assert(does(actions[0], pings(a, nonce, now).1[0]));
}

/// Without a slave nothing is sent, whatever is to be sent.
pub proof fn law_nothing_is_sent_without_a_slave(
    a: AppModel,
    chan: Channel,
    frame: FrameModel,
    now: u64,
)
    requires
        a.session is None || a.peer is None,
    ensures
        send(a, chan, frame, now).0 == a,
        send(a, chan, frame, now).1.len() == 0,
        resend(a, now).0 == a,
        resend(a, now).1.len() == 0,
{
}

/// A frame that is sent on the reliable channel waits there for its acknowledgement as the very
/// packet that was sent, and is sent once more as that packet.
pub proof fn law_reliable_frames_wait(
    a: AppModel,
    frame: FrameModel,
    now: u64,
    actions: Seq<MasterAction>,
)
    requires
        a.session is Some,
        a.peer is Some,
        does_all(actions, send(a, Channel::Reliable, frame, now).1),
    ensures
        ({
            let b = send(a, Channel::Reliable, frame, now).0;
            let n = (a.session->0).reliable_seq;
            &&& actions.len() == 1
            &&& slave_reads(a, actions[0], Channel::Reliable, n, frame)
            &&& (b.session->0).pending.contains_key(n)
            &&& (b.session->0).pending[n].packet == actions[0]->packet@
            &&& (b.session->0).pending[n].first_sent == now
            &&& b == (AppModel { session: b.session, ..a })
        }),
{
    assert(does(actions[0], send(a, Channel::Reliable, frame, now).1[0]));
}

/// What is sent once more goes to the slave, packet by packet, and is just what is due.
pub proof fn law_due_packets_go_to_the_slave(a: AppModel, now: u64, actions: Seq<MasterAction>)
    requires
        a.session is Some,
        a.peer is Some,
        does_all(actions, resend(a, now).1),
    ensures
        ({
            let due = due_packets((a.session->0).pending, now);
            &&& actions.len() == due.len()
            &&& forall|k: int|
                0 <= k < due.len() ==> (#[trigger] actions[k]) is Send && Some(actions[k]->to)
                    == a.peer && actions[k]->packet@ == due[k]
            &&& resend(a, now).0 == (AppModel { session: resend(a, now).0.session, ..a })
        }),
{
    let plan = resend(a, now).1;
    let due = due_packets((a.session->0).pending, now);
    assert forall|k: int| 0 <= k < due.len() implies (#[trigger] actions[k]) is Send && Some(
        actions[k]->to,
    ) == a.peer && actions[k]->packet@ == due[k] by {
        assert(does(actions[k], plan[k]));
    }
}

/// An authenticated slave has five seconds to say hello, and only as long as the hello is awaited.
pub proof fn law_hello_is_awaited_for_five_seconds(a: AppModel, now: u64)
    requires
        a.accepted_at <= now,
    ensures
        hello_overdue(a, now) <==> a.phase == PhaseTag::AwaitingHello && now >= a.accepted_at
            + 5_000_000_000,
{
}

/// A master starts without a slave and with no key held down, and allows its slave the configured
/// milliseconds of silence.
pub proof fn law_fresh_master(
    monitor: Seq<char>,
    side: Edge,
    combo: Seq<u16>,
    watchdog_ms: u64,
    now: u64,
)
    ensures
        ({
            let a = fresh_app(monitor, side, combo, watchdog_ms, now);
            &&& a.wf()
            &&& a.phase == PhaseTag::Idle
            &&& a.session is None && a.peer is None
            &&& a.monitor == monitor && a.side == side
            &&& a.hotkey.combo == combo
            &&& forall|code: u16| !a.hotkey.held.contains(code)
            &&& a.watchdog.last_activity == now
            &&& watchdog_ms <= 1_000_000_000_000 ==> a.watchdog.timeout == watchdog_ms * 1_000_000
        }),
{
}

/// From the captured keyboard to the slave's: a key that does not complete the hotkey arrives, when it
/// is its turn, as the same press or release, and is acknowledged before it is replayed.
pub proof fn law_key_arrives_at_the_slave(
    a: AppModel,
    slave: SessionModel,
    code: u16,
    pressed: bool,
    now: u64,
    sent: Seq<MasterAction>,
    done: Seq<SlaveAction>,
)
    requires
        a.session is Some,
        a.peer is Some,
        !pressed || !completes(a, code),
        does_all(sent, forward(a, CapturedEvent::Key { code, pressed }, now).1),
        slave.recv_key == (a.session->0).send_key,
        slave.reliable_rx.next == (a.session->0).reliable_seq,
        slave::does_all(done, serve_datagram(slave, sent[0]->packet@).1),
    ensures
        sent.len() == 1,
        done.len() >= 2,
        done[0] is Send,
        read_packet(slave.send_key, done[0]->Send_0@) == Ok::<
            (Channel, u32, FrameModel),
            WireError,
        >(
            (
                Channel::Control,
                slave.control_seq,
                FrameModel::Ack { acked_seq: (a.session->0).reliable_seq },
            ),
        ),
        done[1] == SlaveAction::Emit(InputEvent::Key { code, pressed }),
{
    law_key_is_sent_on(a, code, pressed, now, sent);
    lemma_event_arrives(
        slave,
        sent[0]->packet@,
        Channel::Reliable,
        (a.session->0).reliable_seq,
        InputEvent::Key { code, pressed },
        done,
    );
}

/// From the captured mouse to the slave's screen: a movement arrives as the same place, unless a newer
/// one arrived before it, and is not acknowledged.
pub proof fn law_motion_arrives_at_the_slave(
    a: AppModel,
    slave: SessionModel,
    to: Point,
    now: u64,
    sent: Seq<MasterAction>,
    done: Seq<SlaveAction>,
)
    requires
        a.session is Some,
        a.peer is Some,
        does_all(sent, forward(a, CapturedEvent::Motion { to, edge: None }, now).1),
        slave.recv_key == (a.session->0).send_key,
        slave.unreliable_rx matches Some(last) ==> 1 <= ((a.session->0).unreliable_seq - last)
            % 0x1_0000_0000 <= 0x8000_0000,
        slave::does_all(done, serve_datagram(slave, sent[0]->packet@).1),
    ensures
        sent.len() == 1,
        done == seq![SlaveAction::Emit(InputEvent::Motion { x: to.x, y: to.y })],
{
    law_motion_is_sent_on(a, to, None, now, sent);
    lemma_event_arrives(
        slave,
        sent[0]->packet@,
        Channel::Unreliable,
        (a.session->0).unreliable_seq,
        InputEvent::Motion { x: to.x, y: to.y },
        done,
    );
    assert(done =~= seq![SlaveAction::Emit(InputEvent::Motion { x: to.x, y: to.y })]);
}

proof fn lemma_event_arrives(
    s: SessionModel,
    packet: Seq<u8>,
    chan: Channel,
    seq: u32,
    event: InputEvent,
    done: Seq<SlaveAction>,
)
    requires
        read_packet(s.recv_key, packet) == Ok::<(Channel, u32, FrameModel), WireError>(
            (chan, seq, FrameModel::Event(event)),
        ),
        chan == Channel::Reliable ==> seq == s.reliable_rx.next,
        chan == Channel::Unreliable ==> accepts(s.unreliable_rx, seq),
        chan != Channel::Control,
        slave::does_all(done, serve_datagram(s, packet).1),
    ensures
        chan == Channel::Reliable ==> {
            &&& done.len() >= 2
            &&& done[0] is Send
            &&& read_packet(s.send_key, done[0]->Send_0@) == Ok::<
                (Channel, u32, FrameModel),
                WireError,
            >((Channel::Control, s.control_seq, FrameModel::Ack { acked_seq: seq }))
            &&& done[1] == SlaveAction::Emit(event)
        },
        chan == Channel::Unreliable ==> done.len() == 1 && done[0] == SlaveAction::Emit(event),
{
    let taken = take_datagram(s, packet);
    let ready = (taken.1->Ok_0).ready;
    let served = serve_frames(taken.0, ready, 0);
    slave::law_datagram_is_served(s, packet, done);
    if chan == Channel::Reliable {
        delivery::law_awaited_frame_goes_first(s.reliable_rx, FrameModel::Event(event));
    } else {
        reveal_with_fuel(serve_frames, 2);
    }
    assert(ready[0] == FrameModel::Event(event));
    assert(served.1[0] == SlavePlan::Emit(event));
    if chan == Channel::Reliable {
        assert(slave::does(done.skip(1)[0], served.1[0]));
    } else {
        assert(slave::does(done[0], served.1[0]));
    }
}

/// A slave that was authenticated has the keys of its session and five seconds to say hello, whatever
/// came before it; then it is given up.
pub proof fn law_authenticated_slave_is_awaited(
    a: AppModel,
    addr: PeerAddr,
    keys: SessionKeys,
    now: u64,
    later: u64,
)
    ensures
        ({
            let b = accepted(a, addr, keys, now);
            let s = b.session->0;
            &&& b.phase == PhaseTag::AwaitingHello
            &&& b.peer == Some(addr)
            &&& b.session is Some
            &&& s.send_key == keys.send@ && s.recv_key == keys.recv@
            &&& s.reliable_seq == 0 && s.pending.is_empty()
            &&& b.monitor == a.monitor && b.side == a.side && b.hotkey == a.hotkey
            &&& later <= now + a.watchdog.timeout ==> !silent_too_long(b.watchdog, later)
            &&& later < now + 5_000_000_000 ==> heed_delay(b, later) is None
            &&& later >= now + 5_000_000_000 ==> heed_delay(b, later) is Some
            &&& heed_delay(b, later) matches Some((c, _)) ==> {
                &&& c.phase == PhaseTag::Idle
                &&& c.peer is None && c.session is None
            }
            &&& heed_silence(b, later) is None
        }),
{
}

/// A slave that falls silent in a capture loses the input at once: the devices are released before
/// anything is sent, and the cursor is shown again. A slave that falls silent otherwise is given up.
/// Nobody is given up before the silence was too long.
pub proof fn law_silent_slave_loses_the_input(a: AppModel, now: u64, actions: Seq<MasterAction>)
    requires
        a.session is Some,
        a.peer is Some,
        heed_silence(a, now) matches Some((_, plan)) ==> does_all(actions, plan),
    ensures
        heed_silence(a, now) is Some <==> now > a.watchdog.last_activity + a.watchdog.timeout && (
        a.phase == PhaseTag::Captured || a.phase == PhaseTag::Attached),
        heed_silence(a, now) matches Some((b, _)) ==> {
            &&& actions.len() > 0 && actions[0] == MasterAction::ReleaseInput
            &&& actions.last() == MasterAction::ForgetPointer
            &&& a.phase == PhaseTag::Captured ==> {
                &&& b.phase == PhaseTag::Attached
                &&& b.peer == a.peer
                &&& actions.contains(MasterAction::SetCursorVisible(true))
                &&& slave_reads(
                    a,
                    actions[1],
                    Channel::Reliable,
                    (a.session->0).reliable_seq,
                    FrameModel::Event(InputEvent::Leave),
                )
            }
            &&& a.phase == PhaseTag::Attached ==> b.phase == PhaseTag::Idle && b.peer is None
                && actions.len() == 2
        },
{
    if let Some((b, plan)) = heed_silence(a, now) {
        assert(does(actions[0], plan[0]));
        assert(does(actions[1], plan[1]));
        assert(does(actions[plan.len() - 1], plan[plan.len() - 1]));
        if a.phase == PhaseTag::Captured {
            assert(plan.len() == 5);
            assert(does(actions[3], plan[3]));
            assert(actions[3] == MasterAction::SetCursorVisible(true));
        }
    }
}

} // verus!
