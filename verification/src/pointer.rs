//! Where the pointer crosses from one machine to the other.
use crate::event::{DisplayGeometry, Edge, Point};
use crate::platform::{MonitorModel, RealMonitor};
use crate::scale::{self, scaled};
use vstd::prelude::*;

verus! {

/// How far inside the screen or the desktop the pointer is put when it crosses.
pub const MARGIN: i32 = 2;

/// Whether a number is an `i32`.
pub open spec fn fits_i32(n: int) -> bool {
    i32::MIN <= n <= i32::MAX
}

/// The `i32` with the same bits.
pub open spec fn to_i32(n: u32) -> i32 {
    if n < 0x8000_0000 {
        n as i32
    } else {
        (n - 0x1_0000_0000) as i32
    }
}

/// The `i32` with the same bits.
pub fn cast_i32(n: u32) -> (res: i32)
    ensures
        res == to_i32(n),
{
    assert(n < 0x8000_0000 ==> (n as i32) == n) by (bit_vector);
    assert(n >= 0x8000_0000 ==> (n as i32) == n - 0x1_0000_0000) by (bit_vector);
    n as i32
}

/// `n - 1`, or zero.
pub open spec fn last_index(n: u32) -> u32 {
    if n == 0 {
        0
    } else {
        (n - 1) as u32
    }
}

/// The right end of a monitor, one past its last column.
pub open spec fn right_of(m: MonitorModel) -> int {
    m.x + to_i32(m.width)
}

/// The bottom end of a monitor, one past its last row.
pub open spec fn bottom_of(m: MonitorModel) -> int {
    m.y + to_i32(m.height)
}

pub open spec fn within_columns(pos: Point, m: MonitorModel) -> bool {
    m.x <= pos.x < right_of(m)
}

pub open spec fn within_rows(pos: Point, m: MonitorModel) -> bool {
    m.y <= pos.y < bottom_of(m)
}

/// Whether the pointer touches, or is beyond, the given side of the monitor, beside one of its rows
/// or columns.
pub open spec fn touches_edge(pos: Point, m: MonitorModel, side: Edge) -> bool {
    match side {
        Edge::Right => within_rows(pos, m) && pos.x >= right_of(m) - 1,
        Edge::Left => within_rows(pos, m) && pos.x <= m.x,
        Edge::Bottom => within_columns(pos, m) && pos.y >= bottom_of(m) - 1,
        Edge::Top => within_columns(pos, m) && pos.y <= m.y,
    }
}

/// Whether the ends of the monitor that matter for the pointer are coordinates.
pub open spec fn edge_in_range(pos: Point, m: MonitorModel, side: Edge) -> bool {
    &&& m.x <= pos.x ==> fits_i32(right_of(m))
    &&& m.y <= pos.y ==> fits_i32(bottom_of(m))
    &&& side == Edge::Right && within_rows(pos, m) ==> fits_i32(right_of(m)) && fits_i32(
        right_of(m) - 1,
    )
    &&& side == Edge::Bottom && within_columns(pos, m) ==> fits_i32(bottom_of(m)) && fits_i32(
        bottom_of(m) - 1,
    )
}

/// Whether [`at_trigger_edge`] can be asked: the ends of the monitor that it looks at are
/// coordinates.
pub fn can_test_edge(pos: Point, monitor: &RealMonitor, side: Edge) -> (res: bool)
    ensures
        res == edge_in_range(pos, monitor@, side),
{
    let right: i64 = monitor.x as i64 + cast_i32(monitor.width) as i64;
    let bottom: i64 = monitor.y as i64 + cast_i32(monitor.height) as i64;
    let right_fits = i32::MIN as i64 <= right && right <= i32::MAX as i64;
    let bottom_fits = i32::MIN as i64 <= bottom && bottom <= i32::MAX as i64;
    if monitor.x <= pos.x && !right_fits {
        return false;
    }
    if monitor.y <= pos.y && !bottom_fits {
        return false;
    }
    match side {
        Edge::Right => !(monitor.y <= pos.y && (pos.y as i64) < bottom) || (right_fits && right
            > i32::MIN as i64),
        Edge::Bottom => !(monitor.x <= pos.x && (pos.x as i64) < right) || (bottom_fits && bottom
            > i32::MIN as i64),
        Edge::Left => true,
        Edge::Top => true,
    }
}

/// Whether the pointer touches the given side of the monitor.
pub fn at_trigger_edge(pos: Point, monitor: &RealMonitor, side: Edge) -> (res: bool)
    requires
        edge_in_range(pos, monitor@, side),
    ensures
        res == touches_edge(pos, monitor@, side),
{
    let width: i32 = cast_i32(monitor.width);
    let height: i32 = cast_i32(monitor.height);
    let within_x = pos.x >= monitor.x && pos.x < monitor.x + width;
    let within_y = pos.y >= monitor.y && pos.y < monitor.y + height;
    match side {
        Edge::Right => within_y && pos.x >= monitor.x + width - 1,
        Edge::Left => within_y && pos.x <= monitor.x,
        Edge::Bottom => within_x && pos.y >= monitor.y + height - 1,
        Edge::Top => within_x && pos.y <= monitor.y,
    }
}

/// The length of the scale of `n` positions; a scale of one position counts as one long.
pub open spec fn span_of(n: u32) -> nat {
    if last_index(n) == 0 {
        1
    } else {
        last_index(n) as nat
    }
}

/// [`scaled`] for a scale that may run downwards.
pub open spec fn scaled_signed(a: int, span: nat, max: int) -> int {
    if max >= 0 {
        scaled(a, span, max as nat) as int
    } else {
        -(scaled(a, span, (-max) as nat) as int)
    }
}

/// The point of the slave's screen that stands beside `pos`, when the pointer goes over the given
/// side of the monitor: just inside the opposite side, at the same fraction of its length.
pub open spec fn entry_of(pos: Point, m: MonitorModel, side: Edge, slave: DisplayGeometry) -> (
    int,
    int,
) {
    let max_x = to_i32(last_index(slave.width)) as int;
    let max_y = to_i32(last_index(slave.height)) as int;
    let x = scaled_signed(pos.x - m.x, span_of(m.width), max_x);
    let y = scaled_signed(pos.y - m.y, span_of(m.height), max_y);
    match side {
        Edge::Right => (MARGIN as int, y),
        Edge::Left => (max_x - MARGIN, y),
        Edge::Bottom => (x, MARGIN as int),
        Edge::Top => (x, max_y - MARGIN),
    }
}

/// Whether the coordinates that [`entry_of`] goes through are coordinates.
pub open spec fn entry_in_range(
    pos: Point,
    m: MonitorModel,
    side: Edge,
    slave: DisplayGeometry,
) -> bool {
    &&& match side {
        Edge::Right | Edge::Left => fits_i32(pos.y - m.y),
        Edge::Bottom | Edge::Top => fits_i32(pos.x - m.x),
    }
    &&& side == Edge::Left ==> fits_i32(to_i32(last_index(slave.width)) - MARGIN)
    &&& side == Edge::Top ==> fits_i32(to_i32(last_index(slave.height)) - MARGIN)
}

/// Whether [`entry_point`] can be asked.
pub fn can_enter(pos: Point, monitor: &RealMonitor, side: Edge, slave: DisplayGeometry) -> (res:
    bool)
    ensures
        res == entry_in_range(pos, monitor@, side, slave),
{
    let along: i64 = match side {
        Edge::Right | Edge::Left => pos.y as i64 - monitor.y as i64,
        Edge::Bottom | Edge::Top => pos.x as i64 - monitor.x as i64,
    };
    let max_x: i32 = cast_i32(slave.width.saturating_sub(1));
    let max_y: i32 = cast_i32(slave.height.saturating_sub(1));
    i32::MIN as i64 <= along && along <= i32::MAX as i64 && match side {
        Edge::Left => max_x >= i32::MIN + MARGIN,
        Edge::Top => max_y >= i32::MIN + MARGIN,
        Edge::Right | Edge::Bottom => true,
    }
}

/// [`scale::scale_position`] on a scale that may run downwards.
fn scale_signed(value: i32, origin: i32, span: u32, max: i32) -> (res: i32)
    requires
        fits_i32(value - origin),
    ensures
        res == scaled_signed(value - origin, span as nat, max as int),
{
    let a: i32 = value - origin;
    if max >= 0 {
        scale::scale_position(a, span, max as u32) as i32
    } else {
        let size: u32 = (-(max as i64)) as u32;
        (-(scale::scale_position(a, span, size) as i64)) as i32
    }
}

/// The length of the scale of `n` positions.
fn span_along(n: u32) -> (span: u32)
    ensures
        span == span_of(n),
{
    if n <= 1 {
        1
    } else {
        n - 1
    }
}

/// The point of the slave's screen at which the pointer enters it.
pub fn entry_point(pos: Point, monitor: &RealMonitor, side: Edge, slave: DisplayGeometry) -> (p:
    Point)
    requires
        entry_in_range(pos, monitor@, side, slave),
    ensures
        (p.x as int, p.y as int) == entry_of(pos, monitor@, side, slave),
{
    let max_x: i32 = cast_i32(slave.width.saturating_sub(1));
    let max_y: i32 = cast_i32(slave.height.saturating_sub(1));
    match side {
        Edge::Right => Point::new(
            MARGIN,
            scale_signed(pos.y, monitor.y, span_along(monitor.height), max_y),
        ),
        Edge::Left => Point::new(
            max_x - MARGIN,
            scale_signed(pos.y, monitor.y, span_along(monitor.height), max_y),
        ),
        Edge::Bottom => Point::new(
            scale_signed(pos.x, monitor.x, span_along(monitor.width), max_x),
            MARGIN,
        ),
        Edge::Top => Point::new(
            scale_signed(pos.x, monitor.x, span_along(monitor.width), max_x),
            max_y - MARGIN,
        ),
    }
}

/// `n`, or the largest `i32`.
pub open spec fn capped(n: nat) -> int {
    if n > i32::MAX {
        i32::MAX as int
    } else {
        n as int
    }
}

/// The point of the desktop at which the pointer comes back, when it left the slave's screen at
/// `local`: just inside the given side of the monitor, at the same fraction of its length.
pub open spec fn exit_of(local: Point, m: MonitorModel, side: Edge, slave: DisplayGeometry) -> (
    int,
    int,
) {
    let x = m.x + capped(
        scaled(local.x as int, span_of(slave.width), last_index(m.width) as nat),
    );
    let y = m.y + capped(
        scaled(local.y as int, span_of(slave.height), last_index(m.height) as nat),
    );
    match side {
        Edge::Right => (right_of(m) - MARGIN, y),
        Edge::Left => (m.x + MARGIN, y),
        Edge::Bottom => (x, bottom_of(m) - MARGIN),
        Edge::Top => (x, m.y + MARGIN),
    }
}

/// Whether the coordinates that [`exit_of`] goes through are coordinates.
pub open spec fn exit_in_range(
    local: Point,
    m: MonitorModel,
    side: Edge,
    slave: DisplayGeometry,
) -> bool {
    let (x, y) = exit_of(local, m, side, slave);
    &&& fits_i32(x)
    &&& fits_i32(y)
    &&& side == Edge::Right ==> fits_i32(right_of(m))
    &&& side == Edge::Bottom ==> fits_i32(bottom_of(m))
}

/// How far along a monitor's side, of `n` positions, the pointer comes back.
fn exit_along(local: i32, slave: u32, n: u32) -> (res: i32)
    ensures
        res == capped(scaled(local as int, span_of(slave), last_index(n) as nat)),
        res >= 0,
{
    let res: u32 = scale::scale_position(local, span_along(slave), n.saturating_sub(1));
    if res > i32::MAX as u32 {
        i32::MAX
    } else {
        res as i32
    }
}

/// The coordinates at which the pointer comes back, wide enough for every monitor.
fn exit_wide(local_exit: Point, monitor: &RealMonitor, side: Edge, slave: DisplayGeometry) -> (p: (
    i64,
    i64,
))
    ensures
        (p.0 as int, p.1 as int) == exit_of(local_exit, monitor@, side, slave),
{
    let x: i64 = monitor.x as i64 + exit_along(local_exit.x, slave.width, monitor.width) as i64;
    let y: i64 = monitor.y as i64 + exit_along(local_exit.y, slave.height, monitor.height) as i64;
    let right: i64 = monitor.x as i64 + cast_i32(monitor.width) as i64;
    let bottom: i64 = monitor.y as i64 + cast_i32(monitor.height) as i64;
    match side {
        Edge::Right => (right - MARGIN as i64, y),
        Edge::Left => (monitor.x as i64 + MARGIN as i64, y),
        Edge::Bottom => (x, bottom - MARGIN as i64),
        Edge::Top => (x, monitor.y as i64 + MARGIN as i64),
    }
}

fn is_i32(n: i64) -> (res: bool)
    ensures
        res == fits_i32(n as int),
{
    i32::MIN as i64 <= n && n <= i32::MAX as i64
}

/// Whether [`exit_point`] can be asked.
pub fn can_exit(local_exit: Point, monitor: &RealMonitor, side: Edge, slave: DisplayGeometry) -> (
res: bool)
    ensures
        res == exit_in_range(local_exit, monitor@, side, slave),
{
    let (x, y) = exit_wide(local_exit, monitor, side, slave);
    is_i32(x) && is_i32(y) && match side {
        Edge::Right => is_i32(monitor.x as i64 + cast_i32(monitor.width) as i64),
        Edge::Bottom => is_i32(monitor.y as i64 + cast_i32(monitor.height) as i64),
        Edge::Left | Edge::Top => true,
    }
}

/// The point of the desktop at which the pointer comes back.
pub fn exit_point(
    local_exit: Point,
    monitor: &RealMonitor,
    side: Edge,
    slave: DisplayGeometry,
) -> (p: Point)
    requires
        exit_in_range(local_exit, monitor@, side, slave),
    ensures
        (p.x as int, p.y as int) == exit_of(local_exit, monitor@, side, slave),
{
    let (x, y) = exit_wide(local_exit, monitor, side, slave);
    Point::new(x as i32, y as i32)
}

/// A pointer that just came back does not touch the side it went over, so it does not cross again
/// by itself.
pub proof fn law_no_bounce(local: Point, m: MonitorModel, side: Edge, slave: DisplayGeometry)
    requires
        exit_in_range(local, m, side, slave),
    ensures
        ({
            let (x, y) = exit_of(local, m, side, slave);
            !touches_edge(Point { x: x as i32, y: y as i32 }, m, side)
        }),
{
}

/// Where the pointer enters, it is on the slave's screen, whatever point of the desktop it came
/// from, if the screen is larger than the margin in both directions.
pub proof fn law_entry_on_screen(pos: Point, m: MonitorModel, side: Edge, slave: DisplayGeometry)
    requires
        MARGIN < slave.width <= 0x8000_0000,
        MARGIN < slave.height <= 0x8000_0000,
    ensures
        ({
            let (x, y) = entry_of(pos, m, side, slave);
            0 <= x < slave.width && 0 <= y < slave.height
        }),
{
    scale::lemma_scaled_in_range(pos.x - m.x, span_of(m.width), last_index(slave.width) as nat);
    scale::lemma_scaled_in_range(pos.y - m.y, span_of(m.height), last_index(slave.height) as nat);
}

/// Where the pointer comes back, it is on the monitor, if the monitor is larger than the margin in
/// both directions.
pub proof fn law_exit_on_monitor(local: Point, m: MonitorModel, side: Edge, slave: DisplayGeometry)
    requires
        MARGIN < m.width <= i32::MAX,
        MARGIN < m.height <= i32::MAX,
    ensures
        ({
            let (x, y) = exit_of(local, m, side, slave);
            m.x <= x < right_of(m) && m.y <= y < bottom_of(m)
        }),
{
    scale::lemma_scaled_in_range(local.x as int, span_of(slave.width), last_index(m.width) as nat);
    scale::lemma_scaled_in_range(local.y as int, span_of(slave.height), last_index(m.height) as nat);
}

/// Whether positions along a monitor's side, of `n` positions, are kept on a slave's side.
pub open spec fn keeps_places(n: u32, slave: u32) -> bool {
    0 < n <= slave <= scale::FINE_MAX + 1
}

/// Scaling to the slave's side and back keeps a place.
proof fn lemma_place_is_kept(a: int, n: u32, slave: u32)
    requires
        keeps_places(n, slave),
        0 <= a < n,
    ensures
        ({
            let there = scaled_signed(a, span_of(n), to_i32(last_index(slave)) as int);
            &&& 0 <= there <= scale::FINE_MAX
            &&& capped(scaled(there, span_of(slave), last_index(n) as nat)) == a
        }),
{
    let max = last_index(slave) as nat;
    scale::lemma_scaled_in_range(a, span_of(n), max);
    if n > 1 {
        scale::law_position_is_kept(a, span_of(n), max);
    }
}

/// A pointer that goes over to the slave and comes back at once is at the same place along the side
/// that it crossed, if the slave's side is at least as long as the monitor's and has no more than
/// 65536 positions.
pub proof fn law_crossing_keeps_place(p: Point, m: MonitorModel, side: Edge, slave: DisplayGeometry)
    ensures
        ({
            let (ex, ey) = entry_of(p, m, side, slave);
            let (x, y) = exit_of(Point { x: ex as i32, y: ey as i32 }, m, side, slave);
            &&& (side is Left || side is Right) && keeps_places(m.height, slave.height) && m.y <= p.y
                < m.y + m.height ==> y == p.y
            &&& (side is Top || side is Bottom) && keeps_places(m.width, slave.width) && m.x <= p.x
                < m.x + m.width ==> x == p.x
        }),
{
    if keeps_places(m.height, slave.height) && m.y <= p.y < m.y + m.height {
        lemma_place_is_kept(p.y - m.y, m.height, slave.height);
    }
    if keeps_places(m.width, slave.width) && m.x <= p.x < m.x + m.width {
        lemma_place_is_kept(p.x - m.x, m.width, slave.width);
    }
}

/// The side over which a pointer left the screen, given the side it passed in each direction and
/// whether it went at least as far sideways as up or down. In a corner the direction in which it
/// went further decides.
pub fn crossed_edge(x_over: Option<Edge>, y_over: Option<Edge>, x_further: bool) -> (edge: Option<
    Edge,
>)
    ensures
        edge == (if x_over is Some && (y_over is None || x_further) {
            x_over
        } else {
            y_over
        }),
{
    match (x_over, y_over) {
        (Some(ex), Some(ey)) => Some(
            if x_further {
                ex
            } else {
                ey
            },
        ),
        (Some(e), None) => Some(e),
        (None, Some(e)) => Some(e),
        (None, None) => None,
    }
}

/// On a monitor whose corners are coordinates, every question about a crossing can be asked, of a
/// pointer on the monitor and wherever it leaves the slave's screen.
pub proof fn law_ordinary_monitors_can_be_crossed(
    pos: Point,
    local: Point,
    m: MonitorModel,
    side: Edge,
    slave: DisplayGeometry,
)
    requires
        2 <= m.width <= i32::MAX,
        2 <= m.height <= i32::MAX,
        m.x + m.width <= i32::MAX,
        m.y + m.height <= i32::MAX,
    ensures
        edge_in_range(pos, m, side),
        exit_in_range(local, m, side, slave),
        1 <= slave.width <= i32::MAX && 1 <= slave.height <= i32::MAX && m.x <= pos.x < m.x + m.width
            && m.y <= pos.y < m.y + m.height ==> entry_in_range(pos, m, side, slave),
{
    scale::lemma_scaled_in_range(local.x as int, span_of(slave.width), last_index(m.width) as nat);
    scale::lemma_scaled_in_range(local.y as int, span_of(slave.height), last_index(m.height) as nat);
}

/// A pointer on the monitor touches the configured side in its last row or column there, and
/// nowhere else; beside the monitor's rows or columns it never does.
pub proof fn law_doorway_is_the_last_line(pos: Point, m: MonitorModel, side: Edge)
    requires
        1 <= m.width <= i32::MAX,
        1 <= m.height <= i32::MAX,
    ensures
        m.x <= pos.x < m.x + m.width && m.y <= pos.y < m.y + m.height ==> {
            &&& side == Edge::Right ==> (touches_edge(pos, m, side) <==> pos.x + 1 == m.x + m.width)
            &&& side == Edge::Left ==> (touches_edge(pos, m, side) <==> pos.x == m.x)
            &&& side == Edge::Bottom ==> (touches_edge(pos, m, side) <==> pos.y + 1 == m.y
                + m.height)
            &&& side == Edge::Top ==> (touches_edge(pos, m, side) <==> pos.y == m.y)
        },
        (side == Edge::Left || side == Edge::Right) && !(m.y <= pos.y < m.y + m.height)
            ==> !touches_edge(pos, m, side),
        (side == Edge::Top || side == Edge::Bottom) && !(m.x <= pos.x < m.x + m.width)
            ==> !touches_edge(pos, m, side),
{
}

/// A pointer beyond a side counts as touching it, and one that moves further out stays so.
pub proof fn law_beyond_the_side_counts(near: Point, far: Point, m: MonitorModel, side: Edge)
    requires
        touches_edge(near, m, side),
        match side {
            Edge::Right => far.y == near.y && far.x >= near.x,
            Edge::Left => far.y == near.y && far.x <= near.x,
            Edge::Bottom => far.x == near.x && far.y >= near.y,
            Edge::Top => far.x == near.x && far.y <= near.y,
        },
    ensures
        touches_edge(far, m, side),
{
}

} // verus!
