//! Talking to Hyprland: its requests, and what its answers say.
use crate::event::{DisplayGeometry, Point};
use crate::json::{self, json_parse, json_text, json_view, json_views, JsonModel, NumberModel};
use crate::paths::{self, joined};
use crate::platform::{MonitorModel, PlatformError, RealMonitor};
use crate::text::{self, int_error_text, read_i32, signed_decimal, trimmed, IntError};
use vstd::prelude::*;
use vstd::string::*;

verus! {

/// The name of the socket that takes requests.
pub const CONTROL_SOCKET: &'static str = ".socket.sock";

/// Whether an error is one of Hyprland with the given words.
pub open spec fn is_hyprland_error(e: PlatformError, words: Seq<char>) -> bool {
    e matches PlatformError::Hyprland(text) && text@ == words
}

/// The path of the control socket, given the runtime directory and the signature of the running
/// instance, where they are set.
pub fn control_socket_path(runtime_dir: Option<&str>, his: Option<&str>) -> (res: Result<
    String,
    PlatformError,
>)
    ensures
        match res {
            Ok(path) => {
                &&& runtime_dir is Some && his is Some
                &&& path@ == joined(
                    joined(joined(runtime_dir->0@, "hypr"@), his->0@),
                    CONTROL_SOCKET@,
                )
            },
            Err(e) => if runtime_dir is None {
                is_hyprland_error(e, "XDG_RUNTIME_DIR is not set"@)
            } else {
                his is None && is_hyprland_error(
                    e,
                    "HYPRLAND_INSTANCE_SIGNATURE is not set (Hyprland not running?)"@,
                )
            },
        },
{
    let runtime_dir = match runtime_dir {
        Some(dir) => dir,
        None => {
            return Err(PlatformError::Hyprland("XDG_RUNTIME_DIR is not set".to_owned()));
        },
    };
    let his = match his {
        Some(his) => his,
        None => {
            return Err(
                PlatformError::Hyprland(
                    "HYPRLAND_INSTANCE_SIGNATURE is not set (Hyprland not running?)".to_owned(),
                ),
            );
        },
    };
    let base = paths::join(runtime_dir, "hypr");
    let dir = paths::join(base.as_str(), his);
    Ok(paths::join(dir.as_str(), CONTROL_SOCKET))
}

/// The request for an answer in JSON.
pub fn json_request(args: &str) -> (req: String)
    ensures
        req@ == "j/"@ + args@,
{
    let mut req = "j/".to_owned();
    req.append(args);
    req
}

/// The request that puts the cursor somewhere.
pub fn move_cursor_request(p: Point) -> (req: String)
    ensures
        req@ == "dispatch movecursor "@ + signed_decimal(p.x as int) + " "@ + signed_decimal(
            p.y as int,
        ),
{
    let mut req = "dispatch movecursor ".to_owned();
    text::append_signed(&mut req, p.x);
    req.append(" ");
    text::append_signed(&mut req, p.y);
    req
}

/// The request that shows or hides the cursor.
pub fn set_visible_request(visible: bool) -> (req: String)
    ensures
        req@ == "keyword cursor:invisible "@ + (if visible {
            "false"@
        } else {
            "true"@
        }),
{
    let mut req = "keyword cursor:invisible ".to_owned();
    if visible {
        req.append("false");
    } else {
        req.append("true");
    }
    req
}

/// Whether a command succeeded: its answer is `ok`, with or without white space around it.
pub fn check_ok(cmd: &str, response: &str) -> (res: Result<(), PlatformError>)
    ensures
        match res {
            Ok(_) => trimmed(response@) == "ok"@,
            Err(e) => trimmed(response@) != "ok"@ && is_hyprland_error(
                e,
                "`"@ + cmd@ + "` failed: "@ + response@,
            ),
        },
{
    if !text::same_text(text::trim(response), "ok") {
        let mut words = "`".to_owned();
        words.append(cmd);
        words.append("` failed: ");
        words.append(response);
        return Err(PlatformError::Hyprland(words));
    }
    Ok(())
}

/// The words for an answer that is no JSON.
pub open spec fn bad_json_words(args: Seq<char>, raw: Seq<char>, why: Seq<char>) -> Seq<char> {
    "parsing JSON response to `"@ + args + "`: "@ + why + " (raw: "@ + raw + ")"@
}

fn bad_json_error(args: &str, raw: &str, why: &str) -> (e: PlatformError)
    ensures
        is_hyprland_error(e, bad_json_words(args@, raw@, why@)),
{
    let mut words = "parsing JSON response to `".to_owned();
    words.append(args);
    words.append("`: ");
    words.append(why);
    words.append(" (raw: ");
    words.append(raw);
    words.append(")");
    PlatformError::Hyprland(words)
}

/// The value in an answer to a request for JSON.
pub fn read_json(args: &str, raw: &str) -> (res: Result<serde_json::Value, PlatformError>)
    ensures
        match res {
            Ok(value) => json_parse(raw@) == Ok::<JsonModel, Seq<char>>(json_view(value)),
            Err(e) => json_parse(raw@) matches Err(why) && is_hyprland_error(
                e,
                bad_json_words(args@, raw@, why),
            ),
        },
{
    match json::parse(raw) {
        Ok(value) => Ok(value),
        Err(why) => Err(bad_json_error(args, raw, why.as_str())),
    }
}

/// The `i32` with the low bits of a number.
pub open spec fn wrap_i32(n: i64) -> i32 {
    let low = n as int % 0x1_0000_0000;
    if low < 0x8000_0000 {
        low as i32
    } else {
        (low - 0x1_0000_0000) as i32
    }
}

/// The `u32` with the low bits of a number.
pub open spec fn wrap_u32(n: u64) -> u32 {
    (n % 0x1_0000_0000) as u32
}

fn truncate_i32(n: i64) -> (res: i32)
    ensures
        res == wrap_i32(n),
{
    let bits: u64 = n as u64;
    assert(n >= 0 ==> bits == n) by (bit_vector)
        requires
            bits == n as u64,
    ;
    assert(n < 0 ==> bits == n + 0x1_0000_0000_0000_0000) by (bit_vector)
        requires
            bits == n as u64,
    ;
    let low: i64 = (bits % 0x1_0000_0000) as i64;
    if low < 0x8000_0000 {
        low as i32
    } else {
        (low - 0x1_0000_0000) as i32
    }
}

fn truncate_u32(n: u64) -> (res: u32)
    ensures
        res == wrap_u32(n),
{
    (n % 0x1_0000_0000) as u32
}

/// What the description of a monitor says, where it says it.
#[derive(Debug, Clone, PartialEq, Eq)]
pub struct MonitorFields {
    pub name: Option<String>,
    pub x: Option<i64>,
    pub y: Option<i64>,
    pub width: Option<u64>,
    pub height: Option<u64>,
    pub focused: Option<bool>,
}

/// The contents of a [`MonitorFields`].
pub struct FieldsModel {
    pub name: Option<Seq<char>>,
    pub x: Option<i64>,
    pub y: Option<i64>,
    pub width: Option<u64>,
    pub height: Option<u64>,
    pub focused: Option<bool>,
}

impl View for MonitorFields {
    type V = FieldsModel;

    open spec fn view(&self) -> FieldsModel {
        FieldsModel {
            name: match self.name {
                Some(name) => Some(name@),
                None => None,
            },
            x: self.x,
            y: self.y,
            width: self.width,
            height: self.height,
            focused: self.focused,
        }
    }
}

/// The monitor that a description stands for, or the name of the first field that is missing. Too
/// large a number counts by its low bits; a monitor that does not say so has not the focus.
pub open spec fn monitor_of(f: FieldsModel) -> Result<MonitorModel, Seq<char>> {
    if f.name is None {
        Err("name"@)
    } else if f.x is None {
        Err("x"@)
    } else if f.y is None {
        Err("y"@)
    } else if f.width is None {
        Err("width"@)
    } else if f.height is None {
        Err("height"@)
    } else {
        Ok(
            MonitorModel {
                name: f.name->0,
                x: wrap_i32(f.x->0),
                y: wrap_i32(f.y->0),
                width: wrap_u32(f.width->0),
                height: wrap_u32(f.height->0),
                focused: f.focused == Some(true),
            },
        )
    }
}

/// The words for a description that lacks a field.
pub open spec fn bad_field_words(field: Seq<char>, shown: Seq<char>) -> Seq<char> {
    "monitor JSON missing/wrong-typed field `"@ + field + "`: "@ + shown
}

fn bad_field(field: &str, shown: &str) -> (e: PlatformError)
    ensures
        is_hyprland_error(e, bad_field_words(field@, shown@)),
{
    let mut words = "monitor JSON missing/wrong-typed field `".to_owned();
    words.append(field);
    words.append("`: ");
    words.append(shown);
    PlatformError::Hyprland(words)
}

/// The monitor that a description stands for; `shown` is the description as text.
pub fn monitor_from_fields(fields: MonitorFields, shown: &str) -> (res: Result<
    RealMonitor,
    PlatformError,
>)
    ensures
        match res {
            Ok(monitor) => monitor_of(fields@) == Ok::<MonitorModel, Seq<char>>(monitor@),
            Err(e) => monitor_of(fields@) matches Err(field) && is_hyprland_error(
                e,
                bad_field_words(field, shown@),
            ),
        },
{
    let name = match fields.name {
        Some(name) => name,
        None => return Err(bad_field("name", shown)),
    };
    let x: i64 = match fields.x {
        Some(x) => x,
        None => return Err(bad_field("x", shown)),
    };
    let y: i64 = match fields.y {
        Some(y) => y,
        None => return Err(bad_field("y", shown)),
    };
    let width: u64 = match fields.width {
        Some(width) => width,
        None => return Err(bad_field("width", shown)),
    };
    let height: u64 = match fields.height {
        Some(height) => height,
        None => return Err(bad_field("height", shown)),
    };
    let focused = match fields.focused {
        Some(focused) => focused,
        None => false,
    };
    Ok(
        RealMonitor {
            name,
            x: truncate_i32(x),
            y: truncate_i32(y),
            width: truncate_u32(width),
            height: truncate_u32(height),
            focused,
        },
    )
}

/// A field of a JSON object, read in one of the ways that values can be read.
pub open spec fn text_field(j: JsonModel, key: Seq<char>) -> Option<Seq<char>> {
    match j.field(key) {
        Some(v) => v.text(),
        None => None,
    }
}

pub open spec fn signed_field(j: JsonModel, key: Seq<char>) -> Option<i64> {
    match j.field(key) {
        Some(v) => v.signed(),
        None => None,
    }
}

pub open spec fn unsigned_field(j: JsonModel, key: Seq<char>) -> Option<u64> {
    match j.field(key) {
        Some(v) => v.unsigned(),
        None => None,
    }
}

pub open spec fn truth_field(j: JsonModel, key: Seq<char>) -> Option<bool> {
    match j.field(key) {
        Some(v) => v.truth(),
        None => None,
    }
}

/// What a JSON value says as the description of a monitor.
pub open spec fn fields_of(j: JsonModel) -> FieldsModel {
    FieldsModel {
        name: text_field(j, "name"@),
        x: signed_field(j, "x"@),
        y: signed_field(j, "y"@),
        width: unsigned_field(j, "width"@),
        height: unsigned_field(j, "height"@),
        focused: truth_field(j, "focused"@),
    }
}

fn get_text<'a>(v: &'a serde_json::Value, key: &str) -> (res: Option<&'a str>)
    ensures
        match res {
            Some(text) => text_field(json_view(*v), key@) == Some(text@),
            None => text_field(json_view(*v), key@) is None,
        },
{
    match json::get(v, key) {
        Some(field) => json::as_str(field),
        None => None,
    }
}

fn get_signed(v: &serde_json::Value, key: &str) -> (res: Option<i64>)
    ensures
        res == signed_field(json_view(*v), key@),
{
    match json::get(v, key) {
        Some(field) => json::as_i64(field),
        None => None,
    }
}

fn get_unsigned(v: &serde_json::Value, key: &str) -> (res: Option<u64>)
    ensures
        res == unsigned_field(json_view(*v), key@),
{
    match json::get(v, key) {
        Some(field) => json::as_u64(field),
        None => None,
    }
}

fn get_truth(v: &serde_json::Value, key: &str) -> (res: Option<bool>)
    ensures
        res == truth_field(json_view(*v), key@),
{
    match json::get(v, key) {
        Some(field) => json::as_bool(field),
        None => None,
    }
}

/// The monitor that a JSON value describes, or the words for why it describes none.
pub open spec fn described_monitor(j: JsonModel) -> Result<MonitorModel, Seq<char>> {
    match monitor_of(fields_of(j)) {
        Ok(monitor) => Ok(monitor),
        Err(field) => Err(bad_field_words(field, json_text(j))),
    }
}

/// The monitor that a JSON value describes.
pub fn real_monitor_from_json(v: &serde_json::Value) -> (res: Result<RealMonitor, PlatformError>)
    ensures
        match res {
            Ok(monitor) => described_monitor(json_view(*v)) == Ok::<MonitorModel, Seq<char>>(
                monitor@,
            ),
            Err(e) => described_monitor(json_view(*v)) matches Err(words) && is_hyprland_error(
                e,
                words,
            ),
        },
{
    let name = match get_text(v, "name") {
        Some(name) => Some(name.to_owned()),
        None => None,
    };
    let fields = MonitorFields {
        name,
        x: get_signed(v, "x"),
        y: get_signed(v, "y"),
        width: get_unsigned(v, "width"),
        height: get_unsigned(v, "height"),
        focused: get_truth(v, "focused"),
    };
    let shown = json::to_text(v);
    monitor_from_fields(fields, shown.as_str())
}

/// The contents of a list of monitors.
pub open spec fn monitors_view(monitors: Seq<RealMonitor>) -> Seq<MonitorModel> {
    monitors.map_values(|m: RealMonitor| m@)
}

/// The monitors that the first `n` values of a list describe, or the words for the first value
/// that describes none.
pub open spec fn described_monitors(list: Seq<JsonModel>, n: int) -> Result<
    Seq<MonitorModel>,
    Seq<char>,
>
    decreases n,
{
    if n <= 0 {
        Ok(Seq::empty())
    } else {
        match described_monitors(list, n - 1) {
            Err(words) => Err(words),
            Ok(monitors) => match described_monitor(list[n - 1]) {
                Err(words) => Err(words),
                Ok(monitor) => Ok(monitors.push(monitor)),
            },
        }
    }
}

/// The monitors that a JSON value lists.
pub open spec fn listed_monitors(j: JsonModel) -> Result<Seq<MonitorModel>, Seq<char>> {
    match j {
        JsonModel::List(list) => described_monitors(list, list.len() as int),
        _ => Err("`monitors` response was not a JSON array"@),
    }
}

proof fn lemma_first_error_stays(list: Seq<JsonModel>, n: int, k: int)
    requires
        n <= k,
        described_monitors(list, n) is Err,
    ensures
        described_monitors(list, k) == described_monitors(list, n),
    decreases k - n,
{
    if n < k {
        lemma_first_error_stays(list, n, k - 1);
    }
}

/// The monitors that a JSON value lists.
pub fn monitors_from_json(value: &serde_json::Value) -> (res: Result<
    Vec<RealMonitor>,
    PlatformError,
>)
    ensures
        match res {
            Ok(monitors) => listed_monitors(json_view(*value)) == Ok::<
                Seq<MonitorModel>,
                Seq<char>,
            >(monitors_view(monitors@)),
            Err(e) => listed_monitors(json_view(*value)) matches Err(words) && is_hyprland_error(
                e,
                words,
            ),
        },
{
    let list = match json::as_array(value) {
        Some(list) => list,
        None => {
            return Err(
                PlatformError::Hyprland("`monitors` response was not a JSON array".to_owned()),
            );
        },
    };
    let ghost models = json_views(list@);
    let mut monitors: Vec<RealMonitor> = Vec::new();
    let mut i: usize = 0;
    assert(monitors_view(monitors@) =~= Seq::empty());
    while i < list.len()
        invariant
            i <= list@.len(),
            models == json_views(list@),
            json_view(*value) == JsonModel::List(models),
            described_monitors(models, i as int) == Ok::<Seq<MonitorModel>, Seq<char>>(
                monitors_view(monitors@),
            ),
        decreases list@.len() - i,
    {
        let ghost before = monitors_view(monitors@);
        match real_monitor_from_json(&list[i]) {
            Ok(monitor) => {
                monitors.push(monitor);
                assert(monitors_view(monitors@) =~= before.push(monitor@));
            },
            Err(e) => {
                proof {
                    lemma_first_error_stays(models, i + 1, models.len() as int);
                }
                return Err(e);
            },
        }
        i += 1;
    }
    Ok(monitors)
}

/// The monitor that counts as the primary one: the first that has the focus, else the first.
pub open spec fn primary_index(monitors: Seq<MonitorModel>) -> Option<int> {
    if exists|i: int| 0 <= i < monitors.len() && (#[trigger] monitors[i]).focused {
        Some(first_focused(monitors, 0))
    } else if monitors.len() > 0 {
        Some(0)
    } else {
        None
    }
}

/// The first monitor from `i` on that has the focus.
pub open spec fn first_focused(monitors: Seq<MonitorModel>, i: int) -> int
    decreases monitors.len() - i,
{
    if i >= monitors.len() || monitors[i].focused {
        i
    } else {
        first_focused(monitors, i + 1)
    }
}

/// The monitor that counts as the primary one.
pub fn primary_monitor(monitors: &[RealMonitor]) -> (res: Result<usize, PlatformError>)
    ensures
        match res {
            Ok(i) => {
                &&& i < monitors@.len()
                &&& primary_index(monitors_view(monitors@)) == Some(i as int)
            },
            Err(e) => {
                &&& primary_index(monitors_view(monitors@)) is None
                &&& is_hyprland_error(e, "no monitors reported"@)
            },
        },
{
    let ghost models = monitors_view(monitors@);
    let mut i: usize = 0;
    while i < monitors.len()
        invariant
            i <= monitors@.len(),
            models == monitors_view(monitors@),
            forall|j: int| 0 <= j < i ==> !(#[trigger] models[j]).focused,
            first_focused(models, 0) == first_focused(models, i as int),
        decreases monitors@.len() - i,
    {
        if monitors[i].focused {
            assert(models[i as int].focused);
            return Ok(i);
        }
        assert(!models[i as int].focused);
        i += 1;
    }
    if monitors.len() > 0 {
        Ok(0)
    } else {
        Err(PlatformError::Hyprland("no monitors reported".to_owned()))
    }
}

/// The first value from `i` on whose name is the given one.
pub open spec fn first_named(list: Seq<JsonModel>, name: Seq<char>, i: int) -> Option<int>
    decreases list.len() - i,
{
    if i >= list.len() {
        None
    } else if text_field(list[i], "name"@) == Some(name) {
        Some(i)
    } else {
        first_named(list, name, i + 1)
    }
}

/// The description of the monitor with the given name, in the answer to a request for all of them.
pub fn find_entry<'a>(value: &'a serde_json::Value, name: &str) -> (res: Result<
    &'a serde_json::Value,
    PlatformError,
>)
    ensures
        match res {
            Ok(entry) => {
                &&& json_view(*value) is List
                &&& first_named(json_view(*value)->List_0, name@, 0) matches Some(i) && json_view(
                    *entry,
                ) == json_view(*value)->List_0[i]
            },
            Err(e) => if json_view(*value) is List {
                first_named(json_view(*value)->List_0, name@, 0) is None && is_hyprland_error(
                    e,
                    "monitor "@ + name@ + " vanished between queries"@,
                )
            } else {
                is_hyprland_error(e, "`monitors` response was not a JSON array"@)
            },
        },
{
    let list = match json::as_array(value) {
        Some(list) => list,
        None => {
            return Err(
                PlatformError::Hyprland("`monitors` response was not a JSON array".to_owned()),
            );
        },
    };
    let ghost models = json_views(list@);
    let mut i: usize = 0;
    while i < list.len()
        invariant
            i <= list@.len(),
            models == json_views(list@),
            json_view(*value) == JsonModel::List(models),
            first_named(models, name@, 0) == first_named(models, name@, i as int),
        decreases list@.len() - i,
    {
        if let Some(found) = get_text(&list[i], "name") {
            if text::same_text(found, name) {
                return Ok(&list[i]);
            }
        }
        i += 1;
    }
    let mut words = "monitor ".to_owned();
    words.append(name);
    words.append(" vanished between queries");
    Err(PlatformError::Hyprland(words))
}

/// The refresh rate of a monitor that does not tell it, in millihertz.
pub const DEFAULT_REFRESH_MHZ: u32 = 60_000;

/// The scale of a monitor that does not tell it, in percent.
pub const DEFAULT_SCALE_PCT: u32 = 100;

/// The screen that a monitor is, with its refresh rate and its scale where it tells them.
pub fn screen_geometry(
    monitor: &RealMonitor,
    refresh_mhz: Option<u32>,
    scale_pct: Option<u32>,
) -> (screen: DisplayGeometry)
    ensures
        screen == (DisplayGeometry {
            width: monitor@.width,
            height: monitor@.height,
            refresh_mhz: match refresh_mhz {
                Some(rate) => rate,
                None => DEFAULT_REFRESH_MHZ,
            },
            scale_pct: match scale_pct {
                Some(scale) => scale,
                None => DEFAULT_SCALE_PCT,
            },
        }),
        refresh_mhz is None ==> screen.refresh_mhz == 60_000,
        scale_pct is None ==> screen.scale_pct == 100,
{
    DisplayGeometry {
        width: monitor.width,
        height: monitor.height,
        refresh_mhz: match refresh_mhz {
            Some(rate) => rate,
            None => DEFAULT_REFRESH_MHZ,
        },
        scale_pct: match scale_pct {
            Some(scale) => scale,
            None => DEFAULT_SCALE_PCT,
        },
    }
}

/// The words for a coordinate that is no number.
pub open spec fn bad_coordinate_words(raw: Seq<char>, e: IntError) -> Seq<char> {
    "parsing cursorpos `"@ + raw + "`: "@ + int_error_text(e)
}

/// The position of the cursor that an answer tells: two numbers with a comma between them, and
/// white space anywhere around them. Else the words for what is wrong with it.
pub open spec fn read_position(raw: Seq<char>) -> Result<Point, Seq<char>> {
    let t = trimmed(raw);
    match t.index_of_first(',') {
        None => Err("unexpected `cursorpos` response: "@ + raw),
        Some(i) => match read_i32(trimmed(t.take(i))) {
            Err(e) => Err(bad_coordinate_words(raw, e)),
            Ok(x) => match read_i32(trimmed(t.skip(i + 1))) {
                Err(e) => Err(bad_coordinate_words(raw, e)),
                Ok(y) => Ok(Point { x, y }),
            },
        },
    }
}

fn parse_coordinate(raw: &str, s: &str) -> (res: Result<i32, PlatformError>)
    ensures
        match res {
            Ok(n) => read_i32(trimmed(s@)) == Ok::<i32, IntError>(n),
            Err(e) => read_i32(trimmed(s@)) matches Err(why) && is_hyprland_error(
                e,
                bad_coordinate_words(raw@, why),
            ),
        },
{
    let digits = text::to_chars(text::trim(s));
    match text::parse_i32(digits.as_slice()) {
        Ok(n) => Ok(n),
        Err(why) => {
            let mut words = "parsing cursorpos `".to_owned();
            words.append(raw);
            words.append("`: ");
            words.append(why.text());
            Err(PlatformError::Hyprland(words))
        },
    }
}

/// The position of the cursor that an answer tells.
pub fn parse_position(raw: &str) -> (res: Result<Point, PlatformError>)
    ensures
        match res {
            Ok(p) => read_position(raw@) == Ok::<Point, Seq<char>>(p),
            Err(e) => read_position(raw@) matches Err(words) && is_hyprland_error(e, words),
        },
{
    let t = text::trim(raw);
    let chars = text::to_chars(t);
    let comma: usize = match text::find_char(chars.as_slice(), ',') {
        Some(i) => i,
        None => {
            let mut words = "unexpected `cursorpos` response: ".to_owned();
            words.append(raw);
            return Err(PlatformError::Hyprland(words));
        },
    };
    proof {
        t@.index_of_first_ensures(',');
        assert(t@.subrange(0, comma as int) =~= t@.take(comma as int));
        assert(t@.subrange(comma + 1, t@.len() as int) =~= t@.skip(comma + 1));
    }
    let x: i32 = match parse_coordinate(raw, t.substring_char(0, comma)) {
        Ok(x) => x,
        Err(e) => return Err(e),
    };
    let y: i32 = match parse_coordinate(raw, t.substring_char(comma + 1, chars.len())) {
        Ok(y) => y,
        Err(e) => return Err(e),
    };
    Ok(Point::new(x, y))
}

proof fn lemma_nothing_to_trim(s: Seq<char>)
    requires
        s.len() > 0,
        !text::white_space(s[0]),
        !text::white_space(s.last()),
    ensures
        trimmed(s) == s,
{
}

/// The answer that Hyprland gives for a cursor position is read as that position.
pub proof fn law_position_round_trip(p: Point)
    ensures
        read_position(signed_decimal(p.x as int) + seq![',', ' '] + signed_decimal(p.y as int))
            == Ok::<Point, Seq<char>>(p),
{
    let xs = signed_decimal(p.x as int);
    let ys = signed_decimal(p.y as int);
    let s = xs + seq![',', ' '] + ys;
    text::lemma_signed_decimal_chars(p.x as int);
    text::lemma_signed_decimal_chars(p.y as int);
    text::law_decimal_round_trip(p.x);
    text::law_decimal_round_trip(p.y);
    assert(s[0] == xs[0] && s.last() == ys.last());
    lemma_nothing_to_trim(s);
    lemma_nothing_to_trim(xs);
    lemma_nothing_to_trim(ys);
    s.index_of_first_ensures(',');
    assert(s[xs.len() as int] == ',');
    assert forall|j: int| 0 <= j < xs.len() implies s[j] != ',' by {
        assert(s[j] == xs[j]);
    }
    assert(s.take(xs.len() as int) =~= xs);
    let rest = s.skip(xs.len() as int + 1);
    assert(rest =~= seq![' '] + ys);
    assert(rest.drop_first() =~= ys);
    assert(text::trim_start(rest) == text::trim_start(ys));
}

/// The cursor of a machine that runs Hyprland.
#[derive(Debug, Clone, Copy, PartialEq, Eq, Structural)]
pub struct HyprlandCursor;

impl HyprlandCursor {
    pub fn new() -> (cursor: Self)
        ensures
            cursor == HyprlandCursor,
    {
        Self
    }
}

impl Default for HyprlandCursor {
    fn default() -> (cursor: Self)
        ensures
            cursor == HyprlandCursor,
    {
        Self::new()
    }
}

/// A number that an `i32` or a `u32` holds counts as it is, and any other by its low 32 bits.
pub proof fn law_numbers_count_by_their_low_bits(n: i64, m: u64)
    ensures
        i32::MIN <= n <= i32::MAX ==> wrap_i32(n) == n,
        (wrap_i32(n) - n) % 0x1_0000_0000 == 0,
        m <= 0xffff_ffff ==> wrap_u32(m) == m,
        (wrap_u32(m) - m) % 0x1_0000_0000 == 0,
{
}

/// An object that tells name, place and size is a monitor with just these; it has the focus where it
/// says so and not otherwise.
pub proof fn law_monitor_is_as_described(
    fields: Map<Seq<char>, JsonModel>,
    name: Seq<char>,
    x: i32,
    y: i32,
    width: u32,
    height: u32,
)
    requires
        fields.contains_key("name"@) && fields["name"@] == JsonModel::Text(name),
        fields.contains_key("x"@) && fields["x"@] == JsonModel::Number(NumberModel::Whole(x as int)),
        fields.contains_key("y"@) && fields["y"@] == JsonModel::Number(NumberModel::Whole(y as int)),
        fields.contains_key("width"@) && fields["width"@] == JsonModel::Number(
            NumberModel::Whole(width as int),
        ),
        fields.contains_key("height"@) && fields["height"@] == JsonModel::Number(
            NumberModel::Whole(height as int),
        ),
    ensures
        ({
            let told = described_monitor(JsonModel::Object(fields));
            &&& told is Ok
            &&& (told->Ok_0).name == name
            &&& (told->Ok_0).x == x && (told->Ok_0).y == y
            &&& (told->Ok_0).width == width && (told->Ok_0).height == height
            &&& (told->Ok_0).focused <==> fields.contains_key("focused"@) && fields["focused"@]
                == JsonModel::Bool(true)
        }),
{
}

/// A description that lacks one of these, or is no object at all, is no monitor.
pub proof fn law_incomplete_description_is_refused(j: JsonModel)
    ensures
        !(j is Object) ==> described_monitor(j) is Err,
        j matches JsonModel::Object(fields) ==> {
            &&& !fields.contains_key("name"@) ==> described_monitor(j) is Err
            &&& !fields.contains_key("x"@) ==> described_monitor(j) is Err
            &&& !fields.contains_key("y"@) ==> described_monitor(j) is Err
            &&& !fields.contains_key("width"@) ==> described_monitor(j) is Err
            &&& !fields.contains_key("height"@) ==> described_monitor(j) is Err
        },
{
}

/// A list of monitors is read as all of them, in order; one that describes no monitor spoils it.
pub proof fn law_all_monitors_are_read(list: Seq<JsonModel>, n: int)
    requires
        0 <= n <= list.len(),
    ensures
        match described_monitors(list, n) {
            Ok(monitors) => monitors.len() == n && forall|i: int|
                0 <= i < n ==> described_monitor(#[trigger] list[i]) == Ok::<
                    MonitorModel,
                    Seq<char>,
                >(monitors[i]),
            Err(words) => exists|k: int|
                0 <= k < n && described_monitor(#[trigger] list[k]) == Err::<
                    MonitorModel,
                    Seq<char>,
                >(words) && forall|i: int|
                    0 <= i < k ==> described_monitor(#[trigger] list[i]) is Ok,
        },
    decreases n,
{
    if n > 0 {
        law_all_monitors_are_read(list, n - 1);
        match described_monitors(list, n - 1) {
            Ok(monitors) => {
                assert forall|i: int| 0 <= i < n - 1 implies described_monitor(
                    #[trigger] list[i],
                ) is Ok by {}
                if described_monitor(list[n - 1]) is Err {
                    assert(described_monitors(list, n)->Err_0 == described_monitor(
                        list[n - 1],
                    )->Err_0);
                }
            },
            Err(words) => {
                let k = choose|k: int|
                    0 <= k < n - 1 && described_monitor(#[trigger] list[k]) == Err::<
                        MonitorModel,
                        Seq<char>,
                    >(words) && forall|i: int|
                        0 <= i < k ==> described_monitor(#[trigger] list[i]) is Ok;
                assert(described_monitor(list[k]) == Err::<MonitorModel, Seq<char>>(words));
            },
        }
    }
}

/// The primary monitor is the first with the focus; without any focus it is the first, and only
/// without monitors there is none.
pub proof fn law_focus_makes_the_primary_monitor(monitors: Seq<MonitorModel>)
    ensures
        primary_index(monitors) is None <==> monitors.len() == 0,
        primary_index(monitors) matches Some(i) ==> {
            &&& 0 <= i < monitors.len()
            &&& forall|j: int| 0 <= j < i ==> !(#[trigger] monitors[j]).focused
            &&& monitors[i].focused || (i == 0 && forall|j: int|
                0 <= j < monitors.len() ==> !(#[trigger] monitors[j]).focused)
        },
{
    lemma_first_focused(monitors, 0);
}

proof fn lemma_first_focused(monitors: Seq<MonitorModel>, i: int)
    requires
        0 <= i <= monitors.len(),
    ensures
        i <= first_focused(monitors, i) <= monitors.len(),
        forall|j: int| i <= j < first_focused(monitors, i) ==> !(#[trigger] monitors[j]).focused,
        first_focused(monitors, i) < monitors.len() ==> monitors[first_focused(
            monitors,
            i,
        )].focused,
    decreases monitors.len() - i,
{
    if i < monitors.len() && !monitors[i].focused {
        lemma_first_focused(monitors, i + 1);
    }
}

/// The description that is found is the first one with the name, and it is found wherever there is
/// one.
pub proof fn law_first_named_is_found(list: Seq<JsonModel>, name: Seq<char>, i: int)
    requires
        0 <= i <= list.len(),
    ensures
        match first_named(list, name, i) {
            Some(k) => i <= k < list.len() && list[k].field("name"@) == Some(JsonModel::Text(name))
                && forall|j: int|
                i <= j < k ==> (#[trigger] list[j]).field("name"@) != Some(JsonModel::Text(name)),
            None => forall|j: int|
                i <= j < list.len() ==> (#[trigger] list[j]).field("name"@) != Some(
                    JsonModel::Text(name),
                ),
        },
    decreases list.len() - i,
{
    if i < list.len() && text_field(list[i], "name"@) != Some(name) {
        law_first_named_is_found(list, name, i + 1);
    }
}

/// An answer without a comma tells no position.
pub proof fn law_position_needs_a_comma(raw: Seq<char>)
    requires
        !raw.contains(','),
    ensures
        read_position(raw) is Err,
{
    let t = trimmed(raw);
    text::law_trimmed_is_the_middle(raw);
    t.index_of_first_ensures(',');
    if t.index_of_first(',') is Some {
        let i = t.index_of_first(',')->0;
        let (from, to) = choose|from: int, to: int|
            #![trigger raw.subrange(from, to)]
            0 <= from <= to <= raw.len() && t == raw.subrange(from, to) && (forall|i: int|
                0 <= i < from ==> text::white_space(#[trigger] raw[i])) && (forall|i: int|
                to <= i < raw.len() ==> text::white_space(#[trigger] raw[i]));
        assert(t[i] == raw[from + i]);
        assert(raw.contains(raw[from + i]));
    }
}

/// A list with a monitor in each place is read as these monitors; what is no list is refused.
pub proof fn law_only_lists_hold_monitors(j: JsonModel)
    ensures
        !(j is List) ==> listed_monitors(j) is Err,
        j matches JsonModel::List(list) ==> ((forall|i: int|
            0 <= i < list.len() ==> described_monitor(#[trigger] list[i]) is Ok) ==> {
            &&& listed_monitors(j) is Ok
            &&& listed_monitors(j)->Ok_0.len() == list.len()
            &&& forall|i: int|
                0 <= i < list.len() ==> described_monitor(#[trigger] list[i]) == Ok::<
                    MonitorModel,
                    Seq<char>,
                >(listed_monitors(j)->Ok_0[i])
        }),
{
    if let JsonModel::List(list) = j {
        law_all_monitors_are_read(list, list.len() as int);
    }
}

} // verus!
