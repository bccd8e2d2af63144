//! Capturing the input devices: which ones, and what their events mean.
use crate::paths;
use crate::platform::{DeviceInfo, DeviceKind, DeviceModel};
use crate::text::{self, texts_view};
use vstd::prelude::*;

verus! {

/// What the names of the devices that this program makes begin with.
pub const OWN_DEVICE_PREFIX: &'static str = "smkb-";

/// The left mouse button.
pub const BTN_LEFT: u16 = 0x110;

/// The letter A.
pub const KEY_A: u16 = 30;

/// The space bar.
pub const KEY_SPACE: u16 = 57;

pub const REL_X: u16 = 0;

pub const REL_Y: u16 = 1;

pub const REL_HWHEEL: u16 = 6;

pub const REL_WHEEL: u16 = 8;

pub const REL_WHEEL_HI_RES: u16 = 11;

pub const REL_HWHEEL_HI_RES: u16 = 12;

/// High resolution units in one notch of a wheel.
pub const UNITS_PER_NOTCH: i32 = 120;

/// What an input device says of itself: its name, and the codes of the keys and the relative axes
/// that it has.
#[derive(Debug, Clone, PartialEq, Eq)]
pub struct DeviceTraits {
    pub name: Option<String>,
    pub keys: Option<Vec<u16>>,
    pub relative_axes: Option<Vec<u16>>,
}

/// The contents of a [`DeviceTraits`].
pub struct TraitsModel {
    pub name: Option<Seq<char>>,
    pub keys: Option<Seq<u16>>,
    pub relative_axes: Option<Seq<u16>>,
}

impl View for DeviceTraits {
    type V = TraitsModel;

    open spec fn view(&self) -> TraitsModel {
        TraitsModel {
            name: match self.name {
                Some(name) => Some(name@),
                None => None,
            },
            keys: match self.keys {
                Some(keys) => Some(keys@),
                None => None,
            },
            relative_axes: match self.relative_axes {
                Some(axes) => Some(axes@),
                None => None,
            },
        }
    }
}

/// Whether a device has a code, if it has any of that sort.
pub open spec fn has_code(codes: Option<Seq<u16>>, code: u16) -> bool {
    codes is Some && codes->0.contains(code)
}

/// Whether a device is one that this program made.
pub open spec fn is_own_device(t: TraitsModel) -> bool {
    t.name is Some && OWN_DEVICE_PREFIX@.is_prefix_of(t.name->0)
}

/// What a device is, if it is to be captured at all.
pub open spec fn kind_of(t: TraitsModel) -> Option<DeviceKind> {
    if is_own_device(t) {
        None
    } else if has_code(t.keys, BTN_LEFT) && has_code(t.relative_axes, REL_X) && has_code(
        t.relative_axes,
        REL_Y,
    ) {
        Some(DeviceKind::Mouse)
    } else if has_code(t.keys, KEY_A) && has_code(t.keys, KEY_SPACE) {
        Some(DeviceKind::Keyboard)
    } else if t.keys is Some && t.keys->0.len() > 0 {
        Some(DeviceKind::ConsumerControl)
    } else {
        None
    }
}

fn has(codes: &Option<Vec<u16>>, code: u16) -> (res: bool)
    ensures
        res == (codes is Some && codes->0@.contains(code)),
{
    match codes {
        Some(list) => {
            let mut i: usize = 0;
            while i < list.len()
                invariant
                    i <= list@.len(),
                    codes is Some && codes->0@ == list@,
                    forall|j: int| 0 <= j < i ==> list@[j] != code,
                decreases list@.len() - i,
            {
                if list[i] == code {
                    assert(list@[i as int] == code);
                    return true;
                }
                i += 1;
            }
            false
        },
        None => false,
    }
}

/// What a device is, if it is to be captured at all.
pub fn classify(device: &DeviceTraits) -> (kind: Option<DeviceKind>)
    ensures
        kind == kind_of(device@),
{
    if let Some(name) = &device.name {
        if text::starts_with(name.as_str(), OWN_DEVICE_PREFIX) {
            return None;
        }
    }
    if has(&device.keys, BTN_LEFT) && has(&device.relative_axes, REL_X) && has(
        &device.relative_axes,
        REL_Y,
    ) {
        return Some(DeviceKind::Mouse);
    }
    if has(&device.keys, KEY_A) && has(&device.keys, KEY_SPACE) {
        return Some(DeviceKind::Keyboard);
    }
    if let Some(keys) = &device.keys {
        if keys.len() > 0 {
            return Some(DeviceKind::ConsumerControl);
        }
    }
    None
}

/// Whether a name fits a pattern, upper and lower case ASCII letters being the same. A star at the
/// beginning or at the end of the pattern stands for any text.
pub open spec fn glob_matches(pattern: Seq<char>, name: Seq<char>) -> bool {
    let p = text::lower_case(pattern);
    let t = text::lower_case(name);
    let open_start = p.len() > 0 && p[0] == '*';
    let open_end = p.len() > 0 && p.last() == '*';
    if open_start && open_end && p.len() > 1 {
        text::occurs_in(p.subrange(1, p.len() - 1), t)
    } else if open_start {
        p.skip(1).is_suffix_of(t)
    } else if open_end {
        p.take(p.len() - 1).is_prefix_of(t)
    } else {
        t == p
    }
}

/// Whether a name fits a pattern.
pub fn glob_match(pattern: &str, name: &str) -> (res: bool)
    ensures
        res == glob_matches(pattern@, name@),
{
    let p = text::to_lower_chars(pattern);
    let t = text::to_lower_chars(name);
    let n: usize = p.len();
    let open_start = n > 0 && p[0] == '*';
    let open_end = n > 0 && p[n - 1] == '*';
    if open_start && open_end && n > 1 {
        text::contains_text(vstd::slice::slice_subrange(p.as_slice(), 1, n - 1), t.as_slice())
    } else if open_start {
        let suffix = vstd::slice::slice_subrange(p.as_slice(), 1, n);
        assert(p@.skip(1) =~= suffix@);
        suffix.len() <= t.len() && text::is_at(suffix, t.as_slice(), t.len() - suffix.len())
    } else if open_end {
        let prefix = vstd::slice::slice_subrange(p.as_slice(), 0, n - 1);
        assert(p@.take(n - 1) =~= prefix@);
        text::is_at(prefix, t.as_slice(), 0)
    } else {
        let res = p.len() == t.len() && text::is_at(p.as_slice(), t.as_slice(), 0);
        assert(t@.subrange(0, t@.len() as int) =~= t@);
        res
    }
}

/// Whether a path names the same place as one of a list.
pub open spec fn any_same_path(listed: Seq<Seq<char>>, path: Seq<char>) -> bool {
    exists|i: int|
        0 <= i < listed.len() && paths::path_model(#[trigger] listed[i]) == paths::path_model(path)
}

/// Whether a name fits one of the patterns.
pub open spec fn any_matches(patterns: Seq<Seq<char>>, name: Seq<char>) -> bool {
    exists|i: int| 0 <= i < patterns.len() && glob_matches(#[trigger] patterns[i], name)
}

/// Which devices are captured: those whose path is listed, where a list is given; else those whose
/// name fits no exclusion pattern, without the consumer control devices if those are not wanted.
pub open spec fn is_wanted(
    d: DeviceModel,
    explicit: Option<Seq<Seq<char>>>,
    exclude: Seq<Seq<char>>,
    include_consumer_control: bool,
) -> bool {
    match explicit {
        Some(listed) => any_same_path(listed, d.path),
        None => {
            &&& include_consumer_control || d.kind != DeviceKind::ConsumerControl
            &&& !any_matches(exclude, d.name)
        },
    }
}

/// The contents of a list of paths, where one is given.
pub open spec fn listed_view(explicit: Option<&[String]>) -> Option<Seq<Seq<char>>> {
    match explicit {
        Some(listed) => Some(texts_view(listed@)),
        None => None,
    }
}

/// [`is_wanted`] as a test of a device.
pub open spec fn wanted_by(
    explicit: Option<Seq<Seq<char>>>,
    exclude: Seq<Seq<char>>,
    include_consumer_control: bool,
) -> spec_fn(DeviceInfo) -> bool {
    |d: DeviceInfo| is_wanted(d@, explicit, exclude, include_consumer_control)
}

/// Whether a path is listed.
fn is_listed(paths: &[String], path: &str) -> (res: bool)
    ensures
        res == any_same_path(texts_view(paths@), path@),
{
    let mut i: usize = 0;
    while i < paths.len()
        invariant
            i <= paths@.len(),
            forall|j: int|
                0 <= j < i ==> paths::path_model(#[trigger] texts_view(paths@)[j])
                    != paths::path_model(path@),
        decreases paths@.len() - i,
    {
        if paths::same_path(paths[i].as_str(), path) {
            assert(texts_view(paths@)[i as int] == paths@[i as int]@);
            return true;
        }
        i += 1;
    }
    false
}

/// Whether a name fits one of the patterns.
fn is_excluded(patterns: &[String], name: &str) -> (res: bool)
    ensures
        res == any_matches(texts_view(patterns@), name@),
{
    let mut i: usize = 0;
    while i < patterns.len()
        invariant
            i <= patterns@.len(),
            forall|j: int|
                0 <= j < i ==> !glob_matches(#[trigger] texts_view(patterns@)[j], name@),
        decreases patterns@.len() - i,
    {
        if glob_match(patterns[i].as_str(), name) {
            assert(texts_view(patterns@)[i as int] == patterns@[i as int]@);
            return true;
        }
        i += 1;
    }
    false
}

/// Whether a device is captured.
fn wanted(
    d: &DeviceInfo,
    explicit: Option<&[String]>,
    exclude_patterns: &[String],
    include_consumer_control: bool,
) -> (res: bool)
    ensures
        res == is_wanted(
            d@,
            listed_view(explicit),
            texts_view(exclude_patterns@),
            include_consumer_control,
        ),
{
    if let Some(paths) = explicit {
        return is_listed(paths, d.path.as_str());
    }
    if !include_consumer_control && d.kind == DeviceKind::ConsumerControl {
        return false;
    }
    !is_excluded(exclude_patterns, d.name.as_str())
}

/// Keep the devices that are captured, in their order.
pub fn apply_filters(
    devices: &mut Vec<DeviceInfo>,
    explicit: Option<&[String]>,
    exclude_patterns: &[String],
    include_consumer_control: bool,
)
    ensures
        final(devices)@ == old(devices)@.filter(
            wanted_by(
                listed_view(explicit),
                texts_view(exclude_patterns@),
                include_consumer_control,
            ),
        ),
{
    let ghost all = devices@;
    let ghost keep = wanted_by(
        listed_view(explicit),
        texts_view(exclude_patterns@),
        include_consumer_control,
    );
    let ghost mut seen: int = 0;
    let mut i: usize = 0;
    proof {
        reveal(Seq::filter);
        assert(all.take(0).filter(keep) =~= Seq::empty());
        assert(devices@.take(0) =~= Seq::empty());
        assert(all.skip(0) =~= all);
        assert(devices@.skip(0) =~= devices@);
    }
    while i < devices.len()
        invariant
            i <= devices@.len(),
            0 <= seen <= all.len(),
            keep == wanted_by(
                listed_view(explicit),
                texts_view(exclude_patterns@),
                include_consumer_control,
            ),
            devices@.len() - i == all.len() - seen,
            devices@.take(i as int) == all.take(seen).filter(keep),
            devices@.skip(i as int) == all.skip(seen),
        decreases devices@.len() - i,
    {
        let ghost before = devices@;
        proof {
            assert(before[i as int] == before.skip(i as int)[0]);
            assert(all.skip(seen)[0] == all[seen]);
            assert(all.take(seen + 1).drop_last() =~= all.take(seen));
            assert(all.take(seen + 1).last() == all[seen]);
            reveal(Seq::filter);
            assert(all.skip(seen + 1) =~= all.skip(seen).drop_first());
        }
        if wanted(&devices[i], explicit, exclude_patterns, include_consumer_control) {
            proof {
                assert(before.take(i + 1) =~= before.take(i as int).push(before[i as int]));
                assert(before.skip(i + 1) =~= before.skip(i as int).drop_first());
            }
            i += 1;
        } else {
            devices.remove(i);
            proof {
                assert(devices@.take(i as int) =~= before.take(i as int));
                assert(devices@.skip(i as int) =~= before.skip(i as int).drop_first());
            }
        }
        proof {
            seen = seen + 1;
        }
    }
    proof {
        assert(devices@.skip(i as int).len() == 0);
        assert(all.skip(seen).len() == 0);
        assert(all.take(seen) =~= all);
        assert(devices@.take(i as int) =~= devices@);
    }
}

/// The device that is captured for what was found at a path, if any.
pub fn describe_device(path: String, device: &DeviceTraits) -> (info: Option<DeviceInfo>)
    ensures
        match info {
            Some(info) => {
                &&& kind_of(device@) == Some(info.kind)
                &&& info.path@ == path@
                &&& info.name@ == (match device@.name {
                    Some(name) => name,
                    None => "<unnamed>"@,
                })
            },
            None => kind_of(device@) is None,
        },
{
    match classify(device) {
        Some(kind) => {
            let name = match &device.name {
                Some(name) => name.clone(),
                None => "<unnamed>".to_owned(),
            };
            Some(DeviceInfo { path, name, kind })
        },
        None => None,
    }
}

/// What a device is goes by what it can do: the left button (0x110) and both axes make a mouse,
/// whatever else it has; the letter A (30) and the space bar (57) make a keyboard; any other key makes
/// a consumer control; without keys it is not captured.
pub proof fn law_devices_go_by_their_keys(t: TraitsModel)
    requires
        t.name is None,
    ensures
        ({
            let key = |code: u16| t.keys is Some && t.keys->0.contains(code);
            let axis = |code: u16| t.relative_axes is Some && t.relative_axes->0.contains(code);
            let mouse = key(0x110) && axis(0) && axis(1);
            let keyboard = key(30) && key(57);
            &&& mouse <==> kind_of(t) == Some(DeviceKind::Mouse)
            &&& !mouse && keyboard <==> kind_of(t) == Some(DeviceKind::Keyboard)
            &&& !mouse && !keyboard && (exists|code: u16| #[trigger] key(code)) <==> kind_of(t)
                == Some(DeviceKind::ConsumerControl)
            &&& kind_of(t) is None <==> forall|code: u16| !#[trigger] key(code)
        }),
{
    let key = |code: u16| t.keys is Some && t.keys->0.contains(code);
    if t.keys is Some && t.keys->0.len() > 0 {
        assert(t.keys->0.contains(t.keys->0[0]));
        assert(key(t.keys->0[0]));
    }
    if exists|code: u16| #[trigger] key(code) {
        let code = choose|code: u16| #[trigger] key(code);
        assert(t.keys->0.contains(code));
    }
}

/// A device whose name begins with `smkb-` is not captured, whatever it can do, and any other name
/// makes no difference.
pub proof fn law_only_own_devices_are_left_out(t: TraitsModel)
    requires
        t.name is Some,
    ensures
        ({
            let name = t.name->0;
            let own = name.len() >= 5 && name[0] == 's' && name[1] == 'm' && name[2] == 'k'
                && name[3] == 'b' && name[4] == '-';
            &&& own ==> kind_of(t) is None
            &&& !own ==> kind_of(t) == kind_of(TraitsModel { name: None, ..t })
        }),
{
    reveal_strlit("smkb-");
    let name = t.name->0;
    if name.len() >= 5 && name[0] == 's' && name[1] == 'm' && name[2] == 'k' && name[3] == 'b'
        && name[4] == '-' {
        assert("smkb-"@ =~= name.subrange(0, 5));
        assert(OWN_DEVICE_PREFIX@.is_prefix_of(name));
    } else if OWN_DEVICE_PREFIX@.is_prefix_of(name) {
        assert("smkb-"@ =~= name.subrange(0, 5));
        assert(name.subrange(0, 5)[0] == name[0]);
        assert(name.subrange(0, 5)[1] == name[1]);
        assert(name.subrange(0, 5)[2] == name[2]);
        assert(name.subrange(0, 5)[3] == name[3]);
        assert(name.subrange(0, 5)[4] == name[4]);
    }
}

proof fn lemma_lower_of_parts(a: Seq<char>, b: Seq<char>)
    ensures
        text::lower_case(a + b) == text::lower_case(a) + text::lower_case(b),
        text::lower_case(seq!['*']) == seq!['*'],
        text::lower_case(a).len() == a.len(),
{
    assert(text::lower_case(a + b) =~= text::lower_case(a) + text::lower_case(b));
    assert(text::lower_case(seq!['*']) =~= seq!['*']);
}

proof fn lemma_lower_star(s: Seq<char>, i: int)
    requires
        0 <= i < s.len(),
    ensures
        text::lower_case(s)[i] == '*' <==> s[i] == '*',
{
}

/// Upper and lower case ASCII letters are the same to a pattern.
pub proof fn law_patterns_ignore_case(p: Seq<char>, q: Seq<char>, s: Seq<char>, t: Seq<char>)
    requires
        text::lower_case(p) == text::lower_case(q),
        text::lower_case(s) == text::lower_case(t),
    ensures
        glob_matches(p, s) == glob_matches(q, t),
{
}

/// A pattern with a star at neither end stands for one name only.
pub proof fn law_plain_pattern_is_the_name(pattern: Seq<char>, name: Seq<char>)
    requires
        pattern.len() > 0 ==> pattern[0] != '*' && pattern.last() != '*',
    ensures
        glob_matches(pattern, name) <==> text::lower_case(name) == text::lower_case(pattern),
{
    if pattern.len() > 0 {
        lemma_lower_star(pattern, 0);
        lemma_lower_star(pattern, pattern.len() - 1);
    }
}

/// A pattern with a star at its end stands for the names that begin with what is before the star.
pub proof fn law_star_at_the_end(part: Seq<char>, name: Seq<char>)
    requires
        part.len() > 0,
        part[0] != '*',
    ensures
        glob_matches(part + seq!['*'], name) <==> part.len() <= name.len() && text::lower_case(
            name.take(part.len() as int),
        ) == text::lower_case(part),
{
    let p = text::lower_case(part + seq!['*']);
    let t = text::lower_case(name);
    lemma_lower_of_parts(part, seq!['*']);
    lemma_lower_star(part, 0);
    assert(p.take(p.len() - 1) =~= text::lower_case(part));
    if part.len() <= name.len() {
        assert(text::lower_case(name.take(part.len() as int)) =~= t.subrange(
            0,
            part.len() as int,
        ));
    }
}

/// A pattern with a star at its beginning stands for the names that end with what is behind the star.
pub proof fn law_star_at_the_beginning(part: Seq<char>, name: Seq<char>)
    requires
        part.len() > 0,
        part.last() != '*',
    ensures
        glob_matches(seq!['*'] + part, name) <==> part.len() <= name.len() && text::lower_case(
            name.skip(name.len() - part.len()),
        ) == text::lower_case(part),
{
    let p = text::lower_case(seq!['*'] + part);
    let t = text::lower_case(name);
    lemma_lower_of_parts(seq!['*'], part);
    lemma_lower_star(part, part.len() - 1);
    assert(p.skip(1) =~= text::lower_case(part));
    assert(p.last() == text::lower_case(part).last());
    if part.len() <= name.len() {
        assert(text::lower_case(name.skip(name.len() - part.len())) =~= t.subrange(
            t.len() - part.len(),
            t.len() as int,
        ));
    }
}

/// A pattern with a star at both ends stands for the names that hold what is between the stars, and a
/// star alone for all names.
pub proof fn law_star_at_both_ends(part: Seq<char>, name: Seq<char>)
    ensures
        glob_matches(seq!['*'] + part + seq!['*'], name) <==> exists|at: int|
            0 <= at <= name.len() - part.len() && text::lower_case(
                #[trigger] name.subrange(at, at + part.len()),
            ) == text::lower_case(part),
        glob_matches(seq!['*'], name),
{
    let p = text::lower_case(seq!['*'] + part + seq!['*']);
    let t = text::lower_case(name);
    let inner = text::lower_case(part);
    lemma_lower_of_parts(seq!['*'], part);
    lemma_lower_of_parts(seq!['*'] + part, seq!['*']);
    assert(p.subrange(1, p.len() - 1) =~= inner);
    assert(p[0] == '*' && p.last() == '*');
    assert forall|at: int| 0 <= at <= name.len() - part.len() implies text::lower_case(
        #[trigger] name.subrange(at, at + part.len()),
    ) == t.subrange(at, at + part.len()) by {
        assert(text::lower_case(name.subrange(at, at + part.len())) =~= t.subrange(
            at,
            at + part.len(),
        ));
    }
    if text::occurs_in(inner, t) {
        let at = choose|at: int| #[trigger] text::stands_at(inner, t, at);
        assert(text::lower_case(name.subrange(at, at + part.len())) == inner);
    }
    if exists|at: int|
        0 <= at <= name.len() - part.len() && text::lower_case(
            #[trigger] name.subrange(at, at + part.len()),
        ) == inner {
        let at = choose|at: int|
            0 <= at <= name.len() - part.len() && text::lower_case(
                #[trigger] name.subrange(at, at + part.len()),
            ) == inner;
        assert(text::stands_at(inner, t, at));
    }
    let star = text::lower_case(seq!['*']);
    assert(star =~= seq!['*']);
    assert(star.skip(1) =~= Seq::<char>::empty());
    assert(t.subrange(t.len() as int, t.len() as int) =~= Seq::<char>::empty());
}

/// Where devices are listed, just the listed ones are wanted, whatever the patterns say.
pub proof fn law_list_decides_alone(
    d: DeviceModel,
    listed: Seq<Seq<char>>,
    exclude: Seq<Seq<char>>,
    include_consumer_control: bool,
)
    ensures
        listed.contains(d.path) ==> is_wanted(d, Some(listed), exclude, include_consumer_control),
        listed.len() == 0 ==> !is_wanted(d, Some(listed), exclude, include_consumer_control),
        is_wanted(d, Some(listed), exclude, include_consumer_control) <==> is_wanted(
            DeviceModel { name: Seq::empty(), kind: DeviceKind::Mouse, ..d },
            Some(listed),
            Seq::empty(),
            false,
        ),
{
    if listed.contains(d.path) {
        let i = choose|i: int| 0 <= i < listed.len() && listed[i] == d.path;
        assert(paths::path_model(listed[i]) == paths::path_model(d.path));
    }
}

/// Where no devices are listed, one whose name fits a pattern is left out, and so is a consumer
/// control where those are not wanted; every other device is wanted.
pub proof fn law_patterns_leave_devices_out(
    d: DeviceModel,
    exclude: Seq<Seq<char>>,
    include_consumer_control: bool,
)
    ensures
        forall|i: int|
            0 <= i < exclude.len() && glob_matches(#[trigger] exclude[i], d.name) ==> !is_wanted(
                d,
                None,
                exclude,
                include_consumer_control,
            ),
        d.kind == DeviceKind::ConsumerControl && !include_consumer_control ==> !is_wanted(
            d,
            None,
            exclude,
            include_consumer_control,
        ),
        (forall|i: int| 0 <= i < exclude.len() ==> !glob_matches(#[trigger] exclude[i], d.name))
            && (d.kind != DeviceKind::ConsumerControl || include_consumer_control) ==> is_wanted(
            d,
            None,
            exclude,
            include_consumer_control,
        ),
{
}

} // verus!
