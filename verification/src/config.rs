//! The configuration of the master, as far as it is not measured in fractions.
use crate::event::Edge;
use crate::keys::{self, evdev_key_code};
use crate::paths::{self, tilde_expanded};
use crate::text::{self, texts_view};
use vstd::prelude::*;

verus! {

/// A setting that is chosen automatically, or fixed.
#[derive(Debug, Clone)]
pub enum AutoOr<T> {
    Auto,
    Fixed(T),
}

impl<T> Default for AutoOr<T> {
    fn default() -> (setting: Self)
        ensures
            setting is Auto,
    {
        AutoOr::Auto
    }
}

/// What stands in a configuration file for a setting: a text, or a value of another form.
#[derive(Debug, Clone)]
pub enum Repr<T> {
    Str(String),
    Val(T),
}

impl<T> AutoOr<T> {
    /// The setting that the file means. The only text that is allowed is `auto`; any other is the
    /// error.
    pub fn from_repr(repr: Repr<T>) -> (res: Result<AutoOr<T>, String>)
        ensures
            match repr {
                Repr::Str(s) => if s@ == "auto"@ {
                    res == Ok::<AutoOr<T>, String>(AutoOr::Auto)
                } else {
                    res == Err::<AutoOr<T>, String>(s)
                },
                Repr::Val(v) => res == Ok::<AutoOr<T>, String>(AutoOr::Fixed(v)),
            },
    {
        match repr {
            Repr::Str(s) => {
                if text::same_text(s.as_str(), "auto") {
                    Ok(AutoOr::Auto)
                } else {
                    Err(s)
                }
            },
            Repr::Val(v) => Ok(AutoOr::Fixed(v)),
        }
    }
}

/// Whether the master announces itself on the network.
#[derive(Debug, Clone, Copy, PartialEq, Eq, Structural)]
pub struct DiscoveryConfig {
    pub mdns: bool,
}

impl Default for DiscoveryConfig {
    fn default() -> (config: Self)
        ensures
            config.mdns,
    {
        Self { mdns: true }
    }
}

/// The side of a monitor over which the pointer leaves, and how often it is looked for there, in
/// milliseconds.
#[derive(Debug, Clone)]
pub struct EdgeConfig {
    pub monitor: String,
    pub side: Edge,
    pub poll_ms: u64,
}

/// How often the pointer is looked for where nothing else is set.
pub fn default_poll_ms() -> (ms: u64)
    ensures
        ms == 8,
{
    8
}

/// Which devices are captured.
#[derive(Debug, Clone)]
pub struct CaptureConfig {
    pub devices: AutoOr<Vec<String>>,
    pub exclude: Vec<String>,
    pub include_consumer_control: bool,
}

impl Default for CaptureConfig {
    fn default() -> (config: Self)
        ensures
            config.devices is Auto,
            config.exclude@.len() == 0,
            !config.include_consumer_control,
    {
        Self { devices: AutoOr::Auto, exclude: Vec::new(), include_consumer_control: false }
    }
}

/// A switch that is on where nothing else is set.
pub fn default_true() -> (on: bool)
    ensures
        on,
{
    true
}

/// The hotkey that ends a capture, and how long the slave may be silent, in milliseconds.
#[derive(Debug, Clone)]
pub struct SafetyConfig {
    pub panic_hotkey: Vec<String>,
    pub watchdog_ms: u64,
}

/// The hotkey where nothing else is set.
pub fn default_panic_hotkey() -> (names: Vec<String>)
    ensures
        texts_view(names@) == seq!["KEY_LEFTCTRL"@, "KEY_LEFTALT"@, "KEY_ESC"@],
{
    let mut names: Vec<String> = Vec::new();
    names.push("KEY_LEFTCTRL".to_owned());
    names.push("KEY_LEFTALT".to_owned());
    names.push("KEY_ESC".to_owned());
    assert(texts_view(names@) =~= seq!["KEY_LEFTCTRL"@, "KEY_LEFTALT"@, "KEY_ESC"@]);
    names
}

/// How long the slave may be silent where nothing else is set.
pub fn default_watchdog_ms() -> (ms: u64)
    ensures
        ms == 1000,
{
    1000
}

impl Default for SafetyConfig {
    fn default() -> (config: Self)
        ensures
            texts_view(config.panic_hotkey@) == seq![
                "KEY_LEFTCTRL"@,
                "KEY_LEFTALT"@,
                "KEY_ESC"@,
            ],
            config.watchdog_ms == 1000,
    {
        Self { panic_hotkey: default_panic_hotkey(), watchdog_ms: default_watchdog_ms() }
    }
}

/// The configuration of the master.
#[derive(Debug, Clone)]
pub struct Config {
    pub listen: String,
    pub psk_file: String,
    pub discovery: DiscoveryConfig,
    pub edge: EdgeConfig,
    pub capture: CaptureConfig,
    pub safety: SafetyConfig,
}

/// The codes of several keys, given the code of each that is known; or the first name that is not
/// known.
pub open spec fn all_codes(names: Seq<Seq<char>>, codes: Seq<Option<u16>>, n: int) -> Result<
    Seq<u16>,
    Seq<char>,
>
    decreases n,
{
    if n <= 0 {
        Ok(Seq::empty())
    } else {
        match all_codes(names, codes, n - 1) {
            Err(name) => Err(name),
            Ok(known) => match codes[n - 1] {
                Some(code) => Ok(known.push(code)),
                None => Err(names[n - 1]),
            },
        }
    }
}

proof fn lemma_first_unknown_stays(
    names: Seq<Seq<char>>,
    codes: Seq<Option<u16>>,
    n: int,
    k: int,
)
    requires
        n <= k,
        all_codes(names, codes, n) is Err,
    ensures
        all_codes(names, codes, k) == all_codes(names, codes, n),
    decreases k - n,
{
    if n < k {
        lemma_first_unknown_stays(names, codes, n, k - 1);
    }
}

/// The codes of several keys, given the code of each that is known; or the first name that is not
/// known.
pub fn collect_codes(names: &[String], codes: &[Option<u16>]) -> (res: Result<Vec<u16>, String>)
    requires
        names@.len() == codes@.len(),
    ensures
        match res {
            Ok(known) => all_codes(texts_view(names@), codes@, names@.len() as int) == Ok::<
                Seq<u16>,
                Seq<char>,
            >(known@),
            Err(name) => all_codes(texts_view(names@), codes@, names@.len() as int) == Err::<
                Seq<u16>,
                Seq<char>,
            >(name@),
        },
{
    let mut known: Vec<u16> = Vec::new();
    let mut i: usize = 0;
    while i < names.len()
        invariant
            i <= names@.len(),
            names@.len() == codes@.len(),
            all_codes(texts_view(names@), codes@, i as int) == Ok::<Seq<u16>, Seq<char>>(known@),
        decreases names@.len() - i,
    {
        match codes[i] {
            Some(code) => known.push(code),
            None => {
                proof {
                    lemma_first_unknown_stays(
                        texts_view(names@),
                        codes@,
                        i + 1,
                        names@.len() as int,
                    );
                }
                return Err(names[i].clone());
            },
        }
        i += 1;
    }
    Ok(known)
}

/// The code that each of several names stands for.
pub open spec fn known_codes(names: Seq<Seq<char>>) -> Seq<Option<u16>> {
    names.map_values(|name: Seq<char>| evdev_key_code(name))
}

impl Config {
    /// The path of the file with the shared secret.
    pub fn psk_path(&self, home: Option<&str>) -> (path: String)
        ensures
            path@ == tilde_expanded(
                self.psk_file@,
                match home {
                    Some(home) => home@,
                    None => "/"@,
                },
            ),
    {
        paths::expand_tilde(self.psk_file.as_str(), home)
    }

    /// The codes of the keys of the hotkey, or the first name that is not that of a key.
    pub fn panic_hotkey_codes(&self) -> (res: Result<Vec<u16>, String>)
        ensures
            ({
                let names = texts_view(self.safety.panic_hotkey@);
                let codes = all_codes(names, known_codes(names), names.len() as int);
                match res {
                    Ok(known) => codes == Ok::<Seq<u16>, Seq<char>>(known@),
                    Err(name) => codes == Err::<Seq<u16>, Seq<char>>(name@),
                }
            }),
    {
        let names = &self.safety.panic_hotkey;
        let mut codes: Vec<Option<u16>> = Vec::new();
        let mut i: usize = 0;
        while i < names.len()
            invariant
                i <= names@.len(),
                codes@ == known_codes(texts_view(names@).take(i as int)),
            decreases names@.len() - i,
        {
            codes.push(keys::key_code(names[i].as_str()));
            i += 1;
            assert(codes@ =~= known_codes(texts_view(names@).take(i as int)));
        }
        proof {
            assert(texts_view(names@).take(i as int) =~= texts_view(names@));
        }
        collect_codes(names.as_slice(), codes.as_slice())
    }
}

/// A hotkey is usable just where every name is known, and then has the code of each name in order;
/// else the first unknown name is told.
pub proof fn law_hotkey_has_the_code_of_each_name(
    names: Seq<Seq<char>>,
    codes: Seq<Option<u16>>,
    n: int,
)
    requires
        0 <= n <= names.len(),
        names.len() == codes.len(),
    ensures
        match all_codes(names, codes, n) {
            Ok(known) => known.len() == n && forall|i: int|
                0 <= i < n ==> #[trigger] codes[i] == Some(known[i]),
            Err(name) => exists|k: int|
                0 <= k < n && (#[trigger] codes[k]) is None && names[k] == name && forall|i: int|
                    0 <= i < k ==> (#[trigger] codes[i]) is Some,
        },
    decreases n,
{
    if n > 0 {
        law_hotkey_has_the_code_of_each_name(names, codes, n - 1);
        match all_codes(names, codes, n - 1) {
            Ok(known) => {
                assert(forall|i: int| 0 <= i < n - 1 ==> (#[trigger] codes[i]) is Some);
                if codes[n - 1] is None {
                    assert(names[n - 1] == all_codes(names, codes, n)->Err_0);
                }
            },
            Err(name) => {
                let k = choose|k: int|
                    0 <= k < n - 1 && (#[trigger] codes[k]) is None && names[k] == name && forall|
                        i: int,
                    |
                        0 <= i < k ==> (#[trigger] codes[i]) is Some;
                assert(codes[k] is None);
            },
        }
    }
}

/// Each name is looked up by itself.
pub proof fn law_names_are_looked_up(names: Seq<Seq<char>>, i: int)
    requires
        0 <= i < names.len(),
    ensures
        known_codes(names).len() == names.len(),
        known_codes(names)[i] == evdev_key_code(names[i]),
{
}

} // verus!
