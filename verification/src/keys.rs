//! Names and codes of keys.
use crate::text;
use vstd::prelude::*;

verus! {

/// The name that `evdev` has for a key code.
pub uninterp spec fn evdev_key_name(code: u16) -> Seq<char>;

/// The key code that `evdev` knows under a name, if it knows the name.
pub uninterp spec fn evdev_key_code(name: Seq<char>) -> Option<u16>;

/// `evdev::KeyCode` written for debugging: the name of the key in `evdev`'s table, or other words
/// for a code that the table lacks. What the table holds is not stated.
#[verifier::external_body]
pub(crate) fn key_name(code: u16) -> (name: String)
    ensures
        name@ == evdev_key_name(code),
{
    format!("{:?}", evdev::KeyCode(code))
}

/// `evdev::KeyCode::from_str`: the code that `evdev`'s table has for a name. What the table holds
/// is not stated.
#[verifier::external_body]
pub(crate) fn key_code(name: &str) -> (code: Option<u16>)
    ensures
        code == evdev_key_code(name@),
{
    name.parse::<evdev::KeyCode>().ok().map(|code| code.0)
}

/// Whether a name is that of a key of a keyboard, not of a button.
pub open spec fn names_keyboard_key(name: Seq<char>) -> bool {
    "KEY_"@.is_prefix_of(name)
}

/// Whether a name is that of a key of a keyboard, not of a button.
pub fn is_keyboard_name(name: &str) -> (res: bool)
    ensures
        res == names_keyboard_key(name@),
{
    text::starts_with(name, "KEY_")
}

/// Whether a code is that of a key of a keyboard.
pub fn is_keyboard_key(code: u16) -> (res: bool)
    ensures
        res == names_keyboard_key(evdev_key_name(code)),
{
    is_keyboard_name(key_name(code).as_str())
}

/// The codes from `from` on, and before `end`, that are keys of a keyboard.
pub open spec fn keyboard_keys_from(from: int, end: int) -> Seq<u16>
    decreases end - from,
{
    if from >= end {
        Seq::empty()
    } else if names_keyboard_key(evdev_key_name(from as u16)) {
        seq![from as u16] + keyboard_keys_from(from + 1, end)
    } else {
        keyboard_keys_from(from + 1, end)
    }
}

/// The codes from `from` on, and before `end`, that are keys of a keyboard.
pub fn keyboard_keys(from: u16, end: u16) -> (keys: Vec<u16>)
    ensures
        keys@ == keyboard_keys_from(from as int, end as int),
{
    let mut keys: Vec<u16> = Vec::new();
    let mut code: u16 = from;
    assert(keys@ + keyboard_keys_from(from as int, end as int) =~= keyboard_keys_from(
        from as int,
        end as int,
    ));
    while code < end
        invariant
            keys@ + keyboard_keys_from(code as int, end as int) == keyboard_keys_from(
                from as int,
                end as int,
            ),
        decreases end - code,
    {
        let ghost before = keys@;
        if is_keyboard_key(code) {
            keys.push(code);
        }
        proof {
            let rest = keyboard_keys_from(code + 1, end as int);
            assert(before.push(code) + rest =~= before + (seq![code] + rest));
        }
        code += 1;
    }
    assert(keys@ + Seq::empty() =~= keys@);
    keys
}

/// The keys of a keyboard are the codes in the range whose names begin with `KEY_`, each once and in
/// increasing order.
pub proof fn law_keyboard_has_all_its_keys(from: int, end: int)
    requires
        0 <= from,
        end <= 0x1_0000,
    ensures
        ({
            let keys = keyboard_keys_from(from, end);
            &&& forall|c: u16| #[trigger]
                keys.contains(c) <==> from <= c < end && {
                    let name = evdev_key_name(c);
                    name.len() >= 4 && name[0] == 'K' && name[1] == 'E' && name[2] == 'Y' && name[3]
                        == '_'
                }
            &&& forall|i: int, j: int| 0 <= i < j < keys.len() ==> keys[i] < keys[j]
        }),
    decreases end - from,
{
    let keys = keyboard_keys_from(from, end);
    if from < end {
        let rest = keyboard_keys_from(from + 1, end);
        let here = from as u16;
        law_keyboard_has_all_its_keys(from + 1, end);
        lemma_key_prefix(evdev_key_name(here));
        assert forall|c: u16| #[trigger] keys.contains(c) <==> from <= c < end && {
            let name = evdev_key_name(c);
            name.len() >= 4 && name[0] == 'K' && name[1] == 'E' && name[2] == 'Y' && name[3] == '_'
        } by {
            assert(rest.contains(c) <==> from + 1 <= c < end && {
                let name = evdev_key_name(c);
                name.len() >= 4 && name[0] == 'K' && name[1] == 'E' && name[2] == 'Y' && name[3]
                    == '_'
            });
            if names_keyboard_key(evdev_key_name(here)) {
                assert(keys == seq![here] + rest);
                if keys.contains(c) {
                    let k = choose|k: int| 0 <= k < keys.len() && keys[k] == c;
                    if k > 0 {
                        assert(rest[k - 1] == c);
                    }
                }
                if rest.contains(c) {
                    let k = choose|k: int| 0 <= k < rest.len() && rest[k] == c;
                    assert(keys[k + 1] == c);
                }
                if c == here {
                    assert(keys[0] == c);
                }
            }
        }
        if names_keyboard_key(evdev_key_name(here)) {
            assert forall|i: int, j: int| 0 <= i < j < keys.len() implies keys[i] < keys[j] by {
                assert(keys[j] == rest[j - 1]);
                assert(rest.contains(rest[j - 1]));
                if i > 0 {
                    assert(keys[i] == rest[i - 1]);
                }
            }
        }
    }
}

proof fn lemma_key_prefix(name: Seq<char>)
    ensures
        names_keyboard_key(name) <==> name.len() >= 4 && name[0] == 'K' && name[1] == 'E' && name[2]
            == 'Y' && name[3] == '_',
{
    reveal_strlit("KEY_");
    if name.len() >= 4 {
        let head = name.subrange(0, 4);
        assert(head[0] == name[0] && head[1] == name[1] && head[2] == name[2] && head[3]
            == name[3]);
        if name[0] == 'K' && name[1] == 'E' && name[2] == 'Y' && name[3] == '_' {
            assert("KEY_"@ =~= head);
        }
        if names_keyboard_key(name) {
            assert("KEY_"@ =~= head);
        }
    }
}

} // verus!
