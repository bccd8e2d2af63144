//! Paths, as texts.
use crate::text;
use vstd::prelude::*;
use vstd::string::*;

verus! {

/// What two paths that name the same place in the same way have in common: whether they start at
/// the root, and the names between their slashes.
pub struct PathModel {
    pub absolute: bool,
    pub parts: Seq<Seq<char>>,
}

/// The names so far, with one more that ended. Empty names do not count, nor does a single dot,
/// except at the beginning of a path that does not start at the root.
pub open spec fn with_part(absolute: bool, parts: Seq<Seq<char>>, part: Seq<char>) -> Seq<
    Seq<char>,
> {
    if part.len() == 0 || (part == seq!['.'] && (absolute || parts.len() > 0)) {
        parts
    } else {
        parts.push(part)
    }
}

/// The names that end within the first `n` characters, and the beginning of the next one.
pub open spec fn parts_before(s: Seq<char>, absolute: bool, n: int) -> (Seq<Seq<char>>, Seq<char>)
    decreases n,
{
    if n <= 0 {
        (Seq::empty(), Seq::empty())
    } else {
        let (parts, part) = parts_before(s, absolute, n - 1);
        if s[n - 1] == '/' {
            (with_part(absolute, parts, part), Seq::empty())
        } else {
            (parts, part.push(s[n - 1]))
        }
    }
}

/// What a path says.
pub open spec fn path_model(s: Seq<char>) -> PathModel {
    let absolute = s.len() > 0 && s[0] == '/';
    let (parts, part) = parts_before(s, absolute, s.len() as int);
    PathModel { absolute, parts: with_part(absolute, parts, part) }
}

/// The contents of a list of names.
pub open spec fn parts_view(parts: Seq<Vec<char>>) -> Seq<Seq<char>> {
    parts.map_values(|p: Vec<char>| p@)
}

fn add_part(absolute: bool, parts: &mut Vec<Vec<char>>, part: Vec<char>)
    ensures
        parts_view(final(parts)@) == with_part(absolute, parts_view(old(parts)@), part@),
{
    let ghost before = parts_view(parts@);
    let dot = part.len() == 1 && part[0] == '.';
    proof {
        assert(dot == (part@ =~= seq!['.']));
    }
    if part.len() == 0 || (dot && (absolute || parts.len() > 0)) {
        return;
    }
    parts.push(part);
    assert(parts_view(parts@) =~= before.push(part@));
}

/// What a path says: whether it starts at the root, and its names.
fn read_path(s: &str) -> (res: (bool, Vec<Vec<char>>))
    ensures
        path_model(s@) == (PathModel { absolute: res.0, parts: parts_view(res.1@) }),
{
    let chars = text::to_chars(s);
    let absolute = chars.len() > 0 && chars[0] == '/';
    let mut parts: Vec<Vec<char>> = Vec::new();
    let mut part: Vec<char> = Vec::new();
    let mut i: usize = 0;
    assert(parts_view(parts@) =~= Seq::empty());
    while i < chars.len()
        invariant
            i <= chars@.len(),
            chars@ == s@,
            (parts_view(parts@), part@) == parts_before(s@, absolute, i as int),
        decreases chars@.len() - i,
    {
        let c: char = chars[i];
        if c == '/' {
            add_part(absolute, &mut parts, part);
            part = Vec::new();
        } else {
            part.push(c);
        }
        i += 1;
    }
    add_part(absolute, &mut parts, part);
    (absolute, parts)
}

/// Whether two paths name the same place in the same way.
pub fn same_path(a: &str, b: &str) -> (same: bool)
    ensures
        same == (path_model(a@) == path_model(b@)),
{
    let (a_root, a_parts) = read_path(a);
    let (b_root, b_parts) = read_path(b);
    if a_root != b_root || a_parts.len() != b_parts.len() {
        assert(parts_view(a_parts@).len() == a_parts@.len());
        assert(parts_view(b_parts@).len() == b_parts@.len());
        return false;
    }
    let mut i: usize = 0;
    while i < a_parts.len()
        invariant
            i <= a_parts@.len(),
            a_parts@.len() == b_parts@.len(),
            path_model(a@) == (PathModel { absolute: a_root, parts: parts_view(a_parts@) }),
            path_model(b@) == (PathModel { absolute: b_root, parts: parts_view(b_parts@) }),
            forall|j: int| 0 <= j < i ==> a_parts@[j]@ == b_parts@[j]@,
        decreases a_parts@.len() - i,
    {
        let x = &a_parts[i];
        let y = &b_parts[i];
        if x.len() != y.len() || !text::is_at(x.as_slice(), y.as_slice(), 0) {
            proof {
                assert(y@.subrange(0, y@.len() as int) =~= y@);
                assert(parts_view(a_parts@)[i as int] != parts_view(b_parts@)[i as int]);
            }
            return false;
        }
        proof {
            assert(y@.subrange(0, y@.len() as int) =~= y@);
        }
        i += 1;
    }
    assert(parts_view(a_parts@) =~= parts_view(b_parts@));
    true
}

/// A path taken from another: a path that starts at the root stands for itself, any other goes
/// behind a slash.
pub open spec fn joined(base: Seq<char>, path: Seq<char>) -> Seq<char> {
    if path.len() > 0 && path[0] == '/' {
        path
    } else if base.len() > 0 && base.last() != '/' {
        base.push('/') + path
    } else {
        base + path
    }
}

/// A path taken from another.
pub fn join(base: &str, path: &str) -> (res: String)
    ensures
        res@ == joined(base@, path@),
{
    proof {
        reveal_strlit("/");
        assert("/"@ =~= seq!['/']);
    }
    let n: usize = base.unicode_len();
    if path.unicode_len() > 0 && path.get_char(0) == '/' {
        return String::from_str(path);
    }
    let mut res = String::from_str(base);
    if n > 0 && base.get_char(n - 1) != '/' {
        res.append("/");
    }
    res.append(path);
    assert(res@ =~= joined(base@, path@));
    res
}

/// A text without the slashes at its beginning.
pub open spec fn without_slashes(s: Seq<char>) -> Seq<char>
    decreases s.len(),
{
    if s.len() > 0 && s[0] == '/' {
        without_slashes(s.drop_first())
    } else {
        s
    }
}

/// A path in which a tilde at the beginning stands for the home directory.
pub open spec fn tilde_expanded(path: Seq<char>, home: Seq<char>) -> Seq<char> {
    if path.len() > 0 && path[0] == '~' {
        joined(home, without_slashes(path.drop_first()))
    } else {
        path
    }
}

/// A path in which a tilde at the beginning stands for the home directory, which is the root where
/// none is set.
pub fn expand_tilde(path: &str, home: Option<&str>) -> (res: String)
    ensures
        res@ == tilde_expanded(
            path@,
            match home {
                Some(home) => home@,
                None => "/"@,
            },
        ),
{
    let n: usize = path.unicode_len();
    if n == 0 || path.get_char(0) != '~' {
        return String::from_str(path);
    }
    let home = match home {
        Some(home) => home,
        None => "/",
    };
    let mut from: usize = 1;
    assert(path@.skip(1) =~= path@.drop_first());
    while from < n && path.get_char(from) == '/'
        invariant
            1 <= from <= n,
            n == path@.len(),
            without_slashes(path@.drop_first()) == without_slashes(path@.skip(from as int)),
        decreases n - from,
    {
        assert(path@.skip(from as int).drop_first() =~= path@.skip(from + 1));
        from += 1;
    }
    assert(path@.subrange(from as int, n as int) =~= path@.skip(from as int));
    join(home, path.substring_char(from, n))
}

/// What follows a tilde lies below the home directory, however many slashes stand between them.
pub proof fn law_tilde_goes_below_home(rest: Seq<char>, home: Seq<char>)
    ensures
        home.is_prefix_of(tilde_expanded(seq!['~'] + rest, home)),
        tilde_expanded(seq!['~'] + rest, home) == joined(home, without_slashes(rest)),
{
    let path = seq!['~'] + rest;
    assert(path.drop_first() =~= rest);
    lemma_without_slashes(rest);
    let tail = without_slashes(rest);
    assert(home.is_prefix_of(joined(home, tail)));
}

proof fn lemma_without_slashes(s: Seq<char>)
    ensures
        without_slashes(s).len() > 0 ==> without_slashes(s)[0] != '/',
    decreases s.len(),
{
    if s.len() > 0 && s[0] == '/' {
        lemma_without_slashes(s.drop_first());
    }
}

/// A path that starts at the root stands for itself; any other is put behind the base with exactly
/// one slash between them, unless the base has one there or is empty.
pub proof fn law_joined_paths(base: Seq<char>, path: Seq<char>)
    ensures
        path.len() > 0 && path[0] == '/' ==> joined(base, path) == path,
        !(path.len() > 0 && path[0] == '/') ==> {
            let all = joined(base, path);
            let slash = base.len() > 0 && base.last() != '/';
            &&& all.len() == base.len() + (if slash {
                1int
            } else {
                0int
            }) + path.len()
            &&& all.take(base.len() as int) == base
            &&& all.skip(all.len() - path.len()) == path
            &&& slash ==> all[base.len() as int] == '/'
        },
{
    let all = joined(base, path);
    if !(path.len() > 0 && path[0] == '/') {
        assert(all.take(base.len() as int) =~= base);
        assert(all.skip(all.len() - path.len()) =~= path);
    }
}

/// A path without a tilde at its beginning stays as it is.
pub proof fn law_other_paths_stay(path: Seq<char>, home: Seq<char>)
    requires
        path.len() == 0 || path[0] != '~',
    ensures
        tilde_expanded(path, home) == path,
{
}

proof fn lemma_parts_continue(x: Seq<char>, y: Seq<char>, b: Seq<char>, absolute: bool, j: int)
    requires
        0 <= j <= b.len(),
        parts_before(x, absolute, x.len() as int) == parts_before(y, absolute, y.len() as int),
    ensures
        parts_before(x + b, absolute, x.len() + j) == parts_before(y + b, absolute, y.len() + j),
    decreases j,
{
    if j > 0 {
        lemma_parts_continue(x, y, b, absolute, j - 1);
        assert((x + b)[x.len() + j - 1] == b[j - 1]);
        assert((y + b)[y.len() + j - 1] == b[j - 1]);
    } else {
        lemma_parts_of_prefix(x, b, absolute, x.len() as int);
        lemma_parts_of_prefix(y, b, absolute, y.len() as int);
    }
}

proof fn lemma_parts_of_prefix(x: Seq<char>, b: Seq<char>, absolute: bool, n: int)
    requires
        0 <= n <= x.len(),
    ensures
        parts_before(x + b, absolute, n) == parts_before(x, absolute, n),
    decreases n,
{
    if n > 0 {
        lemma_parts_of_prefix(x, b, absolute, n - 1);
    }
}

/// One slash or several between two names, or at the end of a path, make no difference.
pub proof fn law_repeated_slashes_do_not_count(a: Seq<char>, b: Seq<char>)
    requires
        a.len() > 0,
    ensures
        path_model(a + seq!['/', '/'] + b) == path_model(a + seq!['/'] + b),
        path_model(a + seq!['/']) == path_model(a),
{
    let absolute = a[0] == '/';
    let one = a + seq!['/'];
    let two = a + seq!['/', '/'];
    lemma_parts_of_prefix(a, seq!['/'], absolute, a.len() as int);
    lemma_parts_of_prefix(a, seq!['/', '/'], absolute, a.len() as int);
    reveal_with_fuel(parts_before, 3);
    assert(one[a.len() as int] == '/');
    assert(two[a.len() as int] == '/' && two[a.len() as int + 1] == '/');
    assert(parts_before(one, absolute, one.len() as int) == parts_before(
        two,
        absolute,
        two.len() as int,
    ));
    lemma_parts_continue(two, one, b, absolute, b.len() as int);
    assert((two + b).len() == two.len() + b.len());
    assert((one + b).len() == one.len() + b.len());
}

/// The names of a path are not empty and hold no slash.
pub proof fn law_names_hold_no_slash(s: Seq<char>)
    ensures
        path_model(s).absolute == (s.len() > 0 && s[0] == '/'),
        forall|i: int|
            0 <= i < path_model(s).parts.len() ==> (#[trigger] path_model(s).parts[i]).len() > 0
                && !path_model(s).parts[i].contains('/'),
{
    let absolute = s.len() > 0 && s[0] == '/';
    lemma_no_slash(s, absolute, s.len() as int);
}

proof fn lemma_no_slash(s: Seq<char>, absolute: bool, n: int)
    requires
        0 <= n <= s.len(),
    ensures
        ({
            let (parts, part) = parts_before(s, absolute, n);
            &&& !part.contains('/')
            &&& forall|i: int|
                0 <= i < parts.len() ==> (#[trigger] parts[i]).len() > 0 && !parts[i].contains('/')
        }),
    decreases n,
{
    if n > 0 {
        lemma_no_slash(s, absolute, n - 1);
        let (parts, part) = parts_before(s, absolute, n - 1);
        if s[n - 1] != '/' {
            let longer = part.push(s[n - 1]);
            assert forall|i: int| 0 <= i < longer.len() implies longer[i] != '/' by {
                if i < part.len() {
                    assert(part.contains(part[i]));
                }
            }
        }
    }
}

proof fn lemma_relative_parts(s: Seq<char>, n: int)
    requires
        1 <= n <= s.len(),
        s[0] != '/',
    ensures
        ({
            let (parts, part) = parts_before(s, false, n);
            parts.len() > 0 || part.len() > 0
        }),
    decreases n,
{
    reveal_with_fuel(parts_before, 2);
    if n > 1 {
        lemma_relative_parts(s, n - 1);
    }
}

/// A dot between two slashes makes no difference.
pub proof fn law_dots_do_not_count(a: Seq<char>, b: Seq<char>)
    requires
        a.len() > 0,
    ensures
        path_model(a + seq!['/', '.', '/'] + b) == path_model(a + seq!['/'] + b),
{
    let absolute = a[0] == '/';
    let n = a.len() as int;
    let plain = a + seq!['/'];
    let dotted = a + seq!['/', '.', '/'];
    lemma_parts_of_prefix(a, seq!['/'], absolute, n);
    lemma_parts_of_prefix(a, seq!['/', '.', '/'], absolute, n);
    if !absolute {
        lemma_relative_parts(a, n);
    }
    let (parts, part) = parts_before(a, absolute, n);
    let all = with_part(absolute, parts, part);
    assert(plain[n] == '/' && dotted[n] == '/' && dotted[n + 1] == '.' && dotted[n + 2] == '/');
    assert(parts_before(plain, absolute, n + 1) == (all, Seq::<char>::empty()));
    assert(parts_before(dotted, absolute, n + 1) == (all, Seq::<char>::empty()));
    assert(Seq::<char>::empty().push('.') =~= seq!['.']);
    assert(parts_before(dotted, absolute, n + 2) == (all, seq!['.']));
    assert(parts_before(dotted, absolute, n + 3) == (all, Seq::<char>::empty()));
    lemma_parts_continue(dotted, plain, b, absolute, b.len() as int);
    assert((dotted + b).len() == dotted.len() + b.len());
    assert((plain + b).len() == plain.len() + b.len());
}

proof fn lemma_name_behind(p: Seq<char>, name: Seq<char>, absolute: bool, j: int)
    requires
        0 <= j <= name.len(),
        !name.contains('/'),
    ensures
        ({
            let (parts, part) = parts_before(p, absolute, p.len() as int);
            parts_before(p + seq!['/'] + name, absolute, p.len() + 1 + j) == (
                with_part(absolute, parts, part),
                name.take(j),
            )
        }),
    decreases j,
{
    let s = p + seq!['/'] + name;
    if j == 0 {
        lemma_parts_of_prefix(p, seq!['/'] + name, absolute, p.len() as int);
        assert(p + (seq!['/'] + name) =~= s);
        assert(s[p.len() as int] == '/');
        assert(name.take(0) =~= Seq::<char>::empty());
    } else {
        lemma_name_behind(p, name, absolute, j - 1);
        assert(s[p.len() + j] == name[j - 1]);
        assert(name.contains(name[j - 1]));
        assert(name.take(j) =~= name.take(j - 1).push(name[j - 1]));
    }
}

/// A path with a name behind it, after a slash, has that name behind its names.
pub proof fn law_name_behind_a_path(p: Seq<char>, name: Seq<char>)
    requires
        p.len() > 0,
        name.len() > 0,
        !name.contains('/'),
        name != seq!['.'],
    ensures
        path_model(p + seq!['/'] + name).absolute == path_model(p).absolute,
        path_model(p + seq!['/'] + name).parts == path_model(p).parts.push(name),
{
    let absolute = p[0] == '/';
    lemma_name_behind(p, name, absolute, name.len() as int);
    assert(name.take(name.len() as int) =~= name);
    assert((p + seq!['/'] + name).len() == p.len() + 1 + name.len());
}

/// A path that is not empty and does not start at the root has a name, though it be a dot.
pub proof fn law_relative_path_has_a_name(s: Seq<char>)
    requires
        s.len() > 0,
        s[0] != '/',
    ensures
        path_model(s).parts.len() > 0,
{
    lemma_relative_parts(s, s.len() as int);
}

} // verus!
