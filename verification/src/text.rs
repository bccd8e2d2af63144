//! Small functions on text.
use vstd::prelude::*;
use vstd::std_specs::iter::IteratorSpec;
use vstd::string::*;

verus! {

broadcast use vstd::string::axiom_spec_iter;

/// The characters of a text.
pub fn to_chars(s: &str) -> (chars: Vec<char>)
    ensures
        chars@ == s@,
{
    let mut chars: Vec<char> = Vec::new();
    let iter = s.chars();
    let ghost all = iter.remaining();
    for c in it: iter
        invariant
            it.seq() == all,
            chars@ == all.take(it.index()),
    {
        proof {
            assert(all.take(it.index() + 1) =~= all.take(it.index()).push(all[it.index()]));
        }
        chars.push(c);
    }
    assert(all.take(chars@.len() as int) =~= all);
    chars
}

/// The contents of a list of texts.
pub open spec fn texts_view(texts: Seq<String>) -> Seq<Seq<char>> {
    texts.map_values(|t: String| t@)
}

/// Whether two texts are the same.
pub fn same_text(a: &str, b: &str) -> (same: bool)
    ensures
        same == (a@ == b@),
{
    let x = to_chars(a);
    let y = to_chars(b);
    if x.len() != y.len() {
        return false;
    }
    let mut i: usize = 0;
    while i < x.len()
        invariant
            i <= x@.len(),
            x@.len() == y@.len(),
            x@ == a@,
            y@ == b@,
            forall|j: int| 0 <= j < i ==> x@[j] == y@[j],
        decreases x@.len() - i,
    {
        if x[i] != y[i] {
            return false;
        }
        i += 1;
    }
    assert(x@ =~= y@);
    true
}

/// Whether a character is white space.
pub open spec fn white_space(c: char) -> bool {
    let n = c as u32;
    ||| 0x9 <= n <= 0xd
    ||| n == 0x20
    ||| n == 0x85
    ||| n == 0xa0
    ||| n == 0x1680
    ||| 0x2000 <= n <= 0x200a
    ||| n == 0x2028
    ||| n == 0x2029
    ||| n == 0x202f
    ||| n == 0x205f
    ||| n == 0x3000
}

pub fn is_white_space(c: char) -> (res: bool)
    ensures
        res == white_space(c),
{
    let n: u32 = c as u32;
    (0x9 <= n && n <= 0xd) || n == 0x20 || n == 0x85 || n == 0xa0 || n == 0x1680 || (0x2000 <= n
        && n <= 0x200a) || n == 0x2028 || n == 0x2029 || n == 0x202f || n == 0x205f || n == 0x3000
}

/// A text without the white space at its beginning.
pub open spec fn trim_start(s: Seq<char>) -> Seq<char>
    decreases s.len(),
{
    if s.len() > 0 && white_space(s[0]) {
        trim_start(s.drop_first())
    } else {
        s
    }
}

/// A text without the white space at its end.
pub open spec fn trim_end(s: Seq<char>) -> Seq<char>
    decreases s.len(),
{
    if s.len() > 0 && white_space(s.last()) {
        trim_end(s.drop_last())
    } else {
        s
    }
}

/// A text without the white space around it.
pub open spec fn trimmed(s: Seq<char>) -> Seq<char> {
    trim_end(trim_start(s))
}

/// A text without the white space around it.
pub fn trim<'a>(s: &'a str) -> (res: &'a str)
    ensures
        res@ == trimmed(s@),
{
    let chars = to_chars(s);
    let mut from: usize = 0;
    assert(chars@.skip(0) =~= chars@);
    while from < chars.len() && is_white_space(chars[from])
        invariant
            from <= chars@.len(),
            trim_start(chars@) == trim_start(chars@.skip(from as int)),
        decreases chars@.len() - from,
    {
        assert(chars@.skip(from as int).drop_first() =~= chars@.skip(from + 1));
        from += 1;
    }
    let ghost rest = chars@.skip(from as int);
    assert(trim_start(chars@) == rest);
    let mut to: usize = chars.len();
    assert(rest.take(to - from) =~= rest);
    while to > from && is_white_space(chars[to - 1])
        invariant
            from <= to <= chars@.len(),
            rest == chars@.skip(from as int),
            trim_end(rest) == trim_end(rest.take(to - from)),
        decreases to - from,
    {
        assert(rest.take(to - from).last() == chars@[to - 1]);
        assert(rest.take(to - from).drop_last() =~= rest.take(to - 1 - from));
        to -= 1;
    }
    assert(to > from ==> rest.take(to - from).last() == chars@[to - 1]);
    assert(s@.subrange(from as int, to as int) =~= rest.take(to - from));
    s.substring_char(from, to)
}

/// Trimming a text that was trimmed changes nothing.
pub proof fn law_trim_is_idempotent(s: Seq<char>)
    ensures
        trimmed(trimmed(s)) == trimmed(s),
{
    let t = trim_start(s);
    lemma_trim_start(s);
    lemma_trim_end(t);
    let u = trim_end(t);
    lemma_trim_end_keeps_start(t);
}

proof fn lemma_trim_start(s: Seq<char>)
    ensures
        trim_start(s).len() > 0 ==> !white_space(trim_start(s)[0]),
    decreases s.len(),
{
    if s.len() > 0 && white_space(s[0]) {
        lemma_trim_start(s.drop_first());
    }
}

proof fn lemma_trim_end(s: Seq<char>)
    ensures
        trim_end(s).len() > 0 ==> !white_space(trim_end(s).last()),
    decreases s.len(),
{
    if s.len() > 0 && white_space(s.last()) {
        lemma_trim_end(s.drop_last());
    }
}

proof fn lemma_trim_end_keeps_start(s: Seq<char>)
    ensures
        trim_end(s).len() > 0 ==> s.len() > 0 && trim_end(s)[0] == s[0],
    decreases s.len(),
{
    if s.len() > 0 && white_space(s.last()) {
        lemma_trim_end_keeps_start(s.drop_last());
    }
}

/// The decimal digit of a number below ten.
pub open spec fn digit_char(d: nat) -> char {
    (d + 48) as char
}

/// A number in decimal.
pub open spec fn decimal(n: nat) -> Seq<char>
    decreases n,
{
    if n < 10 {
        seq![digit_char(n)]
    } else {
        decimal(n / 10).push(digit_char(n % 10))
    }
}

/// A number in decimal, with a minus sign where it is negative.
pub open spec fn signed_decimal(n: int) -> Seq<char> {
    if n < 0 {
        seq!['-'] + decimal((-n) as nat)
    } else {
        decimal(n as nat)
    }
}

fn digit_text(d: u64) -> (text: &'static str)
    requires
        d < 10,
    ensures
        text@ == seq![digit_char(d as nat)],
{
    proof {
        reveal_strlit("0");
        reveal_strlit("1");
        reveal_strlit("2");
        reveal_strlit("3");
        reveal_strlit("4");
        reveal_strlit("5");
        reveal_strlit("6");
        reveal_strlit("7");
        reveal_strlit("8");
        reveal_strlit("9");
    }
    let text = if d == 0 {
        "0"
    } else if d == 1 {
        "1"
    } else if d == 2 {
        "2"
    } else if d == 3 {
        "3"
    } else if d == 4 {
        "4"
    } else if d == 5 {
        "5"
    } else if d == 6 {
        "6"
    } else if d == 7 {
        "7"
    } else if d == 8 {
        "8"
    } else {
        "9"
    };
    assert(text@ =~= seq![digit_char(d as nat)]);
    text
}

/// Write a number in decimal at the end of a text.
pub fn append_decimal(out: &mut String, n: u64)
    ensures
        final(out)@ == old(out)@ + decimal(n as nat),
    decreases n,
{
    let ghost before = out@;
    if n >= 10 {
        append_decimal(out, n / 10);
    }
    out.append(digit_text(n % 10));
    assert(out@ =~= before + decimal(n as nat));
}

/// Write a number, with its sign if it is negative, in decimal at the end of a text.
pub fn append_signed(out: &mut String, n: i32)
    ensures
        final(out)@ == old(out)@ + signed_decimal(n as int),
{
    let ghost before = out@;
    if n < 0 {
        proof {
            reveal_strlit("-");
            assert("-"@ =~= seq!['-']);
        }
        out.append("-");
        append_decimal(out, (-(n as i64)) as u64);
        assert(out@ =~= before + signed_decimal(n as int));
    } else {
        append_decimal(out, n as u64);
    }
}

/// Where a character first stands.
pub fn find_char(s: &[char], c: char) -> (res: Option<usize>)
    ensures
        match res {
            Some(i) => s@.index_of_first(c) == Some(i as int),
            None => s@.index_of_first(c) is None,
        },
{
    let mut i: usize = 0;
    while i < s.len()
        invariant
            i <= s@.len(),
            forall|j: int| 0 <= j < i ==> s@[j] != c,
        decreases s@.len() - i,
    {
        if s[i] == c {
            proof {
                s@.index_of_first_ensures(c);
                assert(s@[i as int] == c);
            }
            return Some(i);
        }
        i += 1;
    }
    proof {
        s@.index_of_first_ensures(c);
    }
    None
}

/// Why a text is not a number.
#[derive(Debug, Clone, Copy, PartialEq, Eq, Structural)]
pub enum IntError {
    Empty,
    InvalidDigit,
    PosOverflow,
    NegOverflow,
}

/// The words for a text that is not a number.
pub open spec fn int_error_text(e: IntError) -> Seq<char> {
    match e {
        IntError::Empty => "cannot parse integer from empty string"@,
        IntError::InvalidDigit => "invalid digit found in string"@,
        IntError::PosOverflow => "number too large to fit in target type"@,
        IntError::NegOverflow => "number too small to fit in target type"@,
    }
}

impl IntError {
    pub fn text(&self) -> (text: &'static str)
        ensures
            text@ == int_error_text(*self),
    {
        match self {
            IntError::Empty => "cannot parse integer from empty string",
            IntError::InvalidDigit => "invalid digit found in string",
            IntError::PosOverflow => "number too large to fit in target type",
            IntError::NegOverflow => "number too small to fit in target type",
        }
    }
}

pub open spec fn is_digit(c: char) -> bool {
    '0' <= c <= '9'
}

/// The value of the digits from `i` on, after digits worth `acc`, counted down where `negative`.
/// The first character that is not a digit, or at which the value leaves the range, is the error.
pub open spec fn read_digits(s: Seq<char>, i: int, acc: int, negative: bool) -> Result<i32, IntError>
    decreases s.len() - i,
{
    if i >= s.len() {
        Ok(acc as i32)
    } else if !is_digit(s[i]) {
        Err(IntError::InvalidDigit)
    } else {
        let d = s[i] as u32 - 48;
        let next = if negative {
            10 * acc - d
        } else {
            10 * acc + d
        };
        if next > i32::MAX {
            Err(IntError::PosOverflow)
        } else if next < i32::MIN {
            Err(IntError::NegOverflow)
        } else {
            read_digits(s, i + 1, next, negative)
        }
    }
}

/// The number that a text stands for: digits, after an optional sign.
pub open spec fn read_i32(s: Seq<char>) -> Result<i32, IntError> {
    if s.len() == 0 {
        Err(IntError::Empty)
    } else if s.len() == 1 && (s[0] == '+' || s[0] == '-') {
        Err(IntError::InvalidDigit)
    } else if s[0] == '-' {
        read_digits(s, 1, 0, true)
    } else if s[0] == '+' {
        read_digits(s, 1, 0, false)
    } else {
        read_digits(s, 0, 0, false)
    }
}

/// The number that a text stands for.
pub fn parse_i32(s: &[char]) -> (res: Result<i32, IntError>)
    ensures
        res == read_i32(s@),
{
    if s.len() == 0 {
        return Err(IntError::Empty);
    }
    if s.len() == 1 && (s[0] == '+' || s[0] == '-') {
        return Err(IntError::InvalidDigit);
    }
    let negative = s[0] == '-';
    let mut i: usize = 0;
    if negative || s[0] == '+' {
        i = 1;
    }
    let mut acc: i32 = 0;
    while i < s.len()
        invariant
            i <= s@.len(),
            read_i32(s@) == read_digits(s@, i as int, acc as int, negative),
        decreases s@.len() - i,
    {
        let c: char = s[i];
        if c < '0' || '9' < c {
            return Err(IntError::InvalidDigit);
        }
        let d: i64 = c as u32 as i64 - 48;
        let next: i64 = if negative {
            10 * acc as i64 - d
        } else {
            10 * acc as i64 + d
        };
        if next > i32::MAX as i64 {
            return Err(IntError::PosOverflow);
        }
        if next < i32::MIN as i64 {
            return Err(IntError::NegOverflow);
        }
        acc = next as i32;
        i += 1;
    }
    Ok(acc)
}

proof fn lemma_decimal_digits(n: nat)
    ensures
        decimal(n).len() > 0,
        forall|i: int| 0 <= i < decimal(n).len() ==> is_digit(#[trigger] decimal(n)[i]),
    decreases n,
{
    if n >= 10 {
        lemma_decimal_digits(n / 10);
    }
}

/// Reading the digits of a prefix first, then the last digit.
proof fn lemma_read_digits_push(s: Seq<char>, c: char, i: int, acc: int, negative: bool, v: int)
    requires
        0 <= i <= s.len(),
        is_digit(c),
        i32::MIN <= acc <= i32::MAX,
        read_digits(s, i, acc, negative) == Ok::<i32, IntError>(v as i32),
        i32::MIN <= v <= i32::MAX,
    ensures
        read_digits(s.push(c), i, acc, negative) == ({
            let d = c as u32 - 48;
            let next = if negative {
                10 * v - d
            } else {
                10 * v + d
            };
            if next > i32::MAX {
                Err::<i32, IntError>(IntError::PosOverflow)
            } else if next < i32::MIN {
                Err(IntError::NegOverflow)
            } else {
                Ok(next as i32)
            }
        }),
    decreases s.len() - i,
{
    let t = s.push(c);
    reveal_with_fuel(read_digits, 3);
    if i < s.len() {
        assert(t[i] == s[i]);
        let d = s[i] as u32 - 48;
        let next = if negative {
            10 * acc - d
        } else {
            10 * acc + d
        };
        lemma_read_digits_push(s, c, i + 1, next, negative, v);
    } else {
        assert(t[i] == c);
    }
}

proof fn lemma_read_decimal(prefix: Seq<char>, n: nat, negative: bool)
    requires
        if negative {
            n <= 0x8000_0000
        } else {
            n <= 0x7fff_ffff
        },
    ensures
        read_digits(prefix + decimal(n), prefix.len() as int, 0, negative) == Ok::<i32, IntError>(
            (if negative {
                -n
            } else {
                n as int
            }) as i32,
        ),
    decreases n,
{
    let c = digit_char(n % 10);
    let rest = if n < 10 {
        prefix
    } else {
        prefix + decimal(n / 10)
    };
    let v = if negative {
        -((n / 10) as int)
    } else {
        (n / 10) as int
    };
    assert(prefix + decimal(n) =~= rest.push(c));
    if n >= 10 {
        lemma_read_decimal(prefix, n / 10, negative);
    }
    assert(c as u32 - 48 == n % 10);
    lemma_read_digits_push(rest, c, prefix.len() as int, 0, negative, v);
}

/// A number in decimal is made of digits and perhaps a sign.
pub proof fn lemma_signed_decimal_chars(n: int)
    ensures
        signed_decimal(n).len() > 0,
        forall|i: int|
            0 <= i < signed_decimal(n).len() ==> is_digit(#[trigger] signed_decimal(n)[i])
                || signed_decimal(n)[i] == '-',
{
    if n < 0 {
        let digits = decimal((-n) as nat);
        lemma_decimal_digits((-n) as nat);
        assert forall|i: int| 0 <= i < signed_decimal(n).len() implies is_digit(
            #[trigger] signed_decimal(n)[i],
        ) || signed_decimal(n)[i] == '-' by {
            if i > 0 {
                assert(signed_decimal(n)[i] == digits[i - 1]);
            }
        }
    } else {
        lemma_decimal_digits(n as nat);
    }
}

/// Reading a number that was written in decimal gives the number back.
pub proof fn law_decimal_round_trip(n: i32)
    ensures
        read_i32(signed_decimal(n as int)) == Ok::<i32, IntError>(n),
{
    let s = signed_decimal(n as int);
    if n < 0 {
        let m = (-n) as nat;
        lemma_decimal_digits(m);
        lemma_read_decimal(seq!['-'], m, true);
        assert(s[0] == '-');
    } else {
        let m = n as nat;
        lemma_decimal_digits(m);
        lemma_read_decimal(Seq::empty(), m, false);
        assert(Seq::<char>::empty() + decimal(m) =~= decimal(m));
        assert(is_digit(s[0]));
    }
}

/// A character with an upper case ASCII letter made lower case.
pub open spec fn lower(c: char) -> char {
    if 'A' <= c <= 'Z' {
        (c as u32 + 32) as char
    } else {
        c
    }
}

/// A text with its upper case ASCII letters made lower case.
pub open spec fn lower_case(s: Seq<char>) -> Seq<char> {
    s.map_values(|c: char| lower(c))
}

fn lower_char(c: char) -> (res: char)
    ensures
        res == lower(c),
{
    if 'A' <= c && c <= 'Z' {
        (c as u8 + 32) as char
    } else {
        c
    }
}

/// The characters of a text, with its upper case ASCII letters made lower case.
pub fn to_lower_chars(s: &str) -> (chars: Vec<char>)
    ensures
        chars@ == lower_case(s@),
{
    let mut chars = to_chars(s);
    let mut i: usize = 0;
    while i < chars.len()
        invariant
            i <= chars@.len(),
            chars@.len() == s@.len(),
            forall|j: int| 0 <= j < i ==> chars@[j] == lower(s@[j]),
            forall|j: int| i <= j < s@.len() ==> chars@[j] == s@[j],
        decreases chars@.len() - i,
    {
        let c: char = lower_char(chars[i]);
        chars.set(i, c);
        i += 1;
    }
    assert(chars@ =~= lower_case(s@));
    chars
}

/// Whether `part` stands at position `at` of `s`.
pub open spec fn stands_at(part: Seq<char>, s: Seq<char>, at: int) -> bool {
    &&& 0 <= at <= s.len() - part.len()
    &&& s.subrange(at, at + part.len()) == part
}

/// Whether `part` occurs in `s`.
pub open spec fn occurs_in(part: Seq<char>, s: Seq<char>) -> bool {
    exists|at: int| #[trigger] stands_at(part, s, at)
}

/// Whether `part` stands at position `at` of `s`.
pub fn is_at(part: &[char], s: &[char], at: usize) -> (res: bool)
    ensures
        res == stands_at(part@, s@, at as int),
{
    if part.len() > s.len() || at > s.len() - part.len() {
        return false;
    }
    let len: usize = s.len();
    let mut i: usize = 0;
    while i < part.len()
        invariant
            i <= part@.len(),
            len == s@.len(),
            at + part@.len() <= len,
            forall|j: int| 0 <= j < i ==> part@[j] == s@[at + j],
        decreases part@.len() - i,
    {
        if part[i] != s[at + i] {
            assert(s@.subrange(at as int, at + part@.len())[i as int] != part@[i as int]);
            return false;
        }
        i += 1;
    }
    assert(s@.subrange(at as int, at + part@.len()) =~= part@);
    true
}

/// Whether `part` occurs in `s`.
pub fn contains_text(part: &[char], s: &[char]) -> (res: bool)
    ensures
        res == occurs_in(part@, s@),
{
    if part.len() > s.len() {
        assert(forall|at: int| !#[trigger] stands_at(part@, s@, at));
        return false;
    }
    let mut at: usize = 0;
    while at <= s.len() - part.len()
        invariant
            part@.len() <= s@.len(),
            at <= s@.len() - part@.len() + 1,
            forall|j: int| 0 <= j < at ==> !#[trigger] stands_at(part@, s@, j),
        decreases s@.len() - part@.len() + 1 - at,
    {
        if is_at(part, s, at) {
            return true;
        }
        if at == s.len() - part.len() {
            assert(forall|j: int| !#[trigger] stands_at(part@, s@, j));
            return false;
        }
        at += 1;
    }
    false
}

/// Whether a text begins with another.
pub fn starts_with(s: &str, prefix: &str) -> (res: bool)
    ensures
        res == prefix@.is_prefix_of(s@),
{
    let s = to_chars(s);
    let prefix = to_chars(prefix);
    is_at(prefix.as_slice(), s.as_slice(), 0)
}

/// A trimmed text is what is left when white space is taken away at both ends: it stands in the text,
/// only white space stands around it, and it neither begins nor ends with any.
pub proof fn law_trimmed_is_the_middle(s: Seq<char>)
    ensures
        exists|from: int, to: int|
            #![trigger s.subrange(from, to)]
            0 <= from <= to <= s.len() && trimmed(s) == s.subrange(from, to) && (forall|i: int|
                0 <= i < from ==> white_space(#[trigger] s[i])) && (forall|i: int|
                to <= i < s.len() ==> white_space(#[trigger] s[i])),
        trimmed(s).len() > 0 ==> !white_space(trimmed(s)[0]) && !white_space(trimmed(s).last()),
{
    let t = trim_start(s);
    lemma_trim_start(s);
    lemma_trim_end(t);
    lemma_trim_end_keeps_start(t);
    let from = lemma_trim_start_at(s);
    let len = lemma_trim_end_at(t);
    assert(trimmed(s) =~= s.subrange(from, from + len));
    assert forall|i: int| from + len <= i < s.len() implies white_space(#[trigger] s[i]) by {
        assert(t[i - from] == s[i]);
    }
}

proof fn lemma_trim_start_at(s: Seq<char>) -> (from: int)
    ensures
        0 <= from <= s.len(),
        trim_start(s) == s.skip(from),
        forall|i: int| 0 <= i < from ==> white_space(#[trigger] s[i]),
    decreases s.len(),
{
    if s.len() > 0 && white_space(s[0]) {
        let rest = s.drop_first();
        let from = lemma_trim_start_at(rest);
        assert(rest.skip(from) =~= s.skip(from + 1));
        assert forall|i: int| 0 <= i < from + 1 implies white_space(#[trigger] s[i]) by {
            if i > 0 {
                assert(rest[i - 1] == s[i]);
            }
        }
        from + 1
    } else {
        assert(s.skip(0) =~= s);
        0
    }
}

proof fn lemma_trim_end_at(s: Seq<char>) -> (len: int)
    ensures
        0 <= len <= s.len(),
        trim_end(s) == s.take(len),
        forall|i: int| len <= i < s.len() ==> white_space(#[trigger] s[i]),
    decreases s.len(),
{
    if s.len() > 0 && white_space(s.last()) {
        let rest = s.drop_last();
        let len = lemma_trim_end_at(rest);
        assert(rest.take(len) =~= s.take(len));
        assert forall|i: int| len <= i < s.len() implies white_space(#[trigger] s[i]) by {
            if i < rest.len() {
                assert(rest[i] == s[i]);
            }
        }
        len
    } else {
        assert(s.take(s.len() as int) =~= s);
        s.len() as int
    }
}

/// White space is made of 25 characters: six of ASCII, which are the space and the five from tab to
/// carriage return, two more of Latin-1, and seventeen beyond.
pub proof fn law_white_space(c: char)
    ensures
        (c as u32) < 0x80 ==> (white_space(c) <==> c as u32 == 32 || 9 <= c as u32 <= 13),
        0x80 <= (c as u32) < 0x100 ==> (white_space(c) <==> c as u32 == 0x85 || c as u32 == 0xa0),
        c as u32 >= 0x100 ==> (white_space(c) <==> 0x2000 <= c as u32 <= 0x200a || seq![
            0x1680u32,
            0x2028u32,
            0x2029u32,
            0x202fu32,
            0x205fu32,
            0x3000u32,
        ].contains(c as u32)),
{
    let beyond = seq![0x1680u32, 0x2028u32, 0x2029u32, 0x202fu32, 0x205fu32, 0x3000u32];
    assert(beyond[0] == 0x1680 && beyond[1] == 0x2028 && beyond[2] == 0x2029);
    assert(beyond[3] == 0x202f && beyond[4] == 0x205f && beyond[5] == 0x3000);
}

/// A plus sign before a number changes nothing, a sign alone is no number, and neither is a text with
/// nothing in it.
pub proof fn law_signs_of_numbers(n: i32)
    ensures
        n >= 0 ==> read_i32(seq!['+'] + decimal(n as nat)) == Ok::<i32, IntError>(n),
        read_i32(seq!['+']) == Err::<i32, IntError>(IntError::InvalidDigit),
        read_i32(seq!['-']) == Err::<i32, IntError>(IntError::InvalidDigit),
        read_i32(Seq::empty()) == Err::<i32, IntError>(IntError::Empty),
{
    if n >= 0 {
        lemma_decimal_digits(n as nat);
        lemma_read_decimal(seq!['+'], n as nat, false);
    }
}

/// A number in decimal has no leading zero, and its last digit is its remainder by ten.
pub proof fn law_decimal_digits(n: nat)
    ensures
        n < 10 ==> decimal(n).len() == 1 && decimal(n)[0] as u32 == 48 + n,
        n >= 10 ==> decimal(n).drop_last() == decimal(n / 10) && decimal(n).last() as u32 == 48 + n
            % 10,
        n > 0 ==> decimal(n)[0] != '0',
    decreases n,
{
    if n >= 10 {
        law_decimal_digits(n / 10);
        lemma_decimal_digits(n / 10);
        assert(decimal(n).drop_last() =~= decimal(n / 10));
        assert(decimal(n)[0] == decimal(n / 10)[0]);
    }
}

/// Lower case changes the 26 upper case ASCII letters by 32 and no other character.
pub proof fn law_lower_case(c: char)
    ensures
        65 <= c as u32 <= 90 ==> lower(c) as u32 == c as u32 + 32,
        !(65 <= c as u32 <= 90) ==> lower(c) == c,
{
}

proof fn lemma_read_error_stays(s: Seq<char>, c: char, i: int, acc: int, negative: bool)
    requires
        0 <= i <= s.len(),
        read_digits(s, i, acc, negative) is Err,
    ensures
        read_digits(s.push(c), i, acc, negative) == read_digits(s, i, acc, negative),
    decreases s.len() - i,
{
    assert(s.push(c)[i] == s[i]);
    if is_digit(s[i]) {
        let d = s[i] as u32 - 48;
        let next = if negative {
            10 * acc - d
        } else {
            10 * acc + d
        };
        if i32::MIN <= next <= i32::MAX {
            lemma_read_error_stays(s, c, i + 1, next, negative);
        }
    }
}

proof fn lemma_big_number(prefix: Seq<char>, n: nat, negative: bool)
    requires
        if negative {
            n > 0x8000_0000
        } else {
            n > 0x7fff_ffff
        },
    ensures
        read_digits(prefix + decimal(n), prefix.len() as int, 0, negative) == Err::<i32, IntError>(
            if negative {
                IntError::NegOverflow
            } else {
                IntError::PosOverflow
            },
        ),
    decreases n,
{
    let c = digit_char(n % 10);
    let rest = prefix + decimal(n / 10);
    assert(prefix + decimal(n) =~= rest.push(c));
    assert(c as u32 - 48 == n % 10);
    if n / 10 > (if negative {
        0x8000_0000nat
    } else {
        0x7fff_ffffnat
    }) {
        lemma_big_number(prefix, n / 10, negative);
        lemma_read_error_stays(rest, c, prefix.len() as int, 0, negative);
    } else {
        let v = if negative {
            -((n / 10) as int)
        } else {
            (n / 10) as int
        };
        lemma_read_decimal(prefix, n / 10, negative);
        lemma_read_digits_push(rest, c, prefix.len() as int, 0, negative, v);
    }
}

/// A number above the largest that fits is too large, and one below the smallest is too small.
pub proof fn law_big_numbers_are_refused(n: nat)
    ensures
        n > 0x7fff_ffff ==> read_i32(decimal(n)) == Err::<i32, IntError>(IntError::PosOverflow),
        n > 0x8000_0000 ==> read_i32(seq!['-'] + decimal(n)) == Err::<i32, IntError>(
            IntError::NegOverflow,
        ),
{
    lemma_decimal_digits(n);
    if n > 0x7fff_ffff {
        lemma_big_number(Seq::empty(), n, false);
        assert(Seq::<char>::empty() + decimal(n) =~= decimal(n));
        assert(is_digit(decimal(n)[0]));
    }
    if n > 0x8000_0000 {
        lemma_big_number(seq!['-'], n, true);
    }
}

proof fn lemma_no_digit(s: Seq<char>, i: int, k: int, acc: int, negative: bool)
    requires
        0 <= i <= k < s.len(),
        !('0' <= s[k] <= '9'),
    ensures
        read_digits(s, i, acc, negative) is Err,
    decreases k - i,
{
    if i < k && is_digit(s[i]) {
        let d = s[i] as u32 - 48;
        let next = if negative {
            10 * acc - d
        } else {
            10 * acc + d
        };
        lemma_no_digit(s, i + 1, k, next, negative);
    }
}

/// A text with any character but digits, behind the sign, is no number.
pub proof fn law_other_characters_are_refused(s: Seq<char>, k: int)
    requires
        0 <= k < s.len(),
        !('0' <= s[k] <= '9'),
        k == 0 ==> s[0] != '+' && s[0] != '-',
    ensures
        read_i32(s) is Err,
{
    if s[0] == '-' {
        lemma_no_digit(s, 1, k, 0, true);
    } else if s[0] == '+' {
        lemma_no_digit(s, 1, k, 0, false);
    } else {
        lemma_no_digit(s, 0, k, 0, false);
    }
}

} // verus!
