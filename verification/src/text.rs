//! Text, character by character: what is trimmed, compared and rendered.

use vstd::prelude::*;

verus! {

/// `String::push` appends one character to the end of the text.
pub assume_specification[ String::push ](s: &mut String, c: char)
    ensures
        final(s)@ == old(s)@.push(c),
;

/// The characters that Unicode gives the property `White_Space`.
pub open spec fn white_space(c: char) -> bool {
    let u = c as u32;
    ||| 0x09 <= u <= 0x0d
    ||| u == 0x20
    ||| u == 0x85
    ||| u == 0xa0
    ||| u == 0x1680
    ||| 0x2000 <= u <= 0x200a
    ||| u == 0x2028
    ||| u == 0x2029
    ||| u == 0x202f
    ||| u == 0x205f
    ||| u == 0x3000
}

/// `s` without the characters at its start that `drop` picks.
pub open spec fn strip_start(s: Seq<char>, drop: spec_fn(char) -> bool) -> Seq<char>
    decreases s.len(),
{
    if s.len() > 0 && drop(s[0]) {
        strip_start(s.drop_first(), drop)
    } else {
        s
    }
}

/// `s` without the characters at its end that `drop` picks.
pub open spec fn strip_end(s: Seq<char>, drop: spec_fn(char) -> bool) -> Seq<char>
    decreases s.len(),
{
    if s.len() > 0 && drop(s.last()) {
        strip_end(s.drop_last(), drop)
    } else {
        s
    }
}

/// `s` without white space at either end.
pub open spec fn trimmed(s: Seq<char>) -> Seq<char> {
    strip_end(strip_start(s, |c: char| white_space(c)), |c: char| white_space(c))
}

/// `s` up to the first `stop`, or all of it where there is none.
pub open spec fn before(s: Seq<char>, stop: char) -> Seq<char>
    decreases s.len(),
{
    if s.len() == 0 || s[0] == stop {
        Seq::empty()
    } else {
        seq![s[0]] + before(s.drop_first(), stop)
    }
}

/// `s` up to the last `stop`, or all of it where there is none.
pub open spec fn before_last(s: Seq<char>, stop: char) -> Seq<char>
    decreases s.len(),
{
    if !s.contains(stop) {
        s
    } else if s.last() == stop {
        s.drop_last()
    } else {
        before_last(s.drop_last(), stop)
    }
}

/// The texts that a sequence of strings holds.
pub open spec fn texts(strings: Seq<String>) -> Seq<Seq<char>> {
    strings.map_values(|s: String| s@)
}

/// The text that an optional string holds.
pub open spec fn text_opt(s: Option<String>) -> Option<Seq<char>> {
    match s {
        Some(t) => Some(t@),
        None => None,
    }
}

/// The decimal digit of `d`.
pub open spec fn digit(d: nat) -> char {
    ('0' as u32 + d) as char
}

/// `n` in decimal, without leading zeros.
pub open spec fn decimal(n: nat) -> Seq<char>
    decreases n,
{
    if n < 10 {
        seq![digit(n)]
    } else {
        decimal(n / 10).push(digit(n % 10))
    }
}

/// `n` in decimal, with a minus sign in front of a negative number.
pub open spec fn signed_decimal(n: int) -> Seq<char> {
    if n < 0 {
        seq!['-'] + decimal((-n) as nat)
    } else {
        decimal(n as nat)
    }
}

/// Whether two texts are the same.
pub fn same(a: &str, b: &str) -> (r: bool)
    ensures
        r == (a@ == b@),
{
    a.to_owned() == b.to_owned()
}

/// One text after the other.
pub fn join(a: &str, b: &str) -> (r: String)
    ensures
        r@ == a@ + b@,
{
    let mut out = a.to_owned();
    out.append(b);
    out
}

/// The characters of a text.
pub fn chars_of(s: &str) -> (r: Vec<char>)
    ensures
        r@ == s@,
{
    let mut out: Vec<char> = Vec::new();
    for c in it: s.chars()
        invariant
            it.seq() == s@,
            out@ == s@.take(it.index()),
    {
        out.push(c);
        assert(out@ == s@.take(it.index() + 1));
    }
    assert(s@.take(s@.len() as int) == s@);
    out
}

/// The text from character `from` up to character `to`.
pub(crate) fn slice(s: &str, from: usize, to: usize) -> (r: String)
    requires
        from <= to <= s@.len(),
    ensures
        r@ == s@.subrange(from as int, to as int),
{
    s.substring_char(from, to).to_owned()
}

/// Whether a character is white space.
pub fn is_white_space(c: char) -> (r: bool)
    ensures
        r == white_space(c),
{
    let u: u32 = c as u32;
    (0x09 <= u && u <= 0x0d) || u == 0x20 || u == 0x85 || u == 0xa0 || u == 0x1680 || (0x2000 <= u
        && u <= 0x200a) || u == 0x2028 || u == 0x2029 || u == 0x202f || u == 0x205f || u == 0x3000
}

/// The text without white space at either end.
pub fn trim(s: &str) -> (r: String)
    ensures
        r@ == trimmed(s@),
{
    let chars = chars_of(s);
    let ghost ws = |c: char| white_space(c);
    let n: usize = chars.len();
    let mut from: usize = 0;
    assert(s@.subrange(0, n as int) == s@);
    while from < n && is_white_space(chars[from])
        invariant
            chars@ == s@,
            n == s@.len(),
            from <= n,
            ws == |c: char| white_space(c),
            strip_start(s@, ws) == strip_start(s@.subrange(from as int, n as int), ws),
        decreases n - from,
    {
        assert(s@.subrange(from as int, n as int).drop_first() == s@.subrange(from + 1, n as int));
        from = from + 1;
    }
    let ghost kept = strip_start(s@, ws);
    assert(kept == s@.subrange(from as int, n as int));
    let mut to: usize = n;
    while from < to && is_white_space(chars[to - 1])
        invariant
            chars@ == s@,
            n == s@.len(),
            from <= to <= n,
            ws == |c: char| white_space(c),
            strip_end(kept, ws) == strip_end(s@.subrange(from as int, to as int), ws),
        decreases to - from,
    {
        assert(s@.subrange(from as int, to as int).drop_last() == s@.subrange(from as int, to - 1));
        to = to - 1;
    }
    slice(s, from, to)
}

/// The text without any `end` at its end.
pub fn trim_end_of(s: &str, end: char) -> (r: String)
    ensures
        r@ == strip_end(s@, |c: char| c == end),
{
    let chars = chars_of(s);
    let ghost drop = |c: char| c == end;
    let mut to: usize = chars.len();
    assert(s@.subrange(0, to as int) == s@);
    while 0 < to && chars[to - 1] == end
        invariant
            chars@ == s@,
            to <= s@.len(),
            drop == |c: char| c == end,
            strip_end(s@, drop) == strip_end(s@.subrange(0, to as int), drop),
        decreases to,
    {
        assert(s@.subrange(0, to as int).drop_last() == s@.subrange(0, to - 1));
        to = to - 1;
    }
    slice(s, 0, to)
}

/// The text up to the first `stop`, or all of it where there is none.
pub fn up_to(s: &str, stop: char) -> (r: String)
    ensures
        r@ == before(s@, stop),
{
    let chars = chars_of(s);
    let n: usize = chars.len();
    let mut to: usize = 0;
    assert(s@.subrange(0, n as int) == s@);
    while to < n && chars[to] != stop
        invariant
            chars@ == s@,
            n == s@.len(),
            to <= n,
            before(s@, stop) == s@.take(to as int) + before(s@.subrange(to as int, n as int), stop),
        decreases n - to,
    {
        let ghost rest = s@.subrange(to as int, n as int);
        assert(rest.drop_first() == s@.subrange(to + 1, n as int));
        assert(s@.take(to + 1) == s@.take(to as int) + seq![rest[0]]);
        to = to + 1;
    }
    slice(s, 0, to)
}

/// The text up to the last `stop`, or all of it where there is none.
pub fn up_to_last(s: &str, stop: char) -> (r: String)
    ensures
        r@ == before_last(s@, stop),
{
    let chars = chars_of(s);
    let n: usize = chars.len();
    let mut to: usize = n;
    assert(s@.take(n as int) == s@);
    while 0 < to && chars[to - 1] != stop
        invariant
            chars@ == s@,
            n == s@.len(),
            to <= n,
            forall|i: int| to <= i < n ==> s@[i] != stop,
            s@.contains(stop) ==> before_last(s@, stop) == before_last(s@.take(to as int), stop),
        decreases to,
    {
        let ghost part = s@.take(to as int);
        assert(part.drop_last() == s@.take(to - 1));
        assert(s@.contains(stop) ==> part.contains(stop)) by {
            if s@.contains(stop) {
                let i = s@.index_of(stop);
                assert(part[i] == stop);
            }
        }
        to = to - 1;
    }
    if to == 0 {
        return s.to_owned();
    }
    let ghost part = s@.take(to as int);
    assert(s@[to - 1] == stop && part[to - 1] == stop);
    assert(part.drop_last() == s@.take(to - 1));
    slice(s, 0, to - 1)
}

/// The digit character of a number below ten.
pub(crate) fn digit_char(d: u8) -> (r: char)
    requires
        d < 10,
    ensures
        r == digit(d as nat),
{
    (48u8 + d) as char
}

/// A number in decimal.
pub fn render(n: u64) -> (r: String)
    ensures
        r@ == decimal(n as nat),
    decreases n,
{
    let mut out = if n < 10 {
        String::new()
    } else {
        render(n / 10)
    };
    out.push(digit_char((n % 10) as u8));
    out
}

/// A signed number in decimal.
pub fn render_signed(n: i64) -> (r: String)
    ensures
        r@ == signed_decimal(n as int),
{
    if n < 0 {
        let size: u64 = magnitude(n);
        let mut out = String::new();
        out.push('-');
        let digits = render(size);
        out.append(digits.as_str());
        assert(out@ == seq!['-'] + decimal(size as nat));
        out
    } else {
        render(n as u64)
    }
}

/// The distance of a number from zero.
pub fn magnitude(n: i64) -> (r: u64)
    ensures
        r == (if n < 0 {
            -n
        } else {
            n as int
        }),
        r <= 0x8000_0000_0000_0000,
{
    if n >= 0 {
        n as u64
    } else if n == i64::MIN {
        0x8000_0000_0000_0000
    } else {
        (-n) as u64
    }
}

} // verus!
