//! Character-level text helpers: Unicode whitespace, trimming, decimal
//! rendering and conversions between `String` and character vectors.

use vstd::prelude::*;

verus! {

/// `String::push` appends the character `ch` to the end of the string, as its
/// documentation says.
pub assume_specification[ String::push ](s: &mut String, ch: char)
    ensures
        final(s)@ == old(s)@.push(ch),
;

/// `String::pop` removes the last character of the string and returns it, or
/// returns `None` and leaves the string alone when it is empty, as its
/// documentation says.
pub assume_specification[ String::pop ](s: &mut String) -> (res: Option<char>)
    ensures
        old(s)@.len() == 0 ==> res is None && final(s)@ == old(s)@,
        old(s)@.len() > 0 ==> res == Some(old(s)@.last()) && final(s)@ == old(s)@.drop_last(),
;

/// The contents of each string of `s`.
pub open spec fn string_views(s: Seq<String>) -> Seq<Seq<char>> {
    s.map_values(|x: String| x@)
}

/// The Unicode `White_Space` property, which `char::is_whitespace` and the
/// `trim` family of `str` follow.
pub open spec fn is_space(c: char) -> bool {
    let u = c as u32;
    ||| 0x9 <= u <= 0xd
    ||| u == 0x20
    ||| u == 0x85
    ||| u == 0xa0
    ||| u == 0x1680
    ||| 0x2000 <= u <= 0x200a
    ||| u == 0x2028
    ||| u == 0x2029
    ||| u == 0x202f
    ||| u == 0x205f
    ||| u == 0x3000
}

/// Which characters a trimming operation removes.
pub enum CharClass {
    Whitespace,
    Exactly(char),
}

pub open spec fn in_class(class: CharClass, c: char) -> bool {
    match class {
        CharClass::Whitespace => is_space(c),
        CharClass::Exactly(d) => c == d,
    }
}

/// `s` without the characters of `class` at its end.
pub open spec fn trim_end_by(s: Seq<char>, class: CharClass) -> Seq<char>
    decreases s.len(),
{
    if s.len() > 0 && in_class(class, s.last()) {
        trim_end_by(s.drop_last(), class)
    } else {
        s
    }
}

/// `s` without the characters of `class` at its start.
pub open spec fn trim_start_by(s: Seq<char>, class: CharClass) -> Seq<char>
    decreases s.len(),
{
    if s.len() > 0 && in_class(class, s[0]) {
        trim_start_by(s.drop_first(), class)
    } else {
        s
    }
}

/// `s` without the characters of `class` at either end.
pub open spec fn trim_by(s: Seq<char>, class: CharClass) -> Seq<char> {
    trim_start_by(trim_end_by(s, class), class)
}

pub open spec fn trim_end(s: Seq<char>) -> Seq<char> {
    trim_end_by(s, CharClass::Whitespace)
}

pub open spec fn trim(s: Seq<char>) -> Seq<char> {
    trim_by(s, CharClass::Whitespace)
}

/// The character of the decimal digit `d`.
pub open spec fn digit_char(d: nat) -> char {
    (48 + d) as char
}

/// The decimal rendering of `n`, without sign or leading zeros.
pub open spec fn decimal(n: nat) -> Seq<char>
    decreases n,
{
    if n < 10 {
        seq![digit_char(n)]
    } else {
        decimal(n / 10).push(digit_char(n % 10))
    }
}

pub fn is_whitespace(c: char) -> (res: bool)
    ensures
        res == is_space(c),
{
    let u = c as u32;
    (0x9 <= u && u <= 0xd) || u == 0x20 || u == 0x85 || u == 0xa0 || u == 0x1680 || (0x2000 <= u
        && u <= 0x200a) || u == 0x2028 || u == 0x2029 || u == 0x202f || u == 0x205f || u == 0x3000
}

/// The code point of `c`.
pub fn char_code(c: char) -> (u: u32)
    ensures
        u as int == c as int,
{
    c as u32
}

pub fn is_in_class(class: &CharClass, c: char) -> (res: bool)
    ensures
        res == in_class(*class, c),
{
    match class {
        CharClass::Whitespace => is_whitespace(c),
        CharClass::Exactly(d) => c == *d,
    }
}

/// The characters of `s`, in order.
pub fn chars_of(s: &str) -> (res: Vec<char>)
    ensures
        res@ == s@,
{
    let mut res: Vec<char> = Vec::new();
    for c in it: s.chars()
        invariant
            res@ == it.seq().take(it.index() as int),
            it.seq() == s@,
    {
        res.push(c);
    }
    res
}

/// A `String` holding `chars@`.
pub fn string_of(chars: &[char]) -> (res: String)
    ensures
        res@ == chars@,
{
    let mut res = String::new();
    let mut i: usize = 0;
    while i < chars.len()
        invariant
            i <= chars.len(),
            res@ == chars@.take(i as int),
        decreases chars.len() - i,
    {
        res.push(chars[i]);
        assert(chars@.take(i + 1) == chars@.take(i as int).push(chars@[i as int]));
        i += 1;
    }
    assert(chars@.take(chars.len() as int) == chars@);
    res
}

/// A `String` holding the characters `chars[start..end]`.
pub fn string_of_range(chars: &[char], start: usize, end: usize) -> (res: String)
    requires
        start <= end <= chars.len(),
    ensures
        res@ == chars@.subrange(start as int, end as int),
{
    let mut res = String::new();
    let mut i: usize = start;
    while i < end
        invariant
            start <= i <= end <= chars.len(),
            res@ == chars@.subrange(start as int, i as int),
        decreases end - i,
    {
        res.push(chars[i]);
        assert(chars@.subrange(start as int, i + 1) == chars@.subrange(start as int, i as int).push(
            chars@[i as int],
        ));
        i += 1;
    }
    res
}

/// A `String` holding the characters of `s`.
pub fn string_from(s: &str) -> (res: String)
    ensures
        res@ == s@,
{
    let mut res = String::new();
    push_str(&mut res, s);
    assert(Seq::<char>::empty() + s@ == s@);
    res
}

/// Appends the characters of `s` to `out`.
pub fn push_str(out: &mut String, s: &str)
    ensures
        final(out)@ == old(out)@ + s@,
{
    let ghost start = out@;
    for c in it: s.chars()
        invariant
            out@ == start + it.seq().take(it.index() as int),
            it.seq() == s@,
    {
        out.push(c);
        assert(it.seq().take(it.index() + 1) == it.seq().take(it.index() as int).push(c));
    }
    assert(s@.take(s@.len() as int) == s@);
}

proof fn lemma_trim_end_step(s: Seq<char>, k: int, class: CharClass)
    requires
        0 < k <= s.len(),
        in_class(class, s[k - 1]),
    ensures
        trim_end_by(s.take(k), class) == trim_end_by(s.take(k - 1), class),
{
    assert(s.take(k).drop_last() == s.take(k - 1));
}

/// The length of `trim_end_by(s, class)`: its characters are `s[..n]`.
pub fn trim_end_len(s: &[char], class: &CharClass) -> (n: usize)
    ensures
        n <= s.len(),
        s@.take(n as int) == trim_end_by(s@, *class),
{
    let mut k = s.len();
    assert(s@.take(k as int) == s@);
    while k > 0 && is_in_class(class, s[k - 1])
        invariant
            k <= s.len(),
            trim_end_by(s@.take(k as int), *class) == trim_end_by(s@, *class),
        decreases k,
    {
        proof {
            lemma_trim_end_step(s@, k as int, *class);
        }
        k -= 1;
    }
    k
}

proof fn lemma_trim_start_step(s: Seq<char>, j: int, class: CharClass)
    requires
        0 <= j < s.len(),
        in_class(class, s[j]),
    ensures
        trim_start_by(s.skip(j), class) == trim_start_by(s.skip(j + 1), class),
{
    assert(s.skip(j).drop_first() == s.skip(j + 1));
}

/// Where `trim_start_by(s[..end], class)` begins: its characters are `s[j..end]`.
pub fn trim_start_index(s: &[char], end: usize, class: &CharClass) -> (j: usize)
    requires
        end <= s.len(),
    ensures
        j <= end,
        s@.subrange(j as int, end as int) == trim_start_by(s@.take(end as int), *class),
{
    let ghost t = s@.take(end as int);
    let mut j: usize = 0;
    assert(t.skip(0) == t);
    while j < end && is_in_class(class, s[j])
        invariant
            j <= end <= s.len(),
            t == s@.take(end as int),
            trim_start_by(t.skip(j as int), *class) == trim_start_by(t, *class),
        decreases end - j,
    {
        proof {
            lemma_trim_start_step(t, j as int, *class);
        }
        j += 1;
    }
    assert(t.skip(j as int) == s@.subrange(j as int, end as int));
    j
}

/// The bounds `(start, end)` of `trim_by(s, class)` within `s`.
pub fn trim_bounds(s: &[char], class: &CharClass) -> (r: (usize, usize))
    ensures
        r.0 <= r.1 <= s.len(),
        s@.subrange(r.0 as int, r.1 as int) == trim_by(s@, *class),
{
    let end = trim_end_len(s, class);
    let start = trim_start_index(s, end, class);
    (start, end)
}

/// Appends the decimal rendering of `n` to `out`.
pub fn push_decimal(out: &mut String, n: u64)
    ensures
        final(out)@ == old(out)@ + decimal(n as nat),
    decreases n,
{
    if n >= 10 {
        push_decimal(out, n / 10);
    }
    let d = (n % 10) as u8;
    let c = (48u8 + d) as char;
    assert(c == digit_char((n % 10) as nat));
    out.push(c);
}

/// The decimal rendering of `n`.
pub fn decimal_string(n: u64) -> (res: String)
    ensures
        res@ == decimal(n as nat),
{
    let mut res = String::new();
    push_decimal(&mut res, n);
    res
}

} // verus!
