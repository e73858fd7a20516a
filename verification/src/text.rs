//! Character-level helpers shared by the parsers and the message builders.
//!
//! Every string in this crate is reasoned about through its view, a
//! `Seq<char>`. The functions here move between `&str`, `String` and
//! `Vec<char>` and provide the small amount of text processing the rest of the
//! crate needs, each with an exact specification over sequences of characters.

use vstd::prelude::*;

verus! {

/// Appends one character to a string.
///
/// Trusted: wraps `String::push`, which the standard library documents as
/// appending the given `char` to the end of the string.
#[verifier::external_body]
pub(crate) fn push_char(s: &mut String, c: char)
    ensures
        final(s)@ == old(s)@.push(c),
{
    s.push(c);
}

/// The characters of `s`, in order.
pub fn to_chars(s: &str) -> (v: Vec<char>)
    ensures
        v@ == s@,
{
    let mut v: Vec<char> = Vec::new();
    for c in it: s.chars()
        invariant
            v@ == it.seq().take(it.index() as int),
            it.seq() == s@,
    {
        v.push(c);
    }
    v
}

/// Appends the characters `v[from..to]` to `s`.
pub(crate) fn push_range(s: &mut String, v: &Vec<char>, from: usize, to: usize)
    requires
        from <= to <= v.len(),
    ensures
        final(s)@ == old(s)@ + v@.subrange(from as int, to as int),
{
    let mut i: usize = from;
    while i < to
        invariant
            from <= i <= to <= v.len(),
            s@ == old(s)@ + v@.subrange(from as int, i as int),
        decreases to - i,
    {
        push_char(s, v[i]);
        i = i + 1;
        assert(s@ =~= old(s)@ + v@.subrange(from as int, i as int));
    }
}

/// The string made of the characters `v[from..to]`.
pub(crate) fn string_of_range(v: &Vec<char>, from: usize, to: usize) -> (s: String)
    requires
        from <= to <= v.len(),
    ensures
        s@ == v@.subrange(from as int, to as int),
{
    let mut s = String::new();
    push_range(&mut s, v, from, to);
    assert(s@ =~= v@.subrange(from as int, to as int));
    s
}

/// The string made of the characters of `v`.
pub fn from_chars(v: &Vec<char>) -> (s: String)
    ensures
        s@ == v@,
{
    let s = string_of_range(v, 0, v.len());
    assert(v@.subrange(0, v.len() as int) =~= v@);
    s
}

/// The character that writes the digit `d` (for `d < 10`).
pub open spec fn digit_char(d: int) -> char {
    if d == 0 {
        '0'
    } else if d == 1 {
        '1'
    } else if d == 2 {
        '2'
    } else if d == 3 {
        '3'
    } else if d == 4 {
        '4'
    } else if d == 5 {
        '5'
    } else if d == 6 {
        '6'
    } else if d == 7 {
        '7'
    } else if d == 8 {
        '8'
    } else {
        '9'
    }
}

/// The decimal digits of a natural number, most significant first, without
/// leading zeros (`0` is written "0").
pub open spec fn decimal_digits(n: nat) -> Seq<char>
    decreases n,
{
    if n < 10 {
        seq![digit_char(n as int)]
    } else {
        decimal_digits(n / 10).push(digit_char((n % 10) as int))
    }
}

/// The decimal text of an integer: a minus sign for negative numbers,
/// followed by the digits of its magnitude.
pub open spec fn decimal(n: int) -> Seq<char> {
    if n < 0 {
        seq!['-'] + decimal_digits((-n) as nat)
    } else {
        decimal_digits(n as nat)
    }
}

fn digit_to_char(d: u8) -> (c: char)
    requires
        d < 10,
    ensures
        c == digit_char(d as int),
{
    if d == 0 {
        '0'
    } else if d == 1 {
        '1'
    } else if d == 2 {
        '2'
    } else if d == 3 {
        '3'
    } else if d == 4 {
        '4'
    } else if d == 5 {
        '5'
    } else if d == 6 {
        '6'
    } else if d == 7 {
        '7'
    } else if d == 8 {
        '8'
    } else {
        '9'
    }
}

/// Appends the decimal text of `n` to `s`.
pub fn push_unsigned(s: &mut String, n: u64)
    ensures
        final(s)@ == old(s)@ + decimal_digits(n as nat),
{
    // Collect the digits least significant first, then append them reversed.
    let mut rev: Vec<char> = Vec::new();
    let mut rest: u64 = n;
    assert(decimal_digits(n as nat) =~= decimal_digits(rest as nat) + rev@.reverse());
    while rest >= 10
        invariant
            decimal_digits(n as nat) == decimal_digits(rest as nat) + rev@.reverse(),
        decreases rest,
    {
        let d: u8 = (rest % 10) as u8;
        let c = digit_to_char(d);
        let ghost before = rev@;
        let ghost prev = rest;
        rev.push(c);
        rest = rest / 10;
        proof {
            assert(rev@.reverse() =~= seq![c] + before.reverse());
            assert(decimal_digits(prev as nat) == decimal_digits(rest as nat).push(c));
            assert(decimal_digits(rest as nat).push(c) + before.reverse() =~= decimal_digits(
                rest as nat,
            ) + rev@.reverse());
        }
    }
    let last = digit_to_char(rest as u8);
    push_char(s, last);
    let mut i: usize = rev.len();
    proof {
        assert(decimal_digits(rest as nat) =~= seq![last]);
    }
    while i > 0
        invariant
            i <= rev.len(),
            decimal_digits(n as nat) == seq![last] + rev@.reverse(),
            s@ == old(s)@ + (seq![last] + rev@.reverse()).take(1 + rev.len() - i),
        decreases i,
    {
        i = i - 1;
        push_char(s, rev[i]);
        proof {
            let whole = seq![last] + rev@.reverse();
            let k = 1 + rev.len() - i;
            assert(whole[k - 1] == rev@[i as int]);
            assert(whole.take(k) =~= whole.take(k - 1).push(rev@[i as int]));
            assert(s@ =~= old(s)@ + whole.take(k));
        }
    }
    proof {
        let whole = seq![last] + rev@.reverse();
        assert(whole.take(whole.len() as int) =~= whole);
    }
}

/// Appends the decimal text of `n` to `s`.
pub fn push_signed(s: &mut String, n: i64)
    ensures
        final(s)@ == old(s)@ + decimal(n as int),
{
    if n < 0 {
        push_char(s, '-');
        // The magnitude of `i64::MIN` does not fit in `i64`, so widen first.
        let magnitude: u64 = (-(n as i128)) as u64;
        push_unsigned(s, magnitude);
        assert(s@ =~= old(s)@ + decimal(n as int));
    } else {
        push_unsigned(s, n as u64);
    }
}

/// The decimal text of `n`.
pub fn unsigned_to_string(n: u64) -> (s: String)
    ensures
        s@ == decimal_digits(n as nat),
{
    let mut s = String::new();
    push_unsigned(&mut s, n);
    assert(s@ =~= decimal_digits(n as nat));
    s
}

/// Whether `c` is a decimal digit `0`..`9`.
pub open spec fn is_digit(c: char) -> bool {
    '0' <= c && c <= '9'
}

/// The number that the digit `c` stands for.
pub open spec fn digit_value(c: char) -> int {
    (c as int) - ('0' as int)
}

/// Whether every character of `s` is a decimal digit.
pub open spec fn all_digits(s: Seq<char>) -> bool {
    forall|i: int| 0 <= i < s.len() ==> is_digit(#[trigger] s[i])
}

/// The number written by a sequence of decimal digits (0 for the empty
/// sequence). Leading zeros are allowed.
pub open spec fn digits_value(s: Seq<char>) -> int
    decreases s.len(),
{
    if s.len() == 0 {
        0
    } else {
        digits_value(s.drop_last()) * 10 + digit_value(s.last())
    }
}

/// Reads an unsigned decimal number no larger than `max`: an optional `+`,
/// then one or more digits. Anything else, or a value above `max`, is `None`.
pub open spec fn parse_unsigned(s: Seq<char>, max: int) -> Option<int> {
    let body = if s.len() > 0 && s[0] == '+' {
        s.drop_first()
    } else {
        s
    };
    if body.len() > 0 && all_digits(body) && digits_value(body) <= max {
        Some(digits_value(body))
    } else {
        None
    }
}

/// Reads a signed decimal number within `min..=max`: an optional `+` or `-`,
/// then one or more digits. Anything else, or a value out of range, is `None`.
pub open spec fn parse_signed(s: Seq<char>, min: int, max: int) -> Option<int> {
    let signed = s.len() > 0 && (s[0] == '+' || s[0] == '-');
    let body = if signed {
        s.drop_first()
    } else {
        s
    };
    let value = if s.len() > 0 && s[0] == '-' {
        -digits_value(body)
    } else {
        digits_value(body)
    };
    if body.len() > 0 && all_digits(body) && min <= value <= max {
        Some(value)
    } else {
        None
    }
}

/// Whether `c` is a decimal digit.
pub fn char_is_digit(c: char) -> (b: bool)
    ensures
        b == is_digit(c),
{
    '0' <= c && c <= '9'
}

/// Reads the digits `v[from..to]` as a number, giving up once the value
/// exceeds `max`. `None` also when the range is empty or holds a non-digit.
fn read_digits(v: &Vec<char>, from: usize, to: usize, max: u64) -> (r: Option<u64>)
    requires
        from <= to <= v.len(),
        max < 0x1000_0000_0000_0000,
    ensures
        r.is_some() <==> (from < to && all_digits(v@.subrange(from as int, to as int))
            && digits_value(v@.subrange(from as int, to as int)) <= max),
        r matches Some(n) ==> n as int == digits_value(v@.subrange(from as int, to as int)),
{
    if from == to {
        return None;
    }
    let mut acc: u64 = 0;
    let mut over: bool = false;
    let mut i: usize = from;
    assert(v@.subrange(from as int, i as int) =~= Seq::<char>::empty());
    while i < to
        invariant
            from <= i <= to <= v.len(),
            max < 0x1000_0000_0000_0000,
            all_digits(v@.subrange(from as int, i as int)),
            digits_value(v@.subrange(from as int, i as int)) >= 0,
            !over ==> acc == digits_value(v@.subrange(from as int, i as int)) && acc <= max,
            over ==> digits_value(v@.subrange(from as int, i as int)) > max,
        decreases to - i,
    {
        let c = v[i];
        let ghost before = v@.subrange(from as int, i as int);
        let ghost after = v@.subrange(from as int, i + 1);
        proof {
            assert(after.drop_last() =~= before);
            assert(after.last() == c);
        }
        if !char_is_digit(c) {
            proof {
                let whole = v@.subrange(from as int, to as int);
                assert(whole[i - from] == c);
            }
            return None;
        }
        let d: u64 = (c as u64) - ('0' as u64);
        if !over {
            let next: u64 = acc * 10 + d;
            if next > max {
                over = true;
            } else {
                acc = next;
            }
        }
        i = i + 1;
        proof {
            assert forall|k: int| 0 <= k < after.len() implies is_digit(#[trigger] after[k]) by {
                if k < before.len() {
                    assert(after[k] == before[k]);
                }
            }
        }
    }
    if over {
        None
    } else {
        Some(acc)
    }
}

/// Reads `v[from..to]` as an unsigned number of at most 16 bits.
pub(crate) fn parse_u16_range(v: &Vec<char>, from: usize, to: usize) -> (r: Option<u16>)
    requires
        from <= to <= v.len(),
    ensures
        parse_unsigned(v@.subrange(from as int, to as int), 0xffff) == (match r {
            Some(n) => Some(n as int),
            None => None,
        }),
{
    let ghost s = v@.subrange(from as int, to as int);
    let start: usize = if from < to && v[from] == '+' {
        from + 1
    } else {
        from
    };
    proof {
        if start > from {
            assert(s[0] == '+');
            assert(s.drop_first() =~= v@.subrange(start as int, to as int));
        } else {
            assert(s.len() > 0 ==> s[0] == v@[from as int]);
        }
    }
    match read_digits(v, start, to, 0xffff) {
        Some(n) => Some(n as u16),
        None => None,
    }
}

/// Reads `v[from..to]` as a signed number of at most 32 bits.
pub(crate) fn parse_i32_range(v: &Vec<char>, from: usize, to: usize) -> (r: Option<i32>)
    requires
        from <= to <= v.len(),
    ensures
        parse_signed(v@.subrange(from as int, to as int), -0x8000_0000, 0x7fff_ffff) == (match r {
            Some(n) => Some(n as int),
            None => None,
        }),
{
    let ghost s = v@.subrange(from as int, to as int);
    let negative: bool = from < to && v[from] == '-';
    let start: usize = if from < to && (v[from] == '+' || v[from] == '-') {
        from + 1
    } else {
        from
    };
    proof {
        if start > from {
            assert(s[0] == v@[from as int]);
            assert(s.drop_first() =~= v@.subrange(start as int, to as int));
        } else {
            assert(s.len() > 0 ==> s[0] == v@[from as int]);
        }
    }
    if negative {
        match read_digits(v, start, to, 0x8000_0000) {
            Some(n) => Some((-(n as i64)) as i32),
            None => None,
        }
    } else {
        match read_digits(v, start, to, 0x7fff_ffff) {
            Some(n) => Some(n as i32),
            None => None,
        }
    }
}


/// The views of a list of strings, in order.
pub open spec fn views(list: Seq<String>) -> Seq<Seq<char>> {
    list.map_values(|s: String| s@)
}

/// The pieces of `parts` written one after another with `sep` between each
/// two neighbours.
pub open spec fn join(parts: Seq<Seq<char>>, sep: Seq<char>) -> Seq<char>
    decreases parts.len(),
{
    if parts.len() == 0 {
        Seq::<char>::empty()
    } else if parts.len() == 1 {
        parts[0]
    } else {
        join(parts.drop_last(), sep) + sep + parts.last()
    }
}

/// Whether `needle` occurs in `hay` as a contiguous run of characters.
pub open spec fn has_substring(hay: Seq<char>, needle: Seq<char>) -> bool {
    exists|i: int|
        0 <= i && i + needle.len() <= hay.len() && #[trigger] hay.subrange(
            i,
            i + needle.len() as int,
        ) == needle
}

/// A text occurs in any text built around it.
pub proof fn lemma_has_substring_in_concat(before: Seq<char>, middle: Seq<char>, after: Seq<char>)
    ensures
        has_substring(before + middle + after, middle),
{
    let whole = before + middle + after;
    let i = before.len() as int;
    assert(whole.subrange(i, i + middle.len() as int) =~= middle);
}

/// Containment carries over to any text built around the containing one.
pub proof fn lemma_has_substring_extends(
    before: Seq<char>,
    hay: Seq<char>,
    after: Seq<char>,
    needle: Seq<char>,
)
    requires
        has_substring(hay, needle),
    ensures
        has_substring(before + hay + after, needle),
{
    let i = choose|i: int|
        0 <= i && i + needle.len() <= hay.len() && #[trigger] hay.subrange(
            i,
            i + needle.len() as int,
        ) == needle;
    let whole = before + hay + after;
    let j = before.len() + i;
    assert(whole.subrange(j, j + needle.len() as int) =~= hay.subrange(
        i,
        i + needle.len() as int,
    ));
}

/// Writes the strings of `parts` one after another with `sep` between each
/// two neighbours.
pub fn join_strings(parts: &Vec<String>, sep: &str) -> (joined: String)
    ensures
        joined@ == join(views(parts@), sep@),
{
    let mut joined = String::new();
    let mut i: usize = 0;
    assert(views(parts@).take(0) =~= Seq::<Seq<char>>::empty());
    while i < parts.len()
        invariant
            i <= parts.len(),
            joined@ == join(views(parts@).take(i as int), sep@),
        decreases parts.len() - i,
    {
        let ghost done = views(parts@).take(i as int);
        let ghost next = views(parts@).take(i + 1);
        proof {
            assert(next.drop_last() =~= done);
            assert(next.last() == parts@[i as int]@);
        }
        if i > 0 {
            joined.append(sep);
        }
        joined.append(parts[i].as_str());
        proof {
            if i == 0 {
                assert(joined@ =~= parts@[i as int]@);
            }
        }
        i = i + 1;
    }
    assert(views(parts@).take(parts.len() as int) =~= views(parts@));
    joined
}


/// Every text contains itself.
pub proof fn lemma_has_substring_self(text: Seq<char>)
    ensures
        has_substring(text, text),
{
    assert(text.subrange(0, 0 + text.len() as int) =~= text);
}

/// A joined text contains each of its pieces.
pub proof fn lemma_join_has_part(parts: Seq<Seq<char>>, sep: Seq<char>, i: int)
    requires
        0 <= i < parts.len(),
    ensures
        has_substring(join(parts, sep), parts[i]),
    decreases parts.len(),
{
    let empty = Seq::<char>::empty();
    if parts.len() == 1 {
        lemma_has_substring_self(parts[0]);
    } else {
        let init = join(parts.drop_last(), sep);
        if i == parts.len() - 1 {
            lemma_has_substring_in_concat(init + sep, parts.last(), empty);
            assert(init + sep + parts.last() + empty =~= join(parts, sep));
        } else {
            lemma_join_has_part(parts.drop_last(), sep, i);
            lemma_has_substring_extends(empty, init, sep + parts.last(), parts[i]);
            assert(empty + init + (sep + parts.last()) =~= join(parts, sep));
        }
    }
}


/// Whether `c` is white space: the Unicode characters with the property
/// `White_Space`.
pub open spec fn is_whitespace(c: char) -> bool {
    let n = c as u32;
    (0x09 <= n <= 0x0d) || n == 0x20 || n == 0x85 || n == 0xa0 || n == 0x1680 || (0x2000 <= n
        <= 0x200a) || n == 0x2028 || n == 0x2029 || n == 0x202f || n == 0x205f || n == 0x3000
}

/// `s` without its leading white space.
pub open spec fn trim_start(s: Seq<char>) -> Seq<char>
    decreases s.len(),
{
    if s.len() > 0 && is_whitespace(s[0]) {
        trim_start(s.drop_first())
    } else {
        s
    }
}

/// `s` without its trailing white space.
pub open spec fn trim_end(s: Seq<char>) -> Seq<char>
    decreases s.len(),
{
    if s.len() > 0 && is_whitespace(s.last()) {
        trim_end(s.drop_last())
    } else {
        s
    }
}

/// `s` without its leading and trailing white space.
pub open spec fn trim(s: Seq<char>) -> Seq<char> {
    trim_end(trim_start(s))
}

/// Whether `c` is white space.
pub fn char_is_whitespace(c: char) -> (b: bool)
    ensures
        b == is_whitespace(c),
{
    let n: u32 = c as u32;
    (0x09 <= n && n <= 0x0d) || n == 0x20 || n == 0x85 || n == 0xa0 || n == 0x1680 || (0x2000 <= n
        && n <= 0x200a) || n == 0x2028 || n == 0x2029 || n == 0x202f || n == 0x205f || n == 0x3000
}

/// The bounds of `v[from..to]` once leading and trailing white space is cut
/// off.
pub(crate) fn trim_range(v: &Vec<char>, from: usize, to: usize) -> (bounds: (usize, usize))
    requires
        from <= to <= v.len(),
    ensures
        from <= bounds.0 <= bounds.1 <= to,
        v@.subrange(bounds.0 as int, bounds.1 as int) == trim(v@.subrange(from as int, to as int)),
{
    let mut a: usize = from;
    while a < to && char_is_whitespace(v[a])
        invariant
            from <= a <= to <= v.len(),
            trim_start(v@.subrange(from as int, to as int)) == trim_start(
                v@.subrange(a as int, to as int),
            ),
        decreases to - a,
    {
        proof {
            let cur = v@.subrange(a as int, to as int);
            assert(cur[0] == v@[a as int]);
            assert(cur.drop_first() =~= v@.subrange(a + 1, to as int));
        }
        a = a + 1;
    }
    proof {
        let cur = v@.subrange(a as int, to as int);
        if a < to {
            assert(cur[0] == v@[a as int]);
        }
        assert(trim_start(cur) == cur);
    }
    let mut b: usize = to;
    while b > a && char_is_whitespace(v[b - 1])
        invariant
            a <= b <= to <= v.len(),
            trim_end(v@.subrange(a as int, to as int)) == trim_end(v@.subrange(a as int, b as int)),
        decreases b,
    {
        proof {
            let cur = v@.subrange(a as int, b as int);
            assert(cur.last() == v@[b - 1]);
            assert(cur.drop_last() =~= v@.subrange(a as int, b - 1));
        }
        b = b - 1;
    }
    proof {
        let cur = v@.subrange(a as int, b as int);
        if b > a {
            assert(cur.last() == v@[b - 1]);
        }
        assert(trim_end(cur) == cur);
    }
    (a, b)
}

/// The characters `v[from..to]`, trimmed, as a list of their own.
pub(crate) fn trimmed_chars(v: &Vec<char>, from: usize, to: usize) -> (out: Vec<char>)
    requires
        from <= to <= v.len(),
    ensures
        out@ == trim(v@.subrange(from as int, to as int)),
{
    let (a, b) = trim_range(v, from, to);
    let mut out: Vec<char> = Vec::new();
    let mut i: usize = a;
    while i < b
        invariant
            a <= i <= b <= v.len(),
            out@ == v@.subrange(a as int, i as int),
        decreases b - i,
    {
        out.push(v[i]);
        i = i + 1;
        assert(out@ =~= v@.subrange(a as int, i as int));
    }
    out
}

/// The views of a list of character lists, in order.
pub open spec fn pieces(list: Seq<Vec<char>>) -> Seq<Seq<char>> {
    list.map_values(|p: Vec<char>| p@)
}

/// The position of the first `sep` in `s`, or the length of `s` when there
/// is none.
pub open spec fn index_of(s: Seq<char>, sep: char) -> nat
    decreases s.len(),
{
    if s.len() == 0 || s[0] == sep {
        0
    } else {
        1 + index_of(s.drop_first(), sep)
    }
}

/// The pieces of `s` between occurrences of `sep`. There is always one more
/// piece than there are separators; pieces may be empty.
pub open spec fn split(s: Seq<char>, sep: char) -> Seq<Seq<char>>
    decreases s.len(),
{
    let i = index_of(s, sep) as int;
    if i >= s.len() {
        seq![s]
    } else {
        seq![s.take(i)] + split(s.skip(i + 1), sep)
    }
}

proof fn lemma_index_of_first(s: Seq<char>, sep: char, n: int)
    requires
        0 <= n <= s.len(),
        forall|k: int| 0 <= k < n ==> s[k] != sep,
        n == s.len() || s[n] == sep,
    ensures
        index_of(s, sep) == n,
    decreases n,
{
    if n > 0 {
        let rest = s.drop_first();
        assert forall|k: int| 0 <= k < n - 1 implies rest[k] != sep by {
            assert(rest[k] == s[k + 1]);
        }
        lemma_index_of_first(rest, sep, n - 1);
    }
}

/// Splits `v` at every occurrence of `sep`.
pub fn split_chars(v: &Vec<char>, sep: char) -> (out: Vec<Vec<char>>)
    ensures
        pieces(out@) == split(v@, sep),
{
    let mut out: Vec<Vec<char>> = Vec::new();
    let mut current: Vec<char> = Vec::new();
    let mut start: usize = 0;
    let mut i: usize = 0;
    proof {
        assert(v@.skip(0) =~= v@);
        assert(pieces(out@) + split(v@.skip(0), sep) =~= split(v@, sep));
    }
    while i < v.len()
        invariant
            start <= i <= v.len(),
            split(v@, sep) == pieces(out@) + split(v@.skip(start as int), sep),
            current@ == v@.subrange(start as int, i as int),
            forall|k: int| start <= k < i ==> v@[k] != sep,
        decreases v.len() - i,
    {
        let c = v[i];
        if c == sep {
            proof {
                let rest = v@.skip(start as int);
                assert forall|k: int| 0 <= k < i - start implies rest[k] != sep by {
                    assert(rest[k] == v@[start + k]);
                }
                lemma_index_of_first(rest, sep, i - start);
                assert(rest.take(i - start) =~= current@);
                assert(rest.skip(i - start + 1) =~= v@.skip(i + 1));
                assert(pieces(out@.push(current)) =~= pieces(out@).push(current@));
                assert(pieces(out@) + (seq![current@] + split(v@.skip(i + 1), sep)) =~= pieces(
                    out@,
                ).push(current@) + split(v@.skip(i + 1), sep));
            }
            out.push(current);
            current = Vec::new();
            start = i + 1;
            i = i + 1;
            assert(current@ =~= v@.subrange(start as int, i as int));
        } else {
            current.push(c);
            i = i + 1;
            assert(current@ =~= v@.subrange(start as int, i as int));
        }
    }
    proof {
        let rest = v@.skip(start as int);
        assert forall|k: int| 0 <= k < rest.len() implies rest[k] != sep by {
            assert(rest[k] == v@[start + k]);
        }
        lemma_index_of_first(rest, sep, rest.len() as int);
        assert(rest =~= current@);
        assert(pieces(out@.push(current)) =~= pieces(out@).push(current@));
        assert(pieces(out@) + seq![current@] =~= pieces(out@).push(current@));
    }
    out.push(current);
    out
}

/// Whether `needle` occurs in `hay` starting at position `at`.
pub(crate) fn occurs_at(hay: &Vec<char>, needle: &Vec<char>, at: usize) -> (found: bool)
    requires
        at + needle.len() <= hay.len(),
    ensures
        found == (hay@.subrange(at as int, at + needle.len()) == needle@),
{
    let mut k: usize = 0;
    while k < needle.len()
        invariant
            k <= needle.len(),
            at + needle.len() <= hay.len(),
            forall|j: int| 0 <= j < k ==> hay@[at + j] == needle@[j],
        decreases needle.len() - k,
    {
        if hay[at + k] != needle[k] {
            assert(hay@.subrange(at as int, at + needle.len())[k as int] != needle@[k as int]);
            return false;
        }
        k = k + 1;
    }
    assert(hay@.subrange(at as int, at + needle.len()) =~= needle@);
    true
}

/// Whether `needle` occurs somewhere in `hay`.
pub fn contains_chars(hay: &Vec<char>, needle: &Vec<char>) -> (found: bool)
    ensures
        found == has_substring(hay@, needle@),
{
    if needle.len() > hay.len() {
        return false;
    }
    let last: usize = hay.len() - needle.len();
    let mut at: usize = 0;
    loop
        invariant
            at <= last,
            last == hay.len() - needle.len(),
            needle.len() <= hay.len(),
            forall|i: int|
                0 <= i < at ==> #[trigger] hay@.subrange(i, i + needle.len() as int) != needle@,
        decreases last - at,
    {
        if occurs_at(hay, needle, at) {
            return true;
        }
        if at == last {
            return false;
        }
        at = at + 1;
    }
}

/// Whether `text` contains `needle`.
pub fn contains_str(text: &Vec<char>, needle: &str) -> (found: bool)
    ensures
        found == has_substring(text@, needle@),
{
    let needle_chars = to_chars(needle);
    contains_chars(text, &needle_chars)
}

/// Whether the characters of `a` are exactly those of `b`.
pub fn chars_equal(a: &Vec<char>, b: &Vec<char>) -> (same: bool)
    ensures
        same == (a@ == b@),
{
    if a.len() != b.len() {
        return false;
    }
    let same = occurs_at(a, b, 0);
    assert(a@.subrange(0, 0 + b.len()) =~= a@);
    same
}

/// Whether the characters of `a` spell `b`.
pub fn chars_equal_str(a: &Vec<char>, b: &str) -> (same: bool)
    ensures
        same == (a@ == b@),
{
    let other = to_chars(b);
    chars_equal(a, &other)
}


/// Whether `text` begins with `prefix`; if so, the number of characters of
/// the prefix.
pub fn strip_prefix(text: &Vec<char>, prefix: &str) -> (rest_from: Option<usize>)
    ensures
        match rest_from {
            Some(n) => prefix@.is_prefix_of(text@) && n == prefix@.len(),
            None => !prefix@.is_prefix_of(text@),
        },
{
    let start = to_chars(prefix);
    if start.len() > text.len() {
        return None;
    }
    if occurs_at(text, &start, 0) {
        assert(text@.subrange(0, 0 + start.len()) =~= text@.subrange(0, prefix@.len() as int));
        Some(start.len())
    } else {
        assert(text@.subrange(0, 0 + start.len()) =~= text@.subrange(0, prefix@.len() as int));
        None
    }
}

/// The characters of `v` from position `from` on.
pub(crate) fn tail_chars(v: &Vec<char>, from: usize) -> (out: Vec<char>)
    requires
        from <= v.len(),
    ensures
        out@ == v@.skip(from as int),
{
    let mut out: Vec<char> = Vec::new();
    let mut i: usize = from;
    while i < v.len()
        invariant
            from <= i <= v.len(),
            out@ == v@.subrange(from as int, i as int),
        decreases v.len() - i,
    {
        out.push(v[i]);
        i = i + 1;
        assert(out@ =~= v@.subrange(from as int, i as int));
    }
    assert(v@.subrange(from as int, v.len() as int) =~= v@.skip(from as int));
    out
}


/// The lowercase form of a text: what `str::to_lowercase` returns for it.
pub uninterp spec fn lowercase(s: Seq<char>) -> Seq<char>;

/// The lowercase form of `s`.
///
/// Trusted: wraps `str::to_lowercase` of the standard library, whose result
/// depends on the characters of `s` alone; the contract gives that result
/// its name and says nothing more about it.
#[verifier::external_body]
pub(crate) fn to_lowercase(s: &str) -> (lower: String)
    ensures
        lower@ == lowercase(s@),
{
    s.to_lowercase()
}

/// The length of the run of characters at the start of `s` that are not
/// white space.
pub open spec fn word_len(s: Seq<char>) -> nat
    decreases s.len(),
{
    if s.len() == 0 || is_whitespace(s[0]) {
        0
    } else {
        1 + word_len(s.drop_first())
    }
}

/// The words of `s`: its longest runs of characters that are not white
/// space, in order.
pub open spec fn words(s: Seq<char>) -> Seq<Seq<char>>
    decreases s.len(),
{
    if s.len() == 0 {
        Seq::<Seq<char>>::empty()
    } else if is_whitespace(s[0]) {
        words(s.drop_first())
    } else {
        let n = word_len(s) as int;
        if 1 <= n <= s.len() {
            seq![s.take(n)] + words(s.skip(n))
        } else {
            Seq::<Seq<char>>::empty()
        }
    }
}

proof fn lemma_word_len(s: Seq<char>, n: int)
    requires
        0 <= n <= s.len(),
        forall|k: int| 0 <= k < n ==> !is_whitespace(#[trigger] s[k]),
        n == s.len() || is_whitespace(s[n]),
    ensures
        word_len(s) == n,
    decreases n,
{
    if n > 0 {
        let rest = s.drop_first();
        assert forall|k: int| 0 <= k < n - 1 implies !is_whitespace(#[trigger] rest[k]) by {
            assert(rest[k] == s[k + 1]);
        }
        lemma_word_len(rest, n - 1);
    }
}

/// Splits `v` into its words.
pub fn split_words(v: &Vec<char>) -> (out: Vec<Vec<char>>)
    ensures
        pieces(out@) == words(v@),
{
    let mut out: Vec<Vec<char>> = Vec::new();
    let mut i: usize = 0;
    proof {
        assert(v@.skip(0) =~= v@);
        assert(pieces(out@) + words(v@.skip(0)) =~= words(v@));
    }
    while i < v.len()
        invariant
            i <= v.len(),
            words(v@) == pieces(out@) + words(v@.skip(i as int)),
        decreases v.len() - i,
    {
        let ghost rest = v@.skip(i as int);
        assert(rest[0] == v@[i as int]);
        if char_is_whitespace(v[i]) {
            assert(rest.drop_first() =~= v@.skip(i + 1));
            i = i + 1;
        } else {
            let start: usize = i;
            let mut word: Vec<char> = Vec::new();
            while i < v.len() && !char_is_whitespace(v[i])
                invariant
                    start <= i <= v.len(),
                    word@ == v@.subrange(start as int, i as int),
                    forall|k: int| start <= k < i ==> !is_whitespace(#[trigger] v@[k]),
                decreases v.len() - i,
            {
                word.push(v[i]);
                i = i + 1;
                assert(word@ =~= v@.subrange(start as int, i as int));
            }
            proof {
                let n = i - start;
                assert forall|k: int| 0 <= k < n implies !is_whitespace(#[trigger] rest[k]) by {
                    assert(rest[k] == v@[start + k]);
                }
                if i < v.len() {
                    assert(rest[n] == v@[i as int]);
                }
                lemma_word_len(rest, n);
                assert(rest.take(n) =~= word@);
                assert(rest.skip(n) =~= v@.skip(i as int));
                assert(pieces(out@.push(word)) =~= pieces(out@).push(word@));
                assert(pieces(out@) + (seq![word@] + words(v@.skip(i as int))) =~= pieces(
                    out@,
                ).push(word@) + words(v@.skip(i as int)));
            }
            out.push(word);
        }
    }
    proof {
        assert(v@.skip(v.len() as int) =~= Seq::<char>::empty());
        assert(pieces(out@) + Seq::<Seq<char>>::empty() =~= pieces(out@));
    }
    out
}


/// What follows the last `sep` of `s`; all of `s` when it holds none.
pub open spec fn tail_after_last(s: Seq<char>, sep: char) -> Seq<char>
    decreases s.len(),
{
    if s.len() == 0 || s.last() == sep {
        Seq::<char>::empty()
    } else {
        tail_after_last(s.drop_last(), sep).push(s.last())
    }
}

/// The part after the last separator begins right behind a separator, or
/// at the start, and holds no separator.
pub proof fn lemma_tail_after_last(s: Seq<char>, sep: char, from: int)
    requires
        0 <= from <= s.len(),
        forall|k: int| from <= k < s.len() ==> s[k] != sep,
        from == 0 || s[from - 1] == sep,
    ensures
        tail_after_last(s, sep) == s.skip(from),
        s.contains(sep) <==> from > 0,
    decreases s.len() - from,
{
    if from == s.len() {
        assert(s.skip(from) =~= Seq::<char>::empty());
    } else {
        let shorter = s.drop_last();
        lemma_tail_after_last(shorter, sep, from);
        assert(shorter.skip(from).push(s.last()) =~= s.skip(from));
        if shorter.contains(sep) {
            let k = choose|k: int| 0 <= k < shorter.len() && shorter[k] == sep;
            assert(s[k] == sep);
        }
        if s.contains(sep) {
            let k = choose|k: int| 0 <= k < s.len() && s[k] == sep;
            assert(shorter[k] == sep);
        }
    }
    if from > 0 {
        assert(s[from - 1] == sep);
    }
}

/// Where the part of `v` after its last `sep` begins: 0 when `v` holds no
/// `sep`.
pub fn tail_start(v: &Vec<char>, sep: char) -> (from: usize)
    ensures
        from <= v.len(),
        v@.skip(from as int) == tail_after_last(v@, sep),
        v@.contains(sep) <==> from > 0,
        from > 0 ==> v@[from - 1] == sep,
{
    let mut from: usize = v.len();
    while from > 0 && v[from - 1] != sep
        invariant
            from <= v.len(),
            forall|k: int| from <= k < v.len() ==> v@[k] != sep,
        decreases from,
    {
        from = from - 1;
    }
    proof {
        lemma_tail_after_last(v@, sep, from as int);
    }
    from
}


/// Reads `v[from..to]` as an unsigned number of at most 32 bits.
pub(crate) fn parse_u32_range(v: &Vec<char>, from: usize, to: usize) -> (r: Option<u32>)
    requires
        from <= to <= v.len(),
    ensures
        parse_unsigned(v@.subrange(from as int, to as int), 0xffff_ffff) == (match r {
            Some(n) => Some(n as int),
            None => None,
        }),
{
    let ghost s = v@.subrange(from as int, to as int);
    let start: usize = if from < to && v[from] == '+' {
        from + 1
    } else {
        from
    };
    proof {
        if start > from {
            assert(s[0] == '+');
            assert(s.drop_first() =~= v@.subrange(start as int, to as int));
        } else {
            assert(s.len() > 0 ==> s[0] == v@[from as int]);
        }
    }
    match read_digits(v, start, to, 0xffff_ffff) {
        Some(n) => Some(n as u32),
        None => None,
    }
}


/// The decimal digits of a number are digits, and read back they give the
/// number.
pub proof fn lemma_decimal_digits_read_back(n: nat)
    ensures
        decimal_digits(n).len() >= 1,
        all_digits(decimal_digits(n)),
        digits_value(decimal_digits(n)) == n,
    decreases n,
{
    let s = decimal_digits(n);
    if n < 10 {
        assert(s.len() == 1);
        assert(s.drop_last() =~= Seq::<char>::empty());
        assert(s.last() == digit_char(n as int));
        assert(digits_value(s.drop_last()) == 0);
    } else {
        lemma_decimal_digits_read_back(n / 10);
        let head = decimal_digits(n / 10);
        assert(s.drop_last() =~= head);
        assert(s.last() == digit_char((n % 10) as int));
        assert forall|i: int| 0 <= i < s.len() implies is_digit(#[trigger] s[i]) by {
            if i < head.len() {
                assert(s[i] == head[i]);
            }
        }
    }
}

/// Reading the decimal text of a number gives the number back, as long as
/// it lies within the bounds.
pub proof fn lemma_decimal_reads_back(n: int, min: int, max: int)
    requires
        min <= n <= max,
    ensures
        parse_signed(decimal(n), min, max) == Some(n),
        n >= 0 ==> parse_unsigned(decimal(n), max) == Some(n),
        forall|i: int| 0 <= i < decimal(n).len() ==> #[trigger] decimal(n)[i] != '_',
{
    let s = decimal(n);
    if n < 0 {
        let digits = decimal_digits((-n) as nat);
        lemma_decimal_digits_read_back((-n) as nat);
        assert(s[0] == '-');
        assert(s.drop_first() =~= digits);
        assert forall|i: int| 0 <= i < s.len() implies #[trigger] s[i] != '_' by {
            if i > 0 {
                assert(s[i] == digits[i - 1]);
                assert(is_digit(digits[i - 1]));
            }
        }
    } else {
        lemma_decimal_digits_read_back(n as nat);
        assert(is_digit(s[0]));
        assert forall|i: int| 0 <= i < s.len() implies #[trigger] s[i] != '_' by {
            assert(is_digit(s[i]));
        }
    }
}

/// A text without separators, a separator and another text without
/// separators split into these two texts.
pub proof fn lemma_split_in_two(first: Seq<char>, second: Seq<char>, sep: char)
    requires
        forall|i: int| 0 <= i < first.len() ==> #[trigger] first[i] != sep,
        forall|i: int| 0 <= i < second.len() ==> #[trigger] second[i] != sep,
    ensures
        split(first + seq![sep] + second, sep) == seq![first, second],
{
    let whole = first + seq![sep] + second;
    let n = first.len() as int;
    assert forall|k: int| 0 <= k < n implies whole[k] != sep by {
        assert(whole[k] == first[k]);
    }
    assert(whole[n] == sep);
    lemma_index_of_first(whole, sep, n);
    assert(whole.take(n) =~= first);
    assert(whole.skip(n + 1) =~= second);
    lemma_index_of_first(second, sep, second.len() as int);
    assert(split(second, sep) =~= seq![second]);
    assert(seq![first] + seq![second] =~= seq![first, second]);
}

} // verus!
