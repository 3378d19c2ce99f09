//! Text as sequences of characters: the few operations that the rest of the library needs.

use vstd::prelude::*;
use vstd::string::*;

verus! {

/// `String::push`: appends one character.
pub assume_specification[ String::push ](s: &mut String, c: char)
    ensures
        final(s)@ == old(s)@.push(c),
;

// --- between strings and character vectors ----------------------------------------------------

/// The characters of `s`.
pub fn chars_of(s: &str) -> (chars: Vec<char>)
    ensures
        chars@ == s@,
{
    let mut chars: Vec<char> = Vec::new();
    for c in it: s.chars()
        invariant
            chars@ == it.seq().take(it.index() as int),
            it.seq() == s@,
    {
        chars.push(c);
        assert(chars@ =~= it.seq().take(it.index() + 1));
    }
    assert(chars@ =~= s@);
    chars
}

/// The string made of `chars`.
pub fn string_of(chars: &[char]) -> (s: String)
    ensures
        s@ == chars@,
{
    let mut s = String::new();
    for i in 0..chars.len()
        invariant
            s@ == chars@.take(i as int),
    {
        s.push(chars[i]);
        assert(s@ =~= chars@.take(i + 1));
    }
    assert(s@ =~= chars@);
    s
}

/// The two character sequences are the same.
pub fn chars_eq(a: &[char], b: &[char]) -> (same: bool)
    ensures
        same == (a@ == b@),
{
    if a.len() != b.len() {
        return false;
    }
    for i in 0..a.len()
        invariant
            a@.len() == b@.len(),
            a@.take(i as int) == b@.take(i as int),
    {
        if a[i] != b[i] {
            assert(a@[i as int] != b@[i as int]);
            return false;
        }
        assert(a@.take(i + 1) =~= a@.take(i as int).push(a@[i as int]));
        assert(b@.take(i + 1) =~= b@.take(i as int).push(b@[i as int]));
    }
    assert(a@.take(a@.len() as int) =~= a@);
    assert(b@.take(b@.len() as int) =~= b@);
    true
}

/// The two strings are the same.
pub fn str_eq(a: &str, b: &str) -> (same: bool)
    ensures
        same == (a@ == b@),
{
    let x = chars_of(a);
    let y = chars_of(b);
    chars_eq(x.as_slice(), y.as_slice())
}

// --- decimal numbers --------------------------------------------------------------------------

/// The digit with value `d`.
pub open spec fn digit(d: int) -> char {
    (0x30 + d) as char
}

/// `n` in decimal, without leading zeros.
pub open spec fn decimal(n: nat) -> Seq<char>
    decreases n,
{
    if n < 10 {
        seq![digit(n as int)]
    } else {
        decimal(n / 10).push(digit((n % 10) as int))
    }
}

/// The digit with value `d`.
fn digit_char(d: u64) -> (c: char)
    requires
        d < 10,
    ensures
        c == digit(d as int),
{
    (0x30u8 + d as u8) as char
}

/// `n` in decimal.
pub fn decimal_string(n: u64) -> (s: String)
    ensures
        s@ == decimal(n as nat),
    decreases n,
{
    if n < 10 {
        let mut s = String::new();
        s.push(digit_char(n));
        assert(s@ =~= seq![digit(n as int)]);
        s
    } else {
        let mut s = decimal_string(n / 10);
        s.push(digit_char(n % 10));
        s
    }
}

/// The value of the digits `s`, read as a decimal number.
pub open spec fn digits_value(s: Seq<char>) -> nat
    decreases s.len(),
{
    if s.len() == 0 {
        0
    } else {
        digits_value(s.drop_last()) * 10 + (s.last() as int - 0x30) as nat
    }
}

/// A decimal digit.
pub open spec fn is_digit(c: char) -> bool {
    '0' <= c <= '9'
}

/// Only decimal digits.
pub open spec fn all_digits(s: Seq<char>) -> bool {
    forall|i: int| 0 <= i < s.len() ==> is_digit(#[trigger] s[i])
}

/// `s` without a leading plus sign.
pub open spec fn without_plus(s: Seq<char>) -> Seq<char> {
    if s.len() > 0 && s[0] == '+' {
        s.skip(1)
    } else {
        s
    }
}

/// The `u32` that `s` denotes: at least one digit, nothing else but a plus sign in front, and a
/// value that fits.
pub open spec fn u32_of(s: Seq<char>) -> Option<u32> {
    let t = without_plus(s);
    if t.len() > 0 && all_digits(t) && digits_value(t) <= u32::MAX {
        Some(digits_value(t) as u32)
    } else {
        None
    }
}

/// Fewer digits make no larger number.
proof fn digits_value_grows(s: Seq<char>, n: int)
    requires
        0 <= n <= s.len(),
    ensures
        digits_value(s.take(n)) <= digits_value(s),
    decreases s.len(),
{
    if n == s.len() {
        assert(s.take(n) =~= s);
    } else {
        digits_value_grows(s.drop_last(), n);
        assert(s.drop_last().take(n) =~= s.take(n));
    }
}

/// Reads a `u32`.
pub fn parse_u32(s: &[char]) -> (n: Option<u32>)
    ensures
        n == u32_of(s@),
{
    let from: usize = if s.len() > 0 && s[0] == '+' {
        1
    } else {
        0
    };
    let ghost t = without_plus(s@);
    assert(t =~= s@.skip(from as int));
    if s.len() == from {
        return None;
    }
    let mut value: u32 = 0;
    let mut i: usize = from;
    while i < s.len()
        invariant
            from <= i <= s@.len(),
            from <= 1,
            from < s@.len(),
            t == s@.skip(from as int),
            t == without_plus(s@),
            value == digits_value(t.take(i - from)),
            forall|j: int| 0 <= j < i - from ==> is_digit(#[trigger] t[j]),
        decreases s@.len() - i,
    {
        let c = s[i];
        assert(t[i - from] == c);
        assert(t.take(i + 1 - from).drop_last() =~= t.take(i - from));
        if !('0' <= c && c <= '9') {
            assert(!all_digits(t));
            return None;
        }
        let next: u64 = value as u64 * 10 + (c as u32 - 0x30) as u64;
        assert(next == digits_value(t.take(i + 1 - from)));
        if next > u32::MAX as u64 {
            proof {
                digits_value_grows(t, i + 1 - from);
            }
            return None;
        }
        value = next as u32;
        i += 1;
    }
    assert(t.take(i - from) =~= t);
    Some(value)
}

// --- white space ------------------------------------------------------------------------------

/// A character with Unicode's `White_Space` property.
pub open spec fn is_white(c: char) -> bool {
    let u = c as int;
    ||| 0x9 <= u <= 0xd
    ||| u == 0x20
    ||| u == 0x85
    ||| u == 0xa0
    ||| u == 0x1680
    ||| 0x2000 <= u <= 0x200a
    ||| u == 0x2028
    ||| u == 0x2029
    ||| u == 0x202f
    ||| u == 0x205f
    ||| u == 0x3000
}

/// Whether `c` is white space.
pub fn white(c: char) -> (w: bool)
    ensures
        w == is_white(c),
{
    let u: u32 = c as u32;
    (0x9 <= u && u <= 0xd) || u == 0x20 || u == 0x85 || u == 0xa0 || u == 0x1680 || (0x2000 <= u
        && u <= 0x200a) || u == 0x2028 || u == 0x2029 || u == 0x202f || u == 0x205f || u == 0x3000
}

/// The index of the first character from `from` on that is not white space, or the length of `s`.
pub open spec fn skip_white(s: Seq<char>, from: int) -> int
    decreases s.len() - from,
{
    if from >= s.len() || !is_white(s[from]) {
        from
    } else {
        skip_white(s, from + 1)
    }
}

/// The index of the first white space from `from` on, or the length of `s`.
pub open spec fn word_end(s: Seq<char>, from: int) -> int
    decreases s.len() - from,
{
    if from >= s.len() || is_white(s[from]) {
        from
    } else {
        word_end(s, from + 1)
    }
}

/// `s` without white space at its end.
pub open spec fn trim_end(s: Seq<char>) -> Seq<char>
    decreases s.len(),
{
    if s.len() > 0 && is_white(s.last()) {
        trim_end(s.drop_last())
    } else {
        s
    }
}

/// `s` without white space at its start and end.
pub open spec fn trimmed(s: Seq<char>) -> Seq<char> {
    trim_end(s.skip(skip_white(s, 0)))
}

/// `skip_white` stays within the text.
proof fn skip_white_bounds(s: Seq<char>, from: int)
    requires
        0 <= from <= s.len(),
    ensures
        from <= skip_white(s, from) <= s.len(),
        skip_white(s, from) < s.len() ==> !is_white(s[skip_white(s, from)]),
    decreases s.len() - from,
{
    if from < s.len() && is_white(s[from]) {
        skip_white_bounds(s, from + 1);
    }
}

/// `word_end` stays within the text.
proof fn word_end_bounds(s: Seq<char>, from: int)
    requires
        0 <= from <= s.len(),
    ensures
        from <= word_end(s, from) <= s.len(),
        from < s.len() && !is_white(s[from]) ==> from < word_end(s, from),
    decreases s.len() - from,
{
    if from < s.len() && !is_white(s[from]) {
        word_end_bounds(s, from + 1);
    }
}

fn find_non_white(s: &[char], from: usize) -> (i: usize)
    requires
        from <= s@.len(),
    ensures
        i == skip_white(s@, from as int),
        from <= i <= s@.len(),
{
    let mut i: usize = from;
    while i < s.len() && white(s[i])
        invariant
            from <= i <= s@.len(),
            skip_white(s@, from as int) == skip_white(s@, i as int),
        decreases s@.len() - i,
    {
        i += 1;
    }
    i
}

fn find_white(s: &[char], from: usize) -> (i: usize)
    requires
        from <= s@.len(),
    ensures
        i == word_end(s@, from as int),
        from <= i <= s@.len(),
{
    let mut i: usize = from;
    while i < s.len() && !white(s[i])
        invariant
            from <= i <= s@.len(),
            word_end(s@, from as int) == word_end(s@, i as int),
        decreases s@.len() - i,
    {
        i += 1;
    }
    i
}

/// A copy of `s[from..to]`.
pub fn char_range(s: &[char], from: usize, to: usize) -> (part: Vec<char>)
    requires
        from <= to <= s@.len(),
    ensures
        part@ == s@.subrange(from as int, to as int),
{
    let mut part: Vec<char> = Vec::with_capacity(to - from);
    let mut i: usize = from;
    while i < to
        invariant
            from <= i <= to <= s@.len(),
            part@ == s@.subrange(from as int, i as int),
        decreases to - i,
    {
        part.push(s[i]);
        i += 1;
        assert(part@ =~= s@.subrange(from as int, i as int));
    }
    part
}

/// Removes white space from both ends.
pub fn trim(s: &[char]) -> (t: Vec<char>)
    ensures
        t@ == trimmed(s@),
{
    let from: usize = find_non_white(s, 0);
    let ghost tail = s@.skip(from as int);
    let mut to: usize = s.len();
    assert(s@.subrange(from as int, to as int) =~= tail);
    while to > from && white(s[to - 1])
        invariant
            from <= to <= s@.len(),
            trim_end(s@.subrange(from as int, to as int)) == trim_end(tail),
        decreases to,
    {
        assert(s@.subrange(from as int, to as int).drop_last() =~= s@.subrange(
            from as int,
            to - 1,
        ));
        to -= 1;
    }
    char_range(s, from, to)
}

/// The maximal runs of `s` without white space, from index `from` on.
pub open spec fn words_from(s: Seq<char>, from: int) -> Seq<Seq<char>>
    decreases s.len() - from,
    when 0 <= from <= s.len()
    via words_from_decreases
{
    let start = skip_white(s, from);
    if start >= s.len() {
        seq![]
    } else {
        let end = word_end(s, start);
        seq![s.subrange(start, end)] + words_from(s, end)
    }
}

#[via_fn]
proof fn words_from_decreases(s: Seq<char>, from: int) {
    skip_white_bounds(s, from);
    if skip_white(s, from) < s.len() {
        word_end_bounds(s, skip_white(s, from));
    }
}

/// The words of a text.
pub open spec fn words_of(s: Seq<char>) -> Seq<Seq<char>> {
    words_from(s, 0)
}

/// The views of a list of character vectors.
pub open spec fn char_views(v: Seq<Vec<char>>) -> Seq<Seq<char>> {
    v.map_values(|u: Vec<char>| u@)
}

/// Cuts a text into words.
pub fn words(s: &[char]) -> (out: Vec<Vec<char>>)
    ensures
        char_views(out@) == words_of(s@),
{
    let mut out: Vec<Vec<char>> = Vec::new();
    let mut i: usize = 0;
    assert(char_views(out@) + words_from(s@, 0) =~= words_from(s@, 0));
    loop
        invariant
            i <= s@.len(),
            char_views(out@) + words_from(s@, i as int) == words_of(s@),
        ensures
            char_views(out@) == words_of(s@),
        decreases s@.len() - i,
    {
        let start: usize = find_non_white(s, i);
        proof {
            skip_white_bounds(s@, i as int);
        }
        if start == s.len() {
            assert(char_views(out@) + seq![] =~= char_views(out@));
            break;
        }
        let end: usize = find_white(s, start);
        proof {
            word_end_bounds(s@, start as int);
        }
        let ghost before = out@;
        let ghost word = s@.subrange(start as int, end as int);
        out.push(char_range(s, start, end));
        proof {
            assert(char_views(out@) =~= char_views(before).push(word));
            assert(char_views(out@) + words_from(s@, end as int) =~= char_views(before) + (
            seq![word] + words_from(s@, end as int)));
        }
        i = end;
    }
    out
}

// --- lines ------------------------------------------------------------------------------------

/// The index of the first `c` from `from` on, or the length of `s`.
pub open spec fn find_from(s: Seq<char>, c: char, from: int) -> int
    decreases s.len() - from,
{
    if from >= s.len() || s[from] == c {
        from
    } else {
        find_from(s, c, from + 1)
    }
}

/// `find_from` gives the first place, within the text.
proof fn find_from_bounds(s: Seq<char>, c: char, from: int)
    requires
        0 <= from <= s.len(),
    ensures
        from <= find_from(s, c, from) <= s.len(),
        find_from(s, c, from) < s.len() ==> s[find_from(s, c, from)] == c,
        forall|i: int| from <= i < find_from(s, c, from) ==> s[i] != c,
    decreases s.len() - from,
{
    if from < s.len() && s[from] != c {
        find_from_bounds(s, c, from + 1);
    }
}

/// Finds the first `c` from `from` on.
pub fn find_char(s: &[char], c: char, from: usize) -> (i: usize)
    requires
        from <= s@.len(),
    ensures
        i == find_from(s@, c, from as int),
        from <= i <= s@.len(),
        i < s@.len() ==> s@[i as int] == c,
        forall|j: int| from <= j < i ==> s@[j] != c,
{
    let mut i: usize = from;
    while i < s.len() && s[i] != c
        invariant
            from <= i <= s@.len(),
            find_from(s@, c, from as int) == find_from(s@, c, i as int),
            forall|j: int| from <= j < i ==> s@[j] != c,
        decreases s@.len() - i,
    {
        i += 1;
    }
    i
}

/// `s` without one carriage return at its end.
pub open spec fn without_cr(s: Seq<char>) -> Seq<char> {
    if s.len() > 0 && s.last() == '\r' {
        s.drop_last()
    } else {
        s
    }
}

/// The lines of `s` from index `from` on. A line ends with a newline, before which one carriage
/// return belongs to the line ending; the last line may lack it.
pub open spec fn lines_from(s: Seq<char>, from: int) -> Seq<Seq<char>>
    decreases s.len() - from,
    when 0 <= from <= s.len()
    via lines_from_decreases
{
    if from >= s.len() {
        seq![]
    } else {
        let end = find_from(s, '\n', from);
        if end >= s.len() {
            seq![s.subrange(from, s.len() as int)]
        } else {
            seq![without_cr(s.subrange(from, end))] + lines_from(s, end + 1)
        }
    }
}

#[via_fn]
proof fn lines_from_decreases(s: Seq<char>, from: int) {
    find_from_bounds(s, '\n', from);
}

/// The lines of a text.
pub open spec fn lines_of(s: Seq<char>) -> Seq<Seq<char>> {
    lines_from(s, 0)
}

/// Cuts a text into lines.
pub fn lines(s: &[char]) -> (out: Vec<Vec<char>>)
    ensures
        char_views(out@) == lines_of(s@),
{
    let mut out: Vec<Vec<char>> = Vec::new();
    let mut i: usize = 0;
    assert(char_views(out@) + lines_from(s@, 0) =~= lines_from(s@, 0));
    while i < s.len()
        invariant
            i <= s@.len(),
            char_views(out@) + lines_from(s@, i as int) == lines_of(s@),
        decreases s@.len() - i,
    {
        let end: usize = find_char(s, '\n', i);
        let ghost before = out@;
        if end == s.len() {
            let line = char_range(s, i, end);
            let ghost text = line@;
            out.push(line);
            proof {
                assert(char_views(out@) =~= char_views(before) + seq![text]);
            }
            return out;
        }
        let mut to: usize = end;
        let ghost whole = s@.subrange(i as int, end as int);
        if end > i && s[end - 1] == '\r' {
            to = end - 1;
            assert(s@.subrange(i as int, to as int) =~= whole.drop_last());
        }
        let line = char_range(s, i, to);
        let ghost text = line@;
        assert(text == without_cr(whole));
        out.push(line);
        proof {
            assert(char_views(out@) =~= char_views(before).push(text));
            assert(char_views(out@) + lines_from(s@, end + 1) =~= char_views(before) + (
            seq![text] + lines_from(s@, end + 1)));
        }
        i = end + 1;
    }
    assert(char_views(out@) + seq![] =~= char_views(out@));
    out
}

// --- parts of a text --------------------------------------------------------------------------

/// `s` starts with `prefix`.
pub open spec fn has_prefix(s: Seq<char>, prefix: Seq<char>) -> bool {
    prefix.len() <= s.len() && s.take(prefix.len() as int) == prefix
}

/// Whether `s` starts with `prefix`.
pub fn starts_with(s: &[char], prefix: &[char]) -> (starts: bool)
    ensures
        starts == has_prefix(s@, prefix@),
{
    if prefix.len() > s.len() {
        return false;
    }
    let head = char_range(s, 0, prefix.len());
    assert(head@ =~= s@.take(prefix@.len() as int));
    chars_eq(head.as_slice(), prefix)
}

/// `part` stands at index `i` of `s`.
pub open spec fn part_at(s: Seq<char>, part: Seq<char>, i: int) -> bool {
    0 <= i && i + part.len() <= s.len() && s.subrange(i, i + part.len()) == part
}

/// `part` stands somewhere in `s`.
pub open spec fn has_part(s: Seq<char>, part: Seq<char>) -> bool {
    exists|i: int| part_at(s, part, i)
}

/// Whether `part` stands somewhere in `s`.
pub fn contains(s: &[char], part: &[char]) -> (found: bool)
    ensures
        found == has_part(s@, part@),
{
    let n: usize = part.len();
    let mut i: usize = 0;
    while i <= s.len() && n <= s.len() - i
        invariant
            n == part@.len(),
            i <= s@.len() + 1,
            forall|j: int| 0 <= j < i ==> !part_at(s@, part@, j),
        decreases s@.len() + 1 - i,
    {
        let window = char_range(s, i, i + n);
        if chars_eq(window.as_slice(), part) {
            assert(part_at(s@, part@, i as int));
            return true;
        }
        if i == s.len() {
            return false;
        }
        i += 1;
    }
    false
}

// --- order ------------------------------------------------------------------------------------

/// `a` comes before `b`, character by character.
pub open spec fn comes_before(a: Seq<char>, b: Seq<char>) -> bool
    decreases a.len(),
{
    if b.len() == 0 {
        false
    } else if a.len() == 0 {
        true
    } else if a[0] != b[0] {
        a[0] < b[0]
    } else {
        comes_before(a.skip(1), b.skip(1))
    }
}

/// Whether `a` comes before `b`.
pub fn precedes(a: &[char], b: &[char]) -> (before: bool)
    ensures
        before == comes_before(a@, b@),
{
    let mut i: usize = 0;
    assert(a@.skip(0) =~= a@);
    assert(b@.skip(0) =~= b@);
    loop
        invariant
            i <= a@.len(),
            i <= b@.len(),
            comes_before(a@, b@) == comes_before(a@.skip(i as int), b@.skip(i as int)),
        decreases a@.len() - i,
    {
        if i == b.len() {
            return false;
        }
        if i == a.len() {
            return true;
        }
        if a[i] != b[i] {
            return a[i] < b[i];
        }
        assert(a@.skip(i as int).skip(1) =~= a@.skip(i + 1));
        assert(b@.skip(i as int).skip(1) =~= b@.skip(i + 1));
        i += 1;
    }
}

/// The order is total: of two different texts one comes before the other.
pub proof fn order_is_total(a: Seq<char>, b: Seq<char>)
    ensures
        a == b || comes_before(a, b) || comes_before(b, a),
    decreases a.len(),
{
    if a.len() > 0 && b.len() > 0 {
        if a[0] == b[0] {
            order_is_total(a.skip(1), b.skip(1));
            if a.skip(1) == b.skip(1) {
                assert(a =~= seq![a[0]] + a.skip(1));
                assert(b =~= seq![b[0]] + b.skip(1));
            }
        }
    } else if a.len() == 0 && b.len() == 0 {
        assert(a =~= b);
    }
}

/// The order is strict: of two texts at most one comes before the other.
pub proof fn order_is_strict(a: Seq<char>, b: Seq<char>)
    ensures
        comes_before(a, b) ==> !comes_before(b, a) && a != b,
    decreases a.len(),
{
    if a.len() > 0 && b.len() > 0 && a[0] == b[0] {
        order_is_strict(a.skip(1), b.skip(1));
    }
}

/// The order is transitive.
pub proof fn order_is_transitive(a: Seq<char>, b: Seq<char>, c: Seq<char>)
    requires
        comes_before(a, b),
        comes_before(b, c),
    ensures
        comes_before(a, c),
    decreases a.len(),
{
    if a.len() > 0 && b.len() > 0 && c.len() > 0 && a[0] == b[0] && b[0] == c[0] {
        order_is_transitive(a.skip(1), b.skip(1), c.skip(1));
    }
}

// --- what the pieces of a text are ----------------------------------------------------------------

/// Blanks, tabs and line ends are white space, and nothing that is printed in ASCII is.
pub proof fn white_space_is_not_printed(c: char)
    ensures
        c == ' ' || c == '\t' || c == '\n' || c == '\r' ==> is_white(c),
        0x21 <= c as int <= 0x7e ==> !is_white(c),
{
}

/// Only white space.
pub open spec fn all_white(s: Seq<char>) -> bool {
    forall|i: int| 0 <= i < s.len() ==> is_white(#[trigger] s[i])
}

/// No white space.
pub open spec fn none_white(s: Seq<char>) -> bool {
    forall|i: int| 0 <= i < s.len() ==> !is_white(#[trigger] s[i])
}

proof fn skip_white_over(s: Seq<char>, from: int, to: int)
    requires
        0 <= from <= to <= s.len(),
        forall|i: int| from <= i < to ==> is_white(#[trigger] s[i]),
        to < s.len() ==> !is_white(s[to]),
    ensures
        skip_white(s, from) == to,
    decreases to - from,
{
    if from < to {
        assert(is_white(s[from]));
        skip_white_over(s, from + 1, to);
    }
}

proof fn word_end_at(s: Seq<char>, from: int, to: int)
    requires
        0 <= from <= to <= s.len(),
        forall|i: int| from <= i < to ==> !is_white(#[trigger] s[i]),
        to < s.len() ==> is_white(s[to]),
    ensures
        word_end(s, from) == to,
    decreases to - from,
{
    if from < to {
        assert(!is_white(s[from]));
        word_end_at(s, from + 1, to);
    }
}

proof fn trim_end_over(core: Seq<char>, after: Seq<char>)
    requires
        all_white(after),
        core.len() > 0 ==> !is_white(core.last()),
    ensures
        trim_end(core + after) == core,
    decreases after.len(),
{
    let s = core + after;
    if after.len() == 0 {
        assert(s =~= core);
    } else {
        let fewer = after.drop_last();
        assert forall|i: int| 0 <= i < fewer.len() implies is_white(#[trigger] fewer[i]) by {
            assert(is_white(after[i]));
        }
        assert(is_white(after[after.len() - 1]));
        assert(s.drop_last() =~= core + fewer);
        trim_end_over(core, fewer);
    }
}

/// Trimming takes the white space from both ends and nothing else.
pub proof fn trim_takes_only_ends(before: Seq<char>, core: Seq<char>, after: Seq<char>)
    requires
        all_white(before),
        all_white(after),
        core.len() > 0 ==> !is_white(core.first()) && !is_white(core.last()),
    ensures
        trimmed(before + core + after) == core,
{
    let s = before + core + after;
    if core.len() == 0 {
        assert forall|i: int| 0 <= i < s.len() implies is_white(#[trigger] s[i]) by {
            if i < before.len() {
                assert(is_white(before[i]));
            } else {
                assert(is_white(after[i - before.len()]));
            }
        }
        skip_white_over(s, 0, s.len() as int);
        assert(s.skip(s.len() as int) =~= core);
        assert(core =~= seq![]);
    } else {
        let n = before.len() as int;
        assert forall|i: int| 0 <= i < n implies is_white(#[trigger] s[i]) by {
            assert(is_white(before[i]));
        }
        assert(s[n] == core.first());
        skip_white_over(s, 0, n);
        assert(s.skip(n) =~= core + after);
        trim_end_over(core, after);
    }
}

/// A text of two words between white space has these two words, and one without any has none.
pub proof fn words_are_cut(
    before: Seq<char>,
    first: Seq<char>,
    between: Seq<char>,
    second: Seq<char>,
    after: Seq<char>,
)
    requires
        all_white(before),
        all_white(between),
        all_white(after),
        none_white(first),
        none_white(second),
        first.len() > 0,
        second.len() > 0,
        between.len() > 0,
    ensures
        words_of(before + first + between + second + after) == seq![first, second],
        words_of(before + first + between) == seq![first],
        words_of(before) == Seq::<Seq<char>>::empty(),
{
    let a = before.len() as int;
    let b = a + first.len();
    let c = b + between.len();
    let d = c + second.len();
    let s = before + first + between + second + after;
    assert(forall|i: int| 0 <= i < a ==> #[trigger] s[i] == before[i]);
    assert(forall|i: int| a <= i < b ==> #[trigger] s[i] == first[i - a]);
    assert(forall|i: int| b <= i < c ==> #[trigger] s[i] == between[i - b]);
    assert(forall|i: int| c <= i < d ==> #[trigger] s[i] == second[i - c]);
    assert(forall|i: int| d <= i < s.len() ==> #[trigger] s[i] == after[i - d]);
    skip_white_over(s, 0, a);
    word_end_at(s, a, b);
    skip_white_over(s, b, c);
    word_end_at(s, c, d);
    skip_white_over(s, d, s.len() as int);
    assert(s.subrange(a, b) =~= first);
    assert(s.subrange(c, d) =~= second);
    assert(words_from(s, d) =~= seq![]);
    assert(words_from(s, b) =~= seq![second]);
    assert(words_from(s, 0) =~= seq![first, second]);
    let t = before + first + between;
    assert(forall|i: int| 0 <= i < a ==> #[trigger] t[i] == before[i]);
    assert(forall|i: int| a <= i < b ==> #[trigger] t[i] == first[i - a]);
    assert(forall|i: int| b <= i < t.len() ==> #[trigger] t[i] == between[i - b]);
    skip_white_over(t, 0, a);
    word_end_at(t, a, b);
    skip_white_over(t, b, t.len() as int);
    assert(t.subrange(a, b) =~= first);
    assert(words_from(t, b) =~= seq![]);
    assert(words_from(t, 0) =~= seq![first]);
    skip_white_over(before, 0, a);
}

/// `find_from` is the first place from `from` on at which the character stands.
pub proof fn find_from_is_first(s: Seq<char>, c: char, from: int)
    requires
        0 <= from <= s.len(),
    ensures
        from <= find_from(s, c, from) <= s.len(),
        find_from(s, c, from) < s.len() ==> s[find_from(s, c, from)] == c,
        forall|i: int| from <= i < find_from(s, c, from) ==> s[i] != c,
{
    find_from_bounds(s, c, from);
}

/// The first place of a character is where it first stands.
proof fn find_from_at(s: Seq<char>, c: char, from: int, at: int)
    requires
        0 <= from <= at <= s.len(),
        forall|i: int| from <= i < at ==> s[i] != c,
        at < s.len() ==> s[at] == c,
    ensures
        find_from(s, c, from) == at,
{
    find_from_bounds(s, c, from);
}

/// The lines of a suffix are the lines of the whole from there on.
proof fn lines_in_suffix(s: Seq<char>, k: int, from: int)
    requires
        0 <= k,
        0 <= from,
        k + from <= s.len(),
    ensures
        lines_from(s.skip(k), from) == lines_from(s, k + from),
    decreases s.len() - k - from,
{
    let t = s.skip(k);
    if from < t.len() {
        find_from_bounds(s, '\n', k + from);
        find_from_bounds(t, '\n', from);
        let end = find_from(t, '\n', from);
        assert(forall|i: int| 0 <= i < t.len() ==> #[trigger] t[i] == s[k + i]);
        assert forall|i: int| k + from <= i < k + end implies s[i] != '\n' by {
            assert(t[i - k] == s[i]);
        }
        find_from_at(s, '\n', k + from, k + end);
        if end < t.len() {
            assert(t.subrange(from, end) =~= s.subrange(k + from, k + end));
            lines_in_suffix(s, k, end + 1);
        } else {
            assert(t.subrange(from, t.len() as int) =~= s.subrange(k + from, s.len() as int));
        }
    }
}

/// A text is cut into lines at its line ends, of which a carriage return may be a part. A last line
/// needs no end, and no text has no line.
pub proof fn lines_are_cut(line: Seq<char>, rest: Seq<char>)
    requires
        forall|i: int| 0 <= i < line.len() ==> #[trigger] line[i] != '\n',
        line.len() > 0 ==> line.last() != '\r',
    ensures
        lines_of(line + seq!['\n'] + rest) == seq![line] + lines_of(rest),
        lines_of(line + seq!['\r', '\n'] + rest) == seq![line] + lines_of(rest),
        line.len() > 0 ==> lines_of(line) == seq![line],
        lines_of(Seq::<char>::empty()) == Seq::<Seq<char>>::empty(),
{
    let n = line.len() as int;
    let s = line + seq!['\n'] + rest;
    assert(forall|i: int| 0 <= i < n ==> #[trigger] s[i] == line[i]);
    assert(s[n] == '\n');
    find_from_at(s, '\n', 0, n);
    assert(s.subrange(0, n) =~= line);
    lines_in_suffix(s, n + 1, 0);
    assert(s.skip(n + 1) =~= rest);
    let t = line + seq!['\r', '\n'] + rest;
    assert(forall|i: int| 0 <= i < n ==> #[trigger] t[i] == line[i]);
    assert(t[n] == '\r' && t[n + 1] == '\n');
    find_from_at(t, '\n', 0, n + 1);
    assert(t.subrange(0, n + 1) =~= line.push('\r'));
    assert(line.push('\r').drop_last() =~= line);
    lines_in_suffix(t, n + 2, 0);
    assert(t.skip(n + 2) =~= rest);
    if n > 0 {
        find_from_at(line, '\n', 0, n);
        assert(line.subrange(0, n) =~= line);
    }
}

/// A number in decimal is read back as that number: its digits are digits, and the first of several
/// is no zero.
pub proof fn decimal_is_read_back(n: nat)
    ensures
        decimal(n).len() > 0,
        all_digits(decimal(n)),
        digits_value(decimal(n)) == n,
        decimal(n).len() > 1 ==> decimal(n)[0] != '0',
        n <= u32::MAX ==> u32_of(decimal(n)) == Some(n as u32),
    decreases n,
{
    reveal_with_fuel(digits_value, 2);
    if n >= 10 {
        decimal_is_read_back(n / 10);
        let most = decimal(n / 10);
        let last = digit((n % 10) as int);
        let s = decimal(n);
        assert(s.drop_last() =~= most);
        assert(s.last() == last);
        assert forall|i: int| 0 <= i < s.len() implies is_digit(#[trigger] s[i]) by {
            if i < most.len() {
                assert(s[i] == most[i]);
            }
        }
        assert(s[0] == most[0]);
        if most.len() == 1 {
            assert(n / 10 < 10) by {
                if n / 10 >= 10 {
                    decimal_is_read_back(n / 100);
                    assert((n / 10) / 10 == n / 100);
                }
            }
        }
    } else {
        let s = decimal(n);
        assert(s.drop_last() =~= seq![]);
    }
    assert(decimal(n)[0] != '+');
}

/// Texts are ordered by the first character in which they differ, and the start of a text comes
/// before it.
pub proof fn order_goes_by_first_difference(
    start: Seq<char>,
    a: char,
    b: char,
    x: Seq<char>,
    y: Seq<char>,
)
    requires
        a < b,
    ensures
        comes_before(start + seq![a] + x, start + seq![b] + y),
        comes_before(start, start + seq![a] + x),
    decreases start.len(),
{
    let p = start + seq![a] + x;
    let q = start + seq![b] + y;
    if start.len() > 0 {
        let rest = start.skip(1);
        order_goes_by_first_difference(rest, a, b, x, y);
        assert(p.skip(1) =~= rest + seq![a] + x);
        assert(q.skip(1) =~= rest + seq![b] + y);
        assert(p[0] == start[0] && q[0] == start[0]);
    } else {
        assert(p[0] == a && q[0] == b);
    }
}

} // verus!
