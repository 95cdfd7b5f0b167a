//! Character-level text helpers shared by the rest of the crate.
//!
//! Strings are reasoned about through their view, a `Seq<char>`. The few
//! operations that rest on Unicode tables are taken from the standard library
//! and given a name; everything else is computed here on `Vec<char>`.

use vstd::prelude::*;
use vstd::string::StringExecFns;

verus! {

// ---------------------------------------------------------------------------
// Standard-library operations that are trusted
// ---------------------------------------------------------------------------

/// Collects characters into a `String` (`String: FromIterator<char>`): the
/// string holds those characters, in order.
#[verifier::external_body]
pub(crate) fn string_from_chars(chars: &[char]) -> (s: String)
    ensures
        s@ == chars@,
{
    String::from_iter(chars.iter())
}

/// The lowercase form of a text, as `str::to_lowercase` computes it from the
/// Unicode `Lowercase` property.
pub uninterp spec fn lowercase(s: Seq<char>) -> Seq<char>;

/// `str::to_lowercase`: the result is the lowercase form of the argument.
#[verifier::external_body]
pub(crate) fn to_lowercase(s: &str) -> (r: String)
    ensures
        r@ == lowercase(s@),
{
    s.to_lowercase()
}

/// The character has the Unicode property `White_Space`.
pub open spec fn is_space(c: char) -> bool {
    let n = c as u32;
    ||| 0x09 <= n <= 0x0D
    ||| n == 0x20
    ||| n == 0x85
    ||| n == 0xA0
    ||| n == 0x1680
    ||| 0x2000 <= n <= 0x200A
    ||| n == 0x2028
    ||| n == 0x2029
    ||| n == 0x202F
    ||| n == 0x205F
    ||| n == 0x3000
}

/// The first position from `from` on that holds no whitespace.
pub open spec fn after_spaces(s: Seq<char>, from: int) -> int
    decreases s.len() - from,
{
    if 0 <= from < s.len() && is_space(s[from]) {
        after_spaces(s, from + 1)
    } else {
        from
    }
}

/// The position after the last character before `to` that is no
/// whitespace, and `from` if there is none from `from` on.
pub open spec fn before_spaces(s: Seq<char>, from: int, to: int) -> int
    decreases to,
{
    if 0 <= from < to <= s.len() && is_space(s[to - 1]) {
        before_spaces(s, from, to - 1)
    } else {
        to
    }
}

/// A text without its leading and trailing whitespace.
pub open spec fn trimmed(s: Seq<char>) -> Seq<char> {
    let from = after_spaces(s, 0);
    s.subrange(from, before_spaces(s, from, s.len() as int))
}

// ---------------------------------------------------------------------------
// Characters of a string
// ---------------------------------------------------------------------------

/// The characters of `s`, in order.
pub fn chars_of(s: &str) -> (v: Vec<char>)
    ensures
        v@ == s@,
{
    let mut v: Vec<char> = Vec::new();
    for c in it: s.chars()
        invariant
            v@ == it.seq().take(it.index() as int),
            it.seq() == s@,
    {
        v.push(c);
    }
    v
}

/// Number of bytes that `c` takes in UTF-8.
pub open spec fn utf8_width(c: char) -> nat {
    if (c as u32) < 0x80 {
        1
    } else if (c as u32) < 0x800 {
        2
    } else if (c as u32) < 0x10000 {
        3
    } else {
        4
    }
}

/// Number of bytes that `s` takes in UTF-8.
pub open spec fn utf8_len(s: Seq<char>) -> nat
    decreases s.len(),
{
    if s.len() == 0 {
        0
    } else {
        utf8_len(s.drop_last()) + utf8_width(s.last())
    }
}

/// A text takes at least one byte and at most four for each character.
pub proof fn lemma_utf8_len_bound(s: Seq<char>)
    ensures
        s.len() <= utf8_len(s) <= 4 * s.len(),
    decreases s.len(),
{
    if s.len() > 0 {
        lemma_utf8_len_bound(s.drop_last());
    }
}

/// Number of bytes that `c` takes in UTF-8.
pub fn char_width(c: char) -> (w: usize)
    ensures
        w == utf8_width(c),
{
    let code: u32 = c as u32;
    if code < 0x80 {
        1
    } else if code < 0x800 {
        2
    } else if code < 0x10000 {
        3
    } else {
        4
    }
}

/// UTF-8 length of a text held as characters.
pub fn byte_len(chars: &[char]) -> (n: u128)
    ensures
        n == utf8_len(chars@),
{
    let mut n: u128 = 0;
    let mut i: usize = 0;
    while i < chars.len()
        invariant
            i <= chars.len(),
            n == utf8_len(chars@.take(i as int)),
            n <= 4 * i,
        decreases chars.len() - i,
    {
        assert(chars@.take(i as int + 1).drop_last() =~= chars@.take(i as int));
        n = n + char_width(chars[i]) as u128;
        i += 1;
    }
    assert(chars@.take(i as int) =~= chars@);
    n
}

// ---------------------------------------------------------------------------
// Prefixes, suffixes, infixes
// ---------------------------------------------------------------------------

/// `s` starts with `prefix`.
pub open spec fn starts_with(s: Seq<char>, prefix: Seq<char>) -> bool {
    prefix.len() <= s.len() && s.subrange(0, prefix.len() as int) == prefix
}

/// `s` ends with `suffix`.
pub open spec fn ends_with(s: Seq<char>, suffix: Seq<char>) -> bool {
    suffix.len() <= s.len() && s.subrange(s.len() - suffix.len(), s.len() as int) == suffix
}

/// `needle` occurs in `hay` at position `at`.
pub open spec fn occurs_at(hay: Seq<char>, needle: Seq<char>, at: int) -> bool {
    0 <= at && at + needle.len() <= hay.len() && hay.subrange(at, at + needle.len()) == needle
}

/// `needle` occurs somewhere in `hay`.
pub open spec fn contains_text(hay: Seq<char>, needle: Seq<char>) -> bool {
    exists|at: int| occurs_at(hay, needle, at)
}

/// Whether `needle` stands in `hay` at position `at`.
pub fn matches_at(hay: &[char], needle: &[char], at: usize) -> (r: bool)
    ensures
        r == occurs_at(hay@, needle@, at as int),
{
    if needle.len() > hay.len() || at > hay.len() - needle.len() {
        return false;
    }
    let mut i: usize = 0;
    while i < needle.len()
        invariant
            i <= needle.len(),
            at + needle.len() <= hay.len(),
            forall|j: int| 0 <= j < i ==> hay@[at + j] == needle@[j],
        decreases needle.len() - i,
    {
        if hay[at + i] != needle[i] {
            assert(hay@.subrange(at as int, at + needle.len())[i as int] != needle@[i as int]);
            return false;
        }
        i += 1;
    }
    assert(hay@.subrange(at as int, at + needle.len()) =~= needle@);
    true
}

/// Whether `s` starts with `prefix`.
pub fn has_prefix(s: &[char], prefix: &[char]) -> (r: bool)
    ensures
        r == starts_with(s@, prefix@),
{
    matches_at(s, prefix, 0)
}

/// Whether `s` ends with `suffix`.
pub fn has_suffix(s: &[char], suffix: &[char]) -> (r: bool)
    ensures
        r == ends_with(s@, suffix@),
{
    if suffix.len() > s.len() {
        return false;
    }
    matches_at(s, suffix, s.len() - suffix.len())
}

/// Whether `needle` occurs somewhere in `hay`.
pub fn has_infix(hay: &[char], needle: &[char]) -> (r: bool)
    ensures
        r == contains_text(hay@, needle@),
{
    if needle.len() > hay.len() {
        return false;
    }
    let last: usize = hay.len() - needle.len();
    let mut at: usize = 0;
    loop
        invariant
            at <= last,
            last == hay.len() - needle.len(),
            forall|k: int| 0 <= k < at ==> !occurs_at(hay@, needle@, k),
        decreases last - at,
    {
        if matches_at(hay, needle, at) {
            return true;
        }
        if at == last {
            return false;
        }
        at += 1;
    }
}

/// Whether two texts are the same.
pub fn chars_eq(a: &[char], b: &[char]) -> (r: bool)
    ensures
        r == (a@ == b@),
{
    if a.len() != b.len() {
        return false;
    }
    let r = matches_at(a, b, 0);
    assert(a@.subrange(0, a@.len() as int) =~= a@);
    r
}

/// Whether two strings hold the same characters.
pub(crate) fn str_eq(a: &str, b: &str) -> (r: bool)
    ensures
        r == (a@ == b@),
{
    let left = String::from_str(a);
    let right = String::from_str(b);
    left == right
}

/// A copy of `s[from..to]`.
pub fn copy_range(s: &[char], from: usize, to: usize) -> (v: Vec<char>)
    requires
        from <= to <= s.len(),
    ensures
        v@ == s@.subrange(from as int, to as int),
{
    let mut v: Vec<char> = Vec::new();
    let mut i: usize = from;
    while i < to
        invariant
            from <= i <= to <= s.len(),
            v@ == s@.subrange(from as int, i as int),
        decreases to - i,
    {
        v.push(s[i]);
        assert(s@.subrange(from as int, i + 1) =~= s@.subrange(from as int, i as int).push(s@[i as int]));
        i += 1;
    }
    v
}

/// Whether the character has the Unicode property `White_Space`.
pub fn is_whitespace(c: char) -> (r: bool)
    ensures
        r == is_space(c),
{
    let n: u32 = c as u32;
    (0x09 <= n && n <= 0x0D) || n == 0x20 || n == 0x85 || n == 0xA0 || n == 0x1680 || (0x2000 <= n
        && n <= 0x200A) || n == 0x2028 || n == 0x2029 || n == 0x202F || n == 0x205F || n == 0x3000
}

/// The text without its leading and trailing whitespace.
pub fn trim(s: &str) -> (r: String)
    ensures
        r@ == trimmed(s@),
{
    let chars = chars_of(s);
    let mut from: usize = 0;
    while from < chars.len() && is_whitespace(chars[from])
        invariant
            from <= chars.len(),
            chars@ == s@,
            after_spaces(s@, 0) == after_spaces(s@, from as int),
        decreases chars.len() - from,
    {
        from += 1;
    }
    let mut to: usize = chars.len();
    while to > from && is_whitespace(chars[to - 1])
        invariant
            from <= to <= chars.len(),
            chars@ == s@,
            before_spaces(s@, from as int, s@.len() as int) == before_spaces(
                s@,
                from as int,
                to as int,
            ),
        decreases to,
    {
        to -= 1;
    }
    string_from_chars(copy_range(chars.as_slice(), from, to).as_slice())
}

// ---------------------------------------------------------------------------
// Splitting and joining
// ---------------------------------------------------------------------------

/// Position of the first `c` in `s` at or after `from`; `s.len()` if there is
/// none.
pub open spec fn index_of_from(s: Seq<char>, c: char, from: int) -> int
    decreases s.len() - from,
{
    if from >= s.len() {
        s.len() as int
    } else if s[from] == c {
        from
    } else {
        index_of_from(s, c, from + 1)
    }
}

/// Position of the first `c` in `s` at or after `from`; `s.len()` if there
/// is none.
pub fn find_from(s: &[char], c: char, from: usize) -> (i: usize)
    requires
        from <= s.len(),
    ensures
        i == index_of_from(s@, c, from as int),
        from <= i <= s.len(),
{
    let mut i: usize = from;
    while i < s.len() && s[i] != c
        invariant
            from <= i <= s.len(),
            index_of_from(s@, c, from as int) == index_of_from(s@, c, i as int),
        decreases s.len() - i,
    {
        i += 1;
    }
    i
}

/// The pieces of `s` between occurrences of `sep`, starting at `from`. A text
/// with `n` separators has `n + 1` pieces; pieces may be empty.
pub open spec fn split_from(s: Seq<char>, sep: char, from: int) -> Seq<Seq<char>>
    decreases s.len() - from,
{
    if from > s.len() {
        seq![]
    } else {
        let i = index_of_from(s, sep, from);
        if i >= s.len() {
            seq![s.subrange(from, s.len() as int)]
        } else if i < from {
            seq![]
        } else {
            seq![s.subrange(from, i)] + split_from(s, sep, i + 1)
        }
    }
}

/// The pieces of `s` between occurrences of `sep`.
pub open spec fn split(s: Seq<char>, sep: char) -> Seq<Seq<char>> {
    split_from(s, sep, 0)
}

/// View of a list of character vectors as a list of texts.
pub open spec fn texts(v: Seq<Vec<char>>) -> Seq<Seq<char>> {
    v.map_values(|l: Vec<char>| l@)
}

/// Cuts `s` at every `sep`.
pub fn split_chars(s: &[char], sep: char) -> (out: Vec<Vec<char>>)
    ensures
        texts(out@) == split(s@, sep),
{
    let mut out: Vec<Vec<char>> = Vec::new();
    let mut from: usize = 0;
    loop
        invariant_except_break
            from <= s.len(),
            split(s@, sep) == texts(out@) + split_from(s@, sep, from as int),
        ensures
            texts(out@) == split(s@, sep),
        decreases s.len() - from,
    {
        let i = find_from(s, sep, from);
        let ghost before = out@;
        let piece = copy_range(s, from, i);
        out.push(piece);
        assert(texts(out@) =~= texts(before).push(piece@));
        if i >= s.len() {
            assert(texts(before) + seq![piece@] =~= texts(before).push(piece@));
            break;
        }
        assert(texts(before) + (seq![piece@] + split_from(s@, sep, i + 1)) =~= texts(
            before,
        ).push(piece@) + split_from(s@, sep, i + 1));
        from = i + 1;
    }
    out
}

/// `s` without one trailing carriage return.
pub open spec fn strip_cr(s: Seq<char>) -> Seq<char> {
    if s.len() > 0 && s.last() == '\r' {
        s.drop_last()
    } else {
        s
    }
}

/// The lines of `s` from position `from` on: the text is cut after each line
/// feed; a line that ended in a line feed loses it, and a carriage return
/// before it; what follows the last line feed is a line only if it is not
/// empty.
pub open spec fn lines_from(s: Seq<char>, from: int) -> Seq<Seq<char>>
    decreases s.len() - from,
{
    if from >= s.len() {
        seq![]
    } else {
        let i = index_of_from(s, '\n', from);
        if i >= s.len() {
            seq![s.subrange(from, s.len() as int)]
        } else if i < from {
            seq![]
        } else {
            seq![strip_cr(s.subrange(from, i))] + lines_from(s, i + 1)
        }
    }
}

/// The lines of `s`.
pub open spec fn lines(s: Seq<char>) -> Seq<Seq<char>> {
    lines_from(s, 0)
}

/// Cuts `s` into its lines.
pub fn split_lines(s: &[char]) -> (out: Vec<Vec<char>>)
    ensures
        texts(out@) == lines(s@),
{
    let mut out: Vec<Vec<char>> = Vec::new();
    let mut from: usize = 0;
    while from < s.len()
        invariant
            from <= s.len(),
            lines(s@) == texts(out@) + lines_from(s@, from as int),
        decreases s.len() - from,
    {
        let i = find_from(s, '\n', from);
        let ghost before = out@;
        if i >= s.len() {
            let piece = copy_range(s, from, i);
            out.push(piece);
            assert(texts(out@) =~= texts(before).push(piece@));
            assert(texts(before) + seq![piece@] =~= texts(before).push(piece@));
            from = s.len();
        } else {
            let end: usize = if i > from && s[i - 1] == '\r' {
                i - 1
            } else {
                i
            };
            let piece = copy_range(s, from, end);
            assert(piece@ =~= strip_cr(s@.subrange(from as int, i as int)));
            out.push(piece);
            assert(texts(out@) =~= texts(before).push(piece@));
            assert(texts(before) + (seq![piece@] + lines_from(s@, i + 1)) =~= texts(before).push(
                piece@,
            ) + lines_from(s@, i + 1));
            from = i + 1;
        }
    }
    assert(texts(out@) + Seq::<Seq<char>>::empty() =~= texts(out@));
    out
}

/// The texts of `parts[from..to]` with `sep` between each two.
pub open spec fn join_range(parts: Seq<Seq<char>>, sep: Seq<char>, from: int, to: int) -> Seq<char>
    decreases to - from,
{
    if from >= to {
        seq![]
    } else if from + 1 == to {
        parts[from]
    } else {
        join_range(parts, sep, from, to - 1) + sep + parts[to - 1]
    }
}

/// The texts of `parts` with `sep` between each two.
pub open spec fn join(parts: Seq<Seq<char>>, sep: Seq<char>) -> Seq<char> {
    join_range(parts, sep, 0, parts.len() as int)
}

/// The texts of `parts[from..to]` with `sep` between each two.
pub fn join_chars(parts: &Vec<Vec<char>>, sep: &[char], from: usize, to: usize) -> (out: Vec<char>)
    requires
        from <= to <= parts.len(),
    ensures
        out@ == join_range(texts(parts@), sep@, from as int, to as int),
{
    let mut out: Vec<char> = Vec::new();
    let mut i: usize = from;
    while i < to
        invariant
            from <= i <= to <= parts.len(),
            out@ == join_range(texts(parts@), sep@, from as int, i as int),
        decreases to - i,
    {
        if i > from {
            let mut k: usize = 0;
            let ghost start = out@;
            while k < sep.len()
                invariant
                    k <= sep.len(),
                    out@ == start + sep@.take(k as int),
                decreases sep.len() - k,
            {
                out.push(sep[k]);
                assert(sep@.take(k + 1) =~= sep@.take(k as int).push(sep@[k as int]));
                k += 1;
            }
            assert(sep@.take(k as int) =~= sep@);
        }
        let part = &parts[i];
        let mut k: usize = 0;
        let ghost start = out@;
        while k < part.len()
            invariant
                k <= part.len(),
                out@ == start + part@.take(k as int),
            decreases part.len() - k,
        {
            out.push(part[k]);
            assert(part@.take(k + 1) =~= part@.take(k as int).push(part@[k as int]));
            k += 1;
        }
        assert(part@.take(k as int) =~= part@);
        assert(texts(parts@)[i as int] == part@);
        if i == from {
            assert(out@ =~= part@);
        }
        i += 1;
    }
    out
}

// ---------------------------------------------------------------------------
// Decimal numbers
// ---------------------------------------------------------------------------

/// `c` is a decimal digit.
pub open spec fn is_digit(c: char) -> bool {
    '0' <= c <= '9'
}

/// The number that a decimal digit stands for.
pub open spec fn digit_value(c: char) -> nat {
    (c as u32 - 0x30) as nat
}

/// Every character of `s` is a decimal digit.
pub open spec fn all_digits(s: Seq<char>) -> bool {
    forall|i: int| 0 <= i < s.len() ==> is_digit(#[trigger] s[i])
}

/// The number that a run of decimal digits writes.
pub open spec fn decimal_value(s: Seq<char>) -> nat
    decreases s.len(),
{
    if s.len() == 0 {
        0
    } else {
        decimal_value(s.drop_last()) * 10 + digit_value(s.last())
    }
}

/// The digits of an unsigned number as `str::parse` takes it: one or more
/// decimal digits, with an optional `+` in front and nothing else.
pub open spec fn unsigned_digits(s: Seq<char>) -> Option<Seq<char>> {
    let body = if s.len() > 0 && s[0] == '+' {
        s.skip(1)
    } else {
        s
    };
    if body.len() > 0 && all_digits(body) {
        Some(body)
    } else {
        None
    }
}

/// The `u64` that `s` writes, if it writes one.
pub open spec fn parsed_u64(s: Seq<char>) -> Option<u64> {
    match unsigned_digits(s) {
        Some(body) => if decimal_value(body) <= u64::MAX {
            Some(decimal_value(body) as u64)
        } else {
            None
        },
        None => None,
    }
}

/// The `usize` that `s` writes, if it writes one.
pub open spec fn parsed_usize(s: Seq<char>) -> Option<usize> {
    match unsigned_digits(s) {
        Some(body) => if decimal_value(body) <= usize::MAX {
            Some(decimal_value(body) as usize)
        } else {
            None
        },
        None => None,
    }
}

proof fn lemma_decimal_prefix(s: Seq<char>, n: int)
    requires
        0 <= n <= s.len(),
    ensures
        decimal_value(s.take(n)) <= decimal_value(s),
    decreases s.len(),
{
    if n == s.len() {
        assert(s.take(n) =~= s);
    } else {
        assert(s.drop_last().take(n) =~= s.take(n));
        lemma_decimal_prefix(s.drop_last(), n);
    }
}

/// Reads an unsigned decimal number.
pub fn parse_u64(text: &str) -> (r: Option<u64>)
    ensures
        r == parsed_u64(text@),
{
    let chars = chars_of(text);
    let start: usize = if chars.len() > 0 && chars[0] == '+' {
        1
    } else {
        0
    };
    let ghost body = if start == 1 {
        chars@.skip(1)
    } else {
        chars@
    };
    if start == chars.len() {
        return None;
    }
    let mut value: u64 = 0;
    let mut i: usize = start;
    while i < chars.len()
        invariant
            start <= i <= chars.len(),
            chars@ == text@,
            start == (if chars@.len() > 0 && chars@[0] == '+' {
                1int
            } else {
                0int
            }),
            body == chars@.skip(start as int),
            all_digits(body.take(i - start)),
            value == decimal_value(body.take(i - start)),
        decreases chars.len() - i,
    {
        let c = chars[i];
        assert(body[i - start] == c);
        assert(chars@.skip(0) =~= chars@);
        if c < '0' || c > '9' {
            assert(!is_digit(body[i - start]));
            return None;
        }
        let digit: u64 = (c as u32 - 0x30) as u64;
        assert(body.take(i - start + 1).drop_last() =~= body.take(i - start));
        assert(body.take(i - start + 1).last() == c);
        assert(decimal_value(body.take(i - start + 1)) == value * 10 + digit);
        proof {
            lemma_decimal_prefix(body, i - start + 1);
            assert forall|k: int| 0 <= k < i - start + 1 implies is_digit(
                #[trigger] body.take(i - start + 1)[k],
            ) by {
                if k < i - start {
                    assert(body.take(i - start)[k] == body.take(i - start + 1)[k]);
                }
            }
        }
        let shifted = match value.checked_mul(10) {
            Some(v) => v,
            None => {
                return None;
            },
        };
        value = match shifted.checked_add(digit) {
            Some(v) => v,
            None => {
                return None;
            },
        };
        i += 1;
    }
    assert(body.take(i - start) =~= body);
    assert(chars@.skip(0) =~= chars@);
    Some(value)
}

/// Reads an unsigned decimal number that fits a `usize`.
pub fn parse_usize(text: &str) -> (r: Option<usize>)
    ensures
        r == parsed_usize(text@),
{
    match parse_u64(text) {
        Some(v) => {
            if v <= usize::MAX as u64 {
                Some(v as usize)
            } else {
                None
            }
        },
        None => {
            proof {
                if let Some(body) = unsigned_digits(text@) {
                    assert(decimal_value(body) > u64::MAX);
                }
            }
            None
        },
    }
}

/// The character of a decimal digit.
pub open spec fn digit_char(d: nat) -> char {
    if d == 0 {
        '0'
    } else if d == 1 {
        '1'
    } else if d == 2 {
        '2'
    } else if d == 3 {
        '3'
    } else if d == 4 {
        '4'
    } else if d == 5 {
        '5'
    } else if d == 6 {
        '6'
    } else if d == 7 {
        '7'
    } else if d == 8 {
        '8'
    } else {
        '9'
    }
}

/// A number written in decimal digits, without leading zeros.
pub open spec fn decimal_text(n: nat) -> Seq<char>
    decreases n,
{
    if n < 10 {
        seq![digit_char(n)]
    } else {
        decimal_text(n / 10).push(digit_char(n % 10))
    }
}

fn digit_to_char(d: u64) -> (c: char)
    requires
        d < 10,
    ensures
        c == digit_char(d as nat),
{
    if d == 0 {
        '0'
    } else if d == 1 {
        '1'
    } else if d == 2 {
        '2'
    } else if d == 3 {
        '3'
    } else if d == 4 {
        '4'
    } else if d == 5 {
        '5'
    } else if d == 6 {
        '6'
    } else if d == 7 {
        '7'
    } else if d == 8 {
        '8'
    } else {
        '9'
    }
}

/// The digits of `n`, the last one first.
fn reversed_digits(n: u64) -> (out: Vec<char>)
    ensures
        out@.reverse() == decimal_text(n as nat),
    decreases n,
{
    if n < 10 {
        let out: Vec<char> = vec![digit_to_char(n)];
        assert(out@.reverse() =~= seq![digit_char(n as nat)]);
        out
    } else {
        let rest = reversed_digits(n / 10);
        let mut out: Vec<char> = vec![digit_to_char(n % 10)];
        let mut i: usize = 0;
        while i < rest.len()
            invariant
                i <= rest.len(),
                out@ == seq![digit_char((n % 10) as nat)] + rest@.take(i as int),
            decreases rest.len() - i,
        {
            out.push(rest[i]);
            assert(rest@.take(i + 1) =~= rest@.take(i as int).push(rest@[i as int]));
            i += 1;
        }
        assert(rest@.take(i as int) =~= rest@);
        assert(out@.reverse() =~= rest@.reverse().push(digit_char((n % 10) as nat)));
        out
    }
}

/// `n` in decimal digits.
pub fn format_decimal(n: u64) -> (text: String)
    ensures
        text@ == decimal_text(n as nat),
{
    let digits = reversed_digits(n);
    let mut forward: Vec<char> = Vec::new();
    let mut i: usize = digits.len();
    while i > 0
        invariant
            i <= digits.len(),
            forward@ == digits@.reverse().take(digits.len() - i),
        decreases i,
    {
        i -= 1;
        forward.push(digits[i]);
        assert(digits@.reverse().take(digits.len() - i) =~= digits@.reverse().take(
            digits.len() - i - 1,
        ).push(digits@[i as int]));
    }
    assert(digits@.reverse().take(digits.len() as int) =~= digits@.reverse());
    string_from_chars(forward.as_slice())
}

// ---------------------------------------------------------------------------
// Order
// ---------------------------------------------------------------------------

/// `a` is not after `b` in the order of the dictionary, character by
/// character from position `from` on.
pub open spec fn lex_le_from(a: Seq<char>, b: Seq<char>, from: int) -> bool
    decreases a.len() - from,
{
    if from >= a.len() {
        true
    } else if from >= b.len() {
        false
    } else if (a[from] as u32) != (b[from] as u32) {
        (a[from] as u32) < (b[from] as u32)
    } else {
        lex_le_from(a, b, from + 1)
    }
}

/// `a` is not after `b` in the order of the dictionary.
pub open spec fn lex_le(a: Seq<char>, b: Seq<char>) -> bool {
    lex_le_from(a, b, 0)
}

/// Of two texts one is not after the other.
pub proof fn lemma_lex_total(a: Seq<char>, b: Seq<char>, from: int)
    requires
        0 <= from,
    ensures
        lex_le_from(a, b, from) || lex_le_from(b, a, from),
    decreases a.len() - from,
{
    if from < a.len() && from < b.len() && (a[from] as u32) == (b[from] as u32) {
        lemma_lex_total(a, b, from + 1);
    }
}

/// Whether `a` is not after `b` in the order of the dictionary.
pub fn chars_le(a: &[char], b: &[char]) -> (r: bool)
    ensures
        r == lex_le(a@, b@),
{
    let mut i: usize = 0;
    while i < a.len()
        invariant
            i <= a.len(),
            lex_le(a@, b@) == lex_le_from(a@, b@, i as int),
        decreases a.len() - i,
    {
        if i >= b.len() {
            return false;
        }
        if (a[i] as u32) != (b[i] as u32) {
            return (a[i] as u32) < (b[i] as u32);
        }
        i += 1;
    }
    true
}

/// The text of `left` followed by `right`.
pub fn concat(left: &str, right: &str) -> (out: String)
    ensures
        out@ == left@ + right@,
{
    let mut out = String::from_str(left);
    out.append(right);
    out
}

} // verus!
