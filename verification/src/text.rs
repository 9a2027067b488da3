//! Text as a sequence of characters: lines, trimming, searching, numerals.
use vstd::prelude::*;
use vstd::slice::slice_subrange;
use vstd::string::StringExecFns;
use vstd::utf8::{encode_scalar, encode_utf8};

verus! {

/// Appends one character to the end of a string (`String::push`).
pub assume_specification[ String::push ](s: &mut String, c: char)
    ensures
        final(s)@ == old(s)@.push(c),
;

// ===== Conversions =====

/// The characters of a string slice.
pub fn chars_of(s: &str) -> (r: Vec<char>)
    ensures
        r@ == s@,
{
    let mut out: Vec<char> = Vec::new();
    for c in it: s.chars()
        invariant
            out@ == it.seq().take(it.index() as int),
            it.seq() == s@,
    {
        out.push(c);
    }
    out
}

/// The string made of the given characters.
pub fn string_of(chars: &[char]) -> (r: String)
    ensures
        r@ == chars@,
{
    let mut out = String::new();
    let mut i: usize = 0;
    while i < chars.len()
        invariant
            i <= chars@.len(),
            out@ == chars@.take(i as int),
        decreases chars@.len() - i,
    {
        out.push(chars[i]);
        i += 1;
        assert(chars@.take(i as int) == chars@.take(i - 1).push(chars@[i - 1]));
    }
    assert(chars@.take(i as int) == chars@);
    out
}

// ===== Character classes =====

/// The classes of characters that trimming removes.
#[derive(Clone, Copy, PartialEq, Eq, Debug, Structural)]
pub enum CharClass {
    /// Space, tab, carriage return and line feed.
    Blank,
    /// Every character with the Unicode property `White_Space`.
    WhiteSpace,
}

/// Space, tab, carriage return or line feed.
pub open spec fn is_blank(c: char) -> bool {
    c == ' ' || c == '\t' || c == '\r' || c == '\n'
}

/// The Unicode property `White_Space`.
pub open spec fn is_white_space(c: char) -> bool {
    ||| '\u{9}' <= c <= '\u{d}'
    ||| c == '\u{20}'
    ||| c == '\u{85}'
    ||| c == '\u{a0}'
    ||| c == '\u{1680}'
    ||| '\u{2000}' <= c <= '\u{200a}'
    ||| c == '\u{2028}'
    ||| c == '\u{2029}'
    ||| c == '\u{202f}'
    ||| c == '\u{205f}'
    ||| c == '\u{3000}'
}

/// Whether `c` belongs to `class`.
pub open spec fn in_class(c: char, class: CharClass) -> bool {
    match class {
        CharClass::Blank => is_blank(c),
        CharClass::WhiteSpace => is_white_space(c),
    }
}

/// Whether `c` belongs to `class`.
pub fn belongs(c: char, class: CharClass) -> (r: bool)
    ensures
        r == in_class(c, class),
{
    match class {
        CharClass::Blank => c == ' ' || c == '\t' || c == '\r' || c == '\n',
        CharClass::WhiteSpace => ('\u{9}' <= c && c <= '\u{d}') || c == '\u{20}' || c == '\u{85}'
            || c == '\u{a0}' || c == '\u{1680}' || ('\u{2000}' <= c && c <= '\u{200a}') || c
            == '\u{2028}' || c == '\u{2029}' || c == '\u{202f}' || c == '\u{205f}' || c
            == '\u{3000}',
    }
}

// ===== Trimming =====

/// `s` without its leading characters of `class`.
pub open spec fn trimmed_start(s: Seq<char>, class: CharClass) -> Seq<char>
    decreases s.len(),
{
    if s.len() > 0 && in_class(s.first(), class) {
        trimmed_start(s.drop_first(), class)
    } else {
        s
    }
}

/// `s` without its trailing characters of `class`.
pub open spec fn trimmed_end(s: Seq<char>, class: CharClass) -> Seq<char>
    decreases s.len(),
{
    if s.len() > 0 && in_class(s.last(), class) {
        trimmed_end(s.drop_last(), class)
    } else {
        s
    }
}

/// `s` without its leading and trailing characters of `class`.
pub open spec fn trimmed_both(s: Seq<char>, class: CharClass) -> Seq<char> {
    trimmed_end(trimmed_start(s, class), class)
}

/// `s` without leading and trailing blanks.
pub open spec fn trimmed(s: Seq<char>) -> Seq<char> {
    trimmed_both(s, CharClass::Blank)
}

/// Removes the leading characters of `class`.
pub fn trim_start_class(s: &[char], class: CharClass) -> (r: &[char])
    ensures
        r@ == trimmed_start(s@, class),
{
    let mut i: usize = 0;
    proof {
        assert(s@.skip(0) == s@);
    }
    while i < s.len() && belongs(s[i], class)
        invariant
            i <= s@.len(),
            trimmed_start(s@, class) == trimmed_start(s@.skip(i as int), class),
        decreases s@.len() - i,
    {
        assert(s@.skip(i as int).drop_first() == s@.skip(i + 1));
        i += 1;
    }
    assert(s@.skip(i as int) == s@.subrange(i as int, s@.len() as int));
    slice_subrange(s, i, s.len())
}

/// Removes the trailing characters of `class`.
pub fn trim_end_class(s: &[char], class: CharClass) -> (r: &[char])
    ensures
        r@ == trimmed_end(s@, class),
{
    let mut i: usize = s.len();
    proof {
        assert(s@.take(s@.len() as int) == s@);
    }
    while i > 0 && belongs(s[i - 1], class)
        invariant
            i <= s@.len(),
            trimmed_end(s@, class) == trimmed_end(s@.take(i as int), class),
        decreases i,
    {
        assert(s@.take(i as int).drop_last() == s@.take(i - 1));
        i -= 1;
    }
    assert(s@.take(i as int) == s@.subrange(0, i as int));
    slice_subrange(s, 0, i)
}

/// Removes the characters of `class` from both ends.
pub fn trim_class(s: &[char], class: CharClass) -> (r: &[char])
    ensures
        r@ == trimmed_both(s@, class),
{
    trim_end_class(trim_start_class(s, class), class)
}

/// Removes leading blanks.
pub fn left_trim(s: &[char]) -> (r: &[char])
    ensures
        r@ == trimmed_start(s@, CharClass::Blank),
{
    trim_start_class(s, CharClass::Blank)
}

/// Removes trailing blanks.
pub fn right_trim(s: &[char]) -> (r: &[char])
    ensures
        r@ == trimmed_end(s@, CharClass::Blank),
{
    trim_end_class(s, CharClass::Blank)
}

/// Removes blanks from both ends.
pub fn trim(s: &[char]) -> (r: &[char])
    ensures
        r@ == trimmed(s@),
{
    trim_class(s, CharClass::Blank)
}

/// What trimming leaves starts and ends outside the class, and is a part of the text.
pub proof fn trimmed_is_tight(s: Seq<char>, class: CharClass)
    ensures
        ({
            let t = trimmed_both(s, class);
            &&& t.len() <= s.len()
            &&& t.len() > 0 ==> !in_class(t.first(), class) && !in_class(t.last(), class)
            &&& exists|a: int| 0 <= a && a + t.len() <= s.len() && t == #[trigger] s.subrange(a, a + t.len())
        }),
{
    let u = trimmed_start(s, class);
    let t = trimmed_both(s, class);
    trimmed_start_is_suffix(s, class);
    trimmed_end_is_prefix(u, class);
    let a = s.len() - u.len();
    assert(s.subrange(a, a + t.len()) == t);
}

/// A text that neither starts nor ends in the class is left as it is.
pub proof fn trimming_keeps_tight(s: Seq<char>, class: CharClass)
    requires
        s.len() > 0 ==> !in_class(s.first(), class) && !in_class(s.last(), class),
    ensures
        trimmed_both(s, class) == s,
{
}

/// Trimming twice is trimming once.
pub proof fn trimming_is_idempotent(s: Seq<char>, class: CharClass)
    ensures
        trimmed_both(trimmed_both(s, class), class) == trimmed_both(s, class),
{
    trimmed_is_tight(s, class);
    trimming_keeps_tight(trimmed_both(s, class), class);
}

/// A last character of the class does not matter where text is trimmed.
pub proof fn trimming_takes_the_last(s: Seq<char>, class: CharClass)
    requires
        s.len() > 0,
        in_class(s.last(), class),
    ensures
        trimmed_both(s.drop_last(), class) == trimmed_both(s, class),
    decreases s.len(),
{
    let t = s.drop_last();
    if s.len() == 1 {
        assert(s.drop_first() =~= t);
    } else if in_class(s.first(), class) {
        trimming_takes_the_last(s.drop_first(), class);
        assert(s.drop_first().drop_last() =~= t.drop_first());
    }
}

proof fn trimmed_start_is_suffix(s: Seq<char>, class: CharClass)
    ensures
        ({
            let t = trimmed_start(s, class);
            &&& t.len() <= s.len()
            &&& t == s.skip(s.len() - t.len())
            &&& t.len() > 0 ==> !in_class(t.first(), class)
        }),
    decreases s.len(),
{
    if s.len() > 0 && in_class(s.first(), class) {
        trimmed_start_is_suffix(s.drop_first(), class);
        let t = trimmed_start(s, class);
        assert(s.drop_first().skip(s.drop_first().len() - t.len()) == s.skip(s.len() - t.len()));
    } else {
        assert(s == s.skip(0));
    }
}

proof fn trimmed_end_is_prefix(s: Seq<char>, class: CharClass)
    ensures
        ({
            let t = trimmed_end(s, class);
            &&& t.len() <= s.len()
            &&& t == s.take(t.len() as int)
            &&& t.len() > 0 ==> !in_class(t.last(), class)
        }),
    decreases s.len(),
{
    if s.len() > 0 && in_class(s.last(), class) {
        trimmed_end_is_prefix(s.drop_last(), class);
        let t = trimmed_end(s, class);
        assert(s.drop_last().take(t.len() as int) == s.take(t.len() as int));
    } else {
        assert(s == s.take(s.len() as int));
    }
}

// ===== Searching =====

/// The place of the first `c` in `s`, or the length of `s` where it has none.
pub open spec fn first_index(s: Seq<char>, c: char) -> nat
    decreases s.len(),
{
    if s.len() == 0 || s.first() == c {
        0
    } else {
        1 + first_index(s.drop_first(), c)
    }
}

/// `first_index` is the least place that holds `c`.
pub proof fn first_index_is_least(s: Seq<char>, c: char)
    ensures
        first_index(s, c) <= s.len(),
        first_index(s, c) < s.len() ==> s[first_index(s, c) as int] == c,
        forall|j: int| 0 <= j < first_index(s, c) ==> s[j] != c,
    decreases s.len(),
{
    if s.len() > 0 && s.first() != c {
        let t = s.drop_first();
        first_index_is_least(t, c);
        assert forall|j: int| 0 <= j < first_index(s, c) implies s[j] != c by {
            if j > 0 {
                assert(s[j] == t[j - 1]);
            }
        }
    }
}

/// The least place that holds `c` is `first_index`.
pub proof fn least_is_first_index(s: Seq<char>, c: char, n: nat)
    requires
        n <= s.len(),
        n < s.len() ==> s[n as int] == c,
        forall|j: int| 0 <= j < n ==> s[j] != c,
    ensures
        first_index(s, c) == n,
{
    first_index_is_least(s, c);
    let m = first_index(s, c);
    if m < n {
        assert(s[m as int] == c);
    }
    if n < m {
        assert(s[n as int] != c);
    }
}

/// The place of the first `c` in `s`.
pub fn find_char(s: &[char], c: char) -> (r: Option<usize>)
    ensures
        match r {
            Some(i) => i < s@.len() && i == first_index(s@, c),
            None => first_index(s@, c) == s@.len(),
        },
{
    let mut i: usize = 0;
    while i < s.len()
        invariant
            i <= s@.len(),
            forall|j: int| 0 <= j < i ==> s@[j] != c,
        decreases s@.len() - i,
    {
        if s[i] == c {
            proof {
                least_is_first_index(s@, c, i as nat);
            }
            return Some(i);
        }
        i += 1;
    }
    proof {
        least_is_first_index(s@, c, s@.len());
    }
    None
}

/// Whether `t` stands in `s` at place `i`.
pub open spec fn occurs_at(s: Seq<char>, t: Seq<char>, i: int) -> bool {
    0 <= i && i + t.len() <= s.len() && s.subrange(i, i + t.len()) == t
}

/// Whether `s` starts with `t`.
pub open spec fn has_prefix(s: Seq<char>, t: Seq<char>) -> bool {
    occurs_at(s, t, 0)
}

/// Whether `s` ends with `t`.
pub open spec fn has_suffix(s: Seq<char>, t: Seq<char>) -> bool {
    occurs_at(s, t, s.len() - t.len())
}

/// Whether `s` holds `t` anywhere.
pub open spec fn has_part(s: Seq<char>, t: Seq<char>) -> bool {
    exists|i: int| occurs_at(s, t, i)
}

/// Whether `t` stands in `s` at place `i`.
pub fn stands_at(s: &[char], t: &[char], i: usize) -> (r: bool)
    ensures
        r == occurs_at(s@, t@, i as int),
{
    if i > s.len() || t.len() > s.len() - i {
        return false;
    }
    let mut j: usize = 0;
    while j < t.len()
        invariant
            j <= t@.len(),
            i + t@.len() <= s@.len() <= usize::MAX,
            forall|k: int| 0 <= k < j ==> s@[i + k] == t@[k],
        decreases t@.len() - j,
    {
        if s[i + j] != t[j] {
            assert(s@.subrange(i as int, i + t@.len())[j as int] != t@[j as int]);
            return false;
        }
        j += 1;
    }
    assert(s@.subrange(i as int, i + t@.len()) =~= t@);
    true
}

/// Whether `s` starts with `t`.
pub fn starts_with(s: &[char], t: &[char]) -> (r: bool)
    ensures
        r == has_prefix(s@, t@),
{
    stands_at(s, t, 0)
}

/// Whether `s` ends with `t`.
pub fn ends_with(s: &[char], t: &[char]) -> (r: bool)
    ensures
        r == has_suffix(s@, t@),
{
    if t.len() > s.len() {
        return false;
    }
    stands_at(s, t, s.len() - t.len())
}

/// The first place at or after `from`, and wholly before `to`, where `t` stands in `s`.
pub fn find_part(s: &[char], t: &[char], from: usize, to: usize) -> (r: Option<usize>)
    requires
        from <= to <= s@.len(),
    ensures
        match r {
            Some(i) => {
                &&& from <= i
                &&& i + t@.len() <= to
                &&& occurs_at(s@, t@, i as int)
                &&& forall|j: int| from <= j < i ==> !occurs_at(s@, t@, j)
            },
            None => forall|j: int|
                from <= j && j + t@.len() <= to ==> !occurs_at(s@, t@, j),
        },
{
    let mut i: usize = from;
    while i <= to && t.len() <= to - i
        invariant
            from <= i <= to + 1,
            to <= s@.len(),
            forall|j: int| from <= j < i ==> !occurs_at(s@, t@, j),
        decreases to + 1 - i,
    {
        if stands_at(s, t, i) {
            return Some(i);
        }
        if i == to {
            return None;
        }
        i += 1;
    }
    None
}

/// Whether `s` holds `t` anywhere.
pub fn contains_part(s: &[char], t: &[char]) -> (r: bool)
    ensures
        r == has_part(s@, t@),
{
    match find_part(s, t, 0, s.len()) {
        Some(i) => {
            assert(occurs_at(s@, t@, i as int));
            true
        },
        None => false,
    }
}

// ===== Lines =====

/// `s` without one trailing carriage return.
pub open spec fn without_cr(s: Seq<char>) -> Seq<char> {
    if s.len() > 0 && s.last() == '\r' {
        s.drop_last()
    } else {
        s
    }
}

/// The lines of a text: it is cut at every line feed, a carriage return right before a line feed
/// goes with it, and nothing follows a final line feed.
pub open spec fn lines(s: Seq<char>) -> Seq<Seq<char>>
    decreases s.len(),
    via lines_decreases
{
    if s.len() == 0 {
        Seq::empty()
    } else {
        let n = first_index(s, '\n') as int;
        if n >= s.len() {
            seq![s]
        } else {
            seq![without_cr(s.take(n))] + lines(s.skip(n + 1))
        }
    }
}

#[via_fn]
proof fn lines_decreases(s: Seq<char>) {
}

/// A text that starts with a whole line has that line, and then the lines of the rest.
pub proof fn lines_start_with_the_first(line: Seq<char>, rest: Seq<char>)
    requires
        !line.contains('\n'),
    ensures
        lines(line + seq!['\n'] + rest) == seq![without_cr(line)] + lines(rest),
{
    let s = line + seq!['\n'] + rest;
    let n = line.len() as int;
    assert(s[n] == '\n');
    assert forall|j: int| 0 <= j < n implies s[j] != '\n' by {
        assert(s[j] == line[j]);
        assert(line.contains(line[j]));
    }
    least_is_first_index(s, '\n', line.len());
    assert(s.take(n) =~= line);
    assert(s.skip(n + 1) =~= rest);
}

/// Two texts of which the first is made of whole lines have the lines of both.
pub proof fn whole_lines_come_first(a: Seq<char>, b: Seq<char>)
    requires
        a.len() > 0 ==> a.last() == '\n',
    ensures
        lines(a + b) == lines(a) + lines(b),
    decreases a.len(),
{
    if a.len() == 0 {
        assert(a + b =~= b);
        assert(lines(a) + lines(b) =~= lines(b));
    } else {
        first_index_is_least(a, '\n');
        let n = first_index(a, '\n') as int;
        assert(n < a.len());
        let line = a.take(n);
        let rest = a.skip(n + 1);
        assert(!line.contains('\n'));
        assert(a + b =~= line + seq!['\n'] + (rest + b));
        lines_start_with_the_first(line, rest + b);
        if rest.len() > 0 {
            assert(rest.last() == a.last());
        }
        whole_lines_come_first(rest, b);
        assert(lines(a) == seq![without_cr(line)] + lines(rest));
        assert(lines(a + b) =~= lines(a) + lines(b));
    }
}

/// The lines of a text.
pub fn split_lines<'a>(s: &'a [char]) -> (r: Vec<&'a [char]>)
    ensures
        r@.len() == lines(s@).len(),
        forall|i: int| 0 <= i < r@.len() ==> (#[trigger] r@[i])@ == lines(s@)[i],
{
    let mut out: Vec<&'a [char]> = Vec::new();
    let ghost mut seen: Seq<Seq<char>> = Seq::empty();
    let mut pos: usize = 0;
    proof {
        assert(s@.skip(0) == s@);
        assert(lines(s@) == seen + lines(s@.skip(0)));
    }
    while pos < s.len()
        invariant
            pos <= s@.len(),
            lines(s@) == seen + lines(s@.skip(pos as int)),
            out@.len() == seen.len(),
            forall|i: int| 0 <= i < out@.len() ==> (#[trigger] out@[i])@ == seen[i],
        decreases s@.len() - pos,
    {
        let rest = slice_subrange(s, pos, s.len());
        let ghost tail = s@.skip(pos as int);
        assert(rest@ == tail);
        match find_char(rest, '\n') {
            None => {
                proof {
                    let last = seq![tail];
                    assert(lines(tail) == last);
                    seen = seen + last;
                    assert(lines(s@) == seen);
                    assert(s@.skip(s@.len() as int) =~= Seq::<char>::empty());
                    assert(lines(s@) == seen + lines(s@.skip(s@.len() as int)));
                }
                out.push(rest);
                pos = s.len();
            },
            Some(n) => {
                let mut end: usize = n;
                if end > 0 && rest[end - 1] == '\r' {
                    end -= 1;
                }
                let line = slice_subrange(rest, 0, end);
                proof {
                    assert(line@ == without_cr(tail.take(n as int)));
                    assert(tail.skip(n + 1) == s@.skip(pos + n + 1));
                    assert(lines(tail) == seq![line@] + lines(tail.skip(n + 1)));
                    let old_seen = seen;
                    seen = seen.push(line@);
                    assert(seen + lines(s@.skip(pos + n + 1)) == old_seen + lines(tail));
                }
                out.push(line);
                pos = pos + n + 1;
            },
        }
    }
    proof {
        assert(s@.skip(pos as int) =~= Seq::<char>::empty());
        assert(seen + lines(s@.skip(pos as int)) == seen);
    }
    out
}

// ===== Letter case =====

/// `c` with an ASCII capital made small.
pub open spec fn lower_char(c: char) -> char {
    if 'A' <= c <= 'Z' {
        ((c as u8) + 32) as char
    } else {
        c
    }
}

/// `s` with its ASCII capitals made small.
pub open spec fn lower(s: Seq<char>) -> Seq<char> {
    s.map_values(|c: char| lower_char(c))
}

/// `c` with an ASCII capital made small.
pub fn to_lower_char(c: char) -> (r: char)
    ensures
        r == lower_char(c),
{
    if 'A' <= c && c <= 'Z' {
        (c as u8 + 32) as char
    } else {
        c
    }
}

/// `s` with its ASCII capitals made small.
pub fn to_lower(s: &[char]) -> (r: Vec<char>)
    ensures
        r@ == lower(s@),
{
    let mut out: Vec<char> = Vec::new();
    let mut i: usize = 0;
    while i < s.len()
        invariant
            i <= s@.len(),
            out@ =~= lower(s@).take(i as int),
        decreases s@.len() - i,
    {
        out.push(to_lower_char(s[i]));
        i += 1;
    }
    out
}

/// Whether two texts are the same but for the case of ASCII letters.
pub open spec fn same_ignoring_case(a: Seq<char>, b: Seq<char>) -> bool {
    lower(a) == lower(b)
}

/// Whether two texts are the same but for the case of ASCII letters.
pub fn eq_ignore_ascii_case(a: &str, b: &str) -> (r: bool)
    ensures
        r == same_ignoring_case(a@, b@),
{
    let x = to_lower(&chars_of(a));
    let y = to_lower(&chars_of(b));
    same_chars(&x, &y)
}

/// Whether two character slices are equal.
pub fn same_chars(a: &[char], b: &[char]) -> (r: bool)
    ensures
        r == (a@ == b@),
{
    if a.len() != b.len() {
        return false;
    }
    proof {
        assert(a@.subrange(0, a@.len() as int) == a@);
    }
    stands_at(a, b, 0)
}

/// Whether two strings are equal.
pub fn same_text(a: &str, b: &str) -> (r: bool)
    ensures
        r == (a@ == b@),
{
    same_chars(&chars_of(a), &chars_of(b))
}

// ===== Numerals =====

/// The decimal digit for `d`.
pub open spec fn digit(d: nat) -> char {
    (('0' as u8) + d) as char
}

/// The decimal numeral of `n`, without leading zeros.
pub open spec fn decimal(n: nat) -> Seq<char>
    decreases n,
{
    if n < 10 {
        seq![digit(n)]
    } else {
        decimal(n / 10).push(digit(n % 10))
    }
}

/// The decimal numeral of `n`, without leading zeros.
pub fn decimal_string(n: u64) -> (r: String)
    ensures
        r@ == decimal(n as nat),
    decreases n,
{
    let d = (n % 10) as u8;
    let c = (48u8 + d) as char;
    assert(c == digit((n % 10) as nat));
    if n < 10 {
        let mut out = String::new();
        out.push(c);
        assert(out@ == seq![digit(n as nat)]);
        out
    } else {
        let mut out = decimal_string(n / 10);
        out.push(c);
        out
    }
}

/// A numeral is made of digits only.
pub proof fn decimal_is_digits(n: nat)
    ensures
        decimal(n).len() > 0,
        forall|i: int| 0 <= i < decimal(n).len() ==> '0' <= #[trigger] decimal(n)[i] <= '9',
    decreases n,
{
    if n >= 10 {
        decimal_is_digits(n / 10);
    }
}

/// Different numbers have different numerals.
pub proof fn decimal_is_injective(m: nat, n: nat)
    requires
        decimal(m) == decimal(n),
    ensures
        m == n,
    decreases m,
{
    decimal_is_digits(m / 10);
    decimal_is_digits(n / 10);
    if m >= 10 && n >= 10 {
        assert(decimal(m).drop_last() == decimal(m / 10));
        assert(decimal(n).drop_last() == decimal(n / 10));
        assert(decimal(m).last() == digit(m % 10));
        assert(decimal(n).last() == digit(n % 10));
        decimal_is_injective(m / 10, n / 10);
        assert(m % 10 == n % 10);
    } else if m >= 10 {
        assert(decimal(m).len() == decimal(m / 10).len() + 1);
    } else if n >= 10 {
        assert(decimal(n).len() == decimal(n / 10).len() + 1);
    } else {
        assert(decimal(m)[0] == digit(m));
        assert(decimal(n)[0] == digit(n));
    }
}

/// The number that a row of decimal digits stands for.
pub open spec fn digits_value(s: Seq<char>) -> nat
    decreases s.len(),
{
    if s.len() == 0 {
        0
    } else {
        digits_value(s.drop_last()) * 10 + ((s.last() as u8) - ('0' as u8)) as nat
    }
}

/// Whether `s` is one decimal digit or more, and nothing else.
pub open spec fn all_digits(s: Seq<char>) -> bool {
    s.len() > 0 && forall|i: int| 0 <= i < s.len() ==> '0' <= #[trigger] s[i] <= '9'
}

/// `s` without one leading plus sign.
pub open spec fn without_plus(s: Seq<char>) -> Seq<char> {
    if s.len() > 0 && s.first() == '+' {
        s.drop_first()
    } else {
        s
    }
}

/// The number that `s` stands for: digits, with or without a plus sign before them, whose value
/// a `usize` can hold.
pub open spec fn usize_value(s: Seq<char>) -> Option<usize> {
    let t = without_plus(s);
    if all_digits(t) && digits_value(t) <= usize::MAX {
        Some(digits_value(t) as usize)
    } else {
        None
    }
}

proof fn digits_value_grows(s: Seq<char>, i: int)
    requires
        0 <= i <= s.len(),
        all_digits(s),
    ensures
        digits_value(s.take(i)) <= digits_value(s),
    decreases s.len() - i,
{
    if i < s.len() {
        digits_value_grows(s, i + 1);
        assert(s.take(i + 1).drop_last() == s.take(i));
        assert('0' <= s[i] <= '9');
    } else {
        assert(s.take(i) == s);
    }
}

/// Reads a number.
pub fn parse_usize(s: &str) -> (r: Option<usize>)
    ensures
        r == usize_value(s@),
{
    let all = chars_of(s);
    let skip: usize = if all.len() > 0 && all[0] == '+' { 1 } else { 0 };
    let t = slice_subrange(all.as_slice(), skip, all.len());
    proof {
        assert(t@ == without_plus(s@));
    }
    if t.len() == 0 {
        return None;
    }
    let mut i: usize = 0;
    while i < t.len()
        invariant
            i <= t@.len(),
            forall|j: int| 0 <= j < i ==> '0' <= #[trigger] t@[j] <= '9',
            t@ == without_plus(s@),
        decreases t@.len() - i,
    {
        if t[i] < '0' || t[i] > '9' {
            assert(!('0' <= t@[i as int] <= '9'));
            assert(!all_digits(t@));
            return None;
        }
        i += 1;
    }
    let mut value: usize = 0;
    let mut k: usize = 0;
    while k < t.len()
        invariant
            k <= t@.len(),
            all_digits(t@),
            value == digits_value(t@.take(k as int)),
            t@ == without_plus(s@),
        decreases t@.len() - k,
    {
        assert('0' <= t@[k as int] <= '9');
        let d: usize = (t[k] as u8 - 48u8) as usize;
        proof {
            assert(t@.take(k + 1).drop_last() == t@.take(k as int));
            digits_value_grows(t@, k + 1);
        }
        match value.checked_mul(10) {
            Some(v) => match v.checked_add(d) {
                Some(w) => {
                    value = w;
                },
                None => {
                    return None;
                },
            },
            None => {
                return None;
            },
        }
        k += 1;
    }
    assert(t@.take(k as int) == t@);
    Some(value)
}

// ===== Bytes =====

/// The number of bytes of a text.
pub open spec fn byte_size(s: Seq<char>) -> nat {
    encode_utf8(s).len()
}

/// The number of bytes of a string.
pub fn byte_len(s: &str) -> (r: usize)
    ensures
        r == byte_size(s@),
{
    s.as_bytes().len()
}

/// The number of bytes of a character.
pub open spec fn char_size(c: char) -> nat {
    encode_scalar(c as u32).len()
}

/// The number of bytes of a character.
fn char_len(c: char) -> (r: usize)
    ensures
        r == char_size(c),
{
    let v = c as u32;
    if v < 0x80 {
        1
    } else if v < 0x800 {
        2
    } else if v < 0x10000 {
        3
    } else {
        4
    }
}

/// One more character adds its own bytes.
pub proof fn byte_size_of_push(s: Seq<char>, c: char)
    ensures
        byte_size(s.push(c)) == byte_size(s) + char_size(c),
    decreases s.len(),
{
    let all = s.push(c);
    if s.len() == 0 {
        assert(all.drop_first() =~= Seq::empty());
        assert(encode_utf8(all.drop_first()).len() == 0);
    } else {
        assert(all.drop_first() =~= s.drop_first().push(c));
        byte_size_of_push(s.drop_first(), c);
    }
}

/// The longest beginning of a text that has no more than so many bytes.
pub open spec fn truncated(s: Seq<char>, max_bytes: nat) -> Seq<char>
    decreases s.len(),
{
    if byte_size(s) <= max_bytes || s.len() == 0 {
        s
    } else {
        truncated(s.drop_last(), max_bytes)
    }
}

/// The longest beginning of a text that has no more than so many bytes.
pub fn truncate_text(input: &str, max_bytes: usize) -> (r: String)
    ensures
        r@ == truncated(input@, max_bytes as nat),
{
    let mut size: usize = byte_len(input);
    let mut chars = chars_of(input);
    while size > max_bytes && chars.len() > 0
        invariant
            size == byte_size(chars@),
            truncated(chars@, max_bytes as nat) == truncated(input@, max_bytes as nat),
        decreases chars@.len(),
    {
        let ghost before = chars@;
        let c = chars.pop().unwrap();
        proof {
            assert(before =~= chars@.push(c));
            byte_size_of_push(chars@, c);
            assert(chars@ =~= before.drop_last());
        }
        size -= char_len(c);
    }
    string_of(&chars)
}

/// A truncated text is a beginning of the text and fits, and one more character would not.
pub proof fn truncated_is_the_longest_fit(s: Seq<char>, max_bytes: nat)
    ensures
        has_prefix(s, truncated(s, max_bytes)),
        byte_size(truncated(s, max_bytes)) <= max_bytes,
        truncated(s, max_bytes).len() < s.len() ==> byte_size(
            s.take(truncated(s, max_bytes).len() as int + 1),
        ) > max_bytes,
    decreases s.len(),
{
    if byte_size(s) <= max_bytes || s.len() == 0 {
        assert(s.subrange(0, s.len() as int) =~= s);
    } else {
        let fewer = s.drop_last();
        let t = truncated(fewer, max_bytes);
        truncated_is_the_longest_fit(fewer, max_bytes);
        assert(s.subrange(0, t.len() as int) =~= fewer.subrange(0, t.len() as int));
        if t.len() < fewer.len() {
            assert(s.take(t.len() as int + 1) =~= fewer.take(t.len() as int + 1));
        } else {
            assert(s.take(t.len() as int + 1) =~= s);
        }
    }
}

} // verus!
