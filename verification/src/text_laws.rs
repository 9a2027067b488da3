//! What holds of texts: trimming, lines, letter case, numerals, beginnings and ends.
use vstd::prelude::*;
use vstd::utf8::encode_utf8;

use crate::text::{
    all_digits, byte_size, byte_size_of_push, decimal, decimal_is_digits, digits_value, has_part,
    has_prefix, has_suffix, in_class, least_is_first_index, lines, lines_start_with_the_first,
    lower, occurs_at, same_ignoring_case, trimmed, trimmed_both, trimming_keeps_tight,
    trimming_takes_the_last, truncated, truncated_is_the_longest_fit, usize_value, without_plus,
    CharClass,
};

verus! {

// ===== Trimming =====

/// Whether a text is made of spaces, tabs, carriage returns and line feeds.
pub open spec fn is_blank_run(s: Seq<char>) -> bool {
    forall|i: int|
        0 <= i < s.len() ==> (#[trigger] s[i] == ' ' || s[i] == '\t' || s[i] == '\r' || s[i]
            == '\n')
}

/// Whether a text neither starts nor ends in a space, a tab, a carriage return or a line feed.
pub open spec fn has_no_outer_blank(s: Seq<char>) -> bool {
    s.len() > 0 ==> {
        &&& s.first() != ' ' && s.first() != '\t' && s.first() != '\r' && s.first() != '\n'
        &&& s.last() != ' ' && s.last() != '\t' && s.last() != '\r' && s.last() != '\n'
    }
}

/// The white space of Unicode, by code points.
pub open spec fn is_unicode_space(c: char) -> bool {
    let n = c as int;
    9 <= n <= 13 || n == 32 || n == 133 || n == 160 || n == 5760 || 8192 <= n <= 8202 || n == 8232
        || n == 8233 || n == 8239 || n == 8287 || n == 12288
}

proof fn trimming_takes_the_first(s: Seq<char>, class: CharClass)
    requires
        s.len() > 0,
        in_class(s.first(), class),
    ensures
        trimmed_both(s.drop_first(), class) == trimmed_both(s, class),
{
}

proof fn trimming_takes_runs(a: Seq<char>, s: Seq<char>, b: Seq<char>, class: CharClass)
    requires
        forall|i: int| 0 <= i < a.len() ==> in_class(#[trigger] a[i], class),
        forall|i: int| 0 <= i < b.len() ==> in_class(#[trigger] b[i], class),
        s.len() > 0 ==> !in_class(s.first(), class) && !in_class(s.last(), class),
    ensures
        trimmed_both(a + s + b, class) == s,
    decreases a.len() + b.len(),
{
    let all = a + s + b;
    if a.len() > 0 {
        assert(all.first() == a[0]);
        trimming_takes_the_first(all, class);
        assert(all.drop_first() =~= a.drop_first() + s + b);
        assert forall|i: int| 0 <= i < a.drop_first().len() implies in_class(
            #[trigger] a.drop_first()[i],
            class,
        ) by {
            assert(a.drop_first()[i] == a[i + 1]);
        }
        trimming_takes_runs(a.drop_first(), s, b, class);
    } else if b.len() > 0 {
        assert(all.last() == b[b.len() - 1]);
        trimming_takes_the_last(all, class);
        assert(all.drop_last() =~= a + s + b.drop_last());
        assert forall|i: int| 0 <= i < b.drop_last().len() implies in_class(
            #[trigger] b.drop_last()[i],
            class,
        ) by {
            assert(b.drop_last()[i] == b[i]);
        }
        trimming_takes_runs(a, s, b.drop_last(), class);
    } else {
        assert(all =~= s);
        trimming_keeps_tight(s, class);
    }
}

/// Trimming takes the blanks around a text away, however many there are, and nothing else: a text
/// between two runs of blanks that has none at its own ends is what is left.
pub proof fn trimming_leaves_what_is_between_the_blanks(a: Seq<char>, s: Seq<char>, b: Seq<char>)
    requires
        is_blank_run(a),
        has_no_outer_blank(s),
        is_blank_run(b),
    ensures
        trimmed(a + s + b) == s,
{
    assert forall|i: int| 0 <= i < a.len() implies in_class(#[trigger] a[i], CharClass::Blank) by {}
    assert forall|i: int| 0 <= i < b.len() implies in_class(#[trigger] b[i], CharClass::Blank) by {}
    trimming_takes_runs(a, s, b, CharClass::Blank);
}

/// What trimming leaves has no blanks at its ends.
pub proof fn trimmed_text_has_no_outer_blank(s: Seq<char>)
    ensures
        has_no_outer_blank(trimmed(s)),
{
    crate::text::trimmed_is_tight(s, CharClass::Blank);
}

/// Where all white space of Unicode is trimmed, a text between two runs of it that has none at its
/// own ends is what is left.
pub proof fn trimming_leaves_what_is_between_white_space(a: Seq<char>, s: Seq<char>, b: Seq<char>)
    requires
        forall|i: int| 0 <= i < a.len() ==> is_unicode_space(#[trigger] a[i]),
        s.len() > 0 ==> !is_unicode_space(s.first()) && !is_unicode_space(s.last()),
        forall|i: int| 0 <= i < b.len() ==> is_unicode_space(#[trigger] b[i]),
    ensures
        trimmed_both(a + s + b, CharClass::WhiteSpace) == s,
{
    assert forall|i: int| 0 <= i < a.len() implies in_class(
        #[trigger] a[i],
        CharClass::WhiteSpace,
    ) by {
        assert(is_unicode_space(a[i]));
    }
    assert forall|i: int| 0 <= i < b.len() implies in_class(
        #[trigger] b[i],
        CharClass::WhiteSpace,
    ) by {
        assert(is_unicode_space(b[i]));
    }
    trimming_takes_runs(a, s, b, CharClass::WhiteSpace);
}

// ===== Lines =====

/// A text without a line feed is one line as it is, and the empty text has no lines.
pub proof fn text_without_line_feed_is_one_line(s: Seq<char>)
    requires
        !s.contains('\n'),
    ensures
        s.len() == 0 ==> lines(s) == Seq::<Seq<char>>::empty(),
        s.len() > 0 ==> lines(s) == seq![s],
{
    assert forall|j: int| 0 <= j < s.len() implies s[j] != '\n' by {
        assert(s.contains(s[j]));
    }
    least_is_first_index(s, '\n', s.len());
}

/// A line ends at a line feed, with or without a carriage return before it, and the lines of the
/// rest follow, whatever the rest is.
pub proof fn lines_end_at_line_feeds(line: Seq<char>, rest: Seq<char>)
    requires
        !line.contains('\n'),
        line.len() > 0 ==> line.last() != '\r',
    ensures
        lines(line + seq!['\n'] + rest) == seq![line] + lines(rest),
        lines(line + seq!['\r', '\n'] + rest) == seq![line] + lines(rest),
{
    lines_start_with_the_first(line, rest);
    let with_cr = line.push('\r');
    assert(!with_cr.contains('\n'));
    assert(line + seq!['\r', '\n'] + rest =~= with_cr + seq!['\n'] + rest);
    assert(with_cr.drop_last() =~= line);
    lines_start_with_the_first(with_cr, rest);
}

/// Only one carriage return goes with a line feed.
pub proof fn one_carriage_return_goes(line: Seq<char>, rest: Seq<char>)
    requires
        !line.contains('\n'),
    ensures
        lines(line + seq!['\r', '\n'] + rest) == seq![line] + lines(rest),
{
    let with_cr = line.push('\r');
    assert(!with_cr.contains('\n'));
    assert(line + seq!['\r', '\n'] + rest =~= with_cr + seq!['\n'] + rest);
    assert(with_cr.drop_last() =~= line);
    lines_start_with_the_first(with_cr, rest);
}

// ===== Searching =====

/// A text starts with another exactly if it is that text and something after it.
pub proof fn a_beginning_has_a_rest(s: Seq<char>, t: Seq<char>)
    ensures
        has_prefix(s, t) <==> exists|rest: Seq<char>| s == #[trigger] (t + rest),
        has_suffix(s, t) <==> exists|rest: Seq<char>| s == #[trigger] (rest + t),
{
    if has_prefix(s, t) {
        assert(s =~= t + s.skip(t.len() as int));
    }
    if exists|rest: Seq<char>| s == #[trigger] (t + rest) {
        let rest = choose|rest: Seq<char>| s == #[trigger] (t + rest);
        assert(s.subrange(0, t.len() as int) =~= t);
    }
    if has_suffix(s, t) {
        assert(s =~= s.take(s.len() - t.len()) + t);
    }
    if exists|rest: Seq<char>| s == #[trigger] (rest + t) {
        let rest = choose|rest: Seq<char>| s == #[trigger] (rest + t);
        assert(s.subrange(s.len() - t.len(), s.len() as int) =~= t);
    }
}

/// A text has a part exactly if it is that part between two other texts.
pub proof fn a_part_has_two_sides(s: Seq<char>, t: Seq<char>)
    ensures
        has_part(s, t) <==> exists|a: Seq<char>, b: Seq<char>| s == #[trigger] (a + t + b),
{
    if has_part(s, t) {
        let i = choose|i: int| occurs_at(s, t, i);
        assert(s =~= s.take(i) + t + s.skip(i + t.len()));
    }
    if exists|a: Seq<char>, b: Seq<char>| s == #[trigger] (a + t + b) {
        let (a, b) = choose|a: Seq<char>, b: Seq<char>| s == #[trigger] (a + t + b);
        assert(s.subrange(a.len() as int, a.len() as int + t.len()) =~= t);
        assert(occurs_at(s, t, a.len() as int));
    }
}

// ===== Letter case =====

/// Making letters small changes ASCII capitals only, each into the letter 32 code points on.
pub proof fn only_capitals_change(s: Seq<char>, i: int)
    ensures
        lower(s).len() == s.len(),
        0 <= i < s.len() && 65 <= s[i] as int <= 90 ==> lower(s)[i] as int == s[i] as int + 32,
        0 <= i < s.len() && !(65 <= s[i] as int <= 90) ==> lower(s)[i] == s[i],
{
}

/// Two texts are the same but for case exactly if they have one length and, place by place, the
/// same character or the capital and the small form of one letter.
pub proof fn same_but_for_case_means_letter_by_letter(a: Seq<char>, b: Seq<char>)
    ensures
        same_ignoring_case(a, b) <==> a.len() == b.len() && forall|i: int|
            0 <= i < a.len() ==> {
                ||| #[trigger] a[i] == b[i]
                ||| 65 <= a[i] as int <= 90 && b[i] as int == a[i] as int + 32
                ||| 65 <= b[i] as int <= 90 && a[i] as int == b[i] as int + 32
            },
{
    if same_ignoring_case(a, b) {
        assert(lower(a).len() == lower(b).len());
        assert forall|i: int| 0 <= i < a.len() implies {
            ||| #[trigger] a[i] == b[i]
            ||| 65 <= a[i] as int <= 90 && b[i] as int == a[i] as int + 32
            ||| 65 <= b[i] as int <= 90 && a[i] as int == b[i] as int + 32
        } by {
            assert(lower(a)[i] == lower(b)[i]);
        }
    }
    if a.len() == b.len() && forall|i: int|
        0 <= i < a.len() ==> {
            ||| #[trigger] a[i] == b[i]
            ||| 65 <= a[i] as int <= 90 && b[i] as int == a[i] as int + 32
            ||| 65 <= b[i] as int <= 90 && a[i] as int == b[i] as int + 32
        } {
        assert forall|i: int| 0 <= i < a.len() implies lower(a)[i] == lower(b)[i] by {
            assert(a[i] == b[i] || a[i] != b[i]);
        }
        assert(lower(a) =~= lower(b));
    }
}

// ===== Numerals =====

/// One more digit behind a numeral makes the number ten times as large and adds the digit; a number
/// below ten is one digit.
pub proof fn one_more_digit(n: nat, d: nat)
    requires
        d < 10,
    ensures
        decimal(d).len() == 1,
        decimal(d)[0] as int == 48 + d,
        n > 0 ==> decimal(10 * n + d) == decimal(n) + decimal(d),
{
    if n > 0 {
        let m = 10 * n + d;
        assert(m / 10 == n && m % 10 == d) by (nonlinear_arith)
            requires
                m == 10 * n + d,
                d < 10,
        ;
        assert(decimal(m) =~= decimal(n) + decimal(d));
    }
}

proof fn value_of_numeral(n: nat)
    ensures
        digits_value(decimal(n)) == n,
    decreases n,
{
    let s = decimal(n);
    if n < 10 {
        assert(s.drop_last() =~= Seq::empty());
        assert(digits_value(s.drop_last()) == 0);
        assert(s.last() as u8 - 48 == n);
    } else {
        value_of_numeral(n / 10);
        assert(s.drop_last() =~= decimal(n / 10));
        assert(s.last() as u8 - 48 == n % 10);
    }
}

/// The numeral of a number reads back as that number, with or without a plus sign before it.
pub proof fn numerals_read_back(n: usize)
    ensures
        usize_value(decimal(n as nat)) == Some(n),
        usize_value(seq!['+'] + decimal(n as nat)) == Some(n),
{
    let s = decimal(n as nat);
    decimal_is_digits(n as nat);
    value_of_numeral(n as nat);
    assert('0' <= s[0] <= '9');
    assert(without_plus(s) == s);
    let plus = seq!['+'] + s;
    assert(plus.drop_first() =~= s);
}

/// A numeral of a number that is too large is no number.
pub proof fn large_numerals_are_no_numbers(n: nat)
    requires
        n > usize::MAX,
    ensures
        usize_value(decimal(n)) is None,
        usize_value(seq!['+'] + decimal(n)) is None,
{
    let s = decimal(n);
    decimal_is_digits(n);
    value_of_numeral(n);
    assert('0' <= s[0] <= '9');
    assert((seq!['+'] + s).drop_first() =~= s);
}

/// Leading zeros do not change a number.
pub proof fn leading_zeros_do_not_count(s: Seq<char>)
    requires
        s.len() > 0,
        forall|i: int| 0 <= i < s.len() ==> 48 <= (#[trigger] s[i]) as int <= 57,
    ensures
        usize_value(seq!['0'] + s) == usize_value(s),
{
    let t = seq!['0'] + s;
    zero_adds_nothing(s);
    assert(forall|i: int| 0 <= i < t.len() ==> '0' <= #[trigger] t[i] <= '9');
    assert('0' <= s[0] <= '9');
}

proof fn zero_adds_nothing(s: Seq<char>)
    ensures
        digits_value(seq!['0'] + s) == digits_value(s),
    decreases s.len(),
{
    let t = seq!['0'] + s;
    if s.len() == 0 {
        assert(t.drop_last() =~= Seq::empty());
        assert(digits_value(t.drop_last()) == 0);
    } else {
        zero_adds_nothing(s.drop_last());
        assert(t.drop_last() =~= seq!['0'] + s.drop_last());
    }
}

/// A text with anything but digits in it, a leading plus sign aside, is no number, and neither is
/// one without digits.
pub proof fn other_texts_are_no_numbers(s: Seq<char>, i: int)
    ensures
        s.len() == 0 ==> usize_value(s) is None,
        s == seq!['+'] ==> usize_value(s) is None,
        0 <= i < s.len() && !(48 <= s[i] as int <= 57) && !(i == 0 && s[0] == '+') ==> usize_value(
            s,
        ) is None,
{
    let t = without_plus(s);
    if s == seq!['+'] {
        assert(t.len() == 0);
    }
    if 0 <= i < s.len() && !(48 <= s[i] as int <= 57) && !(i == 0 && s[0] == '+') {
        let k = if s[0] == '+' {
            i - 1
        } else {
            i
        };
        assert(t[k] == s[i]);
        assert(!all_digits(t));
    }
}

// ===== Bytes =====

/// Two texts have together as many bytes as both of them; a character has one byte to four.
pub proof fn bytes_add_up(a: Seq<char>, b: Seq<char>)
    ensures
        byte_size(a + b) == byte_size(a) + byte_size(b),
        byte_size(Seq::empty()) == 0,
    decreases b.len(),
{
    assert(encode_utf8(Seq::<char>::empty()).len() == 0);
    if b.len() == 0 {
        assert(a + b =~= a);
        assert(b =~= Seq::empty());
    } else {
        bytes_add_up(a, b.drop_last());
        assert(a + b =~= (a + b.drop_last()).push(b.last()));
        byte_size_of_push(a + b.drop_last(), b.last());
        assert(b =~= b.drop_last().push(b.last()));
        byte_size_of_push(b.drop_last(), b.last());
    }
}

/// Truncating to more bytes never shows less, and a text that fits is shown as it is.
pub proof fn truncating_keeps_what_fits(s: Seq<char>, max_bytes: nat)
    ensures
        byte_size(s) <= max_bytes ==> truncated(s, max_bytes) == s,
        exists|rest: Seq<char>| s == #[trigger] (truncated(s, max_bytes) + rest),
        byte_size(truncated(s, max_bytes)) <= max_bytes,
        forall|n: int|
            0 <= n <= s.len() && byte_size(#[trigger] s.take(n)) <= max_bytes ==> n <= truncated(
                s,
                max_bytes,
            ).len(),
{
    let t = truncated(s, max_bytes);
    truncated_is_the_longest_fit(s, max_bytes);
    a_beginning_has_a_rest(s, t);
    assert forall|n: int| 0 <= n <= s.len() && byte_size(#[trigger] s.take(n)) <= max_bytes implies n
        <= t.len() by {
        if n > t.len() {
            let short = s.take(t.len() as int + 1);
            assert(s.take(n) =~= short + s.subrange(t.len() as int + 1, n));
            bytes_add_up(short, s.subrange(t.len() as int + 1, n));
        }
    }
}

} // verus!
