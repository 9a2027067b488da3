//! What holds of `.conf.spec` files: what each kind of line does, what a whole text defines, what
//! merging adds, and which findings a document gives.
use vstd::prelude::*;

use crate::config_parser::{Section, Setting};
use crate::config_laws::{is_one_line, written_lines};
use crate::splunk_conf_spec::{
    after_spec_line, after_spec_lines, allows_key, bare, defined_key, doc_violations, first_failure,
    key_violations, keys_under, load_count, load_outcome, merged, rules_for, spec_of, specs_of,
    stanza_violations, to_load, without_star, ConfSpecRegistry, Rules, SpecFile, SpecReading,
    Violation,
};
use crate::stanza_pattern::pattern_matches;
use crate::text::{
    has_suffix, least_is_first_index, lines, trimmed_start, whole_lines_come_first, CharClass,
};
use crate::text_laws::{
    is_unicode_space, lines_end_at_line_feeds, text_without_line_feed_is_one_line,
    trimming_leaves_what_is_between_white_space,
};

verus! {

// ===== Findings =====

/// Whether a key may stand in a stanza: some rule whose pattern the name of the stanza matches lists
/// the key.
pub open spec fn is_listed(rules: Rules, name: Seq<char>, key: Seq<char>) -> bool {
    exists|p: Seq<char>| #[trigger]
        rules.contains_key(p) && pattern_matches(p, name) && rules[p].contains(key)
}

/// The findings about the keys of a stanza are one for every setting whose key no rule about the
/// stanza lists, in the order of the settings, and no others.
pub proof fn every_unlisted_key_is_found(rules: Rules, name: Seq<char>, settings: Seq<Setting>)
    ensures
        key_violations(rules, name, settings) == settings.filter(
            |s: Setting| !is_listed(rules, name, s.key),
        ).map_values(|s: Setting| Violation::UnknownKey(name, s.key)),
    decreases settings.len(),
{
    reveal(Seq::filter);
    let unlisted = |s: Setting| !is_listed(rules, name, s.key);
    let found = |s: Setting| Violation::UnknownKey(name, s.key);
    if settings.len() == 0 {
        assert(key_violations(rules, name, settings) =~= settings.filter(unlisted).map_values(found));
    } else {
        let fewer = settings.drop_last();
        every_unlisted_key_is_found(rules, name, fewer);
        let last = settings.last();
        assert(allows_key(rules, name, last.key) == is_listed(rules, name, last.key));
        if unlisted(last) {
            assert(fewer.filter(unlisted).push(last).map_values(found) =~= fewer.filter(
                unlisted,
            ).map_values(found).push(found(last)));
        }
        assert(key_violations(rules, name, settings) =~= settings.filter(unlisted).map_values(found));
    }
}

/// A key is found unknown exactly if some setting of the stanza has it and no rule about the stanza
/// lists it; and there are as many findings as settings with such keys.
pub proof fn unlisted_keys_are_found(
    rules: Rules,
    name: Seq<char>,
    settings: Seq<Setting>,
    key: Seq<char>,
)
    ensures
        key_violations(rules, name, settings).contains(Violation::UnknownKey(name, key)) <==> (exists|
            i: int,
        |
            0 <= i < settings.len() && (#[trigger] settings[i]).key == key) && !(exists|p: Seq<char>|
         #[trigger]
            rules.contains_key(p) && pattern_matches(p, name) && rules[p].contains(key)),
        key_violations(rules, name, settings).len() == settings.filter(
            |s: Setting| !is_listed(rules, name, s.key),
        ).len(),
    decreases settings.len(),
{
    reveal(Seq::filter);
    every_unlisted_key_is_found(rules, name, settings);
    let wanted = Violation::UnknownKey(name, key);
    if settings.len() > 0 {
        let fewer = settings.drop_last();
        unlisted_keys_are_found(rules, name, fewer, key);
        let before = key_violations(rules, name, fewer);
        let all = key_violations(rules, name, settings);
        assert(allows_key(rules, name, settings.last().key) == is_listed(
            rules,
            name,
            settings.last().key,
        ));
        if before.contains(wanted) {
            let k = choose|k: int| 0 <= k < before.len() && before[k] == wanted;
            assert(all[k] == wanted);
        }
        if all.contains(wanted) {
            let k = choose|k: int| 0 <= k < all.len() && all[k] == wanted;
            if k < before.len() {
                assert(before[k] == wanted);
            } else {
                assert(settings[settings.len() - 1].key == key);
            }
        }
        if exists|i: int| 0 <= i < fewer.len() && (#[trigger] fewer[i]).key == key {
            let i = choose|i: int| 0 <= i < fewer.len() && (#[trigger] fewer[i]).key == key;
            assert(settings[i].key == key);
        }
        if exists|i: int| 0 <= i < settings.len() && (#[trigger] settings[i]).key == key {
            let i = choose|i: int| 0 <= i < settings.len() && (#[trigger] settings[i]).key == key;
            if i < fewer.len() {
                assert(fewer[i].key == key);
            } else if !is_listed(rules, name, key) {
                assert(all[before.len() as int] == wanted);
            }
        }
    }
}

/// A stanza without settings gives no findings. One that matches no pattern gives one finding, about
/// itself. Any other gives the findings about its keys.
pub proof fn stanzas_are_judged(rules: Rules, stanza: Section)
    ensures
        ({
            let known = exists|p: Seq<char>| #[trigger]
                rules.contains_key(p) && pattern_matches(p, stanza.name);
            let found = stanza_violations(rules, stanza);
            &&& stanza.settings.len() == 0 ==> found.len() == 0
            &&& stanza.settings.len() > 0 && !known ==> found == seq![
                Violation::UnknownStanza(stanza.name),
            ]
            &&& stanza.settings.len() > 0 && known ==> found == stanza.settings.filter(
                |s: Setting| !is_listed(rules, stanza.name, s.key),
            ).map_values(|s: Setting| Violation::UnknownKey(stanza.name, s.key))
        }),
{
    every_unlisted_key_is_found(rules, stanza.name, stanza.settings);
}

/// The findings in a document are those in its stanzas, one after the other.
pub proof fn documents_are_judged_stanza_by_stanza(
    rules: Rules,
    earlier: Seq<Section>,
    later: Seq<Section>,
)
    ensures
        doc_violations(rules, Seq::empty()).len() == 0,
        doc_violations(rules, earlier + later) == doc_violations(rules, earlier) + doc_violations(
            rules,
            later,
        ),
        forall|stanza: Section|
            doc_violations(rules, seq![stanza]) == #[trigger] stanza_violations(rules, stanza),
    decreases later.len(),
{
    assert forall|stanza: Section| doc_violations(rules, seq![stanza])
        == #[trigger] stanza_violations(rules, stanza) by {
        assert(seq![stanza].drop_last() =~= Seq::empty());
        assert(doc_violations(rules, seq![stanza].drop_last()).len() == 0);
        assert(doc_violations(rules, seq![stanza]) =~= stanza_violations(rules, stanza));
    }
    if later.len() == 0 {
        assert(earlier + later =~= earlier);
        assert(doc_violations(rules, earlier) + doc_violations(rules, later) =~= doc_violations(
            rules,
            earlier,
        ));
    } else {
        documents_are_judged_stanza_by_stanza(rules, earlier, later.drop_last());
        assert((earlier + later).drop_last() =~= earlier + later.drop_last());
        assert((earlier + later).last() == later.last());
        assert(doc_violations(rules, earlier + later) =~= doc_violations(rules, earlier)
            + doc_violations(rules, later));
    }
}

// ===== Merging =====

/// Merging adds: a pattern is there if it was on either side, and lists the keys of both; a stanza
/// is known if either side knew it, and a key is allowed if either side allowed it.
pub proof fn merging_takes_both_sides(
    a: Rules,
    b: Rules,
    pattern: Seq<char>,
    name: Seq<char>,
    key: Seq<char>,
)
    ensures
        merged(a, b).contains_key(pattern) <==> a.contains_key(pattern) || b.contains_key(pattern),
        merged(a, b).contains_key(pattern) ==> (merged(a, b)[pattern].contains(key) <==> (
        a.contains_key(pattern) && a[pattern].contains(key)) || (b.contains_key(pattern)
            && b[pattern].contains(key))),
        is_listed(merged(a, b), name, key) <==> is_listed(a, name, key) || is_listed(b, name, key),
{
    let all = merged(a, b);
    if is_listed(all, name, key) {
        let p = choose|p: Seq<char>| #[trigger]
            all.contains_key(p) && pattern_matches(p, name) && all[p].contains(key);
        if keys_under(a, p).contains(key) {
            assert(a.contains_key(p));
        } else {
            assert(b.contains_key(p));
        }
    }
    if is_listed(a, name, key) {
        let p = choose|p: Seq<char>| #[trigger]
            a.contains_key(p) && pattern_matches(p, name) && a[p].contains(key);
        assert(all.contains_key(p) && all[p].contains(key));
    }
    if is_listed(b, name, key) {
        let p = choose|p: Seq<char>| #[trigger]
            b.contains_key(p) && pattern_matches(p, name) && b[p].contains(key);
        assert(all.contains_key(p) && all[p].contains(key));
    }
}

// ===== Single lines =====

/// Whether a text is made of white space.
pub open spec fn is_space_run(s: Seq<char>) -> bool {
    forall|i: int| 0 <= i < s.len() ==> is_unicode_space(#[trigger] s[i])
}

/// Whether a text neither starts nor ends in white space.
pub open spec fn has_no_outer_space(s: Seq<char>) -> bool {
    s.len() > 0 ==> !is_unicode_space(s.first()) && !is_unicode_space(s.last())
}

proof fn bare_text(a: Seq<char>, text: Seq<char>, d: Seq<char>)
    requires
        is_space_run(a) && is_space_run(d),
        has_no_outer_space(text),
    ensures
        bare(a + text + d) == text,
{
    trimming_leaves_what_is_between_white_space(a, text, d);
}

/// A blank line and a comment change nothing: the stanza that was open stays open.
pub proof fn spec_comments_change_nothing(
    r: SpecReading,
    a: Seq<char>,
    text: Seq<char>,
    d: Seq<char>,
)
    requires
        is_space_run(a) && is_space_run(d),
        has_no_outer_space(text),
        text.len() == 0 || text.first() == '#',
    ensures
        after_spec_line(r, a + text + d) == r,
{
    bare_text(a, text, d);
}

/// A pattern in brackets, with any white space around it, opens its stanza; the stanza is there from
/// then on, with the keys that it had, and nothing else changes. Brackets around nothing close the
/// stanza that was open.
pub proof fn spec_headers_open_stanzas(
    r: SpecReading,
    a: Seq<char>,
    b: Seq<char>,
    pattern: Seq<char>,
    c: Seq<char>,
    d: Seq<char>,
    other: Seq<char>,
    key: Seq<char>,
)
    requires
        is_space_run(a) && is_space_run(b) && is_space_run(c) && is_space_run(d),
        has_no_outer_space(pattern),
    ensures
        ({
            let next = after_spec_line(r, a + (seq!['['] + b + pattern + c + seq![']']) + d);
            if pattern.len() > 0 {
                &&& next.current == Some(pattern)
                &&& next.stanzas.contains_key(other) <==> r.stanzas.contains_key(other) || other
                    == pattern
                &&& next.stanzas.contains_key(other) ==> (next.stanzas[other].contains(key)
                    <==> r.stanzas.contains_key(other) && r.stanzas[other].contains(key))
            } else {
                next.current is None && next.stanzas == r.stanzas
            }
        }),
{
    let core = seq!['['] + b + pattern + c + seq![']'];
    assert(core.first() == '[' && core.last() == ']');
    bare_text(a, core, d);
    assert(core.subrange(1, core.len() - 1) =~= b + pattern + c);
    bare_text(b, pattern, c);
}

/// The text of a line that defines a key, with or without a star before it.
pub open spec fn key_line(
    a: Seq<char>,
    starred: bool,
    e: Seq<char>,
    key: Seq<char>,
    b: Seq<char>,
    rest: Seq<char>,
) -> Seq<char> {
    if starred {
        a + seq!['*'] + e + key + b + seq!['='] + rest
    } else {
        a + key + b + seq!['='] + rest
    }
}

/// Whether a text can be the key of such a line: the line is neither a comment nor a header.
pub open spec fn is_spec_key(key: Seq<char>, starred: bool, rest: Seq<char>) -> bool {
    &&& key.len() > 0 && has_no_outer_space(key)
    &&& forall|i: int| 0 <= i < key.len() ==> #[trigger] key[i] != '='
    &&& key.first() != '#' && key.first() != ';'
    &&& !starred ==> key.first() != '*' && (key.first() == '[' ==> !ends_in_bracket(rest))
}

/// Whether a text ends in a closing bracket, white space behind it aside.
pub open spec fn ends_in_bracket(s: Seq<char>) -> bool {
    exists|t: Seq<char>, d: Seq<char>| s == #[trigger] (t + seq![']'] + d) && is_space_run(d)
}

/// A key and an equals sign, with or without a star before them, with any white space around, and
/// whatever comes behind, define the key in the open stanza; no other stanza and no other key
/// changes. Where no stanza is open, nothing does.
pub proof fn spec_keys_are_defined(
    r: SpecReading,
    a: Seq<char>,
    starred: bool,
    e: Seq<char>,
    key: Seq<char>,
    b: Seq<char>,
    rest: Seq<char>,
    stanza: Seq<char>,
    other: Seq<char>,
)
    requires
        is_space_run(a) && is_space_run(e) && is_space_run(b),
        is_spec_key(key, starred, rest),
    ensures
        ({
            let next = after_spec_line(r, key_line(a, starred, e, key, b, rest));
            &&& next.current == r.current
            &&& r.current is None ==> next.stanzas == r.stanzas
            &&& r.current is Some ==> {
                &&& next.stanzas.contains_key(stanza) <==> r.stanzas.contains_key(stanza)
                    || r.current == Some(stanza)
                &&& next.stanzas.contains_key(stanza) ==> (next.stanzas[stanza].contains(other) <==> (
                r.stanzas.contains_key(stanza) && r.stanzas[stanza].contains(other)) || (r.current
                    == Some(stanza) && other == key))
            }
        }),
{
    let raw = key_line(a, starred, e, key, b, rest);
    key_line_shape(a, starred, e, key, b, rest);
}

/// What is left of a text when the white space behind it is cut off.
proof fn cut_end(s: Seq<char>) -> (r: (Seq<char>, Seq<char>))
    ensures
        s == r.0 + r.1,
        is_space_run(r.1),
        r.0.len() > 0 ==> !is_unicode_space(r.0.last()),
    decreases s.len(),
{
    if s.len() > 0 && is_unicode_space(s.last()) {
        let (t, d) = cut_end(s.drop_last());
        let longer = d.push(s.last());
        assert(s =~= (t + d).push(s.last()));
        assert(s =~= t + longer);
        (t, longer)
    } else {
        let none = Seq::<char>::empty();
        assert(s =~= s + none);
        (s, none)
    }
}

proof fn space_is_trimmed_before(e: Seq<char>, s: Seq<char>)
    requires
        is_space_run(e),
        s.len() > 0,
        !is_unicode_space(s.first()),
    ensures
        trimmed_start(e + s, CharClass::WhiteSpace) == s,
    decreases e.len(),
{
    let all = e + s;
    if e.len() > 0 {
        assert(all.first() == e[0]);
        assert(is_unicode_space(e[0]));
        assert(all.drop_first() =~= e.drop_first() + s);
        assert(is_space_run(e.drop_first())) by {
            assert forall|i: int| 0 <= i < e.drop_first().len() implies is_unicode_space(
                #[trigger] e.drop_first()[i],
            ) by {
                assert(e.drop_first()[i] == e[i + 1]);
            }
        }
        space_is_trimmed_before(e.drop_first(), s);
    } else {
        assert(all =~= s);
    }
}

proof fn key_line_shape(
    a: Seq<char>,
    starred: bool,
    e: Seq<char>,
    key: Seq<char>,
    b: Seq<char>,
    rest: Seq<char>,
)
    requires
        is_space_run(a) && is_space_run(e) && is_space_run(b),
        is_spec_key(key, starred, rest),
    ensures
        ({
            let line = bare(key_line(a, starred, e, key, b, rest));
            &&& line.len() > 0
            &&& line.first() != '#' && !(line.first() == '[' && line.last() == ']')
            &&& defined_key(line) == Some(key)
        }),
{
    let raw = key_line(a, starred, e, key, b, rest);
    let none = Seq::<char>::empty();
    let (tail, d) = cut_end(rest);
    let plain = key + b + seq!['='] + tail;
    let star = seq!['*'] + e + plain;
    let core = if starred {
        star
    } else {
        plain
    };
    assert(raw =~= a + core + d);
    assert(plain.first() == key.first());
    assert(plain.last() == (if tail.len() > 0 { tail.last() } else { '=' }));
    assert(core.last() == plain.last());
    if !starred && key.first() == '[' && tail.len() > 0 && tail.last() == ']' {
        assert(rest =~= tail.drop_last() + seq![']'] + d);
    }
    bare_text(a, core, d);
    if starred {
        assert(star.skip(1) =~= e + plain);
        space_is_trimmed_before(e, plain);
    }
    assert(without_star(core) == plain);
    let eq = key.len() as int + b.len();
    assert forall|j: int| 0 <= j < eq implies plain[j] != '=' by {
        if j < key.len() {
            assert(plain[j] == key[j]);
        } else {
            assert(plain[j] == b[j - key.len()]);
            assert(is_unicode_space(b[j - key.len()]));
        }
    }
    assert(plain[eq] == '=');
    least_is_first_index(plain, '=', eq as nat);
    assert(plain.take(eq) =~= none + key + b);
    bare_text(none, key, b);
}

/// A line whose text begins with a hash or a semicolon defines nothing, whatever it holds, and neither
/// does one whose text begins with an equals sign; a star before the text does not matter.
pub proof fn marked_lines_define_nothing(
    r: SpecReading,
    a: Seq<char>,
    starred: bool,
    e: Seq<char>,
    mark: char,
    rest: Seq<char>,
)
    requires
        is_space_run(a) && is_space_run(e),
        mark == '#' || mark == ';' || mark == '=',
    ensures
        after_spec_line(
            r,
            if starred {
                a + seq!['*'] + e + seq![mark] + rest
            } else {
                a + seq![mark] + rest
            },
        ) == r,
{
    let none = Seq::<char>::empty();
    let (tail, d) = cut_end(rest);
    let plain = seq![mark] + tail;
    let star = seq!['*'] + e + plain;
    let core = if starred {
        star
    } else {
        plain
    };
    assert(plain.first() == mark);
    assert(plain.last() == (if tail.len() > 0 { tail.last() } else { mark }));
    assert(core.last() == plain.last());
    bare_text(a, core, d);
    if starred {
        assert(a + seq!['*'] + e + seq![mark] + rest =~= a + core + d);
        assert(star.skip(1) =~= e + plain);
        space_is_trimmed_before(e, plain);
    } else {
        assert(a + seq![mark] + rest =~= a + core + d);
    }
    assert(without_star(core) == plain);
    if mark == '=' {
        least_is_first_index(plain, '=', 0);
        assert(plain.take(0) =~= none + none + none);
        bare_text(none, none, none);
    }
}

/// A line without an equals sign that is no header changes nothing.
pub proof fn other_spec_text_changes_nothing(
    r: SpecReading,
    a: Seq<char>,
    text: Seq<char>,
    d: Seq<char>,
)
    requires
        is_space_run(a) && is_space_run(d),
        has_no_outer_space(text),
        !text.contains('='),
        text.len() < 2 || text.first() != '[' || text.last() != ']',
    ensures
        after_spec_line(r, a + text + d) == r,
{
    bare_text(a, text, d);
    let candidate = without_star(text);
    if candidate.contains('=') {
        let i = choose|i: int| 0 <= i < candidate.len() && candidate[i] == '=';
        if text.len() > 0 && text.first() == '*' {
            start_is_a_suffix(text.skip(1));
            let k = text.len() - candidate.len() + i;
            assert(text[k] == '=');
        }
        assert(text.contains('='));
    }
    assert forall|j: int| 0 <= j < candidate.len() implies candidate[j] != '=' by {
        assert(candidate.contains(candidate[j]));
    }
    least_is_first_index(candidate, '=', candidate.len());
}

proof fn start_is_a_suffix(s: Seq<char>)
    ensures
        trimmed_start(s, CharClass::WhiteSpace).len() <= s.len(),
        trimmed_start(s, CharClass::WhiteSpace) == s.skip(
            s.len() - trimmed_start(s, CharClass::WhiteSpace).len(),
        ),
    decreases s.len(),
{
    let t = trimmed_start(s, CharClass::WhiteSpace);
    if s.len() > 0 && t != s {
        start_is_a_suffix(s.drop_first());
        assert(s.drop_first().skip(s.drop_first().len() - t.len()) =~= s.skip(s.len() - t.len()));
    } else {
        assert(s.skip(s.len() - t.len()) =~= s);
    }
}

/// Lines are read one after the other, each once.
pub proof fn spec_lines_are_read_in_order(
    r: SpecReading,
    earlier: Seq<Seq<char>>,
    line: Seq<char>,
    later: Seq<Seq<char>>,
)
    ensures
        after_spec_lines(r, Seq::empty()) == r,
        after_spec_lines(r, earlier + seq![line] + later) == after_spec_lines(
            after_spec_line(after_spec_lines(r, earlier), line),
            later,
        ),
    decreases later.len(),
{
    if later.len() == 0 {
        assert(earlier + seq![line] + later =~= earlier.push(line));
        assert(earlier.push(line).drop_last() =~= earlier);
    } else {
        let all = earlier + seq![line] + later;
        spec_lines_are_read_in_order(r, earlier, line, later.drop_last());
        assert(all.drop_last() =~= earlier + seq![line] + later.drop_last());
        assert(all.last() == later.last());
    }
}

/// A blank line or a comment anywhere in a spec file changes nothing.
pub proof fn spec_comments_can_stand_anywhere(
    r: SpecReading,
    earlier: Seq<Seq<char>>,
    a: Seq<char>,
    text: Seq<char>,
    d: Seq<char>,
    later: Seq<Seq<char>>,
)
    requires
        is_space_run(a) && is_space_run(d),
        has_no_outer_space(text),
        text.len() == 0 || text.first() == '#',
    ensures
        after_spec_lines(r, earlier + seq![a + text + d] + later) == after_spec_lines(
            r,
            earlier + later,
        ),
    decreases later.len(),
{
    spec_lines_are_read_in_order(r, earlier, a + text + d, later);
    spec_comments_change_nothing(after_spec_lines(r, earlier), a, text, d);
    joined(r, earlier, later);
}

proof fn joined(r: SpecReading, earlier: Seq<Seq<char>>, later: Seq<Seq<char>>)
    ensures
        after_spec_lines(r, earlier + later) == after_spec_lines(
            after_spec_lines(r, earlier),
            later,
        ),
    decreases later.len(),
{
    if later.len() == 0 {
        assert(earlier + later =~= earlier);
    } else {
        joined(r, earlier, later.drop_last());
        assert((earlier + later).drop_last() =~= earlier + later.drop_last());
        assert((earlier + later).last() == later.last());
    }
}

// ===== Whole texts =====

/// What a spec file is written of.
pub enum SpecItem {
    /// A blank line or a comment.
    Comment { a: Seq<char>, text: Seq<char>, d: Seq<char> },
    /// Text without an equals sign.
    Prose { a: Seq<char>, text: Seq<char>, d: Seq<char> },
    /// A header.
    Header { a: Seq<char>, b: Seq<char>, pattern: Seq<char>, c: Seq<char>, d: Seq<char> },
    /// A line that defines a key.
    Key { a: Seq<char>, starred: bool, e: Seq<char>, key: Seq<char>, b: Seq<char>, rest: Seq<char> },
}

/// The line of an item.
pub open spec fn spec_item_line(item: SpecItem) -> Seq<char> {
    match item {
        SpecItem::Comment { a, text, d } => a + text + d,
        SpecItem::Prose { a, text, d } => a + text + d,
        SpecItem::Header { a, b, pattern, c, d } => a + (seq!['['] + b + pattern + c + seq![']']) + d,
        SpecItem::Key { a, starred, e, key, b, rest } => key_line(a, starred, e, key, b, rest),
    }
}

/// Whether an item can be written as such.
pub open spec fn is_spec_item(item: SpecItem) -> bool {
    &&& is_one_line(spec_item_line(item))
    &&& match item {
        SpecItem::Comment { a, text, d } => {
            &&& is_space_run(a) && is_space_run(d) && has_no_outer_space(text)
            &&& text.len() == 0 || text.first() == '#'
        },
        SpecItem::Prose { a, text, d } => {
            &&& is_space_run(a) && is_space_run(d) && has_no_outer_space(text)
            &&& !text.contains('=')
            &&& text.len() < 2 || text.first() != '[' || text.last() != ']'
        },
        SpecItem::Header { a, b, pattern, c, d } => {
            &&& is_space_run(a) && is_space_run(b) && is_space_run(c) && is_space_run(d)
            &&& has_no_outer_space(pattern)
        },
        SpecItem::Key { a, starred, e, key, b, rest } => {
            &&& is_space_run(a) && is_space_run(e) && is_space_run(b)
            &&& is_spec_key(key, starred, rest)
        },
    }
}

/// The stanza that is open behind some items: that of the last header.
pub open spec fn open_after(items: Seq<SpecItem>) -> Option<Seq<char>>
    decreases items.len(),
{
    if items.len() == 0 {
        None
    } else {
        match items.last() {
            SpecItem::Header { a, b, pattern, c, d } => if pattern.len() > 0 {
                Some(pattern)
            } else {
                None
            },
            _ => open_after(items.drop_last()),
        }
    }
}

/// Whether an item is a header with that pattern.
pub open spec fn opens(item: SpecItem, p: Seq<char>) -> bool {
    item is Header && item->pattern == p
}

/// Whether an item defines that key.
pub open spec fn defines(item: SpecItem, k: Seq<char>) -> bool {
    item is Key && item->key == k
}

proof fn spec_items_are_read(items: Seq<SpecItem>, p: Seq<char>, k: Seq<char>)
    requires
        forall|i: int| 0 <= i < items.len() ==> is_spec_item(#[trigger] items[i]),
    ensures
        ({
            let r = after_spec_lines(
                SpecReading { stanzas: Map::empty(), current: None },
                items.map_values(|i: SpecItem| spec_item_line(i)),
            );
            &&& r.current == open_after(items)
            &&& r.stanzas.contains_key(p) <==> p.len() > 0 && exists|i: int|
                0 <= i < items.len() && opens(#[trigger] items[i], p)
            &&& keys_under(r.stanzas, p).contains(k) <==> exists|i: int|
                0 <= i < items.len() && defines(#[trigger] items[i], k) && open_after(items.take(i))
                    == Some(p)
        }),
    decreases items.len(),
{
    let start = SpecReading { stanzas: Map::empty(), current: None };
    let ls = items.map_values(|i: SpecItem| spec_item_line(i));
    if items.len() > 0 {
        let fewer = items.drop_last();
        let last = items.last();
        let few = fewer.map_values(|i: SpecItem| spec_item_line(i));
        assert forall|i: int| 0 <= i < fewer.len() implies is_spec_item(#[trigger] fewer[i]) by {
            assert(fewer[i] == items[i]);
        }
        spec_items_are_read(fewer, p, k);
        assert(is_spec_item(items[items.len() - 1]));
        assert(ls.drop_last() =~= few);
        assert(ls.last() == spec_item_line(last));
        let r = after_spec_lines(start, few);
        let next = after_spec_line(r, spec_item_line(last));
        assert(after_spec_lines(start, ls) == next);
        match last {
            SpecItem::Comment { a, text, d } => spec_comments_change_nothing(r, a, text, d),
            SpecItem::Prose { a, text, d } => other_spec_text_changes_nothing(r, a, text, d),
            SpecItem::Header { a, b, pattern, c, d } => spec_headers_open_stanzas(
                r,
                a,
                b,
                pattern,
                c,
                d,
                p,
                k,
            ),
            SpecItem::Key { a, starred, e, key, b, rest } => spec_keys_are_defined(
                r,
                a,
                starred,
                e,
                key,
                b,
                rest,
                p,
                k,
            ),
        }
        let end = items.len() - 1;
        assert(items.take(end) =~= fewer);
        // A header anywhere.
        if exists|i: int| 0 <= i < fewer.len() && opens(#[trigger] fewer[i], p) {
            let i = choose|i: int| 0 <= i < fewer.len() && opens(#[trigger] fewer[i], p);
            assert(opens(items[i], p));
        }
        if exists|i: int| 0 <= i < items.len() && opens(#[trigger] items[i], p) {
            let i = choose|i: int| 0 <= i < items.len() && opens(#[trigger] items[i], p);
            if i < end {
                assert(opens(fewer[i], p));
            }
        }
        assert(opens(last, p) ==> opens(items[end], p));
        open_stanzas_are_there(fewer);
        // A key anywhere.
        if exists|i: int|
            0 <= i < fewer.len() && defines(#[trigger] fewer[i], k) && open_after(fewer.take(i))
                == Some(p) {
            let i = choose|i: int|
                0 <= i < fewer.len() && defines(#[trigger] fewer[i], k) && open_after(fewer.take(i))
                    == Some(p);
            assert(defines(items[i], k));
            assert(items.take(i) =~= fewer.take(i));
        }
        if exists|i: int|
            0 <= i < items.len() && defines(#[trigger] items[i], k) && open_after(items.take(i))
                == Some(p) {
            let i = choose|i: int|
                0 <= i < items.len() && defines(#[trigger] items[i], k) && open_after(items.take(i))
                    == Some(p);
            if i < end {
                assert(defines(fewer[i], k));
                assert(items.take(i) =~= fewer.take(i));
            }
        }
        assert(defines(last, k) ==> defines(items[end], k));
    }
}

proof fn open_stanzas_are_there(items: Seq<SpecItem>)
    ensures
        match open_after(items) {
            Some(p) => p.len() > 0 && exists|i: int|
                0 <= i < items.len() && opens(#[trigger] items[i], p),
            None => true,
        },
    decreases items.len(),
{
    if items.len() > 0 {
        let fewer = items.drop_last();
        open_stanzas_are_there(fewer);
        if let Some(p) = open_after(items) {
            if items.last() is Header {
                assert(opens(items[items.len() - 1], p));
            } else {
                let i = choose|i: int| 0 <= i < fewer.len() && opens(#[trigger] fewer[i], p);
                assert(opens(items[i], p));
            }
        }
    }
}

proof fn one_line_is_written(line: Seq<char>)
    requires
        is_one_line(line),
    ensures
        lines(line + seq!['\n']) == seq![line],
{
    let none = Seq::<char>::empty();
    lines_end_at_line_feeds(line, none);
    text_without_line_feed_is_one_line(none);
    assert(line + seq!['\n'] + none =~= line + seq!['\n']);
    assert(seq![line] + lines(none) =~= seq![line]);
}

proof fn spec_lines_are_written_whole(ls: Seq<Seq<char>>)
    requires
        forall|i: int| 0 <= i < ls.len() ==> is_one_line(#[trigger] ls[i]),
    ensures
        lines(written_lines(ls)) == ls,
        written_lines(ls).len() > 0 ==> written_lines(ls).last() == '\n',
    decreases ls.len(),
{
    if ls.len() == 0 {
        text_without_line_feed_is_one_line(written_lines(ls));
        assert(lines(written_lines(ls)) =~= ls);
    } else {
        let fewer = ls.drop_last();
        assert forall|i: int| 0 <= i < fewer.len() implies is_one_line(#[trigger] fewer[i]) by {
            assert(fewer[i] == ls[i]);
        }
        spec_lines_are_written_whole(fewer);
        assert(is_one_line(ls[ls.len() - 1]));
        let start = written_lines(fewer);
        let last = ls.last() + seq!['\n'];
        one_line_is_written(ls.last());
        whole_lines_come_first(start, last);
        assert(written_lines(ls) =~= start + last);
        assert(ls =~= fewer + seq![ls.last()]);
    }
}

/// A spec file defines what is written in it: a stanza for every header with a pattern, and under a
/// pattern the key of every line that defines one while the last header before it is that pattern's,
/// whatever comments, blank lines and other text stand between, and nothing else.
pub proof fn specs_define_what_is_written(items: Seq<SpecItem>, p: Seq<char>, k: Seq<char>)
    requires
        forall|i: int| 0 <= i < items.len() ==> is_spec_item(#[trigger] items[i]),
    ensures
        ({
            let rules = spec_of(written_lines(items.map_values(|i: SpecItem| spec_item_line(i))));
            &&& rules.contains_key(p) <==> p.len() > 0 && exists|i: int|
                0 <= i < items.len() && opens(#[trigger] items[i], p)
            &&& (rules.contains_key(p) && rules[p].contains(k)) <==> exists|i: int|
                0 <= i < items.len() && defines(#[trigger] items[i], k) && open_after(items.take(i))
                    == Some(p)
        }),
{
    let ls = items.map_values(|i: SpecItem| spec_item_line(i));
    assert forall|i: int| 0 <= i < ls.len() implies is_one_line(#[trigger] ls[i]) by {
        assert(is_spec_item(items[i]));
    }
    spec_lines_are_written_whole(ls);
    spec_items_are_read(items, p, k);
}

// ===== Loading =====

/// Whether a file counts for a type: a regular file, no link, whose name is that of the type, which
/// ends in `.conf`, with `.spec` behind it.
pub open spec fn is_spec_for(f: SpecFile, conf: Seq<char>) -> bool {
    &&& !f.is_symlink && f.is_file && f.name is Some
    &&& f.name->0@ == conf + seq!['.', 's', 'p', 'e', 'c']
    &&& conf.len() >= 5 && conf.skip(conf.len() - 5) == seq!['.', 'c', 'o', 'n', 'f']
}

proof fn ends_in_two(name: Seq<char>, conf: Seq<char>, mid: Seq<char>, end: Seq<char>)
    requires
        name == conf + end,
        conf.len() >= mid.len(),
        conf.skip(conf.len() - mid.len()) == mid,
    ensures
        conf == name.take(name.len() - end.len()),
        has_suffix(name, mid + end),
{
    let both = mid + end;
    let found = name.subrange(name.len() - both.len(), name.len() as int);
    assert forall|i: int| 0 <= i < both.len() implies found[i] == both[i] by {
        if i < mid.len() {
            assert(conf.skip(conf.len() - mid.len())[i] == mid[i]);
        }
    }
    assert(found =~= both);
    assert(conf =~= name.take(name.len() - end.len()));
}

proof fn starts_before_two(name: Seq<char>, mid: Seq<char>, end: Seq<char>)
    requires
        has_suffix(name, mid + end),
    ensures
        ({
            let conf = name.take(name.len() - end.len());
            &&& name == conf + end
            &&& conf.len() >= mid.len()
            &&& conf.skip(conf.len() - mid.len()) == mid
        }),
{
    let both = mid + end;
    let conf = name.take(name.len() - end.len());
    let found = name.subrange(name.len() - both.len(), name.len() as int);
    assert(found == both);
    assert forall|i: int| 0 <= i < mid.len() implies conf.skip(conf.len() - mid.len())[i]
        == mid[i] by {
        assert(found[i] == both[i]);
    }
    assert(conf.skip(conf.len() - mid.len()) =~= mid);
    assert forall|i: int| 0 <= i < end.len() implies name.skip(conf.len() as int)[i] == end[i] by {
        assert(found[mid.len() + i] == both[mid.len() + i]);
    }
    assert(name.skip(conf.len() as int) =~= end);
    assert(name =~= conf + name.skip(conf.len() as int));
}

proof fn loaded_files_have_a_type(f: SpecFile)
    ensures
        to_load(f) <==> exists|conf: Seq<char>| #[trigger] is_spec_for(f, conf),
        forall|conf: Seq<char>| #[trigger]
            is_spec_for(f, conf) ==> conf == f.name->0@.take(f.name->0@.len() - 5),
        to_load(f) ==> is_spec_for(f, f.name->0@.take(f.name->0@.len() - 5)),
{
    let mid = seq!['.', 'c', 'o', 'n', 'f'];
    let end = seq!['.', 's', 'p', 'e', 'c'];
    assert(crate::splunk_conf_spec::conf_spec_suffix() =~= mid + end);
    if f.name is Some {
        let name = f.name->0@;
        if to_load(f) {
            starts_before_two(name, mid, end);
            assert(is_spec_for(f, name.take(name.len() - 5)));
        }
        assert forall|conf: Seq<char>| #[trigger] is_spec_for(f, conf) implies conf == name.take(
            name.len() - 5,
        ) && to_load(f) by {
            ends_in_two(name, conf, mid, end);
        }
    }
}

/// What a directory of spec files defines: a type is there if a file counts for it, and its rules
/// are those of all files that count for it, taken together. Links, directories and files of other
/// names do not count.
pub proof fn loading_takes_every_spec_file(
    files: Seq<SpecFile>,
    conf: Seq<char>,
    p: Seq<char>,
    k: Seq<char>,
)
    requires
        forall|i: int|
            0 <= i < files.len() ==> (#[trigger] files[i]).content is Ok || !(exists|c: Seq<char>|
             #[trigger]
                is_spec_for(files[i], c)),
    ensures
        specs_of(files).contains_key(conf) <==> exists|i: int|
            0 <= i < files.len() && is_spec_for(#[trigger] files[i], conf),
        specs_of(files).contains_key(conf) ==> (specs_of(files)[conf].contains_key(p) <==> exists|
            i: int,
        |
            0 <= i < files.len() && is_spec_for(#[trigger] files[i], conf) && spec_of(
                files[i].content->Ok_0@,
            ).contains_key(p)),
        specs_of(files).contains_key(conf) ==> (keys_under(specs_of(files)[conf], p).contains(k)
            <==> exists|i: int|
            0 <= i < files.len() && is_spec_for(#[trigger] files[i], conf) && keys_under(
                spec_of(files[i].content->Ok_0@),
                p,
            ).contains(k)),
    decreases files.len(),
{
    if files.len() > 0 {
        let fewer = files.drop_last();
        let last = files.last();
        let end = files.len() - 1;
        assert(files[end] == last);
        assert forall|i: int| 0 <= i < fewer.len() implies (#[trigger] fewer[i]).content is Ok || !(
        exists|c: Seq<char>| #[trigger] is_spec_for(fewer[i], c)) by {
            assert(fewer[i] == files[i]);
        }
        loading_takes_every_spec_file(fewer, conf, p, k);
        loaded_files_have_a_type(last);
        let before = specs_of(fewer);
        let all = specs_of(files);
        if exists|i: int| 0 <= i < fewer.len() && is_spec_for(#[trigger] fewer[i], conf) {
            let i = choose|i: int| 0 <= i < fewer.len() && is_spec_for(#[trigger] fewer[i], conf);
            assert(is_spec_for(files[i], conf));
        }
        if exists|i: int| 0 <= i < files.len() && is_spec_for(#[trigger] files[i], conf) {
            let i = choose|i: int| 0 <= i < files.len() && is_spec_for(#[trigger] files[i], conf);
            if i < end {
                assert(is_spec_for(fewer[i], conf));
            }
        }
        if exists|i: int|
            0 <= i < fewer.len() && is_spec_for(#[trigger] fewer[i], conf) && spec_of(
                fewer[i].content->Ok_0@,
            ).contains_key(p) {
            let i = choose|i: int|
                0 <= i < fewer.len() && is_spec_for(#[trigger] fewer[i], conf) && spec_of(
                    fewer[i].content->Ok_0@,
                ).contains_key(p);
            assert(is_spec_for(files[i], conf));
        }
        if exists|i: int|
            0 <= i < files.len() && is_spec_for(#[trigger] files[i], conf) && spec_of(
                files[i].content->Ok_0@,
            ).contains_key(p) {
            let i = choose|i: int|
                0 <= i < files.len() && is_spec_for(#[trigger] files[i], conf) && spec_of(
                    files[i].content->Ok_0@,
                ).contains_key(p);
            if i < end {
                assert(is_spec_for(fewer[i], conf));
            }
        }
        if exists|i: int|
            0 <= i < fewer.len() && is_spec_for(#[trigger] fewer[i], conf) && keys_under(
                spec_of(fewer[i].content->Ok_0@),
                p,
            ).contains(k) {
            let i = choose|i: int|
                0 <= i < fewer.len() && is_spec_for(#[trigger] fewer[i], conf) && keys_under(
                    spec_of(fewer[i].content->Ok_0@),
                    p,
                ).contains(k);
            assert(is_spec_for(files[i], conf));
        }
        if exists|i: int|
            0 <= i < files.len() && is_spec_for(#[trigger] files[i], conf) && keys_under(
                spec_of(files[i].content->Ok_0@),
                p,
            ).contains(k) {
            let i = choose|i: int|
                0 <= i < files.len() && is_spec_for(#[trigger] files[i], conf) && keys_under(
                    spec_of(files[i].content->Ok_0@),
                    p,
                ).contains(k);
            if i < end {
                assert(is_spec_for(fewer[i], conf));
            }
        }
        if to_load(last) && last.name->0@.take(last.name->0@.len() - 5) == conf {
            assert(is_spec_for(last, conf));
            assert(is_spec_for(files[end], conf));
            merging_takes_both_sides(
                rules_for(before, conf),
                spec_of(last.content->Ok_0@),
                p,
                p,
                k,
            );
        } else {
            assert(!is_spec_for(last, conf));
        }
    }
}

/// Loading fails with the error of the first spec file that could not be read, and with no other;
/// files that do not count may be unreadable.
pub proof fn loading_fails_at_the_first_unreadable_spec(files: Seq<SpecFile>, i: int)
    requires
        0 <= i < files.len(),
        exists|conf: Seq<char>| #[trigger] is_spec_for(files[i], conf),
        files[i].content is Err,
        forall|j: int|
            0 <= j < i ==> (#[trigger] files[j]).content is Ok || !(exists|conf: Seq<char>| #[trigger]
                is_spec_for(files[j], conf)),
    ensures
        first_failure(files) == Some(files[i].content->Err_0),
    decreases files.len(),
{
    loaded_files_have_a_type(files[0]);
    if i > 0 {
        let rest = files.drop_first();
        assert(rest[i - 1] == files[i]);
        assert(files[0].content is Ok || !(exists|conf: Seq<char>| #[trigger]
            is_spec_for(files[0], conf)));
        assert forall|j: int| 0 <= j < i - 1 implies (#[trigger] rest[j]).content is Ok || !(exists|
            conf: Seq<char>,
        | #[trigger]
            is_spec_for(rest[j], conf)) by {
            assert(rest[j] == files[j + 1]);
        }
        loading_fails_at_the_first_unreadable_spec(rest, i - 1);
    }
}

/// Where every spec file could be read, loading does not fail.
pub proof fn readable_specs_are_loaded(files: Seq<SpecFile>)
    requires
        forall|j: int|
            0 <= j < files.len() ==> (#[trigger] files[j]).content is Ok || !(exists|conf: Seq<char>|
             #[trigger]
                is_spec_for(files[j], conf)),
    ensures
        first_failure(files) is None,
    decreases files.len(),
{
    if files.len() > 0 {
        let rest = files.drop_first();
        loaded_files_have_a_type(files[0]);
        assert(files[0].content is Ok || !(exists|conf: Seq<char>| #[trigger]
            is_spec_for(files[0], conf)));
        assert forall|j: int| 0 <= j < rest.len() implies (#[trigger] rest[j]).content is Ok || !(
        exists|conf: Seq<char>| #[trigger] is_spec_for(rest[j], conf)) by {
            assert(rest[j] == files[j + 1]);
        }
        readable_specs_are_loaded(rest);
    }
}

/// A directory that cannot be looked at gives its error, and one that is not there an empty registry.
/// Any other gives the error of the first spec file that could not be read, or what the spec files
/// define.
pub proof fn loading_answers(
    present: Result<bool, std::io::Error>,
    files: Seq<SpecFile>,
    r: Result<ConfSpecRegistry, std::io::Error>,
)
    requires
        load_outcome(present, files, r),
    ensures
        present is Err ==> r is Err && r->Err_0 == present->Err_0,
        present == Ok::<bool, std::io::Error>(false) ==> r is Ok && r->Ok_0.specs()
            == Map::<Seq<char>, Rules>::empty() && r->Ok_0.load_total() == 0,
        present == Ok::<bool, std::io::Error>(true) ==> {
            &&& first_failure(files) is Some ==> r is Err && r->Err_0 == first_failure(files)->0
            &&& first_failure(files) is None ==> r is Ok && r->Ok_0.specs() == specs_of(files)
                && r->Ok_0.load_total() == load_count(files)
        },
{
}

/// The count of loaded files is that of the files that count for some type.
pub proof fn loaded_files_are_counted(files: Seq<SpecFile>)
    ensures
        load_count(files) == files.filter(
            |f: SpecFile| exists|conf: Seq<char>| #[trigger] is_spec_for(f, conf),
        ).len(),
    decreases files.len(),
{
    reveal(Seq::filter);
    if files.len() > 0 {
        loaded_files_have_a_type(files.last());
        loaded_files_are_counted(files.drop_last());
    }
}

} // verus!
