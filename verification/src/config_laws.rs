//! What holds of the `.conf` format: what each kind of line does, and what a whole text holds.
use vstd::prelude::*;

use crate::config_parser::{
    after_line, after_lines, after_lines_concat, before_first_line, finished, header_name, parsed,
    settled, Reading, Section, Setting, Unfinished,
};
use crate::text::{first_index, least_is_first_index, lines, trimmed, whole_lines_come_first};
use crate::text_laws::{
    has_no_outer_blank, is_blank_run, lines_end_at_line_feeds, text_without_line_feed_is_one_line,
    trimmed_text_has_no_outer_blank, trimming_leaves_what_is_between_the_blanks,
};

verus! {

// ===== Single lines =====

/// Whether one reader is another that has taken one more setting, at the end of the current stanza:
/// no other stanza has changed, and none has come or gone.
pub open spec fn took_setting(
    before: Reading,
    after: Reading,
    key: Seq<char>,
    value: Seq<char>,
) -> bool {
    &&& after.unfinished is None
    &&& after.stanza == before.stanza
    &&& after.doc.len() == before.doc.len()
    &&& forall|i: int|
        0 <= i < before.doc.len() ==> (#[trigger] after.doc[i]).name == before.doc[i].name
    &&& forall|i: int|
        0 <= i < before.doc.len() ==> (#[trigger] after.doc[i]).settings == (if before.doc[i].name
            == before.stanza {
            before.doc[i].settings.push(Setting { key, value })
        } else {
            before.doc[i].settings
        })
}

proof fn settled_took_setting(r: Reading, key: Seq<char>, value: Seq<char>)
    ensures
        took_setting(r, settled(r, key, value), key, value),
{
}

/// The text of a setting, with blanks before and after the key and the value.
pub open spec fn spaced_setting(
    a: Seq<char>,
    key: Seq<char>,
    b: Seq<char>,
    c: Seq<char>,
    value: Seq<char>,
    d: Seq<char>,
) -> Seq<char> {
    a + key + b + seq!['='] + c + value + d
}

/// Whether a text can be the key of a setting with that value: it is not empty, has no blanks at its
/// ends and no equals sign, and the line is neither a comment nor a header.
pub open spec fn is_key_beside(key: Seq<char>, value: Seq<char>) -> bool {
    &&& key.len() > 0
    &&& has_no_outer_blank(key)
    &&& forall|i: int| 0 <= i < key.len() ==> #[trigger] key[i] != '='
    &&& key.first() != '#' && key.first() != ';'
    &&& key.first() == '[' && value.len() > 0 ==> value.last() != ']'
}

proof fn spaced_setting_shape(
    a: Seq<char>,
    key: Seq<char>,
    b: Seq<char>,
    c: Seq<char>,
    value: Seq<char>,
    d: Seq<char>,
)
    requires
        is_blank_run(a) && is_blank_run(b) && is_blank_run(c) && is_blank_run(d),
        is_key_beside(key, value),
        has_no_outer_blank(value),
    ensures
        ({
            let line = trimmed(spaced_setting(a, key, b, c, value, d));
            let eq = key.len() as int + b.len();
            &&& line.len() > eq
            &&& line.first() == key.first()
            &&& line.last() == (if value.len() > 0 { value.last() } else { '=' })
            &&& first_index(line, '=') == eq
            &&& trimmed(line.take(eq)) == key
            &&& trimmed(line.skip(eq + 1)) == value
        }),
{
    let raw = spaced_setting(a, key, b, c, value, d);
    let line = trimmed(raw);
    let eq = key.len() as int + b.len();
    let none = Seq::<char>::empty();
    if value.len() > 0 {
        let core = key + b + seq!['='] + c + value;
        assert(raw =~= a + core + d);
        assert(core.first() == key.first() && core.last() == value.last());
        trimming_leaves_what_is_between_the_blanks(a, core, d);
        assert(line.skip(eq + 1) =~= c + value + none);
        trimming_leaves_what_is_between_the_blanks(c, value, none);
    } else {
        let core = key + b + seq!['='];
        assert(raw =~= a + core + (c + d));
        assert(core.first() == key.first() && core.last() == '=');
        assert(is_blank_run(c + d)) by {
            assert forall|i: int| 0 <= i < (c + d).len() implies (#[trigger] (c + d)[i] == ' ' || (c
                + d)[i] == '\t' || (c + d)[i] == '\r' || (c + d)[i] == '\n') by {
                if i < c.len() {
                    assert((c + d)[i] == c[i]);
                } else {
                    assert((c + d)[i] == d[i - c.len()]);
                }
            }
        }
        trimming_leaves_what_is_between_the_blanks(a, core, c + d);
        assert(line.skip(eq + 1) =~= none + value + none);
        trimming_leaves_what_is_between_the_blanks(none, value, none);
    }
    assert(line.take(eq) =~= none + key + b);
    trimming_leaves_what_is_between_the_blanks(none, key, b);
    assert forall|j: int| 0 <= j < eq implies line[j] != '=' by {
        assert(line[j] == line.take(eq)[j]);
        if j < key.len() {
            assert(line.take(eq)[j] == key[j]);
        } else {
            assert(line.take(eq)[j] == b[j - key.len()]);
        }
    }
    assert(line[eq] == '=');
    least_is_first_index(line, '=', eq as nat);
}

/// A line with a key, an equals sign and a value, with any blanks or none around each of them, is a
/// setting of the current stanza. Where the value ends in a backslash it goes on in the next line;
/// otherwise the setting is complete.
pub proof fn setting_lines_are_taken(
    r: Reading,
    a: Seq<char>,
    key: Seq<char>,
    b: Seq<char>,
    c: Seq<char>,
    value: Seq<char>,
    d: Seq<char>,
    max_lines: nat,
)
    requires
        r.unfinished is None,
        is_blank_run(a) && is_blank_run(b) && is_blank_run(c) && is_blank_run(d),
        is_key_beside(key, value),
        has_no_outer_blank(value),
    ensures
        ({
            let next = after_line(r, spaced_setting(a, key, b, c, value, d), max_lines);
            if value.len() > 0 && value.last() == '\\' {
                next == (Reading {
                    doc: r.doc,
                    stanza: r.stanza,
                    unfinished: Some(Unfinished { key, value, line_count: 1 }),
                })
            } else {
                took_setting(r, next, key, value)
            }
        }),
{
    spaced_setting_shape(a, key, b, c, value, d);
    settled_took_setting(r, key, value);
}

/// A name in brackets, with any blanks around them, makes its stanza the current one. The stanza
/// comes to the end of the document, without settings, unless there is one of that name. A name with
/// blanks at its ends is no name, and its line does nothing.
pub proof fn header_lines_change_the_stanza(
    r: Reading,
    a: Seq<char>,
    name: Seq<char>,
    d: Seq<char>,
    max_lines: nat,
)
    requires
        r.unfinished is None,
        is_blank_run(a) && is_blank_run(d),
        name.len() > 0,
    ensures
        ({
            let next = after_line(r, a + (seq!['['] + name + seq![']']) + d, max_lines);
            let known = exists|i: int| 0 <= i < r.doc.len() && (#[trigger] r.doc[i]).name == name;
            if has_no_outer_blank(name) {
                &&& next.unfinished is None
                &&& next.stanza == name
                &&& known ==> next.doc == r.doc
                &&& !known ==> next.doc == r.doc.push(
                    Section { name, settings: Seq::empty() },
                )
            } else {
                next == r
            }
        }),
{
    let core = seq!['['] + name + seq![']'];
    assert(core.first() == '[' && core.last() == ']');
    trimming_leaves_what_is_between_the_blanks(a, core, d);
    assert(header_name(core) =~= name);
    let none = Seq::<char>::empty();
    if has_no_outer_blank(name) {
        assert(none + name + none =~= name);
        trimming_leaves_what_is_between_the_blanks(none, name, none);
    } else {
        trimmed_text_has_no_outer_blank(name);
    }
}

/// Blank lines, comments, and lines that are neither headers nor settings change nothing.
pub proof fn other_lines_change_nothing(
    r: Reading,
    a: Seq<char>,
    text: Seq<char>,
    d: Seq<char>,
    max_lines: nat,
)
    requires
        r.unfinished is None,
        is_blank_run(a) && is_blank_run(d),
        has_no_outer_blank(text),
        ({
            ||| text.len() == 0
            ||| text.first() == '#'
            ||| text.first() == ';'
            ||| text.first() == '='
            ||| !text.contains('=') && (text.len() < 3 || text.first() != '[' || text.last() != ']')
        }),
    ensures
        after_line(r, a + text + d, max_lines) == r,
{
    trimming_leaves_what_is_between_the_blanks(a, text, d);
    if text.len() > 0 && text.first() == '=' {
        least_is_first_index(text, '=', 0);
    } else if !text.contains('=') {
        assert forall|j: int| 0 <= j < text.len() implies text[j] != '=' by {
            assert(text.contains(text[j]));
        }
        least_is_first_index(text, '=', text.len());
    }
}

/// A value that goes on takes the next line as it stands, behind a line feed, even where that line
/// looks like a comment, a header or a setting. It goes on further where the line, blanks behind it
/// aside, ends in a backslash, and is complete otherwise. Where the value has all the lines that it
/// may have, it is complete without the line, and the line is dropped.
pub proof fn unfinished_values_take_the_next_line(
    r: Reading,
    u: Unfinished,
    a: Seq<char>,
    text: Seq<char>,
    d: Seq<char>,
    max_lines: nat,
)
    requires
        r.unfinished == Some(u),
        is_blank_run(a) && is_blank_run(d),
        has_no_outer_blank(text),
    ensures
        ({
            let raw = a + text + d;
            let longer = u.value + seq!['\n'] + raw;
            let next = after_line(r, raw, max_lines);
            if u.line_count >= max_lines {
                took_setting(r, next, u.key, u.value)
            } else if text.len() > 0 && text.last() == '\\' {
                next == (Reading {
                    doc: r.doc,
                    stanza: r.stanza,
                    unfinished: Some(
                        Unfinished { key: u.key, value: longer, line_count: u.line_count + 1 },
                    ),
                })
            } else {
                took_setting(r, next, u.key, longer)
            }
        }),
{
    let raw = a + text + d;
    trimming_leaves_what_is_between_the_blanks(a, text, d);
    settled_took_setting(r, u.key, u.value);
    settled_took_setting(r, u.key, u.value + seq!['\n'] + raw);
}

/// Lines are read one after the other, each once.
pub proof fn lines_are_read_in_order(
    r: Reading,
    earlier: Seq<Seq<char>>,
    line: Seq<char>,
    later: Seq<Seq<char>>,
    max_lines: nat,
)
    ensures
        after_lines(r, Seq::empty(), max_lines) == r,
        after_lines(r, earlier + seq![line] + later, max_lines) == after_lines(
            after_line(after_lines(r, earlier, max_lines), line, max_lines),
            later,
            max_lines,
        ),
{
    let one = seq![line];
    after_lines_concat(r, earlier + one, later, max_lines);
    after_lines_concat(r, earlier, one, max_lines);
    let mid = after_lines(r, earlier, max_lines);
    assert(one.drop_last() =~= Seq::empty());
    assert(after_lines(mid, one.drop_last(), max_lines) == mid);
}

/// At the end a value that still goes on counts as far as it was read, and nothing else changes.
pub proof fn the_end_completes_a_value(r: Reading)
    ensures
        match r.unfinished {
            Some(u) => took_setting(
                r,
                Reading { doc: finished(r), stanza: r.stanza, unfinished: None },
                u.key,
                u.value,
            ),
            None => finished(r) == r.doc,
        },
{
    if let Some(u) = r.unfinished {
        settled_took_setting(r, u.key, u.value);
    }
}

// ===== Whole texts =====

/// What a text is written of.
pub enum Item {
    /// A blank line, a comment, or another line that says nothing.
    Noise { text: Seq<char> },
    /// A header, with blanks around it.
    Header { a: Seq<char>, name: Seq<char>, d: Seq<char> },
    /// A setting, with blanks around its key and the first line of its value, and the lines in which
    /// the value goes on.
    Entry {
        a: Seq<char>,
        key: Seq<char>,
        b: Seq<char>,
        c: Seq<char>,
        value: Seq<char>,
        d: Seq<char>,
        more: Seq<Seq<char>>,
    },
}

/// Whether a text is one line that does not end in a carriage return.
pub open spec fn is_one_line(s: Seq<char>) -> bool {
    !s.contains('\n') && (s.len() > 0 ==> s.last() != '\r')
}

/// Whether a line ends in a backslash, blanks behind it aside.
pub open spec fn ends_in_backslash(s: Seq<char>) -> bool {
    exists|t: Seq<char>, d: Seq<char>| s == #[trigger] (t + seq!['\\'] + d) && is_blank_run(d)
}

/// Whether an item can be written as such.
pub open spec fn is_item(item: Item, max_lines: nat) -> bool {
    match item {
        Item::Noise { text } => {
            let core = trimmed(text);
            &&& is_one_line(text)
            &&& {
                ||| core.len() == 0
                ||| core.first() == '#'
                ||| core.first() == ';'
                ||| core.first() == '='
                ||| !core.contains('=') && (core.len() < 3 || core.first() != '[' || core.last()
                    != ']')
            }
        },
        Item::Header { a, name, d } => {
            &&& is_blank_run(a) && is_blank_run(d)
            &&& name.len() > 0 && has_no_outer_blank(name)
            &&& is_one_line(a + (seq!['['] + name + seq![']']) + d)
        },
        Item::Entry { a, key, b, c, value, d, more } => {
            &&& is_blank_run(a) && is_blank_run(b) && is_blank_run(c) && is_blank_run(d)
            &&& is_key_beside(key, value) && has_no_outer_blank(value)
            &&& is_one_line(spaced_setting(a, key, b, c, value, d))
            &&& more.len() > 0 <==> value.len() > 0 && value.last() == '\\'
            &&& more.len() > 0 ==> more.len() < max_lines
            &&& forall|i: int| 0 <= i < more.len() ==> is_one_line(#[trigger] more[i])
            &&& forall|i: int|
                0 <= i < more.len() ==> (ends_in_backslash(#[trigger] more[i]) <==> i < more.len()
                    - 1)
        },
    }
}

/// Lines as they are written, each with a line feed.
pub open spec fn written_lines(ls: Seq<Seq<char>>) -> Seq<char>
    decreases ls.len(),
{
    if ls.len() == 0 {
        Seq::empty()
    } else {
        written_lines(ls.drop_last()) + ls.last() + seq!['\n']
    }
}

/// Lines with a line feed before each.
pub open spec fn behind_line_feeds(ls: Seq<Seq<char>>) -> Seq<char>
    decreases ls.len(),
{
    if ls.len() == 0 {
        Seq::empty()
    } else {
        behind_line_feeds(ls.drop_last()) + seq!['\n'] + ls.last()
    }
}

/// The lines of an item.
pub open spec fn item_lines(item: Item) -> Seq<Seq<char>> {
    match item {
        Item::Noise { text } => seq![text],
        Item::Header { a, name, d } => seq![a + (seq!['['] + name + seq![']']) + d],
        Item::Entry { a, key, b, c, value, d, more } => seq![
            spaced_setting(a, key, b, c, value, d),
        ] + more,
    }
}

/// A text as it is written, item by item.
pub open spec fn written(items: Seq<Item>) -> Seq<char>
    decreases items.len(),
{
    if items.len() == 0 {
        Seq::empty()
    } else {
        written(items.drop_last()) + written_lines(item_lines(items.last()))
    }
}

/// The name of the stanza that comes after some items: that of the last header, or `default`.
pub open spec fn stanza_after(items: Seq<Item>) -> Seq<char>
    decreases items.len(),
{
    if items.len() == 0 {
        seq!['d', 'e', 'f', 'a', 'u', 'l', 't']
    } else {
        match items.last() {
            Item::Header { a, name, d } => name,
            _ => stanza_after(items.drop_last()),
        }
    }
}

/// The settings that some items give a stanza, in order.
pub open spec fn settings_under(items: Seq<Item>, name: Seq<char>) -> Seq<Setting>
    decreases items.len(),
{
    if items.len() == 0 {
        Seq::empty()
    } else {
        let before = settings_under(items.drop_last(), name);
        match items.last() {
            Item::Entry { a, key, b, c, value, d, more } => if stanza_after(items.drop_last())
                == name {
                before.push(Setting { key, value: value + behind_line_feeds(more) })
            } else {
                before
            },
            _ => before,
        }
    }
}

/// The names of the stanzas that some items open, each at its first place.
pub open spec fn names_in(items: Seq<Item>) -> Seq<Seq<char>>
    decreases items.len(),
{
    if items.len() == 0 {
        seq![seq!['d', 'e', 'f', 'a', 'u', 'l', 't']]
    } else {
        let before = names_in(items.drop_last());
        match items.last() {
            Item::Header { a, name, d } => if before.contains(name) {
                before
            } else {
                before.push(name)
            },
            _ => before,
        }
    }
}

/// The document that some items make: the stanzas in the order in which their names come first, each
/// with all the settings that come under its name.
pub open spec fn document_of(items: Seq<Item>) -> Seq<Section> {
    names_in(items).map_values(
        |name: Seq<char>| Section { name, settings: settings_under(items, name) },
    )
}

proof fn lines_are_written_whole(ls: Seq<Seq<char>>)
    requires
        forall|i: int| 0 <= i < ls.len() ==> is_one_line(#[trigger] ls[i]),
    ensures
        lines(written_lines(ls)) == ls,
        written_lines(ls).len() > 0 ==> written_lines(ls).last() == '\n',
    decreases ls.len(),
{
    if ls.len() == 0 {
        assert(lines(written_lines(ls)) =~= ls);
    } else {
        let fewer = ls.drop_last();
        assert forall|i: int| 0 <= i < fewer.len() implies is_one_line(#[trigger] fewer[i]) by {
            assert(fewer[i] == ls[i]);
        }
        lines_are_written_whole(fewer);
        assert(is_one_line(ls[ls.len() - 1]));
        let none = Seq::<char>::empty();
        let last = ls.last() + seq!['\n'] + none;
        lines_end_at_line_feeds(ls.last(), none);
        text_without_line_feed_is_one_line(none);
        assert(lines(last) =~= seq![ls.last()]);
        assert(written_lines(ls) =~= written_lines(fewer) + last);
        whole_lines_come_first(written_lines(fewer), last);
        assert(lines(written_lines(ls)) =~= ls);
    }
}

proof fn backslash_is_seen(s: Seq<char>)
    ensures
        ends_in_backslash(s) <==> trimmed(s).len() > 0 && trimmed(s).last() == '\\',
{
    let (a, core, d) = parts_of(s);
    trimming_leaves_what_is_between_the_blanks(a, core, d);
    if core.len() > 0 && core.last() == '\\' {
        assert(s =~= (a + core.drop_last()) + seq!['\\'] + d);
        assert(ends_in_backslash(s));
    }
    if ends_in_backslash(s) {
        let (t, e) = choose|t: Seq<char>, e: Seq<char>| s == #[trigger] (t + seq!['\\'] + e)
            && is_blank_run(e);
        let (a2, core2, d2) = parts_of(t + seq!['\\']);
        let k = t.push('\\');
        assert(t + seq!['\\'] =~= k);
        assert(k.last() == '\\');
        if d2.len() > 0 {
            assert((a2 + core2 + d2).last() == d2[d2.len() - 1]);
            assert(false);
        }
        if core2.len() == 0 {
            assert(a2 + core2 + d2 =~= a2);
            assert(a2[a2.len() - 1] == '\\');
            assert(false);
        }
        assert((a2 + core2 + d2).last() == core2.last());
        assert(s =~= a2 + core2 + e);
        trimming_leaves_what_is_between_the_blanks(a2, core2, e);
    }
}

/// The blanks before a text, the text, and the blanks behind it.
pub proof fn parts_of(s: Seq<char>) -> (r: (Seq<char>, Seq<char>, Seq<char>))
    ensures
        s == r.0 + r.1 + r.2,
        is_blank_run(r.0) && is_blank_run(r.2),
        has_no_outer_blank(r.1),
    decreases s.len(),
{
    if s.len() > 0 && (s.first() == ' ' || s.first() == '\t' || s.first() == '\r' || s.first()
        == '\n') {
        let (a, core, d) = parts_of(s.drop_first());
        let longer = seq![s.first()] + a;
        assert(s =~= seq![s.first()] + (a + core + d));
        assert(s =~= longer + core + d);
        (longer, core, d)
    } else if s.len() > 0 && (s.last() == ' ' || s.last() == '\t' || s.last() == '\r' || s.last()
        == '\n') {
        let (a, core, d) = parts_of(s.drop_last());
        let longer = d.push(s.last());
        assert(s =~= (a + core + d).push(s.last()));
        assert(s =~= a + core + longer);
        (a, core, longer)
    } else {
        let none = Seq::<char>::empty();
        assert(s =~= none + s + none);
        (none, s, none)
    }
}

proof fn more_lines_are_read(r: Reading, u: Unfinished, more: Seq<Seq<char>>, max_lines: nat)
    requires
        r.unfinished == Some(u),
        more.len() > 0,
        u.line_count + more.len() <= max_lines,
        forall|i: int|
            0 <= i < more.len() ==> (ends_in_backslash(#[trigger] more[i]) <==> i < more.len() - 1),
    ensures
        after_lines(r, more, max_lines) == settled(r, u.key, u.value + behind_line_feeds(more)),
{
    let all = more.drop_last();
    let last = more.last();
    open_lines_are_read(r, u, all, max_lines);
    assert(more =~= all + seq![last]);
    let mid = after_lines(r, all, max_lines);
    lines_are_read_in_order(r, all, last, Seq::empty(), max_lines);
    assert(all + seq![last] + Seq::empty() =~= more);
    lines_are_read_in_order(
        after_line(mid, last, max_lines),
        Seq::empty(),
        last,
        Seq::empty(),
        max_lines,
    );
    assert(!ends_in_backslash(more[more.len() - 1]));
    backslash_is_seen(last);
    let value = u.value + behind_line_feeds(all);
    assert(value + seq!['\n'] + last =~= u.value + behind_line_feeds(more));
}

proof fn open_lines_are_read(r: Reading, u: Unfinished, more: Seq<Seq<char>>, max_lines: nat)
    requires
        r.unfinished == Some(u),
        u.line_count + more.len() < max_lines || more.len() == 0,
        forall|i: int| 0 <= i < more.len() ==> ends_in_backslash(#[trigger] more[i]),
    ensures
        after_lines(r, more, max_lines) == (Reading {
            doc: r.doc,
            stanza: r.stanza,
            unfinished: Some(
                Unfinished {
                    key: u.key,
                    value: u.value + behind_line_feeds(more),
                    line_count: u.line_count + more.len(),
                },
            ),
        }),
    decreases more.len(),
{
    if more.len() == 0 {
        assert(u.value + behind_line_feeds(more) =~= u.value);
    } else {
        let fewer = more.drop_last();
        assert forall|i: int| 0 <= i < fewer.len() implies ends_in_backslash(
            #[trigger] fewer[i],
        ) by {
            assert(fewer[i] == more[i]);
        }
        open_lines_are_read(r, u, fewer, max_lines);
        assert(ends_in_backslash(more[more.len() - 1]));
        backslash_is_seen(more.last());
        assert(u.value + behind_line_feeds(fewer) + seq!['\n'] + more.last() =~= u.value
            + behind_line_feeds(more));
    }
}

proof fn one_line_is_read(r: Reading, line: Seq<char>, max_lines: nat)
    ensures
        after_lines(r, seq![line], max_lines) == after_line(r, line, max_lines),
{
    assert(seq![line].drop_last() =~= Seq::empty());
    assert(after_lines(r, seq![line].drop_last(), max_lines) == r);
}

proof fn noise_is_skipped(r: Reading, text: Seq<char>, max_lines: nat)
    requires
        r.unfinished is None,
        is_item(Item::Noise { text }, max_lines),
    ensures
        after_line(r, text, max_lines) == r,
{
    let (a, core, d) = parts_of(text);
    trimming_leaves_what_is_between_the_blanks(a, core, d);
    other_lines_change_nothing(r, a, core, d, max_lines);
}

proof fn document_names(items: Seq<Item>)
    ensures
        names_in(items).no_duplicates(),
        names_in(items).contains(stanza_after(items)),
        forall|i: int|
            0 <= i < names_in(items).len() ==> (#[trigger] document_of(items)[i]).name
                == names_in(items)[i],
    decreases items.len(),
{
    if items.len() == 0 {
        assert(names_in(items)[0] == stanza_after(items));
    } else {
        let fewer = items.drop_last();
        document_names(fewer);
        let before = names_in(fewer);
        if let Item::Header { a, name, d } = items.last() {
            if !before.contains(name) {
                let all = before.push(name);
                assert(all[before.len() as int] == name);
                assert forall|i: int, j: int| 0 <= i < all.len() && 0 <= j < all.len() && i
                    != j implies all[i] != all[j] by {
                    if i < before.len() {
                        assert(before.contains(before[i]));
                    }
                    if j < before.len() {
                        assert(before.contains(before[j]));
                    }
                }
            }
        }
    }
}

proof fn new_names_have_no_settings(items: Seq<Item>, name: Seq<char>)
    requires
        !names_in(items).contains(name),
    ensures
        settings_under(items, name).len() == 0,
    decreases items.len(),
{
    if items.len() > 0 {
        let fewer = items.drop_last();
        document_names(fewer);
        if names_in(fewer).contains(name) {
            let i = choose|i: int| 0 <= i < names_in(fewer).len() && names_in(fewer)[i] == name;
            assert(names_in(items)[i] == name);
        }
        new_names_have_no_settings(fewer, name);
    }
}

proof fn items_are_read(items: Seq<Item>, max_lines: nat)
    requires
        forall|i: int| 0 <= i < items.len() ==> is_item(#[trigger] items[i], max_lines),
    ensures
        after_lines(before_first_line(), lines(written(items)), max_lines) == (Reading {
            doc: document_of(items),
            stanza: stanza_after(items),
            unfinished: None,
        }),
        written(items).len() > 0 ==> written(items).last() == '\n',
    decreases items.len(),
{
    let start = before_first_line();
    document_names(items);
    if items.len() == 0 {
        text_without_line_feed_is_one_line(written(items));
        lines_are_read_in_order(start, Seq::empty(), Seq::empty(), Seq::empty(), max_lines);
        assert(document_of(items) =~= start.doc);
    } else {
        let fewer = items.drop_last();
        let last = items.last();
        assert forall|i: int| 0 <= i < fewer.len() implies is_item(
            #[trigger] fewer[i],
            max_lines,
        ) by {
            assert(fewer[i] == items[i]);
        }
        items_are_read(fewer, max_lines);
        document_names(fewer);
        assert(is_item(items[items.len() - 1], max_lines));
        let ls = item_lines(last);
        assert forall|i: int| 0 <= i < ls.len() implies is_one_line(#[trigger] ls[i]) by {
            if let Item::Entry { a, key, b, c, value, d, more } = last {
                if i > 0 {
                    assert(ls[i] == more[i - 1]);
                }
            }
        }
        lines_are_written_whole(ls);
        whole_lines_come_first(written(fewer), written_lines(ls));
        after_lines_concat(start, lines(written(fewer)), ls, max_lines);
        let r = Reading { doc: document_of(fewer), stanza: stanza_after(fewer), unfinished: None };
        let names = names_in(fewer);
        match last {
            Item::Noise { text } => {
                one_line_is_read(r, text, max_lines);
                noise_is_skipped(r, text, max_lines);
                assert(document_of(items) =~= document_of(fewer));
            },
            Item::Header { a, name, d } => {
                let line = a + (seq!['['] + name + seq![']']) + d;
                one_line_is_read(r, line, max_lines);
                header_lines_change_the_stanza(r, a, name, d, max_lines);
                if names.contains(name) {
                    let i = choose|i: int| 0 <= i < names.len() && names[i] == name;
                    assert(r.doc[i].name == name);
                    assert(document_of(items) =~= document_of(fewer));
                } else {
                    assert forall|i: int| 0 <= i < r.doc.len() implies (#[trigger] r.doc[i]).name
                        != name by {
                        assert(names.contains(names[i]));
                    }
                    new_names_have_no_settings(fewer, name);
                    assert(settings_under(items, name) =~= Seq::empty());
                    assert(document_of(items) =~= r.doc.push(
                        Section { name, settings: Seq::empty() },
                    ));
                }
            },
            Item::Entry { a, key, b, c, value, d, more } => {
                let line = spaced_setting(a, key, b, c, value, d);
                let whole = value + behind_line_feeds(more);
                after_lines_concat(r, seq![line], more, max_lines);
                one_line_is_read(r, line, max_lines);
                setting_lines_are_taken(r, a, key, b, c, value, d, max_lines);
                let next = after_line(r, line, max_lines);
                let end = after_lines(next, more, max_lines);
                if more.len() > 0 {
                    let u = Unfinished { key, value, line_count: 1 };
                    more_lines_are_read(next, u, more, max_lines);
                    settled_took_setting(next, key, whole);
                } else {
                    assert(whole =~= value);
                }
                assert(took_setting(r, end, key, whole));
                assert(document_of(items) =~= end.doc) by {
                    assert forall|i: int| 0 <= i < names.len() implies document_of(items)[i]
                        == end.doc[i] by {
                        assert(r.doc[i].name == names[i]);
                        assert(end.doc[i].name == names[i]);
                    }
                }
            },
        }
    }
}

/// A text holds what is written in it: whatever comments, blank lines and blanks stand around them,
/// the stanzas come in the order in which they are opened first, and each has every setting that is
/// written under its name, in order, with values that go on over several lines among them.
pub proof fn texts_hold_what_is_written(items: Seq<Item>, max_lines: nat)
    requires
        forall|i: int| 0 <= i < items.len() ==> is_item(#[trigger] items[i], max_lines),
    ensures
        parsed(written(items), max_lines) == document_of(items),
{
    items_are_read(items, max_lines);
}

} // verus!
