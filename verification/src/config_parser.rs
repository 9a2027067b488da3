//! The `.conf` format: stanzas, `key = value` lines, and values that run over several lines.
use vstd::hash_map::StringHashMap;
use vstd::prelude::*;
use vstd::slice::slice_subrange;
use vstd::string::StringExecFns;

use crate::text::{
    chars_of, find_char, first_index, first_index_is_least, in_class, least_is_first_index, lines,
    lines_start_with_the_first, same_chars, split_lines, string_of, trim, trimmed, trimmed_is_tight,
    trimmed_start, trimming_keeps_tight, trimming_takes_the_last, whole_lines_come_first, without_cr,
    CharClass,
};

verus! {

/// A single configuration key-value pair within a stanza.
#[derive(Debug, Clone)]
pub struct ConfigEntry {
    pub key: String,
    pub value: String,
}

/// A configuration stanza containing multiple entries.
#[derive(Debug, Clone)]
pub struct ConfigStanza {
    pub name: String,
    pub entries: Vec<ConfigEntry>,
}

/// A parsed configuration document containing multiple stanzas.
pub type SplunkConfigDoc = Vec<ConfigStanza>;

// ===== The meaning of the format =====

/// A key and its value.
pub struct Setting {
    pub key: Seq<char>,
    pub value: Seq<char>,
}

/// A stanza: its name and its settings in order.
pub struct Section {
    pub name: Seq<char>,
    pub settings: Seq<Setting>,
}

impl View for ConfigEntry {
    type V = Setting;

    open spec fn view(&self) -> Setting {
        Setting { key: self.key@, value: self.value@ }
    }
}

impl View for ConfigStanza {
    type V = Section;

    open spec fn view(&self) -> Section {
        Section {
            name: self.name@,
            settings: self.entries@.map_values(|e: ConfigEntry| e@),
        }
    }
}

/// A document as its stanzas.
pub open spec fn doc_view(doc: Seq<ConfigStanza>) -> Seq<Section> {
    doc.map_values(|s: ConfigStanza| s@)
}

/// The stanza that every document starts with.
pub open spec fn default_name() -> Seq<char> {
    seq!['d', 'e', 'f', 'a', 'u', 'l', 't']
}

/// Whether a document has a stanza of that name.
pub open spec fn has_stanza(doc: Seq<Section>, name: Seq<char>) -> bool {
    exists|i: int| 0 <= i < doc.len() && (#[trigger] doc[i]).name == name
}

/// A document with an empty stanza of that name at the end, unless it has one already.
pub open spec fn with_stanza(doc: Seq<Section>, name: Seq<char>) -> Seq<Section> {
    if has_stanza(doc, name) {
        doc
    } else {
        doc.push(Section { name, settings: Seq::empty() })
    }
}

/// A document with one more setting at the end of the stanza of that name.
pub open spec fn with_setting(doc: Seq<Section>, name: Seq<char>, set: Setting) -> Seq<Section> {
    doc.map_values(
        |s: Section|
            if s.name == name {
                Section { name, settings: s.settings.push(set) }
            } else {
                s
            },
    )
}

/// A value that goes on in the next line: what has been read of it, and from how many lines.
pub struct Unfinished {
    pub key: Seq<char>,
    pub value: Seq<char>,
    pub line_count: nat,
}

/// Where a reader stands between two lines.
pub struct Reading {
    pub doc: Seq<Section>,
    pub stanza: Seq<char>,
    pub unfinished: Option<Unfinished>,
}

/// Where a reader stands before the first line.
pub open spec fn before_first_line() -> Reading {
    Reading {
        doc: seq![Section { name: default_name(), settings: Seq::empty() }],
        stanza: default_name(),
        unfinished: None,
    }
}

/// Whether text ends in a backslash.
pub open spec fn continues(s: Seq<char>) -> bool {
    s.len() > 0 && s.last() == '\\'
}

/// Whether a trimmed line is empty or a comment.
pub open spec fn is_ignored(line: Seq<char>) -> bool {
    line.len() == 0 || line.first() == '#' || line.first() == ';'
}

/// Whether a trimmed line is a stanza header: brackets around at least one character.
pub open spec fn is_header(line: Seq<char>) -> bool {
    line.len() >= 3 && line.first() == '[' && line.last() == ']'
}

/// What stands between the brackets of a header.
pub open spec fn header_name(line: Seq<char>) -> Seq<char> {
    line.subrange(1, line.len() - 1)
}

/// A reader that has taken a finished setting into the current stanza.
pub open spec fn settled(r: Reading, key: Seq<char>, value: Seq<char>) -> Reading {
    Reading {
        doc: with_setting(r.doc, r.stanza, Setting { key, value }),
        stanza: r.stanza,
        unfinished: None,
    }
}

/// Where a reader stands after one more line, given how many lines a value may have.
///
/// Inside an unfinished value the line is taken as it is, unless the value already has all the
/// lines it may have: then the value ends and the line is dropped. Outside one, the line is
/// trimmed and is a comment, a header, a setting, or nothing.
pub open spec fn after_line(r: Reading, raw: Seq<char>, max_lines: nat) -> Reading {
    match r.unfinished {
        Some(u) => if u.line_count >= max_lines {
            settled(r, u.key, u.value)
        } else {
            let value = u.value + seq!['\n'] + raw;
            if continues(trimmed(raw)) {
                Reading {
                    unfinished: Some(
                        Unfinished { key: u.key, value, line_count: u.line_count + 1 },
                    ),
                    ..r
                }
            } else {
                settled(r, u.key, value)
            }
        },
        None => {
            let line = trimmed(raw);
            let eq = first_index(line, '=') as int;
            if is_ignored(line) {
                r
            } else if is_header(line) {
                let name = header_name(line);
                if trimmed(name) == name {
                    Reading { doc: with_stanza(r.doc, name), stanza: name, ..r }
                } else {
                    r
                }
            } else if 0 < eq < line.len() {
                let key = trimmed(line.take(eq));
                let value = trimmed(line.skip(eq + 1));
                if continues(value) {
                    Reading { unfinished: Some(Unfinished { key, value, line_count: 1 }), ..r }
                } else {
                    settled(r, key, value)
                }
            } else {
                r
            }
        },
    }
}

/// Where a reader stands after some lines.
pub open spec fn after_lines(r: Reading, ls: Seq<Seq<char>>, max_lines: nat) -> Reading
    decreases ls.len(),
{
    if ls.len() == 0 {
        r
    } else {
        after_line(after_lines(r, ls.drop_last(), max_lines), ls.last(), max_lines)
    }
}

/// The document that a reader has: an unfinished value counts as far as it was read.
pub open spec fn finished(r: Reading) -> Seq<Section> {
    match r.unfinished {
        Some(u) => settled(r, u.key, u.value).doc,
        None => r.doc,
    }
}

/// The document that a text holds.
pub open spec fn parsed(content: Seq<char>, max_lines: nat) -> Seq<Section> {
    finished(after_lines(before_first_line(), lines(content), max_lines))
}

// ===== Laws =====

/// The names of a document's stanzas are all different, the first is `default`, and the current
/// stanza is among them.
pub open spec fn reading_wf(r: Reading) -> bool {
    &&& r.doc.len() > 0
    &&& r.doc[0].name == default_name()
    &&& names_differ(r.doc)
    &&& has_stanza(r.doc, r.stanza)
}

/// The names of the stanzas are all different.
pub open spec fn names_differ(doc: Seq<Section>) -> bool {
    forall|i: int, j: int|
        0 <= i < doc.len() && 0 <= j < doc.len() && i != j ==> (#[trigger] doc[i]).name != (
        #[trigger] doc[j]).name
}

proof fn settled_wf(r: Reading, key: Seq<char>, value: Seq<char>)
    requires
        reading_wf(r),
    ensures
        reading_wf(settled(r, key, value)),
{
    let d = settled(r, key, value).doc;
    assert forall|i: int| 0 <= i < d.len() implies (#[trigger] d[i]).name == r.doc[i].name by {}
    let i = choose|i: int| 0 <= i < r.doc.len() && (#[trigger] r.doc[i]).name == r.stanza;
    assert(d[i].name == r.stanza);
}

/// Every line leaves the stanza names different and `default` first.
pub proof fn after_line_wf(r: Reading, raw: Seq<char>, max_lines: nat)
    requires
        reading_wf(r),
    ensures
        reading_wf(after_line(r, raw, max_lines)),
{
    let line = trimmed(raw);
    match r.unfinished {
        Some(u) => {
            settled_wf(r, u.key, u.value);
            settled_wf(r, u.key, u.value + seq!['\n'] + raw);
        },
        None => {
            let name = header_name(line);
            let d = with_stanza(r.doc, name);
            assert(has_stanza(d, name)) by {
                if !has_stanza(r.doc, name) {
                    assert(d[d.len() - 1].name == name);
                }
            }
            let eq = first_index(line, '=') as int;
            settled_wf(r, trimmed(line.take(eq)), trimmed(line.skip(eq + 1)));
        },
    }
}

proof fn after_lines_wf(r: Reading, ls: Seq<Seq<char>>, max_lines: nat)
    requires
        reading_wf(r),
    ensures
        reading_wf(after_lines(r, ls, max_lines)),
    decreases ls.len(),
{
    if ls.len() > 0 {
        after_lines_wf(r, ls.drop_last(), max_lines);
        after_line_wf(after_lines(r, ls.drop_last(), max_lines), ls.last(), max_lines);
    }
}

proof fn before_first_line_wf()
    ensures
        reading_wf(before_first_line()),
{
    let r = before_first_line();
    assert(r.doc[0].name == default_name());
}

/// A parsed document starts with the stanza `default`, and no two of its stanzas have one name.
pub proof fn parsed_stanzas_are_distinct(content: Seq<char>, max_lines: nat)
    ensures
        parsed(content, max_lines).len() > 0,
        parsed(content, max_lines)[0].name == default_name(),
        names_differ(parsed(content, max_lines)),
{
    before_first_line_wf();
    let r = after_lines(before_first_line(), lines(content), max_lines);
    after_lines_wf(before_first_line(), lines(content), max_lines);
    match r.unfinished {
        Some(u) => settled_wf(r, u.key, u.value),
        None => {},
    }
}

/// A reader that goes on after some lines is one that reads all of them.
pub proof fn after_lines_concat(r: Reading, a: Seq<Seq<char>>, b: Seq<Seq<char>>, max_lines: nat)
    ensures
        after_lines(r, a + b, max_lines) == after_lines(
            after_lines(r, a, max_lines),
            b,
            max_lines,
        ),
    decreases b.len(),
{
    if b.len() == 0 {
        assert(a + b =~= a);
    } else {
        assert((a + b).drop_last() =~= a + b.drop_last());
        assert((a + b).last() == b.last());
        after_lines_concat(r, a, b.drop_last(), max_lines);
    }
}

/// An empty line or a comment that does not stand inside a multiline value changes nothing: the
/// document is the same without it.
pub proof fn ignored_lines_change_nothing(
    before: Seq<Seq<char>>,
    line: Seq<char>,
    after: Seq<Seq<char>>,
    max_lines: nat,
)
    requires
        after_lines(before_first_line(), before, max_lines).unfinished is None,
        is_ignored(trimmed(line)),
    ensures
        finished(after_lines(before_first_line(), before + seq![line] + after, max_lines))
            == finished(after_lines(before_first_line(), before + after, max_lines)),
{
    let r = before_first_line();
    let one = seq![line];
    after_lines_concat(r, before, one, max_lines);
    after_lines_concat(r, before + one, after, max_lines);
    after_lines_concat(r, before, after, max_lines);
    assert(one.drop_last() =~= Seq::empty());
    let mid = after_lines(r, before, max_lines);
    assert(after_lines(mid, one.drop_last(), max_lines) == mid);
    assert(after_lines(mid, one, max_lines) == after_line(mid, line, max_lines));
    assert(after_line(mid, line, max_lines) == mid);
}

/// Whether `s` can be a key: it is trimmed, has no equals sign, and does not start as a comment
/// or a header does.
pub open spec fn is_plain_key(s: Seq<char>) -> bool {
    &&& s.len() > 0
    &&& trimmed(s) == s
    &&& first_index(s, '=') == s.len()
    &&& s.first() != '#' && s.first() != ';' && s.first() != '['
}

/// A line `key = value` adds that setting to the current stanza, or begins a value that goes on.
pub proof fn plain_line_adds_its_setting(r: Reading, key: Seq<char>, value: Seq<char>, max_lines: nat)
    requires
        r.unfinished is None,
        is_plain_key(key),
        trimmed(value) == value,
    ensures
        after_line(r, key + seq![' ', '=', ' '] + value, max_lines) == (if continues(value) {
            Reading { unfinished: Some(Unfinished { key, value, line_count: 1 }), ..r }
        } else {
            settled(r, key, value)
        }),
{
    plain_line_shape(key, value);
}

proof fn plain_line_shape(key: Seq<char>, value: Seq<char>)
    requires
        is_plain_key(key),
        trimmed(value) == value,
    ensures
        ({
            let line = trimmed(key + seq![' ', '=', ' '] + value);
            let eq = key.len() as int + 1;
            &&& line.len() > eq
            &&& line.first() == key.first()
            &&& first_index(line, '=') == eq
            &&& trimmed(line.take(eq)) == key
            &&& trimmed(line.skip(eq + 1)) == value
        }),
{
    let class = CharClass::Blank;
    let raw = key + seq![' ', '=', ' '] + value;
    let line = trimmed(raw);
    let eq = key.len() as int + 1;
    assert(!in_class(key.first(), class) && !in_class(key.last(), class)) by {
        trimmed_is_tight(key, class);
    }
    trimming_drops_outer_space(key, value);
    assert(raw.first() == key.first());
    if value.len() > 0 {
        assert(!in_class(value.first(), class) && !in_class(value.last(), class)) by {
            trimmed_is_tight(value, class);
        }
        assert(raw.last() == value.last());
        trimming_keeps_tight(raw, class);
        assert(line.skip(eq + 1) =~= seq![' '] + value);
    } else {
        let short = key + seq![' ', '='];
        assert(raw.drop_last() =~= short);
        trimming_takes_the_last(raw, class);
        trimming_keeps_tight(short, class);
        assert(line.skip(eq + 1) =~= value);
    }
    assert(line.take(eq) =~= key.push(' '));
    assert(first_index(line, '=') == eq) by {
        first_index_is_least(key, '=');
        assert forall|j: int| 0 <= j < eq implies line[j] != '=' by {
            assert(line[j] == line.take(eq)[j]);
        }
        assert(line[eq] == '=');
        least_is_first_index(line, '=', eq as nat);
    }
}

proof fn trimming_drops_outer_space(key: Seq<char>, value: Seq<char>)
    requires
        key.len() > 0,
        !in_class(key.first(), CharClass::Blank),
        !in_class(key.last(), CharClass::Blank),
        trimmed(value) == value,
    ensures
        trimmed(key.push(' ')) == key,
        trimmed(seq![' '] + value) == value,
{
    let class = CharClass::Blank;
    let left = key.push(' ');
    let right = seq![' '] + value;
    assert(left.drop_last() =~= key);
    trimming_takes_the_last(left, class);
    trimming_keeps_tight(key, class);
    assert(right.drop_first() =~= value);
    assert(trimmed_start(right, class) == trimmed_start(value, class));
}

/// A line `key = value` whose value ends in a backslash, followed by a line that does not, makes
/// one setting: its value keeps the backslash, a line feed, and the second line as it is.
pub proof fn continued_value_keeps_its_lines(
    r: Reading,
    first: Seq<char>,
    key: Seq<char>,
    value: Seq<char>,
    second: Seq<char>,
    max_lines: nat,
)
    requires
        max_lines >= 2,
        after_line(r, first, max_lines) == (Reading {
            unfinished: Some(Unfinished { key, value, line_count: 1 }),
            ..r
        }),
        !continues(trimmed(second)),
    ensures
        after_lines(r, seq![first, second], max_lines) == settled(
            r,
            key,
            value + seq!['\n'] + second,
        ),
{
    let two = seq![first, second];
    assert(two.drop_last() =~= seq![first]);
    assert(seq![first].drop_last() =~= Seq::empty());
    let mid = after_lines(r, seq![first], max_lines);
    assert(mid == after_line(after_lines(r, seq![first].drop_last(), max_lines), first, max_lines));
}

// ===== Writing documents =====

/// A setting as it is written.
pub open spec fn setting_text(set: Setting) -> Seq<char> {
    set.key + seq![' ', '=', ' '] + set.value + seq!['\n']
}

/// Settings as they are written, one after the other.
pub open spec fn settings_text(settings: Seq<Setting>) -> Seq<char>
    decreases settings.len(),
{
    if settings.len() == 0 {
        Seq::empty()
    } else {
        settings_text(settings.drop_last()) + setting_text(settings.last())
    }
}

/// A stanza as it is written: its header, and its settings.
pub open spec fn section_text(section: Section) -> Seq<char> {
    seq!['['] + section.name + seq![']', '\n'] + settings_text(section.settings)
}

/// A document as it is written, one stanza after the other.
pub open spec fn document_text(doc: Seq<Section>) -> Seq<char>
    decreases doc.len(),
{
    if doc.len() == 0 {
        Seq::empty()
    } else {
        document_text(doc.drop_last()) + section_text(doc.last())
    }
}

/// Whether a value that has so many lines can go on with that text: every line but the last ends
/// in a backslash, none ends in a carriage return, and the value gets no more lines than it may
/// have.
pub open spec fn goes_on_with(text: Seq<char>, line_count: nat, max_lines: nat) -> bool
    decreases text.len(),
{
    let n = first_index(text, '\n') as int;
    let line = text.take(n);
    &&& line_count < max_lines
    &&& without_cr(line) == line
    &&& if n < text.len() {
        continues(trimmed(line)) && goes_on_with(text.skip(n + 1), line_count + 1, max_lines)
    } else {
        !continues(trimmed(line))
    }
}

/// Whether a value can be written: its first line is trimmed, and it goes on where that line ends
/// in a backslash.
pub open spec fn is_writable_value(value: Seq<char>, max_lines: nat) -> bool {
    let n = first_index(value, '\n') as int;
    let line = value.take(n);
    &&& trimmed(line) == line
    &&& if n < value.len() {
        continues(line) && goes_on_with(value.skip(n + 1), 1, max_lines)
    } else {
        !continues(line)
    }
}

/// Whether a setting can be written.
pub open spec fn is_writable_setting(set: Setting, max_lines: nat) -> bool {
    is_plain_key(set.key) && !set.key.contains('\n') && is_writable_value(set.value, max_lines)
}

/// Whether a stanza can be written: its name is one trimmed line, and so are its keys.
pub open spec fn is_writable_section(section: Section, max_lines: nat) -> bool {
    &&& section.name.len() > 0
    &&& trimmed(section.name) == section.name
    &&& !section.name.contains('\n')
    &&& forall|i: int|
        0 <= i < section.settings.len() ==> is_writable_setting(
            #[trigger] section.settings[i],
            max_lines,
        )
}

proof fn after_one_line(r: Reading, line: Seq<char>, max_lines: nat)
    ensures
        after_lines(r, seq![line], max_lines) == after_line(r, line, max_lines),
{
    assert(seq![line].drop_last() =~= Seq::empty());
    assert(after_lines(r, seq![line].drop_last(), max_lines) == r);
}

proof fn first_line_is_read(r: Reading, line: Seq<char>, rest: Seq<char>, max_lines: nat)
    requires
        !line.contains('\n'),
        without_cr(line) == line,
    ensures
        after_lines(r, lines(line + seq!['\n'] + rest), max_lines) == after_lines(
            after_line(r, line, max_lines),
            lines(rest),
            max_lines,
        ),
{
    lines_start_with_the_first(line, rest);
    after_lines_concat(r, seq![line], lines(rest), max_lines);
    after_one_line(r, line, max_lines);
}

proof fn first_line_has_no_feed(text: Seq<char>)
    ensures
        !text.take(first_index(text, '\n') as int).contains('\n'),
{
    first_index_is_least(text, '\n');
}

proof fn rest_of_value_is_read(r: Reading, u: Unfinished, text: Seq<char>, max_lines: nat)
    requires
        r.unfinished == Some(u),
        goes_on_with(text, u.line_count, max_lines),
    ensures
        after_lines(r, lines(text + seq!['\n']), max_lines) == settled(
            r,
            u.key,
            u.value + seq!['\n'] + text,
        ),
    decreases text.len(),
{
    let feed = seq!['\n'];
    first_index_is_least(text, '\n');
    first_line_has_no_feed(text);
    let n = first_index(text, '\n') as int;
    let line = text.take(n);
    if n < text.len() {
        let rest = text.skip(n + 1);
        assert(text + feed =~= line + feed + (rest + feed));
        first_line_is_read(r, line, rest + feed, max_lines);
        let longer = Unfinished {
            key: u.key,
            value: u.value + feed + line,
            line_count: u.line_count + 1,
        };
        let next = after_line(r, line, max_lines);
        assert(next == (Reading { unfinished: Some(longer), ..r }));
        rest_of_value_is_read(next, longer, rest, max_lines);
        assert(longer.value + feed + rest =~= u.value + feed + text);
    } else {
        assert(line =~= text);
        assert(text + feed =~= line + feed + Seq::<char>::empty());
        first_line_is_read(r, line, Seq::empty(), max_lines);
    }
}

proof fn setting_is_read(r: Reading, set: Setting, max_lines: nat)
    requires
        r.unfinished is None,
        is_writable_setting(set, max_lines),
    ensures
        after_lines(r, lines(setting_text(set)), max_lines) == settled(r, set.key, set.value),
{
    let feed = seq!['\n'];
    let middle = seq![' ', '=', ' '];
    let value = set.value;
    first_index_is_least(value, '\n');
    first_line_has_no_feed(value);
    let n = first_index(value, '\n') as int;
    let head = value.take(n);
    let line = set.key + middle + head;
    assert(!line.contains('\n')) by {
        assert forall|i: int| 0 <= i < line.len() implies line[i] != '\n' by {
            if i < set.key.len() {
                assert(line[i] == set.key[i]);
                assert(set.key.contains(set.key[i]));
            } else if i >= set.key.len() + 3 {
                assert(line[i] == head[i - set.key.len() - 3]);
                assert(head.contains(head[i - set.key.len() - 3]));
            }
        }
    }
    assert(without_cr(line) == line) by {
        trimmed_is_tight(head, CharClass::Blank);
        if head.len() > 0 {
            assert(line.last() == head.last());
        } else {
            assert(line.last() == ' ');
        }
    }
    plain_line_adds_its_setting(r, set.key, head, max_lines);
    if n < value.len() {
        let rest = value.skip(n + 1);
        assert(setting_text(set) =~= line + feed + (rest + feed));
        first_line_is_read(r, line, rest + feed, max_lines);
        let u = Unfinished { key: set.key, value: head, line_count: 1 };
        let next = after_line(r, line, max_lines);
        rest_of_value_is_read(next, u, rest, max_lines);
        assert(head + feed + rest =~= value);
    } else {
        assert(head =~= value);
        assert(setting_text(set) =~= line + feed + Seq::<char>::empty());
        first_line_is_read(r, line, Seq::empty(), max_lines);
    }
}

proof fn settings_are_whole_lines(settings: Seq<Setting>)
    ensures
        settings_text(settings).len() > 0 ==> settings_text(settings).last() == '\n',
{
    if settings.len() > 0 {
        assert(settings_text(settings).last() == setting_text(settings.last()).last());
    }
}

proof fn settings_are_read(
    r: Reading,
    before: Seq<Section>,
    name: Seq<char>,
    settings: Seq<Setting>,
    max_lines: nat,
)
    requires
        r == (Reading {
            doc: before.push(Section { name, settings: Seq::empty() }),
            stanza: name,
            unfinished: None,
        }),
        !has_stanza(before, name),
        forall|i: int|
            0 <= i < settings.len() ==> is_writable_setting(#[trigger] settings[i], max_lines),
    ensures
        after_lines(r, lines(settings_text(settings)), max_lines) == (Reading {
            doc: before.push(Section { name, settings }),
            ..r
        }),
    decreases settings.len(),
{
    if settings.len() == 0 {
        assert(settings =~= Seq::empty());
    } else {
        let fewer = settings.drop_last();
        let last = settings.last();
        settings_are_read(r, before, name, fewer, max_lines);
        settings_are_whole_lines(fewer);
        whole_lines_come_first(settings_text(fewer), setting_text(last));
        after_lines_concat(
            r,
            lines(settings_text(fewer)),
            lines(setting_text(last)),
            max_lines,
        );
        let mid = Reading { doc: before.push(Section { name, settings: fewer }), ..r };
        setting_is_read(mid, last, max_lines);
        assert(fewer.push(last) =~= settings);
        let after = with_setting(mid.doc, name, last);
        assert(last == (Setting { key: last.key, value: last.value }));
        assert(after =~= before.push(Section { name, settings })) by {
            assert forall|i: int| 0 <= i < before.len() implies after[i] == before[i] by {
                assert(before[i].name != name);
            }
        }
    }
}

proof fn section_is_read(r: Reading, before: Seq<Section>, section: Section, max_lines: nat)
    requires
        r.unfinished is None,
        !has_stanza(before, section.name),
        with_stanza(r.doc, section.name) == before.push(
            Section { name: section.name, settings: Seq::empty() },
        ),
        is_writable_section(section, max_lines),
    ensures
        after_lines(r, lines(section_text(section)), max_lines) == (Reading {
            doc: before.push(section),
            stanza: section.name,
            unfinished: None,
        }),
{
    let name = section.name;
    let header = seq!['['] + name + seq![']'];
    let rest = settings_text(section.settings);
    assert(section_text(section) =~= header + seq!['\n'] + rest);
    assert(!header.contains('\n')) by {
        assert forall|i: int| 0 <= i < header.len() implies header[i] != '\n' by {
            if 0 < i < name.len() + 1 {
                assert(header[i] == name[i - 1]);
                assert(name.contains(name[i - 1]));
            }
        }
    }
    assert(header.first() == '[' && header.last() == ']');
    first_line_is_read(r, header, rest, max_lines);
    trimming_keeps_tight(header, CharClass::Blank);
    assert(header_name(header) =~= name);
    let next = after_line(r, header, max_lines);
    settings_are_read(next, before, name, section.settings, max_lines);
}

proof fn document_is_whole_lines(doc: Seq<Section>)
    ensures
        document_text(doc).len() > 0 ==> document_text(doc).last() == '\n',
{
    if doc.len() > 0 {
        let last = section_text(doc.last());
        settings_are_whole_lines(doc.last().settings);
        assert(last.last() == '\n') by {
            if doc.last().settings.len() == 0 {
                assert(last == seq!['['] + doc.last().name + seq![']', '\n'] + Seq::empty());
            } else {
                assert(settings_text(doc.last().settings).len() > 0);
            }
        }
        assert(document_text(doc).last() == last.last());
    }
}

proof fn document_is_read(doc: Seq<Section>, max_lines: nat)
    requires
        doc.len() > 0,
        doc[0].name == default_name(),
        names_differ(doc),
        forall|i: int| 0 <= i < doc.len() ==> is_writable_section(#[trigger] doc[i], max_lines),
    ensures
        after_lines(before_first_line(), lines(document_text(doc)), max_lines) == (Reading {
            doc,
            stanza: doc.last().name,
            unfinished: None,
        }),
    decreases doc.len(),
{
    let start = before_first_line();
    let fewer = doc.drop_last();
    let last = doc.last();
    document_is_whole_lines(fewer);
    whole_lines_come_first(document_text(fewer), section_text(last));
    after_lines_concat(
        start,
        lines(document_text(fewer)),
        lines(section_text(last)),
        max_lines,
    );
    assert(fewer.push(last) =~= doc);
    assert(!has_stanza(fewer, last.name)) by {
        assert forall|i: int| 0 <= i < fewer.len() implies (#[trigger] fewer[i]).name
            != last.name by {
            assert(fewer[i] == doc[i]);
            assert(doc[doc.len() - 1].name == last.name);
        }
    }
    let empty = Section { name: last.name, settings: Seq::empty() };
    if fewer.len() == 0 {
        assert(doc[0] == last);
        assert(start.doc[0].name == last.name);
        assert(fewer.push(empty) =~= start.doc);
        section_is_read(start, fewer, last, max_lines);
    } else {
        assert forall|i: int| 0 <= i < fewer.len() implies is_writable_section(
            #[trigger] fewer[i],
            max_lines,
        ) by {
            assert(fewer[i] == doc[i]);
        }
        assert forall|i: int, j: int|
            0 <= i < fewer.len() && 0 <= j < fewer.len() && i != j implies (#[trigger] fewer[i]).name
            != (#[trigger] fewer[j]).name by {
            assert(fewer[i] == doc[i] && fewer[j] == doc[j]);
        }
        document_is_read(fewer, max_lines);
        let mid = after_lines(start, lines(document_text(fewer)), max_lines);
        section_is_read(mid, fewer, last, max_lines);
    }
}

/// A document that is written and read is the same document: every stanza in its place, with its
/// settings in order and their values as they were, those of several lines among them.
pub proof fn written_documents_are_read(doc: Seq<Section>, max_lines: nat)
    requires
        doc.len() > 0,
        doc[0].name == default_name(),
        names_differ(doc),
        forall|i: int| 0 <= i < doc.len() ==> is_writable_section(#[trigger] doc[i], max_lines),
    ensures
        parsed(document_text(doc), max_lines) == doc,
{
    document_is_read(doc, max_lines);
}

// ===== How long values are =====

/// The number of line feeds in a text.
pub open spec fn line_feeds(s: Seq<char>) -> nat
    decreases s.len(),
{
    if s.len() == 0 {
        0
    } else {
        line_feeds(s.drop_last()) + if s.last() == '\n' { 1nat } else { 0nat }
    }
}

proof fn line_feeds_add(a: Seq<char>, b: Seq<char>)
    ensures
        line_feeds(a + b) == line_feeds(a) + line_feeds(b),
    decreases b.len(),
{
    if b.len() == 0 {
        assert(a + b =~= a);
    } else {
        assert((a + b).drop_last() =~= a + b.drop_last());
        line_feeds_add(a, b.drop_last());
    }
}

proof fn no_line_feeds(s: Seq<char>)
    requires
        !s.contains('\n'),
    ensures
        line_feeds(s) == 0,
    decreases s.len(),
{
    if s.len() > 0 {
        assert(s.contains(s.last()));
        assert forall|c: char| s.drop_last().contains(c) implies s.contains(c) by {
            let i = choose|i: int| 0 <= i < s.drop_last().len() && s.drop_last()[i] == c;
            assert(s[i] == c);
        }
        no_line_feeds(s.drop_last());
    }
}

proof fn part_has_no_line_feed(s: Seq<char>, a: int, b: int)
    requires
        !s.contains('\n'),
        0 <= a <= b <= s.len(),
    ensures
        !s.subrange(a, b).contains('\n'),
{
    let t = s.subrange(a, b);
    if t.contains('\n') {
        let i = choose|i: int| 0 <= i < t.len() && t[i] == '\n';
        assert(s[a + i] == '\n');
    }
}

proof fn trimmed_has_no_line_feed(s: Seq<char>)
    requires
        !s.contains('\n'),
    ensures
        !trimmed(s).contains('\n'),
{
    trimmed_is_tight(s, CharClass::Blank);
    let t = trimmed(s);
    let a = choose|a: int|
        0 <= a && a + t.len() <= s.len() && t == #[trigger] s.subrange(a, a + t.len());
    part_has_no_line_feed(s, a, a + t.len());
}

proof fn lines_have_no_line_feed(s: Seq<char>)
    ensures
        forall|i: int| 0 <= i < lines(s).len() ==> !(#[trigger] lines(s)[i]).contains('\n'),
    decreases s.len(),
{
    if s.len() > 0 {
        first_index_is_least(s, '\n');
        let n = first_index(s, '\n') as int;
        let head = s.take(n);
        assert(!head.contains('\n')) by {
            if head.contains('\n') {
                let j = choose|j: int| 0 <= j < head.len() && head[j] == '\n';
                assert(s[j] == '\n');
            }
        }
        if n >= s.len() {
            assert(head =~= s);
        } else {
            let cut = without_cr(head);
            assert(cut =~= head.subrange(0, cut.len() as int));
            part_has_no_line_feed(head, 0, cut.len() as int);
            let rest = s.skip(n + 1);
            lines_have_no_line_feed(rest);
            assert forall|i: int| 0 <= i < lines(s).len() implies !(#[trigger] lines(s)[i]).contains(
                '\n',
            ) by {
                if i > 0 {
                    assert(lines(s)[i] == lines(rest)[i - 1]);
                }
            }
        }
    }
}

/// Every value of the document has at most `max_lines` lines.
pub open spec fn values_within(doc: Seq<Section>, max_lines: nat) -> bool {
    forall|i: int, j: int|
        0 <= i < doc.len() && 0 <= j < doc[i].settings.len() ==> line_feeds(
            (#[trigger] doc[i].settings[j]).value,
        ) < max_lines
}

spec fn reading_within(r: Reading, max_lines: nat) -> bool {
    &&& values_within(r.doc, max_lines)
    &&& r.unfinished matches Some(u) ==> 1 <= u.line_count <= max_lines && line_feeds(u.value)
        == u.line_count - 1
}

proof fn settled_within(r: Reading, key: Seq<char>, value: Seq<char>, max_lines: nat)
    requires
        values_within(r.doc, max_lines),
        line_feeds(value) < max_lines,
    ensures
        reading_within(settled(r, key, value), max_lines),
{
    let d = settled(r, key, value).doc;
    assert forall|i: int, j: int| 0 <= i < d.len() && 0 <= j < d[i].settings.len() implies line_feeds(
        (#[trigger] d[i].settings[j]).value,
    ) < max_lines by {
        let old_settings = r.doc[i].settings;
        if j < old_settings.len() {
            assert(d[i].settings[j] == old_settings[j]);
        }
    }
}

proof fn after_lines_within(ls: Seq<Seq<char>>, max_lines: nat)
    requires
        max_lines >= 1,
        forall|i: int| 0 <= i < ls.len() ==> !(#[trigger] ls[i]).contains('\n'),
    ensures
        reading_within(after_lines(before_first_line(), ls, max_lines), max_lines),
    decreases ls.len(),
{
    if ls.len() > 0 {
        assert forall|i: int| 0 <= i < ls.drop_last().len() implies !(#[trigger] ls.drop_last()[i]).contains('\n') by {
            assert(ls.drop_last()[i] == ls[i]);
        }
        after_lines_within(ls.drop_last(), max_lines);
        let r = after_lines(before_first_line(), ls.drop_last(), max_lines);
        let raw = ls.last();
        assert(ls[ls.len() - 1] == raw);
        match r.unfinished {
            Some(u) => {
                settled_within(r, u.key, u.value, max_lines);
                let value = u.value + seq!['\n'] + raw;
                no_line_feeds(raw);
                line_feeds_add(u.value, seq!['\n']);
                line_feeds_add(u.value + seq!['\n'], raw);
                assert(seq!['\n'].drop_last() =~= Seq::empty());
                assert(line_feeds(seq!['\n'].drop_last()) == 0);
                assert(line_feeds(seq!['\n']) == 1);
                if u.line_count < max_lines {
                    settled_within(r, u.key, value, max_lines);
                }
            },
            None => {
                let line = trimmed(raw);
                trimmed_has_no_line_feed(raw);
                first_index_is_least(line, '=');
                let eq = first_index(line, '=') as int;
                if 0 < eq < line.len() {
                    let right = line.skip(eq + 1);
                    assert(right =~= line.subrange(eq + 1, line.len() as int));
                    part_has_no_line_feed(line, eq + 1, line.len() as int);
                    trimmed_has_no_line_feed(right);
                    no_line_feeds(trimmed(right));
                    settled_within(r, trimmed(line.take(eq)), trimmed(right), max_lines);
                }
                let d = with_stanza(r.doc, header_name(line));
                assert(values_within(d, max_lines)) by {
                    assert forall|i: int, j: int|
                        0 <= i < d.len() && 0 <= j < d[i].settings.len() implies line_feeds(
                        (#[trigger] d[i].settings[j]).value,
                    ) < max_lines by {
                        if i < r.doc.len() {
                            assert(d[i] == r.doc[i]);
                        }
                    }
                }
            },
        }
    }
}

/// No value of a parsed document has more lines than a value may have.
pub proof fn parsed_values_are_within(content: Seq<char>, max_lines: nat)
    requires
        max_lines >= 1,
    ensures
        values_within(parsed(content, max_lines), max_lines),
{
    lines_have_no_line_feed(content);
    after_lines_within(lines(content), max_lines);
    let r = after_lines(before_first_line(), lines(content), max_lines);
    match r.unfinished {
        Some(u) => settled_within(r, u.key, u.value, max_lines),
        None => {},
    }
}

// ===== The parser =====

/// The literal `default`.
fn default_string() -> (r: String)
    ensures
        r@ == default_name(),
{
    proof {
        reveal_strlit("default");
    }
    let r = "default".to_string();
    assert(r@ =~= default_name());
    r
}

/// The index knows the place of every stanza of the document, and no other name.
spec fn indexed(index: Map<Seq<char>, usize>, doc: Seq<Section>) -> bool {
    &&& forall|i: int|
        0 <= i < doc.len() ==> index.contains_key((#[trigger] doc[i]).name)
            && index[doc[i].name] == i
    &&& forall|n: Seq<char>| #[trigger]
        index.contains_key(n) ==> index[n] < doc.len() && doc[index[n] as int].name == n
}

/// Makes sure that the document has a stanza of that name.
fn ensure_stanza(doc: &mut Vec<ConfigStanza>, index: &mut StringHashMap<usize>, name: &str)
    requires
        indexed(old(index)@, doc_view(old(doc)@)),
    ensures
        indexed(final(index)@, doc_view(final(doc)@)),
        doc_view(final(doc)@) == with_stanza(doc_view(old(doc)@), name@),
{
    let ghost before = doc_view(doc@);
    if index.contains_key(name) {
        assert(has_stanza(before, name@)) by {
            assert(before[index@[name@] as int].name == name@);
        }
        return;
    }
    assert(!has_stanza(before, name@));
    let place = doc.len();
    doc.push(ConfigStanza { name: name.to_string(), entries: Vec::new() });
    index.insert(name.to_string(), place);
    proof {
        let after = doc_view(doc@);
        assert(after[place as int].settings =~= Seq::empty());
        assert(after =~= with_stanza(before, name@));
        assert forall|i: int| 0 <= i < after.len() implies index@.contains_key(
            (#[trigger] after[i]).name,
        ) && index@[after[i].name] == i by {
            if i < place {
                assert(after[i] == before[i]);
            }
        }
        assert forall|n: Seq<char>| #[trigger] index@.contains_key(n) implies index@[n]
            < after.len() && after[index@[n] as int].name == n by {
            if n != name@ {
                assert(old(index)@.contains_key(n));
                assert(after[index@[n] as int] == before[index@[n] as int]);
            }
        }
    }
}

/// Adds a finished setting to the stanza of that name.
fn add_entry(
    doc: &mut Vec<ConfigStanza>,
    index: &StringHashMap<usize>,
    stanza: &str,
    key: String,
    value: String,
)
    requires
        indexed(index@, doc_view(old(doc)@)),
        has_stanza(doc_view(old(doc)@), stanza@),
    ensures
        indexed(index@, doc_view(final(doc)@)),
        doc_view(final(doc)@) == with_setting(
            doc_view(old(doc)@),
            stanza@,
            (Setting { key: key@, value: value@ }),
        ),
{
    let ghost before = doc_view(doc@);
    let ghost set = Setting { key: key@, value: value@ };
    match index.get(stanza) {
        None => {
            assert(false) by {
                let i = choose|i: int| 0 <= i < before.len() && (#[trigger] before[i]).name == stanza@;
                assert(index@.contains_key(before[i].name));
            }
        },
        Some(place) => {
            let at: usize = *place;
            let ghost old_doc = doc@;
            doc[at].entries.push(ConfigEntry { key, value });
            proof {
                let after = doc_view(doc@);
                let want = with_setting(before, stanza@, set);
                assert(before[at as int].name == stanza@);
                assert(doc@[at as int].name == old_doc[at as int].name);
                assert(after[at as int].settings =~= before[at as int].settings.push(set));
                assert forall|i: int| 0 <= i < after.len() implies after[i] == want[i] by {
                    if i != at {
                        assert(doc@[i] == old_doc[i]);
                        assert(index@[before[i].name] == i);
                        assert(before[i].name != stanza@);
                    }
                }
                assert(after =~= want);
                assert forall|i: int| 0 <= i < after.len() implies (#[trigger] after[i]).name
                    == before[i].name by {}
            }
        },
    }
}

/// Parse Splunk configuration file content into a structured document.
///
/// Supports:
/// - Stanza headers: `[stanza_name]`
/// - Key-value pairs: `key = value`
/// - Multiline values: continued with backslash (`\`)
/// - Comments: lines starting with `#` or `;`
/// - Whitespace trimming
///
/// A value has at most `max_lines` lines, and always at least one.
pub fn parse_document(content: &str, max_lines: usize) -> (doc: SplunkConfigDoc)
    ensures
        doc_view(doc@) == parsed(content@, if max_lines == 0 { 1 } else { max_lines as nat }),
{
    let max: usize = if max_lines == 0 { 1 } else { max_lines };
    let mut doc: Vec<ConfigStanza> = Vec::new();
    let mut index: StringHashMap<usize> = StringHashMap::new();
    doc.push(ConfigStanza { name: default_string(), entries: Vec::new() });
    index.insert(default_string(), 0);
    let mut current_stanza = default_string();
    let mut current_key = String::new();
    let mut raw_value = String::new();
    let mut in_multiline = false;
    let mut multiline_lines: usize = 0;

    let chars = chars_of(content);
    let all = split_lines(&chars);
    let ghost ls = lines(content@);
    let ghost mut r = before_first_line();
    proof {
        before_first_line_wf();
        assert(doc_view(doc@)[0].settings =~= Seq::empty());
        assert(doc_view(doc@) =~= r.doc);
        assert(ls.take(0) =~= Seq::empty());
    }
    let mut i: usize = 0;
    while i < all.len()
        invariant
            max >= 1,
            i <= all@.len(),
            all@.len() == ls.len(),
            forall|k: int| 0 <= k < all@.len() ==> (#[trigger] all@[k])@ == ls[k],
            r == after_lines(before_first_line(), ls.take(i as int), max as nat),
            reading_wf(r),
            doc_view(doc@) == r.doc,
            indexed(index@, r.doc),
            current_stanza@ == r.stanza,
            in_multiline == r.unfinished is Some,
            r.unfinished matches Some(u) ==> current_key@ == u.key && raw_value@ == u.value
                && multiline_lines == u.line_count && u.line_count <= max,
        decreases all@.len() - i,
    {
        let raw_line: &[char] = all[i];
        let processed = trim(raw_line);
        let ghost next = after_line(r, raw_line@, max as nat);
        proof {
            assert(ls.take(i + 1).drop_last() == ls.take(i as int));
            assert(ls.take(i + 1).last() == raw_line@);
            after_line_wf(r, raw_line@, max as nat);
        }
        i += 1;
        if in_multiline {
            if multiline_lines < max {
                multiline_lines += 1;
                raw_value.push('\n');
                raw_value.append(string_of(raw_line).as_str());
                assert(raw_value@ =~= r.unfinished->0.value + seq!['\n'] + raw_line@);
                if processed.len() > 0 && processed[processed.len() - 1] == '\\' {
                    proof {
                        r = next;
                    }
                    continue ;
                }
            }
            add_entry(&mut doc, &index, current_stanza.as_str(), current_key, raw_value);
            current_key = String::new();
            raw_value = String::new();
            in_multiline = false;
            multiline_lines = 0;
            proof {
                r = next;
            }
            continue ;
        }
        if processed.len() == 0 || processed[0] == '#' || processed[0] == ';' {
            continue ;
        }
        if processed.len() >= 3 && processed[0] == '[' && processed[processed.len() - 1] == ']' {
            let inner = slice_subrange(processed, 1, processed.len() - 1);
            if same_chars(trim(inner), inner) {
                current_stanza = string_of(inner);
                ensure_stanza(&mut doc, &mut index, current_stanza.as_str());
                proof {
                    r = next;
                }
            }
            continue ;
        }
        match find_char(processed, '=') {
            Some(eq_pos) => {
                if eq_pos > 0 {
                    let before_eq = slice_subrange(processed, 0, eq_pos);
                    let after_eq = slice_subrange(processed, eq_pos + 1, processed.len());
                    let key_v = trim(before_eq);
                    let value_v = trim(after_eq);
                    proof {
                        assert(before_eq@ =~= processed@.take(eq_pos as int));
                        assert(after_eq@ =~= processed@.skip(eq_pos + 1));
                    }
                    if value_v.len() > 0 && value_v[value_v.len() - 1] == '\\' {
                        current_key = string_of(key_v);
                        raw_value = string_of(value_v);
                        in_multiline = true;
                        multiline_lines = 1;
                    } else {
                        add_entry(
                            &mut doc,
                            &index,
                            current_stanza.as_str(),
                            string_of(key_v),
                            string_of(value_v),
                        );
                    }
                    proof {
                        r = next;
                    }
                }
            },
            None => {},
        }
    }
    proof {
        assert(ls.take(i as int) == ls);
    }
    if in_multiline {
        add_entry(&mut doc, &index, current_stanza.as_str(), current_key, raw_value);
    }
    doc
}

} // verus!
