//! What holds of stanza patterns as they are written.
use vstd::prelude::*;

use crate::stanza_pattern::{
    glob, is_wild, pattern_matches, plain_text_matches_itself_only,
    text_before_a_wildcard_stands_for_itself, tokens, wildcard_len,
};
use crate::text::{first_index, first_index_is_least, least_is_first_index};

verus! {

/// A part of a pattern.
pub enum Part {
    /// Text that stands for itself.
    Text(Seq<char>),
    /// `...`, which stands for any text.
    Ellipsis,
    /// A word in angle brackets, which stands for any text.
    Placeholder(Seq<char>),
}

/// Whether a part can be written between others: text has no angle bracket that opens, no three dots
/// in a row and no dot at its end, and the word of a placeholder has no angle bracket that closes.
pub open spec fn is_part(part: Part) -> bool {
    match part {
        Part::Text(t) => {
            &&& !t.contains('<')
            &&& forall|i: int|
                0 <= i < t.len() - 2 ==> !(#[trigger] t[i] == '.' && t[i + 1] == '.' && t[i + 2]
                    == '.')
            &&& t.len() > 0 ==> t.last() != '.'
        },
        Part::Ellipsis => true,
        Part::Placeholder(word) => !word.contains('>'),
    }
}

/// How a part is written.
pub open spec fn part_text(part: Part) -> Seq<char> {
    match part {
        Part::Text(t) => t,
        Part::Ellipsis => seq!['.', '.', '.'],
        Part::Placeholder(word) => seq!['<'] + word + seq!['>'],
    }
}

/// How a pattern is written.
pub open spec fn pattern_text(parts: Seq<Part>) -> Seq<char>
    decreases parts.len(),
{
    if parts.len() == 0 {
        Seq::empty()
    } else {
        part_text(parts.first()) + pattern_text(parts.drop_first())
    }
}

/// Whether a name is made of what the parts stand for, one after the other.
pub open spec fn is_made_of(parts: Seq<Part>, name: Seq<char>) -> bool
    decreases parts.len(),
{
    if parts.len() == 0 {
        name.len() == 0
    } else {
        match parts.first() {
            Part::Text(t) => {
                &&& t.len() <= name.len()
                &&& name.take(t.len() as int) == t
                &&& is_made_of(parts.drop_first(), name.skip(t.len() as int))
            },
            _ => exists|k: int|
                0 <= k <= name.len() && is_made_of(parts.drop_first(), #[trigger] name.skip(k)),
        }
    }
}

proof fn text_is_read_as_it_is(t: Seq<char>, rest: Seq<char>)
    requires
        is_part(Part::Text(t)),
    ensures
        tokens(t + rest) == t.map_values(|c: char| Some(c)) + tokens(rest),
    decreases t.len(),
{
    let all = t + rest;
    let f = |c: char| Some(c);
    if t.len() == 0 {
        assert(all =~= rest);
        assert(t.map_values(f) + tokens(rest) =~= tokens(rest));
    } else {
        let tail = t.drop_first();
        assert(t.contains(t[0]));
        assert(all[0] == t[0]);
        if t[0] == '.' {
            assert(t.len() > 1);
            assert(all[1] == t[1]);
            if t.len() > 2 {
                assert(all[2] == t[2]);
            } else {
                assert(t.last() == t[1]);
            }
        }
        assert(wildcard_len(all) == 0);
        assert(all.drop_first() =~= tail + rest);
        assert(!tail.contains('<')) by {
            if tail.contains('<') {
                let i = choose|i: int| 0 <= i < tail.len() && tail[i] == '<';
                assert(t[i + 1] == '<');
            }
        }
        assert forall|i: int| 0 <= i < tail.len() - 2 implies !(#[trigger] tail[i] == '.' && tail[i
            + 1] == '.' && tail[i + 2] == '.') by {
            assert(tail[i] == t[i + 1]);
        }
        text_is_read_as_it_is(tail, rest);
        assert(t.map_values(f) =~= seq![Some(t[0])] + tail.map_values(f));
        assert(tokens(all) =~= t.map_values(f) + tokens(rest));
    }
}

proof fn wildcard_is_read(part: Part, rest: Seq<char>)
    requires
        is_part(part),
        !(part is Text),
    ensures
        tokens(part_text(part) + rest) == seq![None::<char>] + tokens(rest),
{
    let all = part_text(part) + rest;
    match part {
        Part::Placeholder(word) => {
            let tail = all.drop_first();
            let n = word.len() as int;
            assert forall|j: int| 0 <= j < n implies tail[j] != '>' by {
                assert(tail[j] == word[j]);
                assert(word.contains(word[j]));
            }
            assert(tail[n] == '>');
            least_is_first_index(tail, '>', n as nat);
            assert(all[0] == '<');
            assert(wildcard_len(all) == n + 2);
            assert(all.skip(n + 2) =~= rest);
        },
        _ => {
            assert(all[0] == '.' && all[1] == '.' && all[2] == '.');
            assert(all.skip(3) =~= rest);
        },
    }
}

proof fn parts_are_read(parts: Seq<Part>, name: Seq<char>)
    requires
        forall|i: int| 0 <= i < parts.len() ==> is_part(#[trigger] parts[i]),
    ensures
        glob(tokens(pattern_text(parts)), name) <==> is_made_of(parts, name),
    decreases parts.len(),
{
    if parts.len() > 0 {
        let rest = parts.drop_first();
        let text = pattern_text(rest);
        assert(is_part(parts[0]));
        assert forall|i: int| 0 <= i < rest.len() implies is_part(#[trigger] rest[i]) by {
            assert(rest[i] == parts[i + 1]);
        }
        match parts.first() {
            Part::Text(t) => {
                text_is_read_as_it_is(t, text);
                text_before_a_wildcard_stands_for_itself(t, tokens(text), name);
                if t.len() <= name.len() {
                    parts_are_read(rest, name.skip(t.len() as int));
                    assert(name.take(t.len() as int) =~= name.subrange(0, t.len() as int));
                }
            },
            _ => {
                wildcard_is_read(parts.first(), text);
                let toks = tokens(pattern_text(parts));
                assert(toks.first() == None::<char>);
                assert(toks.drop_first() =~= tokens(text));
                if glob(toks, name) {
                    let k = choose|k: int|
                        0 <= k <= name.len() && glob(toks.drop_first(), #[trigger] name.skip(k));
                    parts_are_read(rest, name.skip(k));
                    assert(is_made_of(rest, name.skip(k)));
                }
                if is_made_of(parts, name) {
                    let k = choose|k: int|
                        0 <= k <= name.len() && is_made_of(rest, #[trigger] name.skip(k));
                    parts_are_read(rest, name.skip(k));
                    assert(glob(toks.drop_first(), name.skip(k)));
                }
            },
        }
    }
}

/// A pattern matches exactly the names that are made of what its parts stand for: text for itself,
/// and `...` and placeholders for any text, the empty one too, wherever they stand and however many
/// there are.
pub proof fn patterns_match_what_they_are_made_of(parts: Seq<Part>, name: Seq<char>)
    requires
        forall|i: int| 0 <= i < parts.len() ==> is_part(#[trigger] parts[i]),
    ensures
        pattern_matches(pattern_text(parts), name) <==> is_made_of(parts, name),
{
    parts_are_read(parts, name);
    if !is_wild(pattern_text(parts)) {
        plain_text_matches_itself_only(pattern_text(parts), name);
    }
}

/// A pattern with one wildcard between two texts matches the names that start with the one and end
/// with the other, without overlap.
pub proof fn one_wildcard_stands_between(
    start: Seq<char>,
    wildcard: Part,
    end: Seq<char>,
    middle: Seq<char>,
    name: Seq<char>,
)
    requires
        is_part(Part::Text(start)),
        is_part(Part::Text(end)),
        is_part(wildcard),
        !(wildcard is Text),
    ensures
        pattern_matches(start + part_text(wildcard) + end, start + middle + end),
        pattern_matches(start + part_text(wildcard) + end, name) ==> {
            &&& start.len() + end.len() <= name.len()
            &&& name.take(start.len() as int) == start
            &&& name.skip(name.len() - end.len()) == end
        },
{
    let parts = seq![Part::Text(start), wildcard, Part::Text(end)];
    let one = parts.drop_first();
    let two = one.drop_first();
    let none = two.drop_first();
    assert(none =~= Seq::empty());
    assert(pattern_text(none) =~= Seq::empty());
    assert(pattern_text(two) =~= end);
    assert(pattern_text(one) =~= part_text(wildcard) + end);
    assert(pattern_text(parts) =~= start + part_text(wildcard) + end);
    let whole = start + middle + end;
    let rest = whole.skip(start.len() as int);
    let m = middle.len() as int;
    assert(whole.take(start.len() as int) =~= start);
    assert(rest.skip(m) =~= end);
    assert(end.take(end.len() as int) =~= end);
    assert(is_made_of(none, end.skip(end.len() as int)));
    assert(is_made_of(two, rest.skip(m)));
    assert(is_made_of(one, rest));
    assert(is_made_of(parts, whole));
    patterns_match_what_they_are_made_of(parts, whole);
    patterns_match_what_they_are_made_of(parts, name);
    if is_made_of(parts, name) {
        let tail = name.skip(start.len() as int);
        assert(parts.first() == Part::Text(start));
        assert(is_made_of(one, tail));
        assert(one.first() == wildcard);
        let k = choose|k: int| 0 <= k <= tail.len() && is_made_of(two, #[trigger] tail.skip(k));
        let last = tail.skip(k);
        assert(two.first() == Part::Text(end));
        assert(is_made_of(none, last.skip(end.len() as int)));
        assert(last.len() == end.len());
        assert(last =~= last.take(end.len() as int));
        assert(name.skip(name.len() - end.len()) =~= last);
    }
}

proof fn no_wildcard_is_found(raw: Seq<char>)
    requires
        forall|i: int|
            0 <= i < raw.len() - 2 ==> !(#[trigger] raw[i] == '.' && raw[i + 1] == '.' && raw[i + 2]
                == '.'),
        forall|i: int, j: int|
            0 <= i < j < raw.len() ==> !(#[trigger] raw[i] == '<' && #[trigger] raw[j] == '>'),
    ensures
        !is_wild(raw),
    decreases raw.len(),
{
    if raw.len() > 0 {
        let rest = raw.drop_first();
        assert(!(raw.len() >= 3 && raw[0] == '.' && raw[1] == '.' && raw[2] == '.'));
        if raw[0] == '<' && first_index(rest, '>') < raw.len() - 1 {
            first_index_is_least(rest, '>');
            let n = first_index(rest, '>') as int;
            assert(rest[n] == '>');
            assert(raw[n + 1] == '>');
        }
        assert(wildcard_len(raw) == 0);
        assert forall|i: int| 0 <= i < rest.len() - 2 implies !(#[trigger] rest[i] == '.' && rest[i
            + 1] == '.' && rest[i + 2] == '.') by {
            assert(rest[i] == raw[i + 1]);
        }
        assert forall|i: int, j: int| 0 <= i < j < rest.len() implies !(#[trigger] rest[i] == '<'
            && #[trigger] rest[j] == '>') by {
            assert(rest[i] == raw[i + 1] && rest[j] == raw[j + 1]);
        }
        no_wildcard_is_found(rest);
        let toks = tokens(raw);
        assert(toks =~= seq![Some(raw[0])] + tokens(rest));
        if toks.contains(None) {
            let i = choose|i: int| 0 <= i < toks.len() && toks[i] == None::<char>;
            assert(tokens(rest)[i - 1] == None::<char>);
        }
    }
}

/// A pattern without three dots in a row, and without an opening angle bracket that a closing one
/// follows, matches itself and nothing else.
pub proof fn plain_patterns_match_themselves(raw: Seq<char>, name: Seq<char>)
    requires
        forall|i: int|
            0 <= i < raw.len() - 2 ==> !(#[trigger] raw[i] == '.' && raw[i + 1] == '.' && raw[i + 2]
                == '.'),
        forall|i: int, j: int|
            0 <= i < j < raw.len() ==> !(#[trigger] raw[i] == '<' && #[trigger] raw[j] == '>'),
    ensures
        pattern_matches(raw, name) <==> name == raw,
{
    no_wildcard_is_found(raw);
    plain_text_matches_itself_only(raw, name);
}

} // verus!
