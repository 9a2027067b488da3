//! Wildcard patterns for stanza names.
use vstd::prelude::*;

use crate::text::{
    chars_of, ends_with, find_part, first_index, has_prefix, has_suffix, least_is_first_index,
    occurs_at, same_text, starts_with,
};

verus! {

// ===== What a pattern means =====

/// The length of the wildcard at the start of `s`: an ellipsis `...`, or a placeholder that runs
/// from `<` to the next `>`. It is zero where no wildcard starts there.
pub open spec fn wildcard_len(s: Seq<char>) -> nat {
    if s.len() >= 3 && s[0] == '.' && s[1] == '.' && s[2] == '.' {
        3
    } else if s.len() > 0 && s[0] == '<' && first_index(s.drop_first(), '>') < s.len() - 1 {
        first_index(s.drop_first(), '>') + 2
    } else {
        0
    }
}

/// The parts of a pattern: `None` for a wildcard, `Some` for a character that stands for itself.
pub open spec fn tokens(raw: Seq<char>) -> Seq<Option<char>>
    decreases raw.len(),
{
    if raw.len() == 0 {
        Seq::empty()
    } else if wildcard_len(raw) > 0 {
        seq![None::<char>] + tokens(raw.skip(wildcard_len(raw) as int))
    } else {
        seq![Some(raw[0])] + tokens(raw.drop_first())
    }
}

/// Whether `s` is made of what the parts stand for, in order: a character for itself, a wildcard
/// for any text.
pub open spec fn glob(toks: Seq<Option<char>>, s: Seq<char>) -> bool
    decreases toks.len(),
{
    if toks.len() == 0 {
        s.len() == 0
    } else {
        match toks.first() {
            Some(c) => s.len() > 0 && s.first() == c && glob(toks.drop_first(), s.drop_first()),
            None => exists|k: int|
                0 <= k <= s.len() && glob(toks.drop_first(), #[trigger] s.skip(k)),
        }
    }
}

/// Whether a pattern holds a wildcard.
pub open spec fn is_wild(raw: Seq<char>) -> bool {
    tokens(raw).contains(None)
}

/// Whether the stanza name `s` matches the pattern `raw`.
pub open spec fn pattern_matches(raw: Seq<char>, s: Seq<char>) -> bool {
    if is_wild(raw) {
        glob(tokens(raw), s)
    } else {
        s == raw
    }
}

// ===== Placing pieces =====

/// Whether the pieces can be found in `s` one after the other, without overlap, between `from`
/// and `to`.
pub open spec fn placed(pieces: Seq<Seq<char>>, s: Seq<char>, from: int, to: int) -> bool
    decreases pieces.len(),
{
    if pieces.len() == 0 {
        true
    } else {
        exists|i: int|
            from <= i && i + pieces.first().len() <= to && #[trigger] occurs_at(
                s,
                pieces.first(),
                i,
            ) && placed(pieces.drop_first(), s, i + pieces.first().len(), to)
    }
}

proof fn placed_grows(pieces: Seq<Seq<char>>, s: Seq<char>, f1: int, t1: int, f2: int, t2: int)
    requires
        placed(pieces, s, f1, t1),
        f2 <= f1,
        t1 <= t2,
    ensures
        placed(pieces, s, f2, t2),
    decreases pieces.len(),
{
    if pieces.len() > 0 {
        let n = pieces.first().len();
        let i = choose|i: int|
            f1 <= i && i + n <= t1 && #[trigger] occurs_at(s, pieces.first(), i) && placed(
                pieces.drop_first(),
                s,
                i + n,
                t1,
            );
        placed_grows(pieces.drop_first(), s, i + n, t1, i + n, t2);
        assert(occurs_at(s, pieces.first(), i));
    }
}

proof fn occurs_in_prefix(s: Seq<char>, t: Seq<char>, i: int, m: int)
    requires
        0 <= m <= s.len(),
        i + t.len() <= m,
    ensures
        occurs_at(s.take(m), t, i) == occurs_at(s, t, i),
{
    if 0 <= i {
        assert(s.take(m).subrange(i, i + t.len()) == s.subrange(i, i + t.len()));
    }
}

proof fn placed_in_prefix(pieces: Seq<Seq<char>>, s: Seq<char>, from: int, to: int, m: int)
    requires
        to <= m <= s.len(),
        0 <= m,
    ensures
        placed(pieces, s.take(m), from, to) == placed(pieces, s, from, to),
    decreases pieces.len(),
{
    if pieces.len() > 0 {
        let p = pieces.first();
        let n = p.len();
        if placed(pieces, s.take(m), from, to) {
            let i = choose|i: int|
                from <= i && i + n <= to && #[trigger] occurs_at(s.take(m), p, i) && placed(
                    pieces.drop_first(),
                    s.take(m),
                    i + n,
                    to,
                );
            placed_in_prefix(pieces.drop_first(), s, i + n, to, m);
            occurs_in_prefix(s, p, i, m);
            assert(occurs_at(s, p, i));
        }
        if placed(pieces, s, from, to) {
            let i = choose|i: int|
                from <= i && i + n <= to && #[trigger] occurs_at(s, p, i) && placed(
                    pieces.drop_first(),
                    s,
                    i + n,
                    to,
                );
            placed_in_prefix(pieces.drop_first(), s, i + n, to, m);
            occurs_in_prefix(s, p, i, m);
            assert(occurs_at(s.take(m), p, i));
        }
    }
}

/// The last piece can be split off.
proof fn placed_push(pieces: Seq<Seq<char>>, b: Seq<char>, s: Seq<char>, from: int, to: int)
    ensures
        placed(pieces.push(b), s, from, to) <==> exists|j: int|
            from <= j && j + b.len() <= to && #[trigger] occurs_at(s, b, j) && placed(
                pieces,
                s,
                from,
                j,
            ),
    decreases pieces.len(),
{
    let all = pieces.push(b);
    if pieces.len() == 0 {
        assert(all.first() == b);
        assert(all.drop_first() =~= Seq::empty());
        if placed(all, s, from, to) {
            let i = choose|i: int|
                from <= i && i + b.len() <= to && #[trigger] occurs_at(s, b, i) && placed(
                    all.drop_first(),
                    s,
                    i + b.len(),
                    to,
                );
            assert(occurs_at(s, b, i) && placed(pieces, s, from, i));
        }
        if exists|j: int|
            from <= j && j + b.len() <= to && #[trigger] occurs_at(s, b, j) && placed(
                pieces,
                s,
                from,
                j,
            ) {
            let j = choose|j: int|
                from <= j && j + b.len() <= to && #[trigger] occurs_at(s, b, j) && placed(
                    pieces,
                    s,
                    from,
                    j,
                );
            assert(occurs_at(s, all.first(), j) && placed(all.drop_first(), s, j + b.len(), to));
        }
    } else {
        let p = pieces.first();
        let n = p.len();
        let rest = pieces.drop_first();
        assert(all.first() == p);
        assert(all.drop_first() =~= rest.push(b));
        if placed(all, s, from, to) {
            let i = choose|i: int|
                from <= i && i + n <= to && #[trigger] occurs_at(s, p, i) && placed(
                    all.drop_first(),
                    s,
                    i + n,
                    to,
                );
            placed_push(rest, b, s, i + n, to);
            let j = choose|j: int|
                i + n <= j && j + b.len() <= to && #[trigger] occurs_at(s, b, j) && placed(
                    rest,
                    s,
                    i + n,
                    j,
                );
            assert(occurs_at(s, p, i));
            assert(placed(pieces, s, from, j));
            assert(occurs_at(s, b, j));
        }
        if exists|j: int|
            from <= j && j + b.len() <= to && #[trigger] occurs_at(s, b, j) && placed(
                pieces,
                s,
                from,
                j,
            ) {
            let j = choose|j: int|
                from <= j && j + b.len() <= to && #[trigger] occurs_at(s, b, j) && placed(
                    pieces,
                    s,
                    from,
                    j,
                );
            let i = choose|i: int|
                from <= i && i + n <= j && #[trigger] occurs_at(s, p, i) && placed(
                    rest,
                    s,
                    i + n,
                    j,
                );
            assert(occurs_at(s, b, j));
            placed_push(rest, b, s, i + n, to);
            assert(occurs_at(s, all.first(), i) && placed(all.drop_first(), s, i + n, to));
        }
    }
}

// ===== Splitting the last part off a pattern =====

proof fn glob_push_char(toks: Seq<Option<char>>, c: char, s: Seq<char>)
    ensures
        glob(toks.push(Some(c)), s) <==> s.len() > 0 && s.last() == c && glob(toks, s.drop_last()),
    decreases toks.len(),
{
    let all = toks.push(Some(c));
    if toks.len() == 0 {
        assert(all.drop_first() =~= Seq::empty());
        assert(glob(all.drop_first(), s.drop_first()) <==> s.drop_first().len() == 0);
    } else {
        let rest = toks.drop_first();
        assert(all.drop_first() =~= rest.push(Some(c)));
        assert(all.first() == toks.first());
        match toks.first() {
            Some(d) => {
                if s.len() > 0 {
                    glob_push_char(rest, c, s.drop_first());
                    if s.len() > 1 {
                        assert(s.drop_first().drop_last() =~= s.drop_last().drop_first());
                    }
                }
            },
            None => {
                if glob(all, s) {
                    let k = choose|k: int|
                        0 <= k <= s.len() && glob(all.drop_first(), #[trigger] s.skip(k));
                    glob_push_char(rest, c, s.skip(k));
                    assert(s.skip(k).drop_last() =~= s.drop_last().skip(k));
                    assert(glob(rest, s.drop_last().skip(k)));
                }
                if s.len() > 0 && s.last() == c && glob(toks, s.drop_last()) {
                    let k = choose|k: int|
                        0 <= k <= s.drop_last().len() && glob(
                            rest,
                            #[trigger] s.drop_last().skip(k),
                        );
                    glob_push_char(rest, c, s.skip(k));
                    assert(s.skip(k).drop_last() =~= s.drop_last().skip(k));
                    assert(glob(all.drop_first(), s.skip(k)));
                }
            },
        }
    }
}

proof fn glob_push_wild(toks: Seq<Option<char>>, s: Seq<char>)
    ensures
        glob(toks.push(None), s) <==> exists|k: int| 0 <= k <= s.len() && glob(toks, #[trigger] s.take(k)),
    decreases toks.len(),
{
    let all = toks.push(None);
    if toks.len() == 0 {
        assert(all.drop_first() =~= Seq::empty());
        assert(glob(toks, s.take(0)));
        assert(glob(all.drop_first(), s.skip(s.len() as int)));
    } else {
        let rest = toks.drop_first();
        assert(all.drop_first() =~= rest.push(None));
        assert(all.first() == toks.first());
        match toks.first() {
            Some(d) => {
                if s.len() > 0 {
                    glob_push_wild(rest, s.drop_first());
                }
                if glob(all, s) {
                    let k = choose|k: int|
                        0 <= k <= s.drop_first().len() && glob(
                            rest,
                            #[trigger] s.drop_first().take(k),
                        );
                    assert(s.take(k + 1).drop_first() =~= s.drop_first().take(k));
                    assert(glob(toks, s.take(k + 1)));
                }
                if exists|k: int| 0 <= k <= s.len() && glob(toks, #[trigger] s.take(k)) {
                    let k = choose|k: int| 0 <= k <= s.len() && glob(toks, #[trigger] s.take(k));
                    assert(s.take(k).drop_first() =~= s.drop_first().take(k - 1));
                    assert(glob(rest, s.drop_first().take(k - 1)));
                }
            },
            None => {
                if glob(all, s) {
                    let j = choose|j: int|
                        0 <= j <= s.len() && glob(all.drop_first(), #[trigger] s.skip(j));
                    glob_push_wild(rest, s.skip(j));
                    let k = choose|k: int|
                        0 <= k <= s.skip(j).len() && glob(rest, #[trigger] s.skip(j).take(k));
                    assert(s.skip(j).take(k) =~= s.take(j + k).skip(j));
                    assert(glob(rest, s.take(j + k).skip(j)));
                    assert(glob(toks, s.take(j + k)));
                }
                if exists|k: int| 0 <= k <= s.len() && glob(toks, #[trigger] s.take(k)) {
                    let k = choose|k: int| 0 <= k <= s.len() && glob(toks, #[trigger] s.take(k));
                    let j = choose|j: int|
                        0 <= j <= s.take(k).len() && glob(rest, #[trigger] s.take(k).skip(j));
                    glob_push_wild(rest, s.skip(j));
                    assert(s.skip(j).take(k - j) =~= s.take(k).skip(j));
                    assert(glob(rest, s.skip(j).take(k - j)));
                    assert(glob(all.drop_first(), s.skip(j)));
                }
            },
        }
    }
}

// ===== Gathering the literal pieces =====

/// What a pass over the parts has gathered: the pieces of literal text that a wildcard has
/// closed, the piece that is still open, whether the first part was a wildcard, and whether there
/// was one at all.
pub struct Gathered {
    pub pieces: Seq<Seq<char>>,
    pub open: Seq<char>,
    pub starts: bool,
    pub wild: bool,
}

/// The pieces with the open one closed, where it holds anything.
pub open spec fn with_open(pieces: Seq<Seq<char>>, open: Seq<char>) -> Seq<Seq<char>> {
    if open.len() > 0 {
        pieces.push(open)
    } else {
        pieces
    }
}

/// What a pass over the parts gathers.
pub open spec fn gathered(toks: Seq<Option<char>>) -> Gathered
    decreases toks.len(),
{
    if toks.len() == 0 {
        Gathered { pieces: Seq::empty(), open: Seq::empty(), starts: false, wild: false }
    } else {
        let g = gathered(toks.drop_last());
        match toks.last() {
            Some(c) => Gathered { open: g.open.push(c), ..g },
            None => Gathered {
                pieces: with_open(g.pieces, g.open),
                open: Seq::empty(),
                starts: g.starts || toks.len() == 1,
                wild: true,
            },
        }
    }
}

/// Whether `s` fits what was gathered: the text before the first wildcard at the start, the open
/// piece at the end, and the others in order between them.
pub open spec fn fits(g: Gathered, s: Seq<char>) -> bool {
    if !g.wild {
        s == g.open
    } else {
        let to = s.len() - g.open.len();
        &&& has_suffix(s, g.open)
        &&& if g.starts {
            placed(g.pieces, s, 0, to)
        } else {
            &&& g.pieces.len() > 0
            &&& has_prefix(s, g.pieces[0])
            &&& g.pieces[0].len() <= to
            &&& placed(g.pieces.drop_first(), s, g.pieces[0].len() as int, to)
        }
    }
}

proof fn gathered_shape(toks: Seq<Option<char>>)
    ensures
        ({
            let g = gathered(toks);
            &&& g.wild <==> toks.contains(None)
            &&& !g.wild ==> g.pieces.len() == 0 && !g.starts && g.open.len() == toks.len()
            &&& g.wild && !g.starts ==> g.pieces.len() > 0
            &&& toks.len() > 0 ==> (toks.last() is None <==> g.open.len() == 0)
        }),
    decreases toks.len(),
{
    if toks.len() > 0 {
        let rest = toks.drop_last();
        gathered_shape(rest);
        assert(toks == rest.push(toks.last()));
        assert(toks.contains(None) <==> rest.contains(None) || toks.last() is None) by {
            if rest.contains(None) {
                let i = choose|i: int| 0 <= i < rest.len() && rest[i] == None::<char>;
                assert(toks[i] == None::<char>);
            }
            if toks.last() is None {
                assert(toks[toks.len() - 1] == None::<char>);
            }
            if toks.contains(None) && toks.last() is Some {
                let i = choose|i: int| 0 <= i < toks.len() && toks[i] == None::<char>;
                assert(rest[i] == None::<char>);
            }
        }
    }
}

/// Fitting what a pass gathers is the same as matching the parts one by one.
proof fn gathered_is_glob(toks: Seq<Option<char>>, s: Seq<char>)
    ensures
        glob(toks, s) <==> fits(gathered(toks), s),
    decreases toks.len(),
{
    if toks.len() == 0 {
        assert(s.len() == 0 <==> s =~= Seq::<char>::empty());
    } else {
        let rest = toks.drop_last();
        let g = gathered(rest);
        let h = gathered(toks);
        gathered_shape(rest);
        assert(toks == rest.push(toks.last()));
        match toks.last() {
            Some(c) => {
                glob_push_char(rest, c, s);
                if s.len() > 0 {
                    gathered_is_glob(rest, s.drop_last());
                    fits_push_char(g, c, s);
                } else {
                    assert(!fits(h, s));
                }
            },
            None => {
                glob_push_wild(rest, s);
                if glob(toks, s) {
                    let k = choose|k: int| 0 <= k <= s.len() && glob(rest, #[trigger] s.take(k));
                    gathered_is_glob(rest, s.take(k));
                    fits_push_wild(g, h, s, k);
                }
                if fits(h, s) {
                    let k = fits_wild_cut(g, h, s);
                    gathered_is_glob(rest, s.take(k));
                    assert(glob(rest, s.take(k)));
                }
            },
        }
    }
}

proof fn fits_push_char(g: Gathered, c: char, s: Seq<char>)
    requires
        s.len() > 0,
    ensures
        fits(Gathered { open: g.open.push(c), ..g }, s) <==> s.last() == c && fits(g, s.drop_last()),
{
    let b = g.open;
    let e = b.push(c);
    let t = s.drop_last();
    let to = s.len() - e.len();
    assert(t == s.take(s.len() - 1));
    if !g.wild {
        if s == e {
            assert(t =~= b);
        }
        if s.last() == c && t == b {
            assert(s =~= e);
        }
    } else {
        assert(has_suffix(s, e) <==> s.last() == c && has_suffix(t, b)) by {
            if to >= 0 {
                if has_suffix(s, e) {
                    assert(s.subrange(to, to + e.len()) == e);
                    assert(s.last() == s.subrange(to, to + e.len()).last());
                    assert(t.subrange(to, to + b.len()) =~= s.subrange(to, to + e.len()).drop_last());
                    assert(e.drop_last() =~= b);
                }
                if s.last() == c && has_suffix(t, b) {
                    assert(s.subrange(to, to + e.len()) =~= t.subrange(to, to + b.len()).push(c));
                }
            }
        }
        if to >= 0 {
            if g.starts {
                placed_in_prefix(g.pieces, s, 0, to, s.len() - 1);
            } else if g.pieces.len() > 0 && g.pieces[0].len() <= to {
                let p = g.pieces[0];
                placed_in_prefix(g.pieces.drop_first(), s, p.len() as int, to, s.len() - 1);
                occurs_in_prefix(s, p, 0, s.len() - 1);
            }
        }
    }
}

proof fn fits_push_wild(g: Gathered, h: Gathered, s: Seq<char>, k: int)
    requires
        0 <= k <= s.len(),
        fits(g, s.take(k)),
        !g.wild ==> g.pieces.len() == 0 && !g.starts,
        h.pieces == with_open(g.pieces, g.open),
        h.open == Seq::<char>::empty(),
        h.wild,
        h.starts <==> g.starts || (!g.wild && g.open.len() == 0),
    ensures
        fits(h, s),
{
    let t = s.take(k);
    let b = g.open;
    assert(s.subrange(s.len() as int, s.len() as int) =~= Seq::<char>::empty());
    assert(has_suffix(s, h.open));
    if !g.wild {
        if b.len() > 0 {
            assert(h.pieces[0] == b);
            assert(h.pieces.drop_first() =~= Seq::empty());
            assert(s.subrange(0, b.len() as int) =~= t);
        }
    } else {
        let j = k - b.len();
        occurs_in_prefix(s, b, j, k);
        if g.starts {
            placed_in_prefix(g.pieces, s, 0, j, k);
            if b.len() > 0 {
                placed_push(g.pieces, b, s, 0, s.len() as int);
                assert(occurs_at(s, b, j));
            } else {
                placed_grows(g.pieces, s, 0, j, 0, s.len() as int);
            }
        } else {
            let p = g.pieces[0];
            let rest = g.pieces.drop_first();
            let n = p.len() as int;
            placed_in_prefix(rest, s, n, j, k);
            occurs_in_prefix(s, p, 0, k);
            assert(h.pieces[0] == p);
            if b.len() > 0 {
                assert(h.pieces.drop_first() =~= rest.push(b));
                placed_push(rest, b, s, n, s.len() as int);
                assert(occurs_at(s, b, j));
            } else {
                placed_grows(rest, s, n, j, n, s.len() as int);
            }
        }
    }
}

/// Where the text before a last wildcard can be cut off.
proof fn fits_wild_cut(g: Gathered, h: Gathered, s: Seq<char>) -> (k: int)
    requires
        fits(h, s),
        !g.wild ==> g.pieces.len() == 0 && !g.starts,
        g.wild && !g.starts ==> g.pieces.len() > 0,
        h.pieces == with_open(g.pieces, g.open),
        h.open == Seq::<char>::empty(),
        h.wild,
        h.starts <==> g.starts || (!g.wild && g.open.len() == 0),
    ensures
        0 <= k <= s.len(),
        fits(g, s.take(k)),
{
    let b = g.open;
    if !g.wild {
        if b.len() == 0 {
            assert(s.take(0) =~= b);
            0
        } else {
            assert(h.pieces[0] == b);
            assert(s.take(b.len() as int) =~= s.subrange(0, b.len() as int));
            b.len() as int
        }
    } else if g.starts {
        if b.len() > 0 {
            placed_push(g.pieces, b, s, 0, s.len() as int);
            let j = choose|j: int|
                0 <= j && j + b.len() <= s.len() && #[trigger] occurs_at(s, b, j) && placed(
                    g.pieces,
                    s,
                    0,
                    j,
                );
            let k = j + b.len();
            occurs_in_prefix(s, b, j, k);
            placed_in_prefix(g.pieces, s, 0, j, k);
            k
        } else {
            assert(s.take(s.len() as int) == s);
            assert(b =~= h.open);
            s.len() as int
        }
    } else {
        let p = g.pieces[0];
        let rest = g.pieces.drop_first();
        let n = p.len() as int;
        assert(h.pieces[0] == p);
        if b.len() > 0 {
            assert(h.pieces.drop_first() =~= rest.push(b));
            placed_push(rest, b, s, n, s.len() as int);
            let j = choose|j: int|
                n <= j && j + b.len() <= s.len() && #[trigger] occurs_at(s, b, j) && placed(
                    rest,
                    s,
                    n,
                    j,
                );
            let k = j + b.len();
            occurs_in_prefix(s, b, j, k);
            occurs_in_prefix(s, p, 0, k);
            placed_in_prefix(rest, s, n, j, k);
            k
        } else {
            assert(s.take(s.len() as int) == s);
            assert(b =~= h.open);
            s.len() as int
        }
    }
}

// ===== The matcher =====

/// A stanza name with wildcards: `...` stands for any text, and so does a placeholder such as
/// `<name>`.
#[derive(Debug, Clone)]
pub struct StanzaPattern {
    raw: String,
    pieces: Vec<Vec<char>>,
    starts_with_wildcard: bool,
    ends_with_wildcard: bool,
    has_wildcard: bool,
}

spec fn texts(pieces: Seq<Vec<char>>) -> Seq<Seq<char>> {
    pieces.map_values(|p: Vec<char>| p@)
}

/// The length of the wildcard at place `i`, or zero.
fn wildcard_at(b: &[char], i: usize) -> (r: usize)
    requires
        i < b@.len(),
    ensures
        r == wildcard_len(b@.skip(i as int)),
        i + r <= b@.len(),
{
    let ghost t = b@.skip(i as int);
    if b.len() - i >= 3 && b[i] == '.' && b[i + 1] == '.' && b[i + 2] == '.' {
        return 3;
    }
    if b[i] != '<' {
        return 0;
    }
    let mut j: usize = i + 1;
    while j < b.len()
        invariant
            i < j <= b@.len(),
            t == b@.skip(i as int),
            b@[i as int] == '<',
            forall|k: int| i < k < j ==> b@[k] != '>',
        decreases b@.len() - j,
    {
        if b[j] == '>' {
            proof {
                least_is_first_index(t.drop_first(), '>', (j - i - 1) as nat);
            }
            return j - i + 1;
        }
        j += 1;
    }
    proof {
        least_is_first_index(t.drop_first(), '>', t.drop_first().len());
    }
    0
}

impl StanzaPattern {
    /// The pattern as it was written.
    pub closed spec fn raw(self) -> Seq<char> {
        self.raw@
    }

    /// The fields are what a pass over the pattern gathers.
    pub closed spec fn wf(self) -> bool {
        let toks = tokens(self.raw@);
        let g = gathered(toks);
        &&& texts(self.pieces@) == with_open(g.pieces, g.open)
        &&& self.starts_with_wildcard == g.starts
        &&& self.has_wildcard == g.wild
        &&& self.ends_with_wildcard == (toks.len() > 0 && toks.last() is None)
    }

    /// Reads a pattern.
    pub fn new(raw: String) -> (r: Self)
        ensures
            r.wf(),
            r.raw() == raw@,
    {
        let mut pieces: Vec<Vec<char>> = Vec::new();
        let mut buf: Vec<char> = Vec::new();
        let mut starts_with_wildcard = false;
        let mut ends_with_wildcard = false;
        let mut has_wildcard = false;
        let chars = chars_of(raw.as_str());
        let ghost b = raw@;
        let ghost mut done: Seq<Option<char>> = Seq::empty();
        let mut i: usize = 0;
        proof {
            assert(b.skip(0) == b);
            assert(texts(pieces@) =~= Seq::empty());
            assert(done + tokens(b) =~= tokens(b));
        }
        while i < chars.len()
            invariant
                chars@ == b,
                i <= b.len(),
                tokens(b) == done + tokens(b.skip(i as int)),
                i == 0 <==> done.len() == 0,
                texts(pieces@) == gathered(done).pieces,
                buf@ == gathered(done).open,
                starts_with_wildcard == gathered(done).starts,
                has_wildcard == gathered(done).wild,
                ends_with_wildcard == (done.len() > 0 && done.last() is None),
            decreases b.len() - i,
        {
            let w = wildcard_at(&chars, i);
            let ghost rest = b.skip(i as int);
            let ghost before = done;
            if w > 0 {
                if i == 0 {
                    starts_with_wildcard = true;
                }
                has_wildcard = true;
                ends_with_wildcard = true;
                if buf.len() > 0 {
                    pieces.push(buf);
                    buf = Vec::new();
                }
                proof {
                    done = before.push(None);
                    assert(done.drop_last() == before);
                    assert(texts(pieces@) =~= gathered(done).pieces);
                    assert(buf@ =~= gathered(done).open);
                    assert(rest.skip(w as int) == b.skip(i + w));
                    assert(done + tokens(b.skip(i + w)) =~= before + tokens(rest));
                }
                i = i + w;
            } else {
                ends_with_wildcard = false;
                buf.push(chars[i]);
                proof {
                    done = before.push(Some(rest[0]));
                    assert(done.drop_last() == before);
                    assert(rest.drop_first() == b.skip(i + 1));
                    assert(done + tokens(b.skip(i + 1)) =~= before + tokens(rest));
                }
                i = i + 1;
            }
        }
        proof {
            assert(b.skip(i as int) =~= Seq::empty());
            assert(done =~= tokens(b));
        }
        if buf.len() > 0 {
            pieces.push(buf);
        }
        proof {
            let g = gathered(tokens(b));
            assert(texts(pieces@) =~= with_open(g.pieces, g.open));
        }
        StanzaPattern { raw, pieces, starts_with_wildcard, ends_with_wildcard, has_wildcard }
    }

    /// Whether a stanza name matches.
    pub fn matches(&self, stanza: &str) -> (r: bool)
        requires
            self.wf(),
        ensures
            r == pattern_matches(self.raw(), stanza@),
    {
        let ghost toks = tokens(self.raw@);
        let ghost g = gathered(toks);
        let ghost all = texts(self.pieces@);
        proof {
            gathered_shape(toks);
            gathered_is_glob(toks, stanza@);
        }
        if !self.has_wildcard {
            return same_text(stanza, self.raw.as_str());
        }
        let name = chars_of(stanza);
        let ghost s = stanza@;
        if self.pieces.len() == 0 {
            proof {
                assert(all.len() == 0);
                assert(s.subrange(s.len() as int, s.len() as int) =~= g.open);
            }
            return true;
        }
        let mut search_start: usize = 0;
        let mut search_end: usize = name.len();
        let mut first_piece_index: usize = 0;
        let mut last_piece_exclusive: usize = self.pieces.len();
        if !self.starts_with_wildcard {
            let first = &self.pieces[0];
            assert(first@ == all[0]);
            assert(g.pieces[0] == all[0]);
            if !starts_with(&name, first) {
                return false;
            }
            search_start = first.len();
            first_piece_index = 1;
        }
        if !self.ends_with_wildcard {
            let last = &self.pieces[self.pieces.len() - 1];
            assert(last@ == all.last());
            assert(g.open == all.last());
            if !ends_with(&name, last) {
                return false;
            }
            search_end = name.len() - last.len();
            last_piece_exclusive = self.pieces.len() - 1;
        } else {
            assert(s.subrange(s.len() as int, s.len() as int) =~= g.open);
        }
        if search_start > search_end {
            return false;
        }
        let ghost middle = all.subrange(first_piece_index as int, last_piece_exclusive as int);
        proof {
            assert(g.pieces == all.subrange(0, last_piece_exclusive as int));
            assert(middle =~= if g.starts { g.pieces } else { g.pieces.drop_first() });
            assert(fits(g, s) == placed(middle, s, search_start as int, search_end as int));
            assert(middle.skip(0) == middle);
        }
        let mut pos: usize = search_start;
        let mut k: usize = first_piece_index;
        while k < last_piece_exclusive
            invariant
                name@ == s,
                all == texts(self.pieces@),
                first_piece_index <= k <= last_piece_exclusive <= self.pieces@.len(),
                middle == all.subrange(first_piece_index as int, last_piece_exclusive as int),
                pos <= search_end <= s.len(),
                pattern_matches(self.raw@, stanza@) == placed(
                    middle.skip(k - first_piece_index),
                    s,
                    pos as int,
                    search_end as int,
                ),
            decreases last_piece_exclusive - k,
        {
            let piece = &self.pieces[k];
            let ghost left = middle.skip(k - first_piece_index);
            proof {
                assert(left.first() == piece@);
                assert(left.drop_first() == middle.skip(k + 1 - first_piece_index));
            }
            match find_part(&name, piece, pos, search_end) {
                None => {
                    assert(!placed(left, s, pos as int, search_end as int));
                    return false;
                },
                Some(found) => {
                    let next = found + piece.len();
                    proof {
                        greedy(left, s, pos as int, search_end as int, found as int);
                    }
                    pos = next;
                },
            }
            k += 1;
        }
        assert(middle.skip(k - first_piece_index) =~= Seq::empty());
        true
    }
}

/// Taking the first place where the next piece stands never spoils a match.
proof fn greedy(pieces: Seq<Seq<char>>, s: Seq<char>, from: int, to: int, at: int)
    requires
        pieces.len() > 0,
        from <= at,
        at + pieces.first().len() <= to,
        occurs_at(s, pieces.first(), at),
        forall|j: int| from <= j < at ==> !occurs_at(s, pieces.first(), j),
    ensures
        placed(pieces, s, from, to) == placed(
            pieces.drop_first(),
            s,
            at + pieces.first().len(),
            to,
        ),
{
    let n = pieces.first().len();
    if placed(pieces, s, from, to) {
        let i = choose|i: int|
            from <= i && i + n <= to && #[trigger] occurs_at(s, pieces.first(), i) && placed(
                pieces.drop_first(),
                s,
                i + n,
                to,
            );
        placed_grows(pieces.drop_first(), s, i + n, to, at + n, to);
    }
}

// ===== Laws =====

/// A wildcard stands for any text: a name matches parts around a wildcard exactly if it starts
/// with a match of the parts before it and ends, no earlier than that, with a match of the parts
/// after it.
pub proof fn wildcard_stands_for_any_text(
    before: Seq<Option<char>>,
    after: Seq<Option<char>>,
    s: Seq<char>,
)
    ensures
        glob(before + seq![None::<char>] + after, s) <==> exists|i: int, j: int|
            0 <= i <= j <= s.len() && glob(before, #[trigger] s.take(i)) && glob(
                after,
                #[trigger] s.skip(j),
            ),
    decreases before.len(),
{
    let toks = before + seq![None::<char>] + after;
    if before.len() == 0 {
        assert(toks.first() == None::<char>);
        assert(toks.drop_first() =~= after);
        if glob(toks, s) {
            let k = choose|k: int| 0 <= k <= s.len() && glob(toks.drop_first(), #[trigger] s.skip(k));
            assert(glob(before, s.take(0)) && glob(after, s.skip(k)));
        }
        if exists|i: int, j: int|
            0 <= i <= j <= s.len() && glob(before, #[trigger] s.take(i)) && glob(
                after,
                #[trigger] s.skip(j),
            ) {
            let (i, j) = choose|i: int, j: int|
                0 <= i <= j <= s.len() && glob(before, #[trigger] s.take(i)) && glob(
                    after,
                    #[trigger] s.skip(j),
                );
            assert(glob(toks.drop_first(), s.skip(j)));
        }
    } else {
        let rest = before.drop_first();
        let inner = rest + seq![None::<char>] + after;
        assert(toks.drop_first() =~= inner);
        assert(toks.first() == before.first());
        match before.first() {
            Some(c) => {
                if glob(toks, s) {
                    wildcard_stands_for_any_text(rest, after, s.drop_first());
                    let t = s.drop_first();
                    let (i, j) = choose|i: int, j: int|
                        0 <= i <= j <= t.len() && glob(rest, #[trigger] t.take(i)) && glob(
                            after,
                            #[trigger] t.skip(j),
                        );
                    assert(s.take(i + 1).drop_first() =~= t.take(i));
                    assert(s.skip(j + 1) =~= t.skip(j));
                    assert(glob(before, s.take(i + 1)) && glob(after, s.skip(j + 1)));
                }
                if exists|i: int, j: int|
                    0 <= i <= j <= s.len() && glob(before, #[trigger] s.take(i)) && glob(
                        after,
                        #[trigger] s.skip(j),
                    ) {
                    let (i, j) = choose|i: int, j: int|
                        0 <= i <= j <= s.len() && glob(before, #[trigger] s.take(i)) && glob(
                            after,
                            #[trigger] s.skip(j),
                        );
                    let t = s.drop_first();
                    wildcard_stands_for_any_text(rest, after, t);
                    assert(s.take(i).drop_first() =~= t.take(i - 1));
                    assert(s.skip(j) =~= t.skip(j - 1));
                    assert(glob(rest, t.take(i - 1)) && glob(after, t.skip(j - 1)));
                    assert(glob(toks.drop_first(), s.drop_first()));
                }
            },
            None => {
                if glob(toks, s) {
                    let k = choose|k: int|
                        0 <= k <= s.len() && glob(toks.drop_first(), #[trigger] s.skip(k));
                    let t = s.skip(k);
                    wildcard_stands_for_any_text(rest, after, t);
                    let (i, j) = choose|i: int, j: int|
                        0 <= i <= j <= t.len() && glob(rest, #[trigger] t.take(i)) && glob(
                            after,
                            #[trigger] t.skip(j),
                        );
                    assert(s.take(k + i).skip(k) =~= t.take(i));
                    assert(s.skip(k + j) =~= t.skip(j));
                    assert(glob(rest, s.take(k + i).skip(k)));
                    assert(glob(before, s.take(k + i)) && glob(after, s.skip(k + j)));
                }
                if exists|i: int, j: int|
                    0 <= i <= j <= s.len() && glob(before, #[trigger] s.take(i)) && glob(
                        after,
                        #[trigger] s.skip(j),
                    ) {
                    let (i, j) = choose|i: int, j: int|
                        0 <= i <= j <= s.len() && glob(before, #[trigger] s.take(i)) && glob(
                            after,
                            #[trigger] s.skip(j),
                        );
                    let k = choose|k: int|
                        0 <= k <= s.take(i).len() && glob(rest, #[trigger] s.take(i).skip(k));
                    let t = s.skip(k);
                    wildcard_stands_for_any_text(rest, after, t);
                    assert(s.take(i).skip(k) =~= t.take(i - k));
                    assert(s.skip(j) =~= t.skip(j - k));
                    assert(glob(rest, t.take(i - k)) && glob(after, t.skip(j - k)));
                    assert(glob(toks.drop_first(), s.skip(k)));
                }
            },
        }
    }
}

/// A pattern that is one placeholder matches every name.
pub proof fn placeholder_matches_everything(inner: Seq<char>, s: Seq<char>)
    requires
        !inner.contains('>'),
    ensures
        pattern_matches(seq!['<'] + inner + seq!['>'], s),
{
    let raw = seq!['<'] + inner + seq!['>'];
    let n = inner.len() as int;
    assert forall|j: int| 0 <= j < n implies raw.drop_first()[j] != '>' by {
        assert(raw.drop_first()[j] == inner[j]);
        assert(inner.contains(inner[j]));
    }
    least_is_first_index(raw.drop_first(), '>', n as nat);
    assert(wildcard_len(raw) == n + 2);
    assert(raw.skip(n + 2) =~= Seq::empty());
    assert(tokens(raw.skip(n + 2)) =~= Seq::empty());
    assert(tokens(raw) =~= seq![None::<char>]);
    assert(tokens(raw)[0] == None::<char>);
    assert(tokens(raw).drop_first() =~= Seq::empty());
    assert(s.skip(s.len() as int).len() == 0);
    assert(glob(tokens(raw).drop_first(), s.skip(s.len() as int)));
}

/// A pattern without a wildcard, read part by part, matches itself and nothing else, just as the
/// whole pattern does.
pub proof fn plain_text_matches_itself_only(raw: Seq<char>, s: Seq<char>)
    requires
        !is_wild(raw),
    ensures
        glob(tokens(raw), s) <==> s == raw,
        pattern_matches(raw, s) <==> s == raw,
    decreases raw.len(),
{
    if raw.len() == 0 {
        assert(s.len() == 0 <==> s =~= raw);
    } else {
        let toks = tokens(raw);
        if wildcard_len(raw) > 0 {
            assert(toks[0] == None::<char>);
            assert(toks.contains(None));
        }
        let rest = raw.drop_first();
        assert(toks.drop_first() =~= tokens(rest));
        if tokens(rest).contains(None) {
            let i = choose|i: int| 0 <= i < tokens(rest).len() && tokens(rest)[i] == None::<char>;
            assert(toks[i + 1] == None::<char>);
        }
        if s.len() > 0 {
            plain_text_matches_itself_only(rest, s.drop_first());
            if s.first() == raw[0] && s.drop_first() == rest {
                assert(s =~= seq![s.first()] + s.drop_first());
                assert(raw =~= seq![raw.first()] + rest);
            }
        }
    }
}

/// Text before a wildcard stands for itself, whatever its characters: the name has to start with it,
/// and what follows has to match the rest of the pattern.
pub proof fn text_before_a_wildcard_stands_for_itself(
    text: Seq<char>,
    rest: Seq<Option<char>>,
    s: Seq<char>,
)
    ensures
        glob(text.map_values(|c: char| Some(c)) + rest, s) <==> has_prefix(s, text) && glob(
            rest,
            s.skip(text.len() as int),
        ),
    decreases text.len(),
{
    let toks = text.map_values(|c: char| Some(c)) + rest;
    if text.len() == 0 {
        assert(toks =~= rest);
        assert(s.skip(0) =~= s);
        assert(s.subrange(0, 0) =~= text);
    } else {
        let tail = text.drop_first();
        assert(toks.first() == Some(text[0]));
        assert(toks.drop_first() =~= tail.map_values(|c: char| Some(c)) + rest);
        if s.len() > 0 {
            let t = s.drop_first();
            text_before_a_wildcard_stands_for_itself(tail, rest, t);
            if t.len() >= tail.len() {
                assert(t.skip(tail.len() as int) =~= s.skip(text.len() as int));
                assert(text =~= seq![text[0]] + tail);
                let begin = s.subrange(0, text.len() as int);
                assert(begin =~= seq![s[0]] + t.subrange(0, tail.len() as int));
                assert(begin.drop_first() =~= t.subrange(0, tail.len() as int));
                assert(begin[0] == s[0]);
            }
        }
    }
}

} // verus!
