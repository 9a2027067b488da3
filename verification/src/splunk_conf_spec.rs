//! Splunk `.conf.spec` loader and validator.
//!
//! Splunk ships `.conf.spec` files that describe which stanzas and keys are valid
//! for each `.conf` file type (e.g. `inputs.conf.spec` describes `inputs.conf`).
//!
//! This module merges the definitions of spec files and validates parsed configuration documents
//! against them.
use std::path::PathBuf;

use vstd::prelude::*;
use vstd::slice::slice_subrange;

use crate::config_parser::{doc_view, ConfigStanza, Section, Setting};
use crate::platform::{join, joined_path};
use crate::stanza_pattern::pattern_matches;
pub use crate::stanza_pattern::StanzaPattern;
use crate::string_map::{StringMap, StringSet};
use crate::text::{
    chars_of, ends_with, find_char, first_index, first_index_is_least, has_suffix, lines,
    lines_start_with_the_first, split_lines, string_of, trim_class, trim_start_class, trimmed_both,
    trimmed_start, trimming_keeps_tight, trimming_takes_the_last, without_cr, CharClass,
};

verus! {

// ===== The meaning of a spec file =====

/// Which keys a spec allows, by stanza pattern.
pub type Rules = Map<Seq<char>, Set<Seq<char>>>;

/// Where a reader of a spec file stands between two lines.
pub struct SpecReading {
    pub stanzas: Rules,
    pub current: Option<Seq<char>>,
}

/// The keys allowed under a pattern: none where the pattern is not there.
pub open spec fn keys_under(rules: Rules, pattern: Seq<char>) -> Set<Seq<char>> {
    if rules.contains_key(pattern) {
        rules[pattern]
    } else {
        Set::empty()
    }
}

/// A line without the white space around it.
pub open spec fn bare(raw: Seq<char>) -> Seq<char> {
    trimmed_both(raw, CharClass::WhiteSpace)
}

/// Whether a bare line is a stanza header.
pub open spec fn is_spec_header(line: Seq<char>) -> bool {
    line.len() >= 2 && line.first() == '[' && line.last() == ']'
}

/// A bare line without a leading list mark.
pub open spec fn without_star(line: Seq<char>) -> Seq<char> {
    if line.len() > 0 && line.first() == '*' {
        trimmed_start(line.skip(1), CharClass::WhiteSpace)
    } else {
        line
    }
}

/// The key that a bare line defines, if it defines one.
pub open spec fn defined_key(line: Seq<char>) -> Option<Seq<char>> {
    let candidate = without_star(line);
    let eq = first_index(candidate, '=');
    let key = bare(candidate.take(eq as int));
    if candidate.len() == 0 || candidate.first() == '#' || candidate.first() == ';' || eq
        >= candidate.len() || key.len() == 0 {
        None
    } else {
        Some(key)
    }
}

/// What a line does.
pub open spec fn after_spec_line(r: SpecReading, raw: Seq<char>) -> SpecReading {
    let line = bare(raw);
    if line.len() == 0 || line.first() == '#' {
        r
    } else if is_spec_header(line) {
        let inner = bare(line.subrange(1, line.len() - 1));
        if inner.len() == 0 {
            SpecReading { stanzas: r.stanzas, current: None }
        } else {
            SpecReading {
                stanzas: r.stanzas.insert(inner, keys_under(r.stanzas, inner)),
                current: Some(inner),
            }
        }
    } else {
        match (r.current, defined_key(line)) {
            (Some(stanza), Some(key)) => SpecReading {
                stanzas: r.stanzas.insert(stanza, keys_under(r.stanzas, stanza).insert(key)),
                current: r.current,
            },
            _ => r,
        }
    }
}

/// What several lines do.
pub open spec fn after_spec_lines(r: SpecReading, ls: Seq<Seq<char>>) -> SpecReading
    decreases ls.len(),
{
    if ls.len() == 0 {
        r
    } else {
        after_spec_line(after_spec_lines(r, ls.drop_last()), ls.last())
    }
}

/// The stanzas that a spec file defines, with their keys.
pub open spec fn spec_of(content: Seq<char>) -> Rules {
    after_spec_lines(
        SpecReading { stanzas: Map::empty(), current: None },
        lines(content),
    ).stanzas
}

/// The rules that a map of key sets stands for.
pub open spec fn rules_of(m: StringMap<StringSet>) -> Rules {
    m@.map_values(|s: StringSet| s@)
}

/// The map and the sets in it are in order.
pub open spec fn sets_wf(m: StringMap<StringSet>) -> bool {
    m.wf() && forall|k: Seq<char>| #[trigger] m@.contains_key(k) ==> m@[k].wf()
}

/// Makes sure that there is a set for the stanza, and says where.
fn set_place(stanzas: &mut StringMap<StringSet>, name: &str) -> (r: usize)
    requires
        sets_wf(*old(stanzas)),
    ensures
        sets_wf(*final(stanzas)),
        rules_of(*final(stanzas)) == rules_of(*old(stanzas)).insert(
            name@,
            keys_under(rules_of(*old(stanzas)), name@),
        ),
        r < final(stanzas).keys().len(),
        final(stanzas).keys()[r as int] == name@,
{
    let ghost before = *stanzas;
    let r: usize = match stanzas.position(name) {
        Some(p) => p,
        None => {
            stanzas.push(name.to_string(), StringSet::new());
            stanzas.len() - 1
        },
    };
    proof {
        assert forall|k: Seq<char>| #[trigger] stanzas@.contains_key(k) implies stanzas@[k].wf() by {
            if before@.contains_key(k) {
                assert(stanzas@[k] == before@[k]);
            }
        }
        assert(rules_of(*stanzas) =~= rules_of(before).insert(
            name@,
            keys_under(rules_of(before), name@),
        ));
    }
    r
}

/// The key that a bare line defines, if it defines one.
fn key_of_line(line: &[char]) -> (r: Option<String>)
    ensures
        match r {
            Some(key) => defined_key(line@) == Some(key@),
            None => defined_key(line@) is None,
        },
{
    let candidate: &[char] = if line.len() > 0 && line[0] == '*' {
        let rest = slice_subrange(line, 1, line.len());
        assert(rest@ =~= line@.skip(1));
        trim_start_class(rest, CharClass::WhiteSpace)
    } else {
        line
    };
    if candidate.len() == 0 || candidate[0] == '#' || candidate[0] == ';' {
        return None;
    }
    match find_char(candidate, '=') {
        None => None,
        Some(eq) => {
            let before = slice_subrange(candidate, 0, eq);
            assert(before@ =~= candidate@.take(eq as int));
            let key = trim_class(before, CharClass::WhiteSpace);
            if key.len() == 0 {
                None
            } else {
                Some(string_of(key))
            }
        },
    }
}

/// The stanzas that a spec file defines, each with the keys that it lists.
///
/// A header `[pattern]` opens a stanza; an empty one closes the last. A line `key = ...`, with or
/// without a leading `*`, defines a key of the open stanza. Comments and other text are skipped.
pub fn parse_conf_spec_content(content: &str) -> (r: StringMap<StringSet>)
    ensures
        sets_wf(r),
        rules_of(r) == spec_of(content@),
{
    let mut stanzas: StringMap<StringSet> = StringMap::new();
    let mut current: Option<usize> = None;
    let chars = chars_of(content);
    let all = split_lines(&chars);
    let ghost ls = lines(content@);
    let ghost start = SpecReading { stanzas: Map::empty(), current: None };
    let mut i: usize = 0;
    proof {
        assert(ls.take(0) =~= Seq::empty());
        assert(rules_of(stanzas) =~= Map::empty());
    }
    while i < all.len()
        invariant
            i <= all@.len(),
            all@.len() == ls.len(),
            forall|k: int| 0 <= k < all@.len() ==> (#[trigger] all@[k])@ == ls[k],
            start == (SpecReading { stanzas: Map::empty(), current: None }),
            sets_wf(stanzas),
            rules_of(stanzas) == after_spec_lines(start, ls.take(i as int)).stanzas,
            match current {
                Some(p) => p < stanzas.keys().len() && after_spec_lines(
                    start,
                    ls.take(i as int),
                ).current == Some(stanzas.keys()[p as int]),
                None => after_spec_lines(start, ls.take(i as int)).current is None,
            },
        decreases all@.len() - i,
    {
        let line = trim_class(all[i], CharClass::WhiteSpace);
        let ghost now = after_spec_lines(start, ls.take(i as int));
        proof {
            assert(ls.take(i + 1).drop_last() =~= ls.take(i as int));
            assert(ls.take(i + 1).last() == ls[i as int]);
            assert(after_spec_lines(start, ls.take(i + 1)) == after_spec_line(now, ls[i as int]));
        }
        i += 1;
        if line.len() == 0 || line[0] == '#' {
            continue ;
        }
        if line.len() >= 2 && line[0] == '[' && line[line.len() - 1] == ']' {
            let mid = slice_subrange(line, 1, line.len() - 1);
            assert(mid@ =~= line@.subrange(1, line@.len() - 1));
            let inner = trim_class(mid, CharClass::WhiteSpace);
            if inner.len() == 0 {
                current = None;
                continue ;
            }
            let name = string_of(inner);
            let place = set_place(&mut stanzas, name.as_str());
            current = Some(place);
            continue ;
        }
        if let Some(place) = current {
            if let Some(key) = key_of_line(line) {
                let ghost before = stanzas;
                let ghost stanza = stanzas.keys()[place as int];
                let ghost k = key@;
                proof {
                    stanzas.keys_are_the_domain();
                    assert(stanzas.keys().contains(stanza));
                    assert(stanzas@.contains_key(stanza));
                }
                stanzas.value_mut(place).insert(key);
                proof {
                    assert forall|n: Seq<char>| #[trigger]
                        stanzas@.contains_key(n) implies stanzas@[n].wf() by {
                        if n != stanza {
                            assert(stanzas@[n] == before@[n]);
                        }
                    }
                    assert(rules_of(stanzas) =~= rules_of(before).insert(
                        stanza,
                        keys_under(rules_of(before), stanza).insert(k),
                    ));
                }
            }
        }
    }
    proof {
        assert(ls.take(i as int) =~= ls);
    }
    stanzas
}

// ===== Rules and violations =====

/// Two sets of rules taken together: every pattern of either, with the keys of both.
pub open spec fn merged(a: Rules, b: Rules) -> Rules {
    Map::new(
        |p: Seq<char>| a.contains_key(p) || b.contains_key(p),
        |p: Seq<char>| keys_under(a, p).union(keys_under(b, p)),
    )
}

/// Whether some rule is about the stanza.
pub open spec fn knows_stanza(rules: Rules, name: Seq<char>) -> bool {
    exists|p: Seq<char>| #[trigger] rules.contains_key(p) && pattern_matches(p, name)
}

/// Whether some rule about the stanza allows the key.
pub open spec fn allows_key(rules: Rules, name: Seq<char>, key: Seq<char>) -> bool {
    exists|p: Seq<char>| #[trigger]
        rules.contains_key(p) && pattern_matches(p, name) && rules[p].contains(key)
}

/// A finding, by what it says.
pub enum Violation {
    UnknownStanza(Seq<char>),
    UnknownKey(Seq<char>, Seq<char>),
}

/// One finding for every setting whose key no rule about the stanza allows, in order.
pub open spec fn key_violations(
    rules: Rules,
    name: Seq<char>,
    settings: Seq<Setting>,
) -> Seq<Violation>
    decreases settings.len(),
{
    if settings.len() == 0 {
        Seq::empty()
    } else {
        let before = key_violations(rules, name, settings.drop_last());
        if allows_key(rules, name, settings.last().key) {
            before
        } else {
            before.push(Violation::UnknownKey(name, settings.last().key))
        }
    }
}

/// The findings in one stanza. A stanza without settings has none; one that no rule is about has
/// one.
pub open spec fn stanza_violations(rules: Rules, stanza: Section) -> Seq<Violation> {
    if stanza.settings.len() == 0 {
        Seq::empty()
    } else if !knows_stanza(rules, stanza.name) {
        seq![Violation::UnknownStanza(stanza.name)]
    } else {
        key_violations(rules, stanza.name, stanza.settings)
    }
}

/// The findings in a document, stanza by stanza.
pub open spec fn doc_violations(rules: Rules, doc: Seq<Section>) -> Seq<Violation>
    decreases doc.len(),
{
    if doc.len() == 0 {
        Seq::empty()
    } else {
        doc_violations(rules, doc.drop_last()) + stanza_violations(rules, doc.last())
    }
}

/// Validation findings against `.conf.spec` rules.
#[derive(Debug, Clone, PartialEq, Eq)]
pub enum SpecViolation {
    /// Stanza did not match any stanza rule in the spec.
    UnknownStanza { stanza: String },
    /// Key is not allowed for the stanza according to the spec.
    UnknownKey { stanza: String, key: String },
}

impl View for SpecViolation {
    type V = Violation;

    open spec fn view(&self) -> Violation {
        match self {
            SpecViolation::UnknownStanza { stanza } => Violation::UnknownStanza(stanza@),
            SpecViolation::UnknownKey { stanza, key } => Violation::UnknownKey(stanza@, key@),
        }
    }
}

/// Findings, by what they say.
pub open spec fn findings(v: Seq<SpecViolation>) -> Seq<Violation> {
    v.map_values(|x: SpecViolation| x@)
}

// ===== The merged spec of one file type =====

struct StanzaRule {
    pattern: StanzaPattern,
    keys: StringSet,
}

/// A merged spec for a single `.conf` file type (e.g. `inputs.conf`).
pub struct ConfSpec {
    stanza_rules: StringMap<StanzaRule>,
}

impl Default for ConfSpec {
    /// A spec without rules.
    fn default() -> (r: Self)
        ensures
            r.wf(),
            r.rules() == Map::<Seq<char>, Set<Seq<char>>>::empty(),
    {
        let r = ConfSpec { stanza_rules: StringMap::new() };
        assert(r.rules() =~= Map::empty());
        r
    }
}

impl ConfSpec {
    /// The rules by their patterns.
    pub closed spec fn rules(self) -> Rules {
        self.stanza_rules@.map_values(|r: StanzaRule| r.keys@)
    }

    /// Every rule is in order and stands under its own pattern.
    pub closed spec fn wf(self) -> bool {
        &&& self.stanza_rules.wf()
        &&& forall|p: Seq<char>| #[trigger]
            self.stanza_rules@.contains_key(p) ==> {
                &&& self.stanza_rules@[p].pattern.wf()
                &&& self.stanza_rules@[p].pattern.raw() == p
                &&& self.stanza_rules@[p].keys.wf()
            }
    }

    /// Adds keys to the rule of a pattern, which is made where it is missing.
    fn add_rule(&mut self, pattern: &str, keys: &StringSet)
        requires
            old(self).wf(),
            keys.wf(),
        ensures
            final(self).wf(),
            final(self).rules() == old(self).rules().insert(
                pattern@,
                keys_under(old(self).rules(), pattern@).union(keys@),
            ),
    {
        let ghost before = *self;
        let place: usize = match self.stanza_rules.position(pattern) {
            Some(p) => p,
            None => {
                let rule = StanzaRule {
                    pattern: StanzaPattern::new(pattern.to_string()),
                    keys: StringSet::new(),
                };
                self.stanza_rules.push(pattern.to_string(), rule);
                self.stanza_rules.len() - 1
            },
        };
        let ghost mid = *self;
        proof {
            self.stanza_rules.keys_are_the_domain();
            assert(self.stanza_rules.keys()[place as int] == pattern@);
            assert(self.stanza_rules.keys().contains(pattern@));
            assert(self.stanza_rules@.contains_key(pattern@));
            assert(self.stanza_rules@[pattern@].keys@ =~= keys_under(before.rules(), pattern@));
        }
        self.stanza_rules.value_mut(place).keys.extend(keys);
        proof {
            assert forall|p: Seq<char>| #[trigger] self.stanza_rules@.contains_key(p) implies {
                &&& self.stanza_rules@[p].pattern.wf()
                &&& self.stanza_rules@[p].pattern.raw() == p
                &&& self.stanza_rules@[p].keys.wf()
            } by {
                assert(mid.stanza_rules@.contains_key(p));
                if p != pattern@ {
                    assert(before.stanza_rules@.contains_key(p));
                }
            }
            assert(self.rules() =~= before.rules().insert(
                pattern@,
                keys_under(before.rules(), pattern@).union(keys@),
            ));
        }
    }

    /// Adds the stanzas and keys that a spec file defines.
    pub fn merge_parsed(&mut self, parsed: StringMap<StringSet>)
        requires
            old(self).wf(),
            sets_wf(parsed),
        ensures
            final(self).wf(),
            final(self).rules() == merged(old(self).rules(), rules_of(parsed)),
    {
        let ghost before = self.rules();
        let ghost ks = parsed.keys();
        let ghost other = rules_of(parsed);
        let n = parsed.len();
        let mut i: usize = 0;
        proof {
            parsed.keys_are_the_domain();
        }
        while i < n
            invariant
                i <= n,
                n == ks.len(),
                sets_wf(parsed),
                ks == parsed.keys(),
                other == rules_of(parsed),
                ks.no_duplicates(),
                self.wf(),
                forall|p: Seq<char>| #[trigger]
                    self.rules().contains_key(p) <==> before.contains_key(p) || exists|j: int|
                        0 <= j < i && #[trigger] ks[j] == p,
                forall|j: int|
                    0 <= j < i ==> keys_under(self.rules(), #[trigger] ks[j]) == keys_under(
                        before,
                        ks[j],
                    ).union(other[ks[j]]),
                forall|p: Seq<char>|
                    (forall|j: int| 0 <= j < i ==> #[trigger] ks[j] != p) ==> #[trigger] keys_under(
                        self.rules(),
                        p,
                    ) == keys_under(before, p),
            decreases n - i,
        {
            let ghost now = self.rules();
            let key = parsed.key_at(i);
            let keys = parsed.value_at(i);
            self.add_rule(key.as_str(), keys);
            proof {
                let k = ks[i as int];
                assert(other[k] == keys@);
                assert forall|p: Seq<char>| #[trigger]
                    self.rules().contains_key(p) <==> before.contains_key(p) || exists|j: int|
                        0 <= j < i + 1 && #[trigger] ks[j] == p by {
                    assert(now.contains_key(p) <==> before.contains_key(p) || exists|j: int|
                        0 <= j < i && #[trigger] ks[j] == p);
                    if p == k {
                        assert(ks[i as int] == p);
                    }
                }
                assert forall|j: int| 0 <= j < i + 1 implies keys_under(
                    self.rules(),
                    #[trigger] ks[j],
                ) == keys_under(before, ks[j]).union(other[ks[j]]) by {
                    if j < i {
                        assert(ks[j] != k);
                        assert(keys_under(self.rules(), ks[j]) == keys_under(now, ks[j]));
                    } else {
                        assert(keys_under(now, k) == keys_under(before, k));
                    }
                }
                assert forall|p: Seq<char>|
                    (forall|j: int| 0 <= j < i + 1 ==> #[trigger] ks[j] != p) implies #[trigger] keys_under(
                    self.rules(),
                    p,
                ) == keys_under(before, p) by {
                    assert(ks[i as int] != p);
                    assert(keys_under(self.rules(), p) == keys_under(now, p));
                }
            }
            i += 1;
        }
        proof {
            let all = merged(before, other);
            assert forall|p: Seq<char>| self.rules().contains_key(p) <==> all.contains_key(p) by {
                assert(ks.contains(p) <==> parsed@.contains_key(p));
                if ks.contains(p) {
                    let j = choose|j: int| 0 <= j < ks.len() && ks[j] == p;
                    assert(ks[j] == p);
                }
                if exists|j: int| 0 <= j < i && #[trigger] ks[j] == p {
                    let j = choose|j: int| 0 <= j < i && #[trigger] ks[j] == p;
                    assert(ks.contains(ks[j]));
                }
            }
            assert forall|p: Seq<char>| #[trigger] self.rules().contains_key(p) implies self.rules()[p]
                =~= all[p] by {
                assert(keys_under(self.rules(), p) == self.rules()[p]);
                if ks.contains(p) {
                    let j = choose|j: int| 0 <= j < ks.len() && ks[j] == p;
                    assert(ks[j] == p);
                    assert(other.contains_key(p));
                } else {
                    assert(!parsed@.contains_key(p));
                    assert forall|j: int| 0 <= j < i implies #[trigger] ks[j] != p by {
                        assert(ks.contains(ks[j]));
                    }
                    assert(keys_under(self.rules(), p) == keys_under(before, p));
                }
            }
            assert(self.rules() =~= all);
        }
    }

    /// Checks a document against the rules.
    pub fn validate_doc(&self, doc: &Vec<ConfigStanza>) -> (r: Vec<SpecViolation>)
        requires
            self.wf(),
        ensures
            findings(r@) == doc_violations(self.rules(), doc_view(doc@)),
    {
        let mut violations: Vec<SpecViolation> = Vec::new();
        let ghost view = doc_view(doc@);
        let mut d: usize = 0;
        proof {
            assert(view.take(0) =~= Seq::empty());
            assert(findings(violations@) =~= Seq::empty());
        }
        while d < doc.len()
            invariant
                d <= doc@.len(),
                view == doc_view(doc@),
                self.wf(),
                findings(violations@) == doc_violations(self.rules(), view.take(d as int)),
            decreases doc@.len() - d,
        {
            let stanza = &doc[d];
            proof {
                assert(view[d as int] == stanza@);
                assert(view.take(d + 1).drop_last() =~= view.take(d as int));
                assert(view.take(d + 1).last() == stanza@);
            }
            self.validate_stanza(stanza, &mut violations);
            d += 1;
        }
        proof {
            assert(view.take(d as int) =~= view);
        }
        violations
    }

    /// The places of the rules about a stanza.
    fn matching_rules(&self, name: &str) -> (r: Vec<usize>)
        requires
            self.wf(),
        ensures
            forall|i: int|
                0 <= i < r@.len() ==> (#[trigger] r@[i]) < self.stanza_rules.keys().len()
                    && pattern_matches(self.stanza_rules.keys()[r@[i] as int], name@),
            forall|k: int|
                0 <= k < self.stanza_rules.keys().len() && pattern_matches(
                    #[trigger] self.stanza_rules.keys()[k],
                    name@,
                ) ==> exists|j: int| 0 <= j < r@.len() && #[trigger] r@[j] == k,
            r@.len() > 0 <==> knows_stanza(self.rules(), name@),
    {
        let n = self.stanza_rules.len();
        let ghost ks = self.stanza_rules.keys();
        let mut r: Vec<usize> = Vec::new();
        let mut i: usize = 0;
        while i < n
            invariant
                i <= n,
                n == ks.len(),
                ks == self.stanza_rules.keys(),
                self.wf(),
                forall|j: int|
                    0 <= j < r@.len() ==> (#[trigger] r@[j]) < i && pattern_matches(
                        ks[r@[j] as int],
                        name@,
                    ),
                forall|k: int|
                    0 <= k < i && pattern_matches(#[trigger] ks[k], name@) ==> exists|j: int|
                        0 <= j < r@.len() && #[trigger] r@[j] == k,
            decreases n - i,
        {
            let ghost sofar = r@;
            let rule = self.stanza_rules.value_at(i);
            if rule.pattern.matches(name) {
                r.push(i);
                proof {
                    assert forall|k: int|
                        0 <= k < i + 1 && pattern_matches(#[trigger] ks[k], name@) implies exists|
                        j: int,
                    |
                        0 <= j < r@.len() && #[trigger] r@[j] == k by {
                        if k < i {
                            let j = choose|j: int| 0 <= j < sofar.len() && #[trigger] sofar[j] == k;
                            assert(r@[j] == k);
                        } else {
                            assert(r@[sofar.len() as int] == i);
                        }
                    }
                }
            }
            i += 1;
        }
        proof {
            self.stanza_rules.keys_are_the_domain();
            if r@.len() > 0 {
                let p = ks[r@[0] as int];
                assert(ks.contains(p));
                assert(self.rules().contains_key(p));
            }
            if knows_stanza(self.rules(), name@) {
                let p = choose|p: Seq<char>| #[trigger]
                    self.rules().contains_key(p) && pattern_matches(p, name@);
                assert(self.stanza_rules@.contains_key(p));
                assert(ks.contains(p));
                let k = choose|k: int| 0 <= k < ks.len() && ks[k] == p;
                assert(pattern_matches(ks[k], name@));
                assert(exists|j: int| 0 <= j < r@.len() && #[trigger] r@[j] == k);
            }
        }
        r
    }

    /// Whether one of the rules about a stanza allows the key.
    fn allows(&self, name: &str, matching: &Vec<usize>, key: &str) -> (r: bool)
        requires
            self.wf(),
            forall|i: int|
                0 <= i < matching@.len() ==> (#[trigger] matching@[i])
                    < self.stanza_rules.keys().len() && pattern_matches(
                    self.stanza_rules.keys()[matching@[i] as int],
                    name@,
                ),
            forall|k: int|
                0 <= k < self.stanza_rules.keys().len() && pattern_matches(
                    #[trigger] self.stanza_rules.keys()[k],
                    name@,
                ) ==> exists|j: int| 0 <= j < matching@.len() && #[trigger] matching@[j] == k,
        ensures
            r == allows_key(self.rules(), name@, key@),
    {
        let ghost ks = self.stanza_rules.keys();
        proof {
            self.stanza_rules.keys_are_the_domain();
        }
        let mut i: usize = 0;
        while i < matching.len()
            invariant
                i <= matching@.len(),
                self.wf(),
                ks == self.stanza_rules.keys(),
                forall|p: Seq<char>| ks.contains(p) <==> #[trigger] self.stanza_rules@.contains_key(p),
                forall|j: int|
                    0 <= j < matching@.len() ==> (#[trigger] matching@[j]) < ks.len()
                        && pattern_matches(ks[matching@[j] as int], name@),
                forall|j: int|
                    0 <= j < i ==> !self.stanza_rules@[ks[(#[trigger] matching@[j]) as int]].keys@.contains(
                        key@,
                    ),
            decreases matching@.len() - i,
        {
            let rule = self.stanza_rules.value_at(matching[i]);
            if rule.keys.contains(key) {
                proof {
                    let p = ks[matching@[i as int] as int];
                    assert(self.rules().contains_key(p));
                    assert(self.rules()[p].contains(key@));
                }
                return true;
            }
            i += 1;
        }
        proof {
            if allows_key(self.rules(), name@, key@) {
                let p = choose|p: Seq<char>| #[trigger]
                    self.rules().contains_key(p) && pattern_matches(p, name@)
                        && self.rules()[p].contains(key@);
                assert(self.stanza_rules@.contains_key(p));
                let k = choose|k: int| 0 <= k < ks.len() && ks[k] == p;
                assert(pattern_matches(ks[k], name@));
                let j = choose|j: int| 0 <= j < matching@.len() && #[trigger] matching@[j] == k;
                assert(ks[matching@[j] as int] == p);
            }
        }
        false
    }

    /// Adds the findings in one stanza.
    fn validate_stanza(&self, stanza: &ConfigStanza, violations: &mut Vec<SpecViolation>)
        requires
            self.wf(),
        ensures
            findings(final(violations)@) == findings(old(violations)@) + stanza_violations(
                self.rules(),
                stanza@,
            ),
    {
        let ghost before = findings(violations@);
        let ghost rules = self.rules();
        let ghost settings = stanza@.settings;
        let ghost name = stanza.name@;
        if stanza.entries.len() == 0 {
            assert(before =~= before + stanza_violations(rules, stanza@));
            return ;
        }
        let matching = self.matching_rules(stanza.name.as_str());
        if matching.len() == 0 {
            violations.push(SpecViolation::UnknownStanza { stanza: stanza.name.clone() });
            assert(findings(violations@) =~= before + stanza_violations(rules, stanza@));
            return ;
        }
        let mut e: usize = 0;
        proof {
            assert(settings.take(0) =~= Seq::empty());
            assert(before =~= before + key_violations(rules, name, settings.take(0)));
        }
        while e < stanza.entries.len()
            invariant
                e <= stanza.entries@.len(),
                self.wf(),
                rules == self.rules(),
                settings == stanza@.settings,
                name == stanza.name@,
                findings(violations@) == before + key_violations(
                    rules,
                    name,
                    settings.take(e as int),
                ),
                forall|i: int|
                    0 <= i < matching@.len() ==> (#[trigger] matching@[i])
                        < self.stanza_rules.keys().len() && pattern_matches(
                        self.stanza_rules.keys()[matching@[i] as int],
                        name,
                    ),
                forall|k: int|
                    0 <= k < self.stanza_rules.keys().len() && pattern_matches(
                        #[trigger] self.stanza_rules.keys()[k],
                        name,
                    ) ==> exists|j: int| 0 <= j < matching@.len() && #[trigger] matching@[j] == k,
            decreases stanza.entries@.len() - e,
        {
            let entry = &stanza.entries[e];
            let ghost now = violations@;
            proof {
                assert(settings[e as int] == entry@);
                assert(settings.take(e + 1).drop_last() =~= settings.take(e as int));
                assert(settings.take(e + 1).last() == entry@);
            }
            if !self.allows(stanza.name.as_str(), &matching, entry.key.as_str()) {
                violations.push(
                    SpecViolation::UnknownKey {
                        stanza: stanza.name.clone(),
                        key: entry.key.clone(),
                    },
                );
                assert(findings(violations@) =~= findings(now).push(
                    Violation::UnknownKey(name, entry.key@),
                ));
                assert(findings(violations@) =~= before + key_violations(
                    rules,
                    name,
                    settings.take(e + 1),
                ));
            }
            e += 1;
        }
        proof {
            assert(settings.take(e as int) =~= settings);
        }
    }
}

// ===== The registry =====

/// The rules of every `.conf` file type.
pub type Specs = Map<Seq<char>, Rules>;

/// A file that the search for specs came across, in the order of the search.
pub struct SpecFile {
    pub is_symlink: bool,
    pub is_file: bool,
    /// The name of the file, where it is proper text.
    pub name: Option<String>,
    /// What reading the file gave.
    pub content: Result<String, std::io::Error>,
}

/// The end of the name of a spec file.
pub open spec fn spec_suffix() -> Seq<char> {
    seq!['.', 's', 'p', 'e', 'c']
}

/// The end of the name of a spec file for a `.conf` file.
pub open spec fn conf_spec_suffix() -> Seq<char> {
    seq!['.', 'c', 'o', 'n', 'f', '.', 's', 'p', 'e', 'c']
}

/// Whether the file is one to load: a regular file, no link, named `*.conf.spec`.
pub open spec fn to_load(f: SpecFile) -> bool {
    !f.is_symlink && f.is_file && f.name is Some && has_suffix(f.name->0@, conf_spec_suffix())
}

/// The error of the first file to load that could not be read.
pub open spec fn first_failure(files: Seq<SpecFile>) -> Option<std::io::Error>
    decreases files.len(),
{
    if files.len() == 0 {
        None
    } else if to_load(files.first()) && files.first().content is Err {
        Some(files.first().content->Err_0)
    } else {
        first_failure(files.drop_first())
    }
}

/// The rules of a file type: none where it is not there.
pub open spec fn rules_for(specs: Specs, conf: Seq<char>) -> Rules {
    if specs.contains_key(conf) {
        specs[conf]
    } else {
        Map::empty()
    }
}

/// The specs with one more file, which adds to the rules of its type.
pub open spec fn with_file(specs: Specs, name: Seq<char>, content: Seq<char>) -> Specs {
    let conf = name.take(name.len() - 5);
    specs.insert(conf, merged(rules_for(specs, conf), spec_of(content)))
}

/// The specs of all files to load.
pub open spec fn specs_of(files: Seq<SpecFile>) -> Specs
    decreases files.len(),
{
    if files.len() == 0 {
        Map::empty()
    } else if to_load(files.last()) && files.last().content is Ok {
        with_file(
            specs_of(files.drop_last()),
            files.last().name->0@,
            files.last().content->Ok_0@,
        )
    } else {
        specs_of(files.drop_last())
    }
}

/// How many files are to be loaded.
pub open spec fn load_count(files: Seq<SpecFile>) -> nat
    decreases files.len(),
{
    if files.len() == 0 {
        0
    } else {
        load_count(files.drop_last()) + (if to_load(files.last()) {
            1nat
        } else {
            0
        })
    }
}

proof fn conf_spec_is_spec(name: Seq<char>)
    requires
        has_suffix(name, conf_spec_suffix()),
    ensures
        has_suffix(name, spec_suffix()),
{
    assert(spec_suffix() =~= conf_spec_suffix().skip(5));
    assert(name.skip(name.len() - 5) =~= name.skip(name.len() - 10).skip(5));
}

/// Whether a file that the search comes across is one to load.
pub fn is_spec_file(is_symlink: bool, is_file: bool, name: Option<&str>) -> (r: bool)
    ensures
        r == (!is_symlink && is_file && match name {
            Some(n) => has_suffix(n@, conf_spec_suffix()),
            None => false,
        }),
{
    if is_symlink || !is_file {
        return false;
    }
    match name {
        None => false,
        Some(n) => {
            proof {
                reveal_strlit(".conf.spec");
                assert(".conf.spec"@ =~= conf_spec_suffix());
            }
            let chars = chars_of(n);
            let suffix = chars_of(".conf.spec");
            ends_with(&chars, &suffix)
        },
    }
}

/// The merged spec registry, keyed by config filename (e.g. `inputs.conf`).
pub struct ConfSpecRegistry {
    specs: StringMap<ConfSpec>,
    loaded_files: usize,
}

impl Default for ConfSpecRegistry {
    /// An empty registry.
    fn default() -> (r: Self)
        ensures
            r.wf(),
            r.specs() == Map::<Seq<char>, Rules>::empty(),
            r.load_total() == 0,
    {
        let r = ConfSpecRegistry { specs: StringMap::new(), loaded_files: 0 };
        assert(r.specs() =~= Map::empty());
        r
    }
}

/// What loading comes to: the error of the look at the directory; or the error of the first file
/// to load that could not be read; or a registry of all files to load.
pub open spec fn load_outcome(
    present: Result<bool, std::io::Error>,
    files: Seq<SpecFile>,
    r: Result<ConfSpecRegistry, std::io::Error>,
) -> bool {
    match present {
        Err(e) => r is Err && r->Err_0 == e,
        Ok(there) => {
            let found = if there { files } else { Seq::empty() };
            match first_failure(found) {
                Some(e) => r is Err && r->Err_0 == e,
                None => r is Ok && r->Ok_0.wf() && r->Ok_0.specs() == specs_of(found)
                    && r->Ok_0.load_total() == load_count(found),
            }
        },
    }
}

impl ConfSpecRegistry {
    /// The rules of every file type.
    pub closed spec fn specs(self) -> Specs {
        self.specs@.map_values(|s: ConfSpec| s.rules())
    }

    /// How many files have been loaded.
    pub closed spec fn load_total(self) -> nat {
        self.loaded_files as nat
    }

    /// Every spec is in order.
    pub closed spec fn wf(self) -> bool {
        self.specs.wf() && forall|c: Seq<char>| #[trigger]
            self.specs@.contains_key(c) ==> self.specs@[c].wf()
    }

    /// Where the `.conf.spec` files of a Splunk installation are: in `etc` under its root.
    pub fn spec_dir(splunk_root: &PathBuf) -> (r: PathBuf)
        ensures
            r == joined_path(*splunk_root, "etc"@),
    {
        join(splunk_root, "etc")
    }

    /// Load all `.conf.spec` files under the Splunk installation root and merge them.
    ///
    /// `present` and `files` are what was found in [`ConfSpecRegistry::spec_dir`]. If no specs are
    /// found, an empty registry is returned.
    pub fn load_from_splunk_root(
        present: Result<bool, std::io::Error>,
        files: Vec<SpecFile>,
    ) -> (r: Result<Self, std::io::Error>)
        ensures
            load_outcome(present, files@, r),
    {
        Self::load_from_dir(present, files)
    }

    /// Load all `.conf.spec` files under a directory and merge them.
    ///
    /// `present` says whether the directory is there, and `files` is what the search of it came
    /// across. The first file to load that could not be read ends the loading with its error.
    pub fn load_from_dir(
        present: Result<bool, std::io::Error>,
        files: Vec<SpecFile>,
    ) -> (r: Result<Self, std::io::Error>)
        ensures
            load_outcome(present, files@, r),
    {
        match present {
            Err(e) => {
                return Err(e);
            },
            Ok(there) => {
                if !there {
                    return Ok(Self::default());
                }
            },
        }
        let ghost all = files@;
        let total = files.len();
        let mut registry = Self::default();
        proof {
            assert(all.take(0) =~= Seq::empty());
            assert(all.skip(0) =~= all);
        }
        for file in it: files
            invariant
                it.seq() == all,
                all == files@,
                present == Ok::<bool, std::io::Error>(true),
                registry.wf(),
                total == all.len(),
                registry.specs() == specs_of(all.take(it.index())),
                registry.load_total() == load_count(all.take(it.index())),
                registry.load_total() <= it.index(),
                first_failure(all) == first_failure(all.skip(it.index())),
        {
            let ghost i = it.index();
            proof {
                assert(file == all[i]);
                assert(all.take(i + 1).drop_last() =~= all.take(i));
                assert(all.take(i + 1).last() == file);
                assert(all.skip(i).first() == file);
                assert(all.skip(i).drop_first() =~= all.skip(i + 1));
            }
            let name: Option<&str> = match &file.name {
                Some(n) => Some(n.as_str()),
                None => None,
            };
            if is_spec_file(file.is_symlink, file.is_file, name) {
                match file.content {
                    Err(e) => {
                        return Err(e);
                    },
                    Ok(content) => {
                        if let Some(n) = &file.name {
                            proof {
                                conf_spec_is_spec(n@);
                            }
                            registry.merge_spec_file(n.as_str(), content.as_str());
                        }
                    },
                }
            }
        }
        proof {
            assert(all.take(all.len() as int) =~= all);
            assert(all.skip(all.len() as int) =~= Seq::empty());
        }
        Ok(registry)
    }

    /// Number of `.conf.spec` files successfully loaded and merged.
    pub fn loaded_files(&self) -> (r: usize)
        ensures
            r == self.load_total(),
    {
        self.loaded_files
    }

    /// Number of distinct `.conf` config types present in the registry.
    pub fn conf_types(&self) -> (r: usize)
        requires
            self.wf(),
        ensures
            r == self.specs().dom().len(),
    {
        assert(self.specs().dom() =~= self.specs@.dom());
        self.specs.len()
    }

    /// Validate a parsed config document against the merged spec for `conf_file_name`.
    ///
    /// If no spec exists for this config type, returns an empty vector.
    pub fn validate_doc(&self, conf_file_name: &str, doc: &Vec<ConfigStanza>) -> (r: Vec<
        SpecViolation,
    >)
        requires
            self.wf(),
        ensures
            findings(r@) == (if self.specs().contains_key(conf_file_name@) {
                doc_violations(self.specs()[conf_file_name@], doc_view(doc@))
            } else {
                Seq::empty()
            }),
    {
        match self.specs.get(conf_file_name) {
            Some(spec) => spec.validate_doc(doc),
            None => {
                let none: Vec<SpecViolation> = Vec::new();
                assert(findings(none@) =~= Seq::empty());
                none
            },
        }
    }

    /// Merges a spec file into the spec of its type: `inputs.conf.spec` adds to `inputs.conf`.
    fn merge_spec_file(&mut self, file_name: &str, content: &str)
        requires
            old(self).wf(),
            has_suffix(file_name@, spec_suffix()),
            old(self).load_total() < usize::MAX,
        ensures
            final(self).wf(),
            final(self).specs() == with_file(old(self).specs(), file_name@, content@),
            final(self).load_total() == old(self).load_total() + 1,
    {
        let ghost before = *self;
        let chars = chars_of(file_name);
        let conf_name = string_of(slice_subrange(chars.as_slice(), 0, chars.len() - 5));
        let ghost conf = conf_name@;
        assert(conf =~= file_name@.take(file_name@.len() - 5));
        let parsed = parse_conf_spec_content(content);
        let place: usize = match self.specs.position(conf_name.as_str()) {
            Some(p) => p,
            None => {
                self.specs.push(conf_name, ConfSpec::default());
                self.specs.len() - 1
            },
        };
        let ghost mid = *self;
        proof {
            self.specs.keys_are_the_domain();
            assert(self.specs.keys()[place as int] == conf);
            assert(self.specs.keys().contains(conf));
            assert(self.specs@.contains_key(conf));
            assert(self.specs@[conf].rules() == rules_for(before.specs(), conf));
        }
        self.specs.value_mut(place).merge_parsed(parsed);
        self.loaded_files += 1;
        proof {
            assert forall|c: Seq<char>| #[trigger] self.specs@.contains_key(c) implies self.specs@[c].wf() by {
                assert(mid.specs@.contains_key(c));
                if c != conf {
                    assert(before.specs@.contains_key(c));
                }
            }
            assert(self.specs() =~= with_file(before.specs(), file_name@, content@));
        }
    }
}

// ===== Laws =====

/// Reading on never takes back a stanza or a key.
pub proof fn later_lines_only_add(r: SpecReading, ls: Seq<Seq<char>>, stanza: Seq<char>, key: Seq<char>)
    ensures
        r.stanzas.contains_key(stanza) ==> after_spec_lines(r, ls).stanzas.contains_key(stanza),
        keys_under(r.stanzas, stanza).contains(key) ==> keys_under(
            after_spec_lines(r, ls).stanzas,
            stanza,
        ).contains(key),
    decreases ls.len(),
{
    if ls.len() > 0 {
        later_lines_only_add(r, ls.drop_last(), stanza, key);
    }
}

proof fn after_spec_lines_concat(r: SpecReading, a: Seq<Seq<char>>, b: Seq<Seq<char>>)
    ensures
        after_spec_lines(r, a + b) == after_spec_lines(after_spec_lines(r, a), b),
    decreases b.len(),
{
    if b.len() == 0 {
        assert(a + b =~= a);
    } else {
        assert((a + b).drop_last() =~= a + b.drop_last());
        assert((a + b).last() == b.last());
        after_spec_lines_concat(r, a, b.drop_last());
    }
}

proof fn after_one_spec_line(r: SpecReading, line: Seq<char>)
    ensures
        after_spec_lines(r, seq![line]) == after_spec_line(r, line),
{
    assert(seq![line].drop_last() =~= Seq::empty());
    assert(after_spec_lines(r, seq![line].drop_last()) == r);
}

/// Reading a text, a line feed and another text is reading the one and then the other.
proof fn texts_are_read_in_turn(r: SpecReading, a: Seq<char>, b: Seq<char>)
    ensures
        after_spec_lines(r, lines(a + seq!['\n'] + b)) == after_spec_lines(
            after_spec_lines(r, lines(a)),
            lines(b),
        ),
    decreases a.len(),
{
    let feed = seq!['\n'];
    first_index_is_least(a, '\n');
    let n = first_index(a, '\n') as int;
    let line = a.take(n);
    assert(!line.contains('\n'));
    let cut = without_cr(line);
    if n < a.len() {
        let rest = a.skip(n + 1);
        assert(a + feed + b =~= line + feed + (rest + feed + b));
        lines_start_with_the_first(line, rest + feed + b);
        assert(lines(a) == seq![cut] + lines(rest));
        after_spec_lines_concat(r, seq![cut], lines(rest + feed + b));
        after_spec_lines_concat(r, seq![cut], lines(rest));
        texts_are_read_in_turn(after_spec_lines(r, seq![cut]), rest, b);
    } else {
        assert(line =~= a);
        lines_start_with_the_first(a, b);
        after_spec_lines_concat(r, seq![cut], lines(b));
        after_one_spec_line(r, cut);
        after_one_spec_line(r, a);
        if cut != a {
            trimming_takes_the_last(a, CharClass::WhiteSpace);
        }
        assert(after_spec_line(r, cut) == after_spec_line(r, a));
        if a.len() == 0 {
            assert(after_spec_line(r, a) == r);
        }
    }
}

/// What was defined before stays, and what is read is added to it.
proof fn reading_adds(rules: Rules, ls: Seq<Seq<char>>)
    ensures
        ({
            let alone = after_spec_lines(SpecReading { stanzas: Map::empty(), current: None }, ls);
            after_spec_lines(SpecReading { stanzas: rules, current: None }, ls) == (SpecReading {
                stanzas: merged(rules, alone.stanzas),
                current: alone.current,
            })
        }),
    decreases ls.len(),
{
    let start = SpecReading { stanzas: Map::empty(), current: None };
    let from = SpecReading { stanzas: rules, current: None };
    if ls.len() == 0 {
        assert(merged(rules, start.stanzas) =~= rules) by {
            assert forall|p: Seq<char>| #[trigger] rules.contains_key(p) implies keys_under(
                rules,
                p,
            ).union(keys_under(start.stanzas, p)) == rules[p] by {
                assert(rules[p].union(Set::empty()) =~= rules[p]);
            }
        }
    } else {
        reading_adds(rules, ls.drop_last());
        let alone = after_spec_lines(start, ls.drop_last());
        let both = after_spec_lines(from, ls.drop_last());
        let line = bare(ls.last());
        let inner = bare(line.subrange(1, line.len() - 1));
        let next = after_spec_line(alone, ls.last()).stanzas;
        assert(after_spec_line(both, ls.last()).stanzas =~= merged(rules, next)) by {
            adding_under(rules, alone.stanzas, inner, Set::empty());
            match (alone.current, defined_key(line)) {
                (Some(stanza), Some(key)) => {
                    adding_under(rules, alone.stanzas, stanza, set![key]);
                    assert(keys_under(both.stanzas, stanza).insert(key) =~= keys_under(
                        both.stanzas,
                        stanza,
                    ).union(set![key]));
                    assert(keys_under(alone.stanzas, stanza).insert(key) =~= keys_under(
                        alone.stanzas,
                        stanza,
                    ).union(set![key]));
                },
                _ => {},
            }
            assert(keys_under(both.stanzas, inner).union(Set::empty()) =~= keys_under(
                both.stanzas,
                inner,
            ));
            assert(keys_under(alone.stanzas, inner).union(Set::empty()) =~= keys_under(
                alone.stanzas,
                inner,
            ));
        }
    }
}

proof fn adding_under(a: Rules, b: Rules, pattern: Seq<char>, keys: Set<Seq<char>>)
    ensures
        merged(a, b).insert(pattern, keys_under(merged(a, b), pattern).union(keys)) == merged(
            a,
            b.insert(pattern, keys_under(b, pattern).union(keys)),
        ),
{
    let left = merged(a, b).insert(pattern, keys_under(merged(a, b), pattern).union(keys));
    let right = merged(a, b.insert(pattern, keys_under(b, pattern).union(keys)));
    assert forall|p: Seq<char>| #[trigger] left.contains_key(p) implies left[p] =~= right[p] by {}
    assert(left =~= right);
}

/// Two spec files of which the first is closed by an empty header define together what each of
/// them defines.
pub proof fn joined_specs_are_merged(a: Seq<char>, b: Seq<char>)
    ensures
        spec_of(a + seq!['\n', '[', ']', '\n'] + b) == merged(spec_of(a), spec_of(b)),
{
    let start = SpecReading { stanzas: Map::empty(), current: None };
    let close = seq!['[', ']'];
    let feed = seq!['\n'];
    assert(a + seq!['\n', '[', ']', '\n'] + b =~= a + feed + (close + feed + b));
    let first = after_spec_lines(start, lines(a));
    texts_are_read_in_turn(start, a, close + feed + b);
    assert(!close.contains('\n'));
    lines_start_with_the_first(close, b);
    after_spec_lines_concat(first, seq![close], lines(b));
    after_one_spec_line(first, close);
    trimming_keeps_tight(close, CharClass::WhiteSpace);
    assert(close.subrange(1, 1) =~= Seq::empty());
    assert(bare(close.subrange(1, 1)).len() == 0);
    reading_adds(first.stanzas, lines(b));
}

/// Rules can be merged in any order and grouping, and merging the same rules again changes
/// nothing.
pub proof fn merging_is_a_union(a: Rules, b: Rules, c: Rules)
    ensures
        merged(a, b) == merged(b, a),
        merged(merged(a, b), c) == merged(a, merged(b, c)),
        merged(a, a) == a,
        merged(a, Map::empty()) == a,
{
    assert forall|p: Seq<char>| keys_under(a, p).union(keys_under(b, p)) == keys_under(b, p).union(
        keys_under(a, p),
    ) by {
        assert(keys_under(a, p).union(keys_under(b, p)) =~= keys_under(b, p).union(
            keys_under(a, p),
        ));
    }
    assert(merged(a, b) =~= merged(b, a));
    let left = merged(merged(a, b), c);
    let right = merged(a, merged(b, c));
    assert forall|p: Seq<char>| #[trigger] left.contains_key(p) implies left[p] == right[p] by {
        assert(keys_under(merged(a, b), p) =~= keys_under(a, p).union(keys_under(b, p)));
        assert(keys_under(merged(b, c), p) =~= keys_under(b, p).union(keys_under(c, p)));
        assert(left[p] =~= right[p]);
    }
    assert(left =~= right);
    let twice = merged(a, a);
    assert forall|p: Seq<char>| #[trigger] twice.contains_key(p) implies twice[p] == a[p] by {
        assert(twice[p] =~= a[p]);
    }
    assert(twice =~= a);
    let alone = merged(a, Map::empty());
    assert forall|p: Seq<char>| #[trigger] alone.contains_key(p) implies alone[p] == a[p] by {
        assert(alone[p] =~= a[p]);
    }
    assert(alone =~= a);
}

/// More rules never forbid: a stanza that was known stays known, and a key that was allowed stays
/// allowed.
pub proof fn merging_keeps_what_is_allowed(a: Rules, b: Rules, name: Seq<char>, key: Seq<char>)
    ensures
        knows_stanza(a, name) ==> knows_stanza(merged(a, b), name),
        allows_key(a, name, key) ==> allows_key(merged(a, b), name, key),
{
    let all = merged(a, b);
    if knows_stanza(a, name) {
        let p = choose|p: Seq<char>| #[trigger] a.contains_key(p) && pattern_matches(p, name);
        assert(all.contains_key(p));
    }
    if allows_key(a, name, key) {
        let p = choose|p: Seq<char>| #[trigger]
            a.contains_key(p) && pattern_matches(p, name) && a[p].contains(key);
        assert(all.contains_key(p));
        assert(all[p].contains(key));
    }
}

/// Two files can be loaded in either order.
pub proof fn files_merge_in_any_order(
    specs: Specs,
    name: Seq<char>,
    content: Seq<char>,
    other_name: Seq<char>,
    other_content: Seq<char>,
)
    ensures
        with_file(with_file(specs, name, content), other_name, other_content) == with_file(
            with_file(specs, other_name, other_content),
            name,
            content,
        ),
{
    let conf = name.take(name.len() - 5);
    let other = other_name.take(other_name.len() - 5);
    let left = with_file(with_file(specs, name, content), other_name, other_content);
    let right = with_file(with_file(specs, other_name, other_content), name, content);
    if conf == other {
        let base = rules_for(specs, conf);
        let x = spec_of(content);
        let y = spec_of(other_content);
        merging_is_a_union(base, x, y);
        merging_is_a_union(base, y, x);
        merging_is_a_union(x, y, base);
    }
    assert(left =~= right);
}

/// Whether every key of every stanza is allowed.
pub open spec fn all_allowed(rules: Rules, doc: Seq<Section>) -> bool {
    forall|i: int, j: int|
        #![trigger doc[i].settings[j]]
        0 <= i < doc.len() && 0 <= j < doc[i].settings.len() ==> allows_key(
            rules,
            doc[i].name,
            doc[i].settings[j].key,
        )
}

proof fn no_key_findings(rules: Rules, name: Seq<char>, settings: Seq<Setting>)
    ensures
        key_violations(rules, name, settings).len() == 0 <==> forall|j: int|
            0 <= j < settings.len() ==> allows_key(rules, name, (#[trigger] settings[j]).key),
    decreases settings.len(),
{
    if settings.len() > 0 {
        let fewer = settings.drop_last();
        no_key_findings(rules, name, fewer);
        assert(forall|j: int| 0 <= j < fewer.len() ==> fewer[j] == settings[j]);
        if forall|j: int|
            0 <= j < fewer.len() ==> allows_key(rules, name, (#[trigger] fewer[j]).key) {
            assert forall|j: int| 0 <= j < settings.len() && allows_key(
                rules,
                name,
                settings.last().key,
            ) implies allows_key(rules, name, (#[trigger] settings[j]).key) by {
                if j < fewer.len() {
                    assert(fewer[j] == settings[j]);
                }
            }
        } else {
            let j = choose|j: int|
                0 <= j < fewer.len() && !allows_key(rules, name, (#[trigger] fewer[j]).key);
            assert(!allows_key(rules, name, settings[j].key));
        }
    }
}

proof fn no_stanza_findings(rules: Rules, stanza: Section)
    ensures
        stanza_violations(rules, stanza).len() == 0 <==> forall|j: int|
            0 <= j < stanza.settings.len() ==> allows_key(
                rules,
                stanza.name,
                (#[trigger] stanza.settings[j]).key,
            ),
{
    no_key_findings(rules, stanza.name, stanza.settings);
    if stanza.settings.len() > 0 && !knows_stanza(rules, stanza.name) {
        let key = stanza.settings[0].key;
        if allows_key(rules, stanza.name, key) {
            let p = choose|p: Seq<char>| #[trigger]
                rules.contains_key(p) && pattern_matches(p, stanza.name) && rules[p].contains(key);
            assert(knows_stanza(rules, stanza.name));
        }
    }
}

/// A document has no findings exactly when every key of every stanza is allowed.
pub proof fn no_findings_means_all_allowed(rules: Rules, doc: Seq<Section>)
    ensures
        doc_violations(rules, doc).len() == 0 <==> all_allowed(rules, doc),
    decreases doc.len(),
{
    if doc.len() > 0 {
        let fewer = doc.drop_last();
        let last = doc.last();
        no_findings_means_all_allowed(rules, fewer);
        no_stanza_findings(rules, last);
        if all_allowed(rules, doc) {
            assert forall|i: int, j: int|
                #![trigger fewer[i].settings[j]]
                0 <= i < fewer.len() && 0 <= j < fewer[i].settings.len() implies allows_key(
                rules,
                fewer[i].name,
                fewer[i].settings[j].key,
            ) by {
                assert(doc[i].settings[j] == fewer[i].settings[j]);
            }
            assert forall|j: int| 0 <= j < last.settings.len() implies allows_key(
                rules,
                last.name,
                (#[trigger] last.settings[j]).key,
            ) by {
                assert(doc[doc.len() - 1].settings[j] == last.settings[j]);
            }
        }
        if doc_violations(rules, doc).len() == 0 {
            assert forall|i: int, j: int|
                #![trigger doc[i].settings[j]]
                0 <= i < doc.len() && 0 <= j < doc[i].settings.len() implies allows_key(
                rules,
                doc[i].name,
                doc[i].settings[j].key,
            ) by {
                if i < fewer.len() {
                    assert(doc[i].settings[j] == fewer[i].settings[j]);
                } else {
                    assert(doc[i].settings[j] == last.settings[j]);
                }
            }
        }
    }
}

} // verus!
