//! What holds of values that are looked up: in one file or several, the version, the hostname, and
//! files that cannot be read.
use std::path::PathBuf;
use std::sync::Arc;

use vstd::prelude::*;

use crate::config_laws::parts_of;
use crate::config_parser::{default_name, has_stanza, parsed, Section, Setting};
use crate::get_splunk_hostname::{local_dir, resolution, settled_host, Probe};
use crate::platform::{joined_path, path_text};
use crate::splunk_config_processor::{
    all_sections, first_in, first_value, is_unread, merges, normalized, version_in, version_mark,
    wrapped_next, Dictionary, FileContent, ReadFailure,
};
use crate::text::{has_prefix, trimmed};
use crate::text_laws::{
    has_no_outer_blank, is_blank_run, trimming_leaves_what_is_between_the_blanks,
};

verus! {

// ===== The first value counts =====

/// Whether a setting of that key stands there in a stanza of that name.
pub open spec fn sets(sections: Seq<Section>, name: Seq<char>, key: Seq<char>, i: int, j: int) -> bool {
    &&& 0 <= i < sections.len()
    &&& 0 <= j < sections[i].settings.len()
    &&& sections[i].name == name
    &&& sections[i].settings[j].key == key
}

/// Whether it is the first one.
pub open spec fn sets_first(
    sections: Seq<Section>,
    name: Seq<char>,
    key: Seq<char>,
    i: int,
    j: int,
) -> bool {
    &&& sets(sections, name, key, i, j)
    &&& forall|k: int, l: int| #[trigger]
        sets(sections, name, key, k, l) ==> i < k || (i == k && j <= l)
}

proof fn first_setting_counts(settings: Seq<Setting>, key: Seq<char>, j: int)
    ensures
        0 <= j < settings.len() && settings[j].key == key && (forall|l: int|
            0 <= l < j ==> (#[trigger] settings[l]).key != key) ==> first_in(settings, key) == Some(
            settings[j].value,
        ),
        (forall|l: int| 0 <= l < settings.len() ==> (#[trigger] settings[l]).key != key)
            ==> first_in(settings, key) is None,
    decreases settings.len(),
{
    if settings.len() > 0 {
        let rest = settings.drop_first();
        first_setting_counts(rest, key, j - 1);
        if settings.first().key != key {
            if 0 < j < settings.len() {
                assert(rest[j - 1] == settings[j]);
            }
            if 0 < j < settings.len() && forall|l: int|
                0 <= l < j ==> (#[trigger] settings[l]).key != key {
                assert forall|l: int| 0 <= l < j - 1 implies (#[trigger] rest[l]).key != key by {
                    assert(rest[l] == settings[l + 1]);
                }
            }
            if forall|l: int| 0 <= l < settings.len() ==> (#[trigger] settings[l]).key != key {
                assert forall|l: int| 0 <= l < rest.len() implies (#[trigger] rest[l]).key
                    != key by {
                    assert(rest[l] == settings[l + 1]);
                }
            }
        } else {
            assert(settings[0].key == key);
        }
    }
}

/// Of all settings of a key in all stanzas of a name, the first one counts; where there is none,
/// there is no value.
pub proof fn first_settings_count(
    sections: Seq<Section>,
    name: Seq<char>,
    key: Seq<char>,
    i: int,
    j: int,
)
    ensures
        sets_first(sections, name, key, i, j) ==> first_value(sections, name, key) == Some(
            sections[i].settings[j].value,
        ),
        (forall|k: int, l: int| !#[trigger] sets(sections, name, key, k, l)) ==> first_value(
            sections,
            name,
            key,
        ) is None,
    decreases sections.len(),
{
    if sections.len() > 0 {
        let first = sections.first();
        let rest = sections.drop_first();
        assert forall|k: int, l: int| #[trigger] sets(rest, name, key, k, l) implies sets(
            sections,
            name,
            key,
            k + 1,
            l,
        ) by {
            assert(rest[k] == sections[k + 1]);
        }
        first_settings_count(rest, name, key, i - 1, j);
        if sets_first(sections, name, key, i, j) {
            if i == 0 {
                assert forall|l: int| 0 <= l < j implies (#[trigger] first.settings[l]).key
                    != key by {
                    if first.settings[l].key == key {
                        assert(sets(sections, name, key, 0, l));
                    }
                }
                first_setting_counts(first.settings, key, j);
            } else {
                if first.name == name {
                    assert forall|l: int| 0 <= l < first.settings.len() implies (
                    #[trigger] first.settings[l]).key != key by {
                        if first.settings[l].key == key {
                            assert(sets(sections, name, key, 0, l));
                        }
                    }
                    first_setting_counts(first.settings, key, 0);
                }
                assert(rest[i - 1] == sections[i]);
                assert(sets(rest, name, key, i - 1, j));
                assert forall|k: int, l: int| #[trigger] sets(rest, name, key, k, l) implies i - 1
                    < k || (i - 1 == k && j <= l) by {
                    assert(sets(sections, name, key, k + 1, l));
                }
                assert(sets_first(rest, name, key, i - 1, j));
            }
        }
        if forall|k: int, l: int| !#[trigger] sets(sections, name, key, k, l) {
            if first.name == name {
                assert forall|l: int| 0 <= l < first.settings.len() implies (
                #[trigger] first.settings[l]).key != key by {
                    if first.settings[l].key == key {
                        assert(sets(sections, name, key, 0, l));
                    }
                }
                first_setting_counts(first.settings, key, 0);
            }
            assert forall|k: int, l: int| !#[trigger] sets(rest, name, key, k, l) by {
                if sets(rest, name, key, k, l) {
                    assert(sets(sections, name, key, k + 1, l));
                }
            }
        }
    }
}

/// A dictionary has the stanza `default` and those of the files, no others, and for every key of a
/// stanza the value that was set first.
pub proof fn dictionaries_hold_the_first_values(
    dict: Dictionary,
    sections: Seq<Section>,
    name: Seq<char>,
    key: Seq<char>,
    i: int,
    j: int,
)
    requires
        merges(dict, sections),
    ensures
        dict@.contains_key(name) <==> name == "default"@ || exists|k: int|
            0 <= k < sections.len() && (#[trigger] sections[k]).name == name,
        sets_first(sections, name, key, i, j) ==> dict@[name]@.contains_key(key)
            && dict@[name]@[key]@ == sections[i].settings[j].value,
        (forall|k: int, l: int| !#[trigger] sets(sections, name, key, k, l))
            && dict@.contains_key(name) ==> !dict@[name]@.contains_key(key),
{
    reveal_strlit("default");
    assert("default"@ =~= default_name());
    first_settings_count(sections, name, key, i, j);
    assert(dict@.contains_key(name) <==> name == default_name() || has_stanza(sections, name));
    assert(crate::splunk_config_processor::lookup(dict, name, key) == first_value(
        sections,
        name,
        key,
    ));
}

/// The stanzas of several files are those of each file, one file after the other.
pub proof fn files_are_read_in_order(contents: Seq<Seq<char>>, content: Seq<char>, max_lines: nat)
    ensures
        all_sections(Seq::empty(), max_lines) == Seq::<Section>::empty(),
        all_sections(contents.push(content), max_lines) == all_sections(contents, max_lines)
            + parsed(content, max_lines),
{
    assert(contents.push(content).drop_last() =~= contents);
}

// ===== The version =====

/// Whether a line names the version: `VERSION=` stands in it, with nothing but blanks before.
pub open spec fn names_version(line: Seq<char>) -> bool {
    exists|a: Seq<char>, rest: Seq<char>|
        is_blank_run(a) && line == #[trigger] (a + "VERSION="@ + rest)
}

proof fn version_lines_start_with_the_mark(line: Seq<char>)
    ensures
        "VERSION="@ == version_mark(),
        has_prefix(trimmed(line), version_mark()) ==> names_version(line),
{
    reveal_strlit("VERSION=");
    assert("VERSION="@ =~= version_mark());
    if has_prefix(trimmed(line), version_mark()) {
        let (a, core, b) = parts_of(line);
        trimming_leaves_what_is_between_the_blanks(a, core, b);
        let rest = core.skip(8);
        assert(core.subrange(0, 8) == version_mark());
        assert(core =~= core.subrange(0, 8) + rest);
        assert(line =~= a + "VERSION="@ + (rest + b));
    }
}

/// The version is what stands behind `VERSION=` in the first line that names it, without the blanks
/// around it; blanks before the name do not matter, nor do the lines before and after.
pub proof fn versions_are_read(
    before: Seq<Seq<char>>,
    a: Seq<char>,
    b: Seq<char>,
    version: Seq<char>,
    d: Seq<char>,
    after: Seq<Seq<char>>,
)
    requires
        forall|i: int| 0 <= i < before.len() ==> !names_version(#[trigger] before[i]),
        is_blank_run(a) && is_blank_run(b) && is_blank_run(d),
        has_no_outer_blank(version),
    ensures
        version_in(before + seq![a + "VERSION="@ + b + version + d] + after) == version,
        version_in(before) == Seq::<char>::empty(),
    decreases before.len(),
{
    let mark = "VERSION="@;
    reveal_strlit("VERSION=");
    let line = a + mark + b + version + d;
    let all = before + seq![line] + after;
    if before.len() == 0 {
        assert(all.first() == line);
        version_lines_start_with_the_mark(line);
        if version.len() == 0 {
            let none = Seq::<char>::empty();
            assert(version =~= none);
            assert(is_blank_run(b + d));
            assert(line =~= a + mark + (b + d));
            trimming_leaves_what_is_between_the_blanks(a, mark, b + d);
            assert(trimmed(line) == mark);
            assert(mark.subrange(0, 8) =~= mark);
            assert(mark.skip(8) =~= none + none + none);
            trimming_leaves_what_is_between_the_blanks(none, none, none);
            assert(trimmed(mark.skip(8)) == version);
        } else {
            let core = mark + b + version;
            assert(line =~= a + core + d);
            assert(core.first() == mark[0]);
            assert(core.last() == version.last());
            trimming_leaves_what_is_between_the_blanks(a, core, d);
            assert(trimmed(line) == core);
            assert(core.subrange(0, 8) =~= mark);
            let none = Seq::<char>::empty();
            assert(core.skip(8) =~= b + version + none);
            trimming_leaves_what_is_between_the_blanks(b, version, none);
        }
    } else {
        let fewer = before.drop_first();
        assert forall|i: int| 0 <= i < fewer.len() implies !names_version(#[trigger] fewer[i]) by {
            assert(fewer[i] == before[i + 1]);
        }
        versions_are_read(fewer, a, b, version, d, after);
        assert(!names_version(before[0]));
        version_lines_start_with_the_mark(before[0]);
        assert(all.first() == before[0]);
        assert(all.drop_first() =~= fewer + seq![line] + after);
    }
}

// ===== Files that are read =====

/// A path keeps its length and all its characters, but for slashes and backslashes, which both become
/// the separator.
pub proof fn separators_become_one(p: Seq<char>, sep: char, i: int)
    ensures
        normalized(p, sep).len() == p.len(),
        0 <= i < p.len() && (p[i] as int == 47 || p[i] as int == 92) ==> normalized(p, sep)[i]
            == sep,
        0 <= i < p.len() && p[i] as int != 47 && p[i] as int != 92 ==> normalized(p, sep)[i]
            == p[i],
{
}

/// A file that cannot be read has an empty content, and a warning that names it and the reason, unless
/// it is not there.
pub proof fn unread_files_are_empty(r: FileContent, path: Seq<char>, failure: ReadFailure)
    requires
        is_unread(r, path, failure),
    ensures
        r.content@.len() == 0,
        failure.not_found ==> r.warning is None,
        !failure.not_found ==> r.warning is Some && r.warning->0@ == "Failed to read "@ + path
            + ": "@ + failure.reason@,
{
}

/// A counter goes up by one and starts over after the greatest number.
pub proof fn counters_go_up_by_one(n: usize)
    ensures
        wrapped_next(n) as int == (n + 1) % (usize::MAX + 1),
{
    if n < usize::MAX {
        vstd::arithmetic::div_mod::lemma_small_mod((n + 1) as nat, (usize::MAX + 1) as nat);
    } else {
        vstd::arithmetic::div_mod::lemma_mod_self_0(usize::MAX + 1);
    }
}

// ===== The hostname =====

/// The value that a file has for a key of a stanza, if the file is there.
pub open spec fn named_in(
    file: Option<Arc<String>>,
    limit: nat,
    stanza: Seq<char>,
    key: Seq<char>,
) -> Option<Seq<char>> {
    match file {
        Some(text) => first_value(parsed(text@, limit), stanza, key),
        None => None,
    }
}

/// The hostname is the key `host` of the stanza `default` in the one file; where that is not set, the
/// key `serverName` of the stanza `general` in the other; and where neither is, what the system
/// says, or else `localhost`. Without a root only the system is asked. A look that failed is an
/// error, the first one before the second.
pub proof fn hostnames_are_resolved(
    limit: nat,
    root: PathBuf,
    inputs: Probe,
    server: Probe,
    system: Option<String>,
    r: Result<String, std::io::Error>,
)
    requires
        resolution(limit, root, inputs, server, system, r),
    ensures
        ({
            let own = if system is Some {
                system->0@
            } else {
                "localhost"@
            };
            let host = named_in(inputs->Ok_0, limit, "default"@, "host"@);
            let server_name = named_in(server->Ok_0, limit, "general"@, "serverName"@);
            let rooted = path_text(root).len() > 0;
            &&& !rooted ==> r is Ok && r->Ok_0@ == own
            &&& rooted && inputs is Err ==> r is Err && r->Err_0 == inputs->Err_0
            &&& rooted && inputs is Ok && server is Err ==> r is Err && r->Err_0 == server->Err_0
            &&& rooted && inputs is Ok && server is Ok ==> {
                &&& r is Ok
                &&& host is Some ==> r->Ok_0@ == host->0
                &&& host is None && server_name is Some ==> r->Ok_0@ == server_name->0
                &&& host is None && server_name is None ==> r->Ok_0@ == own
            }
        }),
{
}

/// The hostname that is settled on is the resolved one, and where a look failed what the system says.
pub proof fn hostnames_are_settled(
    limit: nat,
    root: PathBuf,
    inputs: Probe,
    server: Probe,
    system: Option<String>,
)
    ensures
        ({
            let own = if system is Some {
                system->0@
            } else {
                "localhost"@
            };
            let host = named_in(inputs->Ok_0, limit, "default"@, "host"@);
            let server_name = named_in(server->Ok_0, limit, "general"@, "serverName"@);
            let looked = path_text(root).len() > 0 && inputs is Ok && server is Ok;
            let settled = settled_host(limit, root, inputs, server, system);
            &&& looked && host is Some ==> settled == host->0
            &&& looked && host is None && server_name is Some ==> settled == server_name->0
            &&& !looked || (host is None && server_name is None) ==> settled == own
        }),
{
}

/// The local configuration is three directories below the root.
pub proof fn local_files_are_below_the_root(root: PathBuf)
    ensures
        local_dir(root) == joined_path(
            joined_path(joined_path(root, "etc"@), "system"@),
            "local"@,
        ),
{
}

} // verus!
