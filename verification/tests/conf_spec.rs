use splunklib_rust::config_parser::{ConfigEntry, ConfigStanza};
use splunklib_rust::splunk_conf_spec::{
    is_spec_file, parse_conf_spec_content, ConfSpec, ConfSpecRegistry, SpecFile, SpecViolation,
    StanzaPattern,
};
use splunklib_rust::string_map::{StringMap, StringSet};
use std::path::PathBuf;

fn keys(items: &[&str]) -> StringSet {
    let mut set = StringSet::new();
    for item in items {
        set.insert(item.to_string());
    }
    set
}

fn stanza(name: &str, entries: &[(&str, &str)]) -> ConfigStanza {
    ConfigStanza {
        name: name.to_string(),
        entries: entries
            .iter()
            .map(|(k, v)| ConfigEntry { key: k.to_string(), value: v.to_string() })
            .collect(),
    }
}

fn spec_file(name: &str, content: &str) -> SpecFile {
    SpecFile {
        is_symlink: false,
        is_file: true,
        name: Some(name.to_string()),
        content: Ok(content.to_string()),
    }
}

#[test]
fn stanza_pattern_matches_spec_placeholders_and_ellipsis() {
    let p = StanzaPattern::new("monitor://...".to_string());
    assert!(p.matches("monitor:///var/log/syslog"));
    assert!(p.matches("monitor://C:\\Windows\\Temp"));

    let p = StanzaPattern::new("script://<name>".to_string());
    assert!(p.matches("script://cpu"));
    assert!(p.matches("script://cpu.sh"));

    let p = StanzaPattern::new("<stanza>".to_string());
    assert!(p.matches("anything"));
    assert!(p.matches("default"));

    let p = StanzaPattern::new("exact".to_string());
    assert!(p.matches("exact"));
    assert!(!p.matches("exactly"));
}

#[test]
fn parse_conf_spec_content_extracts_stanzas_and_keys() {
    let spec = r#"
# comment
[default]
foo = <string>
* bar = <bool>

[monitor://...]
disabled = <bool>
"#;

    let parsed = parse_conf_spec_content(spec);
    assert!(parsed.contains_key("default"));
    assert!(parsed.get("default").unwrap().contains("foo"));
    assert!(parsed.get("default").unwrap().contains("bar"));
    assert!(parsed.contains_key("monitor://..."));
    assert!(parsed.get("monitor://...").unwrap().contains("disabled"));
}

#[test]
fn validate_doc_reports_unknown_stanza_and_keys() {
    let mut spec = ConfSpec::default();
    let mut parsed: StringMap<StringSet> = StringMap::new();
    parsed.push("default".to_string(), keys(&["foo"]));
    parsed.push("monitor://...".to_string(), keys(&["disabled"]));
    spec.merge_parsed(parsed);

    let doc = vec![
        ConfigStanza {
            name: "default".to_string(),
            entries: vec![ConfigEntry {
                key: "foo".to_string(),
                value: "1".to_string(),
            }],
        },
        ConfigStanza {
            name: "default".to_string(),
            entries: vec![ConfigEntry {
                key: "nope".to_string(),
                value: "x".to_string(),
            }],
        },
        ConfigStanza {
            name: "unknown_stanza".to_string(),
            entries: vec![ConfigEntry {
                key: "k".to_string(),
                value: "v".to_string(),
            }],
        },
    ];

    let violations = spec.validate_doc(&doc);
    assert!(violations.contains(&SpecViolation::UnknownKey {
        stanza: "default".to_string(),
        key: "nope".to_string()
    }));
    assert!(violations.contains(&SpecViolation::UnknownStanza {
        stanza: "unknown_stanza".to_string()
    }));
    assert_eq!(violations.len(), 2);
}

#[test]
fn wildcards_stand_for_any_text_in_any_place() {
    let p = StanzaPattern::new("a...b<x>c".to_string());
    assert!(p.matches("abc"));
    assert!(p.matches("a1b2c"));
    assert!(p.matches("abbcc"));
    assert!(!p.matches("acb"));
    assert!(!p.matches("xabc"));
    assert!(!p.matches("abcx"));

    let p = StanzaPattern::new("ab...ba".to_string());
    assert!(p.matches("abba"));
    assert!(!p.matches("aba"));

    let p = StanzaPattern::new("...".to_string());
    assert!(p.matches(""));
    assert!(p.matches("anything"));

    let p = StanzaPattern::new("open <bracket".to_string());
    assert!(p.matches("open <bracket"));
    assert!(!p.matches("open x"));
}

#[test]
fn pattern_characters_stand_for_themselves() {
    let p = StanzaPattern::new("\u{e9}<x>".to_string());
    assert!(p.matches("\u{e9}1"));
    assert!(p.matches("\u{e9}"));
    assert!(!p.matches("\u{c3}\u{a9}1"));

    let p = StanzaPattern::new("<x>\u{20ac}...\u{1f600}".to_string());
    assert!(p.matches("a\u{20ac}b\u{1f600}"));
    assert!(!p.matches("a\u{20ac}b"));

    let p = StanzaPattern::new("\u{e9}".to_string());
    assert!(p.matches("\u{e9}"));
    assert!(!p.matches("\u{e9}1"));

    let p = StanzaPattern::new("<\u{e9}>z".to_string());
    assert!(p.matches("anythingz"));
}

#[test]
fn spec_lines_outside_a_stanza_and_odd_lines_are_skipped() {
    let spec = "early = 1\n[ spaced ]\n  * two = x\n; semi = 1\n* # note = 1\n= nothing\nno equals\n[]\nlate = 1\n[spaced]\nthree=\n";
    let parsed = parse_conf_spec_content(spec);
    assert_eq!(parsed.len(), 1);
    let set = parsed.get("spaced").unwrap();
    assert_eq!(set.len(), 2);
    assert!(set.contains("two"));
    assert!(set.contains("three"));
}

#[test]
fn stanzas_without_entries_have_no_findings() {
    let spec = ConfSpec::default();
    let doc = vec![stanza("nobody", &[])];
    assert!(spec.validate_doc(&doc).is_empty());
    let doc = vec![stanza("nobody", &[("a", "1"), ("b", "2")])];
    assert_eq!(
        spec.validate_doc(&doc),
        vec![SpecViolation::UnknownStanza { stanza: "nobody".to_string() }]
    );
}

#[test]
fn several_rules_about_a_stanza_count_together() {
    let mut spec = ConfSpec::default();
    spec.merge_parsed(parse_conf_spec_content("[<any>]\nshared = 1\n[tcp://...]\nport = 1\n"));
    let doc = vec![stanza("tcp://9997", &[("shared", "x"), ("port", "y"), ("other", "z")])];
    assert_eq!(
        spec.validate_doc(&doc),
        vec![SpecViolation::UnknownKey { stanza: "tcp://9997".to_string(), key: "other".to_string() }]
    );
}

#[test]
fn registry_merges_files_of_one_type() {
    let files = vec![
        spec_file("inputs.conf.spec", "[default]\nhost = x\n"),
        spec_file("inputs.conf.spec", "[default]\nindex = x\n"),
        spec_file("server.conf.spec", "[general]\nserverName = x\n"),
        spec_file("notes.txt", "[default]\nother = x\n"),
    ];
    let registry = ConfSpecRegistry::load_from_dir(Ok(true), files).unwrap();
    assert_eq!(registry.loaded_files(), 3);
    assert_eq!(registry.conf_types(), 2);
    let doc = vec![stanza("default", &[("host", "a"), ("index", "b"), ("other", "c")])];
    assert_eq!(
        registry.validate_doc("inputs.conf", &doc),
        vec![SpecViolation::UnknownKey { stanza: "default".to_string(), key: "other".to_string() }]
    );
    assert!(registry.validate_doc("outputs.conf", &doc).is_empty());
}

#[test]
fn registry_of_a_missing_directory_is_empty() {
    let registry =
        ConfSpecRegistry::load_from_splunk_root(Ok(false), vec![spec_file("a.conf.spec", "[x]\n")])
            .unwrap();
    assert_eq!(registry.loaded_files(), 0);
    assert_eq!(registry.conf_types(), 0);
    assert_eq!(
        ConfSpecRegistry::spec_dir(&PathBuf::from("/opt/splunk")),
        PathBuf::from("/opt/splunk/etc")
    );
}

#[test]
fn registry_passes_errors_on() {
    let denied = std::io::Error::new(std::io::ErrorKind::PermissionDenied, "denied");
    assert!(ConfSpecRegistry::load_from_dir(Err(denied), Vec::new()).is_err());

    let bad = SpecFile {
        is_symlink: false,
        is_file: true,
        name: Some("x.conf.spec".to_string()),
        content: Err(std::io::Error::new(std::io::ErrorKind::InvalidData, "first")),
    };
    let worse = SpecFile {
        is_symlink: false,
        is_file: true,
        name: Some("y.conf.spec".to_string()),
        content: Err(std::io::Error::new(std::io::ErrorKind::InvalidData, "second")),
    };
    match ConfSpecRegistry::load_from_dir(Ok(true), vec![spec_file("a.conf.spec", ""), bad, worse]) {
        Err(e) => assert_eq!(e.to_string(), "first"),
        Ok(_) => panic!("expected the error of the file"),
    }
}

#[test]
fn only_regular_spec_files_are_loaded() {
    assert!(is_spec_file(false, true, Some("inputs.conf.spec")));
    assert!(!is_spec_file(true, true, Some("inputs.conf.spec")));
    assert!(!is_spec_file(false, false, Some("inputs.conf.spec")));
    assert!(!is_spec_file(false, true, Some("inputs.spec")));
    assert!(!is_spec_file(false, true, None));
}

#[test]
fn loading_order_does_not_matter() {
    let a = || spec_file("inputs.conf.spec", "[default]\nhost = x\n");
    let b = || spec_file("inputs.conf.spec", "[other]\nindex = x\n");
    let doc = vec![stanza("default", &[("host", "a"), ("index", "b")]), stanza("other", &[("index", "c")])];
    let one = ConfSpecRegistry::load_from_dir(Ok(true), vec![a(), b()]).unwrap();
    let two = ConfSpecRegistry::load_from_dir(Ok(true), vec![b(), a()]).unwrap();
    assert_eq!(one.validate_doc("inputs.conf", &doc), two.validate_doc("inputs.conf", &doc));
    assert_eq!(one.validate_doc("inputs.conf", &doc).len(), 1);
}

#[test]
fn joined_specs_define_what_each_of_them_does() {
    let first = "[one]\na = x\n[two]\nb = y\r";
    let second = "stray = z\n[two]\nc = z\n[three]\n";
    let joined = parse_conf_spec_content(&format!("{}\n[]\n{}", first, second));
    assert_eq!(joined.len(), 3);
    assert!(joined.get("one").unwrap().contains("a"));
    let two = joined.get("two").unwrap();
    assert_eq!(two.len(), 2);
    assert!(two.contains("b") && two.contains("c"));
    assert_eq!(joined.get("three").unwrap().len(), 0);
}
