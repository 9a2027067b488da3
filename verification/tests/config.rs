use splunklib_rust::config_parser::parse_document;
use splunklib_rust::lru_cache::{mb_to_bytes_safe, LRUCache};
use splunklib_rust::splunk_config_processor::{
    clear_cache, finish_file_view, get_cache_stats, get_max_multiline_lines, get_version,
    normalize_path, parse_config, read_configs, read_configs_default, read_file_view,
    set_cache_size_mb, set_max_multiline_lines, ConfigProcessor, ConfigSource, FileView,
    ReadFailure,
};
use std::sync::Arc;

fn source(content: &str) -> ConfigSource {
    ConfigSource { path: "test.conf".to_string(), content: Arc::new(content.to_string()) }
}

fn pairs(content: &str, limit: usize) -> Vec<(String, Vec<(String, String)>)> {
    parse_document(content, limit)
        .into_iter()
        .map(|s| (s.name, s.entries.into_iter().map(|e| (e.key, e.value)).collect()))
        .collect()
}

fn entry(k: &str, v: &str) -> (String, String) {
    (k.to_string(), v.to_string())
}

#[test]
fn stanzas_and_settings_come_in_order() {
    let doc = pairs("a = 1\n[one]\nb=2\n c = 3 \n[two]\n[one]\nd = 4\n", 1024);
    assert_eq!(
        doc,
        vec![
            ("default".to_string(), vec![entry("a", "1")]),
            ("one".to_string(), vec![entry("b", "2"), entry("c", "3"), entry("d", "4")]),
            ("two".to_string(), vec![]),
        ]
    );
}

#[test]
fn comments_blank_lines_and_orphans_are_skipped() {
    let doc = pairs("# a = 1\n; b = 2\n\n   \t\n= 3\nno equals\n[ spaced ]\nc = 4\n[]\nd=5=6\r\n", 1024);
    assert_eq!(doc, vec![("default".to_string(), vec![entry("c", "4"), entry("d", "5=6")])]);
}

#[test]
fn continued_values_keep_their_lines() {
    let doc = pairs("a = one \\\n  two \\\n three\nb = 4\n", 1024);
    assert_eq!(
        doc,
        vec![("default".to_string(), vec![entry("a", "one \\\n  two \\\n three"), entry("b", "4")])]
    );
}

#[test]
fn a_continued_value_ends_at_the_end_of_the_text() {
    assert_eq!(
        pairs("a = one \\\n", 1024),
        vec![("default".to_string(), vec![entry("a", "one \\")])]
    );
}

#[test]
fn a_continued_value_ends_at_the_limit() {
    let doc = pairs("a = 1\\\n2\\\n3\\\n4\\\nb = 5\n", 2);
    assert_eq!(doc, vec![("default".to_string(), vec![entry("a", "1\\\n2\\"), entry("b", "5")])]);
}

#[test]
fn a_header_inside_a_continued_value_is_text() {
    let doc = pairs("a = x\\\n[one]\nb = 1\n", 1024);
    assert_eq!(doc, vec![("default".to_string(), vec![entry("a", "x\\\n[one]"), entry("b", "1")])]);
}

#[test]
fn multiline_limit_is_kept_and_reset() {
    let mut p = ConfigProcessor::new(None);
    assert_eq!(get_max_multiline_lines(&p), 1024);
    set_max_multiline_lines(&mut p, 3);
    assert_eq!(get_max_multiline_lines(&p), 3);
    let doc = parse_config(&p, "a = 1\\\n2\\\n3\\\n4\nb = 5\n", "x.conf");
    assert_eq!(doc[0].entries[0].value, "1\\\n2\\\n3\\");
    assert_eq!(doc[0].entries[1].key, "b");
    set_max_multiline_lines(&mut p, 0);
    assert_eq!(get_max_multiline_lines(&p), 1024);
}

#[test]
fn earlier_files_take_precedence() {
    let p = ConfigProcessor::new(None);
    let files = vec![
        source("host = first\n[a]\nx = 1\n"),
        source(""),
        source("host = second\nindex = main\n[a]\nx = 2\ny = 3\n[b]\n"),
    ];
    let dict = read_configs(&p, &files);
    assert_eq!(dict.len(), 3);
    assert_eq!(dict.get("default").unwrap().get("host").unwrap(), "first");
    assert_eq!(dict.get("default").unwrap().get("index").unwrap(), "main");
    assert_eq!(dict.get("a").unwrap().get("x").unwrap(), "1");
    assert_eq!(dict.get("a").unwrap().get("y").unwrap(), "3");
    assert_eq!(dict.get("b").unwrap().len(), 0);
    assert!(dict.get("c").is_none());

    let alone = read_configs_default(&p, &Vec::new());
    assert_eq!(alone.len(), 1);
    assert_eq!(alone.get("default").unwrap().len(), 0);
}

#[test]
fn the_first_of_two_settings_in_one_file_counts() {
    let p = ConfigProcessor::new(None);
    let dict = read_configs(&p, &vec![source("a = 1\na = 2\n")]);
    assert_eq!(dict.get("default").unwrap().get("a").unwrap(), "1");
}

#[test]
fn versions_are_read_from_their_line() {
    assert_eq!(get_version("# x\n  VERSION= 9.1.2 \nVERSION=1\n"), "9.1.2");
    assert_eq!(get_version("BUILD=7\nVERSION=9.0\n"), "9.0");
    assert_eq!(get_version("VERSIONS=3\nVERSION = 2\nVERSION=1=2\n"), "1=2");
    assert_eq!(get_version("VERSION 1\n"), "");
    assert_eq!(get_version(""), "");
}

#[test]
fn separators_are_normalized() {
    assert_eq!(normalize_path("a\\b/c", '/'), "a/b/c");
    assert_eq!(normalize_path("a\\b/c", '\\'), "a\\b\\c");
}

#[test]
fn sizes_are_clamped() {
    assert_eq!(mb_to_bytes_safe(0), 1048576);
    assert_eq!(mb_to_bytes_safe(7), 7 * 1048576);
    assert_eq!(mb_to_bytes_safe(5000), 1024 * 1048576);
}

fn failure(not_found: bool, reason: &str) -> ReadFailure {
    ReadFailure { not_found, reason: reason.to_string() }
}

fn begin_read(p: &mut ConfigProcessor, path: &str) -> FileView {
    read_file_view(p, path, Ok(path.to_string()), '/')
}

#[test]
fn a_path_that_cannot_be_looked_up_is_warned_about() {
    let mut p = ConfigProcessor::new(None);
    match read_file_view(&mut p, "d/a.conf", Err(failure(false, "permission denied")), '/') {
        FileView::Ready(file) => {
            assert_eq!(file.content.as_str(), "");
            assert_eq!(file.warning.unwrap(), "Failed to read d/a.conf: permission denied");
        }
        FileView::ReadDisk(_) => panic!("there is no path to read"),
    }
    assert_eq!(get_cache_stats(&p).misses, 0);
}

#[test]
fn reads_go_through_the_cache() {
    let mut p = ConfigProcessor::new(None);
    match read_file_view(&mut p, "a.conf", Err(failure(true, "not there")), '/') {
        FileView::Ready(file) => {
            assert_eq!(file.content.as_str(), "");
            assert!(file.warning.is_none());
        }
        FileView::ReadDisk(_) => panic!("a file that is not there is not read"),
    }
    let key = match begin_read(&mut p, "/opt\\a.conf") {
        FileView::ReadDisk(key) => key,
        FileView::Ready(_) => panic!("nothing is cached yet"),
    };
    assert_eq!(key, "/opt/a.conf");
    let read = finish_file_view(&mut p, "a.conf", key, Ok("abc".to_string()));
    assert_eq!(read.content.as_str(), "abc");
    assert!(read.warning.is_none());
    match begin_read(&mut p, "/opt/a.conf") {
        FileView::Ready(file) => {
            assert_eq!(file.content.as_str(), "abc");
            assert!(file.warning.is_none());
        }
        FileView::ReadDisk(_) => panic!("the content is cached"),
    }
    let stats = get_cache_stats(&p);
    assert_eq!((stats.hits, stats.misses, stats.size, stats.max_size), (1, 1, 3, 50 * 1048576));
    clear_cache(&mut p);
    assert_eq!(get_cache_stats(&p).size, 0);
    assert_eq!(get_cache_stats(&p).hits, 1);
}

#[test]
fn a_failed_read_is_empty_and_not_cached() {
    let mut p = ConfigProcessor::new(None);
    if let FileView::ReadDisk(key) = begin_read(&mut p, "/x") {
        let gone = finish_file_view(&mut p, "/x", key.clone(), Err(failure(true, "not there")));
        assert_eq!(gone.content.as_str(), "");
        assert!(gone.warning.is_none());
        let denied = finish_file_view(&mut p, "/x", key, Err(failure(false, "permission denied")));
        assert_eq!(denied.content.as_str(), "");
        assert_eq!(denied.warning.unwrap(), "Failed to read /x: permission denied");
    }
    assert!(matches!(begin_read(&mut p, "/x"), FileView::ReadDisk(_)));
    assert_eq!(get_cache_stats(&p).misses, 2);
}

#[test]
fn a_smaller_cache_drops_what_was_used_least_recently() {
    let mut p = ConfigProcessor::new(Some("3"));
    assert_eq!(get_cache_stats(&p).max_size, 3 * 1048576);
    let big = "x".repeat(1048576);
    for name in ["/a", "/b", "/c"] {
        if let FileView::ReadDisk(key) = begin_read(&mut p, name) {
            finish_file_view(&mut p, name, key, Ok(big.clone()));
        }
    }
    assert!(matches!(begin_read(&mut p, "/a"), FileView::Ready(_)));
    set_cache_size_mb(&mut p, 0);
    assert_eq!(get_cache_stats(&p).max_size, 3 * 1048576);
    set_cache_size_mb(&mut p, 2);
    assert_eq!(get_cache_stats(&p).size, 2 * 1048576);
    assert!(matches!(begin_read(&mut p, "/b"), FileView::ReadDisk(_)));
    assert!(matches!(begin_read(&mut p, "/c"), FileView::Ready(_)));
    assert!(matches!(begin_read(&mut p, "/a"), FileView::Ready(_)));
}

#[test]
fn cache_settings_that_are_no_numbers_are_ignored() {
    for setting in ["0", "-1", "x", "", "5x"] {
        assert_eq!(get_cache_stats(&ConfigProcessor::new(Some(setting))).max_size, 50 * 1048576);
    }
    assert_eq!(get_cache_stats(&ConfigProcessor::new(Some("+2"))).max_size, 2 * 1048576);
    assert_eq!(get_cache_stats(&ConfigProcessor::new(Some("9999"))).max_size, 1024 * 1048576);
}

#[test]
fn the_cache_replaces_counts_and_evicts() {
    let mut cache = LRUCache::new(Some("1"));
    let half = Arc::new("y".repeat(600_000));
    cache.insert("a".to_string(), Arc::new("1234".to_string()));
    cache.insert("a".to_string(), Arc::new("12".to_string()));
    assert_eq!(cache.size(), 2);
    cache.insert("b".to_string(), half.clone());
    cache.insert("c".to_string(), half.clone());
    assert_eq!(cache.size(), 600_000);
    assert!(cache.get("a").is_none());
    assert!(cache.get("b").is_none());
    assert_eq!(cache.get("c").unwrap().len(), 600_000);
    cache.insert("d".to_string(), Arc::new("z".repeat(2_000_000)));
    assert_eq!(cache.size(), 0);
    assert!(cache.get("c").is_none());
    assert!(cache.get("d").is_none());
    cache.insert("e".to_string(), Arc::new("\u{e9}".to_string()));
    assert_eq!(cache.size(), 2);
}

#[test]
fn written_documents_come_back() {
    let doc = vec![
        ("default".to_string(), vec![entry("a", "1"), entry("empty", "")]),
        ("monitor:///var/log".to_string(), vec![entry("a", "x = y"), entry("a", "2")]),
        ("none".to_string(), vec![]),
        ("long".to_string(), vec![entry("k", "one\\\n  two \\\n three"), entry("z", "[end]")]),
    ];
    let mut text = String::new();
    for (name, entries) in &doc {
        text.push_str(&format!("[{}]\n", name));
        for (key, value) in entries {
            text.push_str(&format!("{} = {}\n", key, value));
        }
    }
    assert_eq!(pairs(&text, 3), doc);
    assert_ne!(pairs(&text, 2), doc);
}
