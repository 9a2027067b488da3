use splunklib_rust::get_splunk_hostname::{
    configured_hostname, get_os_hostname, get_splunk_hostname, hostname_files, hostname_for,
    hostname_or_localhost, resolve_hostname, try_get_splunk_hostname,
};
use splunklib_rust::get_splunk_location::{get_splunk_location, SplunkLocation};
use splunklib_rust::splunk_config_processor::ConfigProcessor;
use splunklib_rust::splunk_file_locator::{
    find_files, find_files_default, walk_depth, SearchError, SearchRoot, WalkEntry,
};
use std::path::PathBuf;
use std::sync::Arc;

fn content(s: &str) -> Option<Arc<String>> {
    Some(Arc::new(s.to_string()))
}

fn failed() -> std::io::Error {
    std::io::Error::new(std::io::ErrorKind::PermissionDenied, "denied")
}

fn located(exe: &str) -> (String, String, String) {
    let loc = get_splunk_location(Ok(PathBuf::from(exe))).unwrap();
    (
        loc.root.to_string_lossy().into_owned(),
        loc.app.to_string_lossy().into_owned(),
        loc.bin.to_string_lossy().into_owned(),
    )
}

fn walked(path: &str, depth: usize, is_file: bool, is_symlink: bool) -> WalkEntry {
    let path = PathBuf::from(path);
    let name = path.file_name().unwrap().to_string_lossy().into_owned().into_bytes();
    WalkEntry { depth, is_symlink, is_file, name, path }
}

fn search(entries: Vec<WalkEntry>, depth: usize) -> Result<Vec<PathBuf>, SearchError> {
    find_files(SearchRoot::Directory(entries), "/opt/splunk", b"inputs.conf", "inputs.conf", depth)
}

#[test]
fn splunk_executables_find_their_root() {
    let (root, app, bin) = located("/opt/Splunk/etc/apps/my/bin/tool");
    assert_eq!(root, "/opt/Splunk");
    assert_eq!(app, "/opt/Splunk/etc/apps/my");
    assert_eq!(bin, "/opt/Splunk/etc/apps/my/bin");
}

#[test]
fn other_executables_use_their_parents() {
    let (root, app, bin) = located("/home/u/tool/bin/x");
    assert_eq!(root, "/home/u/tool");
    assert_eq!(app, "/home/u/tool/bin");
    assert_eq!(bin, "/home/u/tool/bin");
}

#[test]
fn too_few_levels_fall_back() {
    let (root, app, bin) = located("/opt/splunk/bin/tool");
    assert_eq!((root.as_str(), app.as_str(), bin.as_str()), ("/opt", "/opt/splunk", "/opt/splunk/bin"));
    let (root, app, bin) = located("/splunk/tool");
    assert_eq!((root.as_str(), app.as_str(), bin.as_str()), ("/", "/", "/splunk"));
    let (root, app, bin) = located("/opt/tool");
    assert_eq!((root.as_str(), app.as_str(), bin.as_str()), ("/", "/opt", "/opt"));
    let (root, app, bin) = located("/");
    assert_eq!((root.as_str(), app.as_str(), bin.as_str()), ("/", "/", "/"));
}

#[test]
fn location_errors_are_passed_on() {
    assert!(get_splunk_location(Err(failed())).is_err());
    let a = get_splunk_location(Ok(PathBuf::from("/a/b/c"))).unwrap();
    let b = SplunkLocation { root: a.root.clone(), app: a.app.clone(), bin: a.bin.clone() };
    assert!(a == b);
}

#[test]
fn hostname_files_are_local() {
    let files = hostname_files(&PathBuf::from("/opt/splunk")).unwrap();
    assert_eq!(files.inputs, PathBuf::from("/opt/splunk/etc/system/local/inputs.conf"));
    assert_eq!(files.server, PathBuf::from("/opt/splunk/etc/system/local/server.conf"));
    assert!(hostname_files(&PathBuf::new()).is_none());
}

#[test]
fn inputs_name_the_host_before_server() {
    let p = ConfigProcessor::new(None);
    let inputs = || content("[default]\nhost = from-inputs\n");
    let server = || content("[general]\nserverName = from-server\n");
    assert_eq!(configured_hostname(&p, inputs(), server()).unwrap(), "from-inputs");
    assert_eq!(configured_hostname(&p, None, server()).unwrap(), "from-server");
    assert_eq!(configured_hostname(&p, content("x = 1\n"), server()).unwrap(), "from-server");
    assert!(configured_hostname(&p, None, None).is_none());
}

#[test]
fn each_file_names_the_host_in_its_own_stanza() {
    let p = ConfigProcessor::new(None);
    let inputs = content("[general]\nserverName = wrong-file\n");
    let server = content("[default]\nhost = wrong-file\n");
    assert!(configured_hostname(&p, inputs, server).is_none());
}

#[test]
fn hostnames_resolve_in_order() {
    let p = ConfigProcessor::new(None);
    let root = PathBuf::from("/opt/splunk");
    let system = || Some("machine".to_string());
    let named = Ok(content("host = configured\n"));
    assert_eq!(resolve_hostname(&p, &root, named, Ok(None), system()).unwrap(), "configured");
    assert_eq!(resolve_hostname(&p, &root, Ok(None), Ok(None), system()).unwrap(), "machine");
    assert_eq!(resolve_hostname(&p, &root, Ok(None), Ok(None), None).unwrap(), "localhost");
    assert!(resolve_hostname(&p, &root, Err(failed()), Ok(None), system()).is_err());
    assert!(resolve_hostname(&p, &root, Ok(None), Err(failed()), system()).is_err());
    let empty = PathBuf::new();
    assert_eq!(resolve_hostname(&p, &empty, Err(failed()), Ok(None), system()).unwrap(), "machine");
}

#[test]
fn hostnames_are_settled_without_errors() {
    let p = ConfigProcessor::new(None);
    let root = PathBuf::from("/opt/splunk");
    let system = || Some("machine".to_string());
    let named = || Ok(content("host = configured\n"));
    assert_eq!(hostname_for(&p, &root, named(), Ok(None), system()), "configured");
    assert_eq!(hostname_for(&p, &root, Ok(None), Ok(None), system()), "machine");
    assert_eq!(hostname_for(&p, &root, Ok(None), Ok(None), None), "localhost");
    assert_eq!(hostname_for(&p, &root, named(), Err(failed()), system()), "machine");
    assert_eq!(hostname_for(&p, &root, Err(failed()), Ok(None), None), "localhost");
    assert_eq!(hostname_for(&p, &PathBuf::new(), named(), Ok(None), system()), "machine");
}

#[test]
fn the_system_names_the_host_where_nothing_else_does() {
    let p = ConfigProcessor::new(None);
    let root = PathBuf::from("/opt/splunk");
    let system = get_os_hostname();
    assert!(!system.is_empty());
    assert_eq!(try_get_splunk_hostname(&p, &root, Ok(None), Ok(None)).unwrap(), system);
    assert_eq!(get_splunk_hostname(&p, &root, Err(failed()), Ok(None)), system);
    assert_eq!(get_splunk_hostname(&p, &root, Ok(content("host = c\n")), Ok(None)), "c");
    assert_eq!(hostname_or_localhost(None), "localhost");
    assert_eq!(hostname_or_localhost(Some("h".to_string())), "h");
}

#[test]
fn searches_give_regular_files_of_the_name() {
    let found = search(
        vec![
            walked("/opt/splunk/etc", 1, false, false),
            walked("/opt/splunk/etc/inputs.conf", 2, true, false),
            walked("/opt/splunk/etc/outputs.conf", 2, true, false),
            walked("/opt/splunk/etc/link/inputs.conf", 3, true, true),
            walked("/opt/splunk/etc/apps/inputs.conf", 3, true, false),
            walked("/opt/splunk/inputs.conf", 1, false, false),
        ],
        6,
    );
    assert_eq!(
        found.ok().unwrap(),
        vec![
            PathBuf::from("/opt/splunk/etc/inputs.conf"),
            PathBuf::from("/opt/splunk/etc/apps/inputs.conf"),
        ]
    );
}

#[test]
fn searches_stop_at_their_depth() {
    assert_eq!(walk_depth(0), 1);
    assert_eq!(walk_depth(6), 7);
    assert_eq!(walk_depth(usize::MAX), usize::MAX);
    let entries = || {
        vec![walked("/opt/splunk/inputs.conf", 1, true, false), walked("/opt/splunk/a/inputs.conf", 2, true, false)]
    };
    assert_eq!(search(entries(), 0).ok().unwrap().len(), 1);
    assert_eq!(search(entries(), 1).ok().unwrap().len(), 2);
}

#[test]
fn searches_that_find_nothing_say_so() {
    match search(vec![walked("/opt/splunk/x", 1, true, false)], 6) {
        Err(SearchError::NotFound(text)) => {
            assert_eq!(text, "No files found matching inputs.conf in /opt/splunk")
        }
        _ => panic!("expected that nothing is found"),
    }
    assert!(find_files_default(SearchRoot::Missing, "/x", b"a", "a").ok().unwrap().is_empty());
    assert!(find_files_default(SearchRoot::NotADirectory, "/x", b"a", "a").ok().unwrap().is_empty());
    assert!(matches!(
        find_files_default(SearchRoot::Unreadable(failed()), "/x", b"a", "a"),
        Err(SearchError::Io(_))
    ));
}
