//! Hostname retrieval utilities for Splunk.
//!
//! This module retrieves hostnames from the contents of Splunk configuration files, with graceful
//! fallback to the system hostname.
use std::path::PathBuf;
use std::sync::Arc;

use vstd::prelude::*;

use crate::config_parser::parsed;
use crate::platform::{is_empty, is_empty_path, join, joined_path};
use crate::splunk_config_processor::{
    all_sections, contents_of, first_value, lookup, read_configs_default, ConfigProcessor, ConfigSource,
};

verus! {

/// The files that may name the host.
pub struct HostnameFiles {
    pub inputs: PathBuf,
    pub server: PathBuf,
}

/// Where the local configuration of an installation is.
pub open spec fn local_dir(splunk_root: PathBuf) -> PathBuf {
    joined_path(joined_path(joined_path(splunk_root, "etc"@), "system"@), "local"@)
}

/// The files to look into: `inputs.conf` and `server.conf` in `etc/system/local`. For an empty
/// root there are none.
pub fn hostname_files(splunk_root: &PathBuf) -> (r: Option<HostnameFiles>)
    ensures
        match r {
            Some(files) => !is_empty_path(*splunk_root) && files.inputs == joined_path(
                local_dir(*splunk_root),
                "inputs.conf"@,
            ) && files.server == joined_path(local_dir(*splunk_root), "server.conf"@),
            None => is_empty_path(*splunk_root),
        },
{
    if is_empty(splunk_root) {
        return None;
    }
    let etc = join(splunk_root, "etc");
    let system = join(&etc, "system");
    let local = join(&system, "local");
    Some(HostnameFiles { inputs: join(&local, "inputs.conf"), server: join(&local, "server.conf") })
}

/// What a look for a file gave: its content, `None` where it is not there, or the error of the
/// look. A file that is there and cannot be read has an empty content.
pub type Probe = Result<Option<Arc<String>>, std::io::Error>;

/// The value of a key in the content of a file, if the file is there.
pub open spec fn value_in(
    content: Option<Arc<String>>,
    limit: nat,
    stanza: Seq<char>,
    key: Seq<char>,
) -> Option<Seq<char>> {
    match content {
        Some(text) => first_value(parsed(text@, limit), stanza, key),
        None => None,
    }
}

/// The host that the configuration names: key `host` of stanza `[default]` in `inputs.conf`, or
/// else key `serverName` of stanza `[general]` in `server.conf`.
pub open spec fn configured_host(
    inputs: Option<Arc<String>>,
    server: Option<Arc<String>>,
    limit: nat,
) -> Option<Seq<char>> {
    let host = value_in(inputs, limit, "default"@, "host"@);
    if host is Some {
        host
    } else {
        value_in(server, limit, "general"@, "serverName"@)
    }
}

/// The value of a key in the content of a file, if the file is there.
fn find_value(
    processor: &ConfigProcessor,
    content: Option<Arc<String>>,
    stanza: &str,
    key: &str,
) -> (r: Option<String>)
    requires
        processor.wf(),
    ensures
        match r {
            Some(v) => value_in(content, processor.limit(), stanza@, key@) == Some(v@),
            None => value_in(content, processor.limit(), stanza@, key@) is None,
        },
{
    let text = match content {
        Some(text) => text,
        None => {
            return None;
        },
    };
    let ghost view = text@;
    let ghost limit = processor.limit();
    let mut files: Vec<ConfigSource> = Vec::new();
    files.push(ConfigSource { path: String::new(), content: text });
    let dict = read_configs_default(processor, &files);
    proof {
        let contents = contents_of(files@);
        assert(contents.drop_last() =~= Seq::empty());
        assert(contents.last() == view);
        assert(all_sections(contents.drop_last(), limit) =~= Seq::empty());
        assert(all_sections(contents, limit) =~= parsed(view, limit));
        assert(lookup(dict, stanza@, key@) == first_value(parsed(view, limit), stanza@, key@));
    }
    match dict.get(stanza) {
        Some(inner) => match inner.get(key) {
            Some(v) => Some(v.clone()),
            None => None,
        },
        None => None,
    }
}

/// The host that the configuration names, if it names one.
pub fn configured_hostname(
    processor: &ConfigProcessor,
    inputs: Option<Arc<String>>,
    server: Option<Arc<String>>,
) -> (r: Option<String>)
    requires
        processor.wf(),
    ensures
        match r {
            Some(host) => configured_host(inputs, server, processor.limit()) == Some(host@),
            None => configured_host(inputs, server, processor.limit()) is None,
        },
{
    match find_value(processor, inputs, "default", "host") {
        Some(host) => Some(host),
        None => find_value(processor, server, "general", "serverName"),
    }
}

/// What is used for the host where the configuration does not name it: the name that the system
/// has for it, or "localhost" where it has none.
pub open spec fn system_host(system: Option<String>) -> Seq<char> {
    match system {
        Some(name) => name@,
        None => "localhost"@,
    }
}

/// What resolving the hostname comes to, for what the system says: the error of the first look
/// that failed, or the host that the configuration names, or else the host of the system. For an
/// empty root no look counts.
pub open spec fn resolution(
    limit: nat,
    splunk_root: PathBuf,
    inputs: Probe,
    server: Probe,
    system: Option<String>,
    r: Result<String, std::io::Error>,
) -> bool {
    if is_empty_path(splunk_root) {
        r is Ok && r->Ok_0@ == system_host(system)
    } else if inputs is Err {
        r is Err && r->Err_0 == inputs->Err_0
    } else if server is Err {
        r is Err && r->Err_0 == server->Err_0
    } else {
        r is Ok && r->Ok_0@ == (match configured_host(inputs->Ok_0, server->Ok_0, limit) {
            Some(host) => host,
            None => system_host(system),
        })
    }
}

/// Resolves the hostname for what the system says.
pub fn resolve_hostname(
    processor: &ConfigProcessor,
    splunk_root: &PathBuf,
    inputs: Probe,
    server: Probe,
    system: Option<String>,
) -> (r: Result<String, std::io::Error>)
    requires
        processor.wf(),
    ensures
        resolution(processor.limit(), *splunk_root, inputs, server, system, r),
{
    if is_empty(splunk_root) {
        return Ok(hostname_or_localhost(system));
    }
    let inputs_content = match inputs {
        Ok(content) => content,
        Err(e) => {
            return Err(e);
        },
    };
    let server_content = match server {
        Ok(content) => content,
        Err(e) => {
            return Err(e);
        },
    };
    match configured_hostname(processor, inputs_content, server_content) {
        Some(host) => Ok(host),
        None => Ok(hostname_or_localhost(system)),
    }
}

/// Try to retrieve hostname from Splunk configuration files.
///
/// `inputs` and `server` are what the look for the files of [`hostname_files`] gave. Returns the
/// error of the first look that failed. On success, returns the hostname found in config or the
/// system hostname as fallback: [`resolve_hostname`] for what the system says.
pub fn try_get_splunk_hostname(
    processor: &ConfigProcessor,
    splunk_root: &PathBuf,
    inputs: Probe,
    server: Probe,
) -> (r: Result<String, std::io::Error>)
    requires
        processor.wf(),
    ensures
        exists|system: Option<String>| #[trigger]
            resolution(processor.limit(), *splunk_root, inputs, server, system, r),
{
    let system = system_hostname();
    resolve_hostname(processor, splunk_root, inputs, server, system)
}

/// The host that is settled on, for what the system says: the one that the configuration names, or
/// else the host of the system. For an empty root, or where a look failed, it is the host of the
/// system.
pub open spec fn settled_host(
    limit: nat,
    splunk_root: PathBuf,
    inputs: Probe,
    server: Probe,
    system: Option<String>,
) -> Seq<char> {
    if !is_empty_path(splunk_root) && inputs is Ok && server is Ok && configured_host(
        inputs->Ok_0,
        server->Ok_0,
        limit,
    ) is Some {
        configured_host(inputs->Ok_0, server->Ok_0, limit)->0
    } else {
        system_host(system)
    }
}

/// Settles on a hostname for what the system says.
pub fn hostname_for(
    processor: &ConfigProcessor,
    splunk_root: &PathBuf,
    inputs: Probe,
    server: Probe,
    system: Option<String>,
) -> (r: String)
    requires
        processor.wf(),
    ensures
        r@ == settled_host(processor.limit(), *splunk_root, inputs, server, system),
{
    if is_empty(splunk_root) {
        return hostname_or_localhost(system);
    }
    let (inputs_content, server_content) = match (inputs, server) {
        (Ok(i), Ok(s)) => (i, s),
        _ => {
            return hostname_or_localhost(system);
        },
    };
    match configured_hostname(processor, inputs_content, server_content) {
        Some(host) => host,
        None => hostname_or_localhost(system),
    }
}

/// Retrieve the hostname from Splunk configuration, falling back to system hostname.
///
/// # Priority order:
/// 1. `inputs.conf` stanza `[default]` key `host`
/// 2. `server.conf` stanza `[general]` key `serverName`
/// 3. System hostname
///
/// Where one of the looks failed, or the root is empty, the system hostname is returned:
/// [`hostname_for`] for what the system says.
pub fn get_splunk_hostname(
    processor: &ConfigProcessor,
    splunk_root: &PathBuf,
    inputs: Probe,
    server: Probe,
) -> (r: String)
    requires
        processor.wf(),
    ensures
        exists|system: Option<String>|
            r@ == #[trigger] settled_host(
                processor.limit(),
                *splunk_root,
                inputs,
                server,
                system,
            ),
{
    let system = system_hostname();
    hostname_for(processor, splunk_root, inputs, server, system)
}

/// The name that the system has for the host, with `hostname::get`, with what is not proper text
/// replaced; `None` where it cannot be determined. Nothing is claimed of the result: it depends on
/// the machine.
#[verifier::external_body]
fn system_hostname() -> (r: Option<String>) {
    hostname::get().ok().map(|h| h.to_string_lossy().into_owned())
}

/// Get the system hostname using the OS hostname facility, or "localhost" if it cannot be
/// determined: [`hostname_or_localhost`] of what the system says.
pub fn get_os_hostname() -> (r: String)
    ensures
        exists|system: Option<String>| r@ == #[trigger] system_host(system),
{
    let system = system_hostname();
    hostname_or_localhost(system)
}

/// The name that the system has for the host, or "localhost" where it has none.
pub fn hostname_or_localhost(found: Option<String>) -> (r: String)
    ensures
        r@ == system_host(found),
{
    match found {
        Some(name) => name,
        None => "localhost".to_string(),
    }
}

/// Where resolving the hostname succeeds, the resolved name is the one that is settled on; where it
/// fails, the host of the system is.
pub proof fn settling_is_resolving(
    limit: nat,
    splunk_root: PathBuf,
    inputs: Probe,
    server: Probe,
    system: Option<String>,
    r: Result<String, std::io::Error>,
)
    requires
        resolution(limit, splunk_root, inputs, server, system, r),
    ensures
        settled_host(limit, splunk_root, inputs, server, system) == (match r {
            Ok(host) => host@,
            Err(_) => system_host(system),
        }),
{
}

} // verus!
