//! Tools for programs that live beside a Splunk installation.
pub mod cache_laws;
pub mod config_laws;
pub mod config_parser;
pub mod file_laws;
pub mod get_splunk_hostname;
pub mod get_splunk_location;
pub mod http_headers;
pub mod http_laws;
pub mod log_rotation;
pub mod log_worker;
pub mod lookup_laws;
pub mod lru_cache;
pub mod pattern_laws;
pub mod platform;
pub mod request_url;
pub mod send_batches;
pub mod spec_laws;
pub mod splunk_conf_spec;
pub mod splunk_config_processor;
pub mod splunk_file_locator;
pub mod splunk_file_logger;
pub mod splunk_http_sender;
pub mod stanza_pattern;
pub mod string_map;
pub mod text;
pub mod text_laws;
pub mod worker_laws;
