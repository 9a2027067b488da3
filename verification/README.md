# splunklib_rust

Utilities for working with Splunk, as a verified library: configuration files and their specs, the
location of an installation and the name of its host, a file logger with rotation, and requests to
the HTTP Event Collector.

`src/` is the library. Its functions state what they do in `requires` and `ensures` clauses, over
spec functions that stand beside them, and Verus proves them. Public proof functions state what
holds across functions.

| Module | What it holds |
| --- | --- |
| `text`, `string_map` | characters, lines, numerals; maps and sets keyed by text |
| `config_parser`, `splunk_config_processor` | the `.conf` format, merging, versions, cached reads |
| `lru_cache` | the cache of file contents |
| `stanza_pattern`, `splunk_conf_spec` | `.conf.spec` files, stanza patterns, validation |
| `get_splunk_location`, `get_splunk_hostname`, `splunk_file_locator` | where things are |
| `splunk_file_logger`, `log_worker`, `log_rotation` | the file logger, its worker, its rotation |
| `splunk_http_sender`, `send_batches`, `http_headers`, `request_url` | requests and responses |
| `platform` | paths, times and errors of the standard library |

What the library takes from other crates and from the standard library stands behind small functions
marked `external_body`, and a few `assume_specification` items. Their contracts are believed, not
proved; the comment above each says what is claimed of which function.

`app/` is ordinary Rust around the library: files, threads, channels, the HTTP client, and a small
program that writes a log. `tests/` runs the library with the real crates.
