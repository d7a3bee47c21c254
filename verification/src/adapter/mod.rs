//! Logic of the operating-system and network adapters, apart from the work itself.

pub mod command_runner;
pub mod prompt;
pub mod supervision;
pub mod firewall_text;
pub mod iptables;
pub mod firewall_laws;
pub mod firewall_table_laws;
pub mod enforcement;
pub mod enforcement_laws;
pub mod host;
pub mod host_laws;
pub mod errors;
pub mod blocklist_file;
pub mod blocklist_canonical_laws;
pub mod blocklist_laws;
pub mod blocklist_run;
pub mod blocklist_lines;
pub mod blocklist_unban_laws;
pub mod digest;
pub mod remote_parse;
pub mod refresh_laws;
pub mod remote_laws;
pub mod feed_laws;
pub mod feed_text_laws;
pub mod feed_cache_laws;
pub mod cache_generation;
pub mod cache_reading_laws;
pub mod cache_staging;
pub mod staging_laws;
pub mod http_fetch;
pub mod http_cache;
pub mod offline_cache;
pub mod cached_sources;
pub mod cleanup_laws;
pub mod lookup_source_laws;
pub mod lookup_sources;
pub mod json_tree;
pub mod cached_fetch;
pub mod cache_faults;
pub mod generation_laws;
pub mod github_categories;
pub mod github_extraction_laws;
pub mod github_laws;
pub mod github_meta;
pub mod feed_aggregate;
pub mod sync_sources;
pub mod request_laws;
pub mod source_laws;
pub mod target_file;
