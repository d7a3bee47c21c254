//! Decisions of the command workflows, apart from the work they cause.

pub mod error;
pub mod error_laws;
pub mod paths;
pub mod ports;
pub mod run_laws;
pub mod source;
pub mod step_laws;
pub mod sync;
pub mod admission;
pub mod sync_run;
pub mod sync_execute;
pub mod sync_laws;
pub mod blocklist;
pub mod blocklist_execute;
pub mod blocklist_preview_laws;
pub mod asn_execute;
pub mod asn_laws;
pub mod ban_laws;
pub mod failure_laws;
pub mod flush;
pub mod flush_laws;
pub mod install_laws;
pub mod lookup;
pub mod lookup_laws;
pub mod init;
pub mod init_laws;
pub mod doctor;
pub mod doctor_laws;
