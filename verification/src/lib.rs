//! Blocklist policy, workflow decisions and host-command planning for Kidobo, with every
//! decision stated as a contract.

pub mod adapter;
pub mod numerals;
pub mod ordering;
pub mod policy;
pub mod text;
pub mod text_laws;
pub mod url_text;
pub mod workflow;
