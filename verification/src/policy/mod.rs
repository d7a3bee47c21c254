//! Address arithmetic, parsing and configuration rules.

pub mod addr_text;
pub mod addr_text_laws;
pub mod notation_laws;
pub mod blocklist;
pub mod cidr_order;
pub mod cidr_text;
pub mod config;
pub mod config_laws;
pub mod config_validation;
pub mod document_laws;
pub mod effective;
pub mod intervals;
pub mod lookup;
pub mod lookup_laws;
pub mod network;
pub mod network_text_laws;
pub mod network_types;
pub mod radix;
pub mod span_math;
pub mod span_steps;
