//! What the client does with its data: imports, probes, diagnostics.

pub mod disposition;
pub mod dns_diag;
pub mod dns_items;
pub mod dns_path;
pub mod exit_ip;
pub mod import;
pub mod latency;
pub mod probe_desk;
pub mod quota;
