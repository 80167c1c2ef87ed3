//! Rule, node and session logic of a desktop proxy client.

pub mod clock;
pub mod core_kind;
pub mod digest;
pub mod domain;
pub mod error;
pub mod health;
pub mod history;
pub mod journal;
pub mod json;
pub mod launch;
pub mod laws;
pub mod log_frame;
pub mod log_listener;
pub mod order;
pub mod refresh;
pub mod remote_rule_auto;
pub mod replay;
pub mod rule_apply;
pub mod runtime;
pub mod services;
pub mod sidecar;
pub mod smart_bootstrap;
pub mod smart_choice;
pub mod smart_rule_pass;
pub mod smart_rules;
pub mod smart_switch;
pub mod smart_tick;
pub mod start;
pub mod start_plan;
pub mod state;
pub mod storage;
pub mod table;
pub mod text;
pub mod traffic;
pub mod view_cache;
pub mod watchdog;
pub mod web;
