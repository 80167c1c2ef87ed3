//! The data that the client keeps: nodes, rules, settings, subscriptions.

pub mod chain;
pub mod dns;
pub mod node;
pub mod rule;
pub mod settings;
pub mod subscription;
