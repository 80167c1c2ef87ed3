//! What holds of the operations of the client, whatever they are made of.

pub mod calendar;
pub mod choosing;
pub mod cores;
pub mod dns;
pub mod imports;
pub mod probing;
pub mod reading;
pub mod recording;
pub mod rulesets;
pub mod session;
pub mod shown;
pub mod stored;
pub mod subscriptions;
pub mod switching;
pub mod texts;
