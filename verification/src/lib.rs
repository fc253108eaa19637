//! Hourly usage statistics for a package registry, derived from the
//! user-agent strings of its access log.

pub mod builder;
pub mod counts;
mod ledger;
pub mod options;
pub mod pattern;
pub mod request;
pub mod stats;
mod table;
pub mod text;
pub mod user_agent;
