//! A time-bounded sampler of a streaming price feed.
//!
//! The library holds the decisions of one collection session: how a message
//! becomes an observation, what the collector does on each feed event, and how
//! the collected observations are reduced to a summary. Network traffic, the
//! clock, files and binary64 arithmetic are the caller's; values of that kind
//! cross the boundary as plain integers and strings.

pub mod observation;
pub mod decode;
pub mod collector;
pub mod summary;
pub mod config;
pub mod report;
