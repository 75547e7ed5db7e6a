//! Core of a concurrent HTTP load-testing tool: the decisions of the request
//! dispatcher (how many workers run, what each request carries, which
//! outcomes become samples) and the aggregation of samples into a report.

pub mod dispatch;
pub mod method;
pub mod report;
pub mod sample;
pub mod stats;
