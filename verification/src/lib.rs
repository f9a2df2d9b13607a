//! Verified core of an uptime-monitoring pipeline.
//!
//! The library covers the logic of the pipeline: classifying probe outcomes,
//! driving a probing round under a concurrency bound, projecting probe results
//! into time-series samples and downtime notifications, building the filter
//! expressions behind the three health queries, and mapping raw query rows
//! back into ordered time-series points.  All I/O (the HTTP probes, the
//! time-series store, the alert stream) stays outside and talks to this
//! library through plain values.

pub mod config;
pub mod fanout;
pub mod influx;
pub mod input;
pub mod model;
pub mod probe;
pub mod query;
pub mod round;
pub mod rows;
pub mod select;
pub mod website;
