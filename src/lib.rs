//! Metrics collection and aggregation for a fleet of locally running network nodes.
//!
//! - [`metrics`] reads a node's Prometheus-style text into a [`metrics::NodeMetrics`] record.
//! - [`discovery`] finds each node's metrics URL in its log and orders the node directories.
//! - [`storage`] sizes a record-store tree, skipping the parts that cannot be read.
//! - [`history`] keeps bounded speed histories.
//! - [`app`] is the engine: registry, latest readings, speeds, histories and fleet totals.
//! - [`fetch`] describes poll failures; [`formatters`] and [`cli`] hold the text and
//!   path rules of the dashboard.
//! - [`text`] and [`table`] are the character and keyed-table helpers beneath them.

pub mod text;
pub mod metrics;
pub mod history;
pub mod storage;
pub mod table;
pub mod app;
pub mod discovery;
pub mod formatters;
pub mod cli;
pub mod fetch;
