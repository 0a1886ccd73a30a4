//! Reconstruction of a directed graph of process-to-process network
//! communication from per-host observations.
//!
//! Each observed machine is described by a [`host::Host`]: its IP addresses,
//! listening sockets and established connections.  The matcher in
//! [`connections_model`] correlates the established connections of every host
//! with the listening sockets (or handed-off connections) of every other host
//! and returns the resulting directed edges.  Repeated snapshots of one host
//! can first be merged into a single canonical state by the update aggregator
//! in [`client`].

pub mod client;
pub mod connections_model;
pub mod graphviz;
pub mod host;
pub mod message;
pub mod net;
pub mod order;
pub mod parsers;
pub mod text;
