//! Conformance-test harness core for the RaNi distance-vector routing
//! protocol: the wire-level packet codec (bit-packed header, command and
//! data payloads, one's-complement checksum) and the pure decision engine
//! of the simulation cycle that drives scripted test cases against a
//! device under test and aggregates pass/fail outcomes into a report.

pub mod codec;
pub mod cycle;
pub mod report;
pub mod schedule;
