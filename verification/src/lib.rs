//! Planning for throughput benchmarks against object stores.
//!
//! A benchmark uploads an object in parts, reads it back in ranges that are
//! spread over a pool of clients, or reads random rows of a table in files.
//! This library decides what is sent and asked for: the parts of an upload
//! ([`upload`]) and the buffer they are cut from ([`buffer`]), the ranges of
//! a read pass ([`range`]) and the client that reads each ([`fanout`],
//! [`scan`]), the place of a row in its file ([`random_access`],
//! [`location`]), the store that a URI names ([`backend`]), the text and
//! the tally of a ranged download ([`s3`], [`decimal`]), the batches of a
//! columnar scan ([`row_groups`]) and the course of a run ([`driver`],
//! [`workload`]). Talking to the store and taking the time is left to the
//! caller.

pub mod backend;
pub mod buffer;
pub mod decimal;
pub mod driver;
pub mod fanout;
pub mod location;
pub mod random_access;
pub mod range;
pub mod row_groups;
pub mod s3;
pub mod scan;
pub mod upload;
pub mod workload;
