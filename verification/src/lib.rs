//! Candidate generation and historical-overlap filtering for six-of-sixty
//! lottery draws.
//!
//! A run samples candidates of six different numbers, compares each with
//! every past draw, and keeps those that share fewer numbers with any one of
//! them than the threshold and whose sum lies strictly inside the range that
//! the history gives, until the quota is met.
//!
//! - [`draw`] and [`historico`] hold the records and their model;
//! - [`overlap`], [`trio`], [`existence`] and [`sum_range`] are the checks
//!   against the history, and [`corpus`] selects the records compared with;
//! - [`generator`] samples candidates and [`admission`] runs the loop;
//! - [`storage`] prepares what is written for an accepted draw, and
//!   [`render`] writes a draw as text;
//! - [`csv_row`] and [`ingest`] read the file of historical draws;
//! - [`checksum`] and [`migration`] hold the rule of the migration runner.

pub mod admission;
pub mod checksum;
pub mod corpus;
pub mod csv_row;
pub mod draw;
pub mod existence;
pub mod generator;
pub mod historico;
pub mod ingest;
pub mod migration;
pub mod overlap;
pub mod render;
pub mod storage;
pub mod sum_range;
pub mod trio;
