//! Layered quality control for streams of timestamped sensor readings.
//!
//! A reading `(parameter, timestamp, value)` is checked against a per-level
//! rule set (boundary, sliding-window consistency, cross-field condition,
//! pluggable extension modules) and receives a bit-encoded status flag.
//! Values are carried as fixed-point integers chosen by the caller; the
//! library never fixes a scale, it only compares and subtracts.

pub mod boundary;
pub mod condition;
pub mod config;
pub mod consist;
pub mod database;
pub mod flag;
pub mod metadata;
pub mod module_api;
pub mod textutil;
pub mod timerange;
pub mod value;
pub mod worker;
