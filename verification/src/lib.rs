//! Ranks package-repository mirrors by observed download performance.
//!
//! The crate models a country-jumping speed-test engine: candidate mirrors
//! are partitioned by country, a small sample per country is probed, and the
//! most promising neighbor countries are explored next, until the jump budget
//! is exhausted or measured quality degrades.  Network I/O happens outside
//! the library; the engine is a state machine over plain values, and every
//! decision it makes is specified and verified.

pub mod arith;
pub mod config;
pub mod countries;
pub mod engine;
pub mod freshness;
pub mod mirror;
pub mod mirrors;
pub mod order;
pub mod report;
pub mod speed_test;
pub mod strutil;
pub mod target_configs;
pub mod targets;
pub mod urls;
