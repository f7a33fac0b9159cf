//! Crucible: continuous integration for chess engines.
//!
//! This crate holds the verified decision logic of Crucible: the regression
//! hunt, the scheduler's pairing rules, branch patterns, opening-book parsing,
//! configuration validation and the bookkeeping of training-data runs.
pub mod types;
pub mod text;
pub mod bisect;
pub mod git;
pub mod chess_rules;
pub mod epd;
pub mod match_runner;
pub mod config;
pub mod scheduler;
pub mod training;
pub mod web;
pub mod codec;
pub mod workflow;
pub mod gate;
pub mod uci;
