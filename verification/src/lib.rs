//! A backtracking, line-oriented markup parsing core.
//!
//! The library provides a speculative cursor over an immutable byte buffer,
//! a three-way parse-outcome algebra with alternation and mapping
//! combinators, generic maximal-run scan primitives driven by byte matchers,
//! a lazy queue-backed block-production engine that can fork sub-engines
//! over sub-regions, and a link-reference table with deferred fixup of
//! inline payloads.

pub mod block;
pub mod config;
pub mod cursor;
pub mod engine;
pub mod links;
pub mod matcher;
pub mod outcome;
pub mod scans;
pub mod tokens;
