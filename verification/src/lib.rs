//! Incremental JUnit-report aggregation.
//!
//! The library watches no directory itself: it holds the verified core of a
//! report watcher. Callers feed it the bytes of JUnit-style XML files and
//! filesystem change events as plain values; it parses `<testsuite>` elements,
//! keeps a per-path aggregate of the latest results, and renders the summary
//! line that a notifier should display.

pub mod suite;

pub mod digits;

pub mod parser;

pub mod store;

pub mod formatter;

pub mod router;
