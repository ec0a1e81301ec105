//! Test- and benchmark-instrumentation core for a JavaScript/TypeScript
//! execution host.
//!
//! The library provides four collaborating components:
//! promise sanitization tracking (detecting asynchronous work a test leaks),
//! an outstanding-operations counter (deciding whether the host may advance),
//! an adaptive micro-benchmark core (a convergence-based timing average), and
//! a line-level diff engine with bounded context rendering.
//! A thin host layer performs the actual I/O, timing and VM hook wiring and
//! feeds plain values into these verified components.

pub mod bench;
pub mod diff;
pub mod fmt;
pub mod ops_metrics;
pub mod runtime_state;
pub mod tracker;
