//! Outstanding-operations counter.
//!
//! The host-call layer maintains aggregate counters of dispatched and
//! completed asynchronous host calls. This module reads a snapshot of those
//! counters and reports how much asynchronous work is still outstanding,
//! which the host uses as a quiescence check before considering a test or
//! benchmark unit finished.

use vstd::prelude::*;

verus! {

/// Aggregate counters of asynchronous host calls, maintained by the
/// host-call layer and read, never written, by this library.
pub struct OpMetricsSummary {
    pub ops_dispatched_async: u64,
    pub ops_completed_async: u64,
}

impl OpMetricsSummary {
    /// A summary is consistent when it records no more completions than
    /// dispatches.
    pub open spec fn wf(self) -> bool {
        self.ops_completed_async <= self.ops_dispatched_async
    }
}

/// Number of dispatched asynchronous host calls that have not yet completed.
///
/// Absence of an aggregator (instrumentation disabled) is a valid state and
/// degrades to zero rather than failing. The result is a snapshot read:
/// callers needing a definitive quiescence answer must poll until stable.
pub fn outstanding(summary: &Option<OpMetricsSummary>) -> (r: u64)
    requires
        match *summary {
            Some(s) => s.wf(),
            None => true,
        },
    ensures
        r as int == match *summary {
            Some(s) => s.ops_dispatched_async - s.ops_completed_async,
            None => 0,
        },
{
    match summary {
        None => 0,
        Some(s) => s.ops_dispatched_async - s.ops_completed_async,
    }
}

} // verus!
