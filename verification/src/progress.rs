//! The progress counter a consumer of the event stream keeps: how many
//! items the current measurable stage expects and how many are done.

use vstd::prelude::*;

use crate::events::{stage_stream, PipelineEvent};

verus! {

/// Expected and completed item counts of the measurable stage in progress.
#[derive(Clone, Copy, Debug, PartialEq, Eq, Structural)]
pub struct ProgressMonitor {
    /// How many items the stage announced.
    pub end_count: usize,
    /// How many items have been reported done.
    pub current_count: usize,
}

/// The counter after one event: a start resets it to the announced total,
/// an advance counts one item, the other events leave it alone.
pub open spec fn monitor_step(m: ProgressMonitor, ev: PipelineEvent) -> ProgressMonitor {
    match ev {
        PipelineEvent::ProgressStarted(n, _, _) => ProgressMonitor {
            end_count: n,
            current_count: 0,
        },
        PipelineEvent::ProgressAdvanced => ProgressMonitor {
            end_count: m.end_count,
            current_count: (m.current_count + 1) as usize,
        },
        _ => m,
    }
}

/// The counter after a whole stream, first event first.
pub open spec fn monitor_after(m: ProgressMonitor, events: Seq<PipelineEvent>) -> ProgressMonitor
    decreases events.len(),
{
    if events.len() == 0 {
        m
    } else {
        monitor_step(monitor_after(m, events.drop_last()), events.last())
    }
}

impl ProgressMonitor {
    /// A fresh counter.
    pub fn new() -> (r: ProgressMonitor)
        ensures
            r.end_count == 0,
            r.current_count == 0,
    {
        ProgressMonitor { end_count: 0, current_count: 0 }
    }

    /// Takes one event.
    pub fn on_event(&mut self, ev: &PipelineEvent)
        requires
            ev is ProgressAdvanced ==> old(self).current_count < usize::MAX,
        ensures
            *final(self) == monitor_step(*old(self), *ev),
    {
        match ev {
            PipelineEvent::ProgressStarted(n, _, _) => {
                self.end_count = *n;
                self.current_count = 0;
            },
            PipelineEvent::ProgressAdvanced => {
                self.current_count = self.current_count + 1;
            },
            _ => {},
        }
    }
}

/// After a start and the first `k` advances of a stage stream, the counter
/// reads exactly `k` of `n`.
proof fn lemma_stage_stream_prefix(
    m: ProgressMonitor,
    events: Seq<PipelineEvent>,
    n: int,
    k: int,
)
    requires
        stage_stream(events, n),
        n <= usize::MAX,
        0 <= k <= n,
    ensures
        monitor_after(m, events.take(k + 1)).end_count == n,
        monitor_after(m, events.take(k + 1)).current_count == k,
    decreases k,
{
    if k == 0 {
        assert(events.take(1).drop_last() =~= events.take(0));
        assert(events.take(1).last() == events[0]);
        assert(monitor_after(m, events.take(0)) == m);
    } else {
        lemma_stage_stream_prefix(m, events, n, k - 1);
        assert(events.take(k + 1).drop_last() =~= events.take(k));
        assert(events.take(k + 1).last() == events[k]);
        assert(events[k] is ProgressAdvanced);
    }
}

/// Law: progress accounting balances.  Whatever the counter read before,
/// after the stream of a measurable stage of `n` items — one start, one
/// advance per item whether it succeeded or failed, one completion — the
/// counter reads exactly `n` of `n`.
pub proof fn lemma_progress_accounting(m: ProgressMonitor, events: Seq<PipelineEvent>, n: int)
    requires
        stage_stream(events, n),
        0 <= n <= usize::MAX,
    ensures
        monitor_after(m, events).end_count == n,
        monitor_after(m, events).current_count == n,
{
    lemma_stage_stream_prefix(m, events, n, n);
    assert(events.take(n + 2) =~= events);
    assert(events.take(n + 2).drop_last() =~= events.take(n + 1));
    assert(events.take(n + 2).last() == events[n + 1]);
    assert(events[n + 1] is ProgressCompleted);
}

} // verus!
