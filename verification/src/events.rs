//! The progress events the pipeline reports while a bootstrap run works.

use vstd::prelude::*;

verus! {

/// One progress report.  A stage of unknown length announces itself with
/// `TaskStarted`; a stage of known length brackets its items between
/// `ProgressStarted` and `ProgressCompleted`, with one `ProgressAdvanced`
/// per item whether the item succeeded or failed; `BootstrapCompleted`
/// closes the whole run.
#[derive(Clone, Copy, Debug)]
pub enum PipelineEvent {
    /// A stage without a measurable length has started; the label names it.
    TaskStarted(&'static str),
    /// A measurable stage has started: item count, banner text, bar label.
    ProgressStarted(usize, &'static str, &'static str),
    /// One item of the current measurable stage is done, well or badly.
    ProgressAdvanced,
    /// The current measurable stage is done.
    ProgressCompleted,
    /// The whole bootstrap run is done and a fresh snapshot is published.
    BootstrapCompleted,
}

/// True when `events` is the stream one measurable stage of `n` items
/// emits: one start carrying `n`, then exactly `n` advances, then one
/// completion — however many of the items failed.
pub open spec fn stage_stream(events: Seq<PipelineEvent>, n: int) -> bool {
    &&& events.len() == n + 2
    &&& (events[0] matches PipelineEvent::ProgressStarted(c, _, _) && c == n)
    &&& forall|i: int| 1 <= i <= n ==> events[i] is ProgressAdvanced
    &&& events[n + 1] is ProgressCompleted
}

} // verus!
