//! The bootstrap coordinator: a finite state machine that sequences the
//! pipeline stages and coalesces concurrent start requests.
//!
//! One run walks scan → clean → enrich, one stage at a time; a stage's
//! successor starts only on its completion signal, and a start request
//! while a run is in progress is a no-op.

use vstd::prelude::*;

verus! {

/// The stage a bootstrap run is in; `Idle` means no run is in progress.
#[derive(Clone, Copy, Debug, PartialEq, Eq, Structural)]
pub enum Stage {
    Idle,
    ScanPhotos,
    ScanVideos,
    CleanPhotos,
    CleanVideos,
    EnrichVideos,
    EnrichPhotos,
}

/// The stage that follows `s` when `s` reports completion; the last stage
/// returns to `Idle`.
pub open spec fn next_stage(s: Stage) -> Stage {
    match s {
        Stage::Idle => Stage::Idle,
        Stage::ScanPhotos => Stage::ScanVideos,
        Stage::ScanVideos => Stage::CleanPhotos,
        Stage::CleanPhotos => Stage::CleanVideos,
        Stage::CleanVideos => Stage::EnrichVideos,
        Stage::EnrichVideos => Stage::EnrichPhotos,
        Stage::EnrichPhotos => Stage::Idle,
    }
}

/// The banner text a stage announces itself with.
pub fn stage_label(s: Stage) -> (r: &'static str)
    ensures
        (s is ScanPhotos ==> r@ == "Scanning photos"@),
        (s is ScanVideos ==> r@ == "Scanning videos"@),
        (s is CleanPhotos ==> r@ == "Reconciling photos"@),
        (s is CleanVideos ==> r@ == "Reconciling videos"@),
        (s is EnrichVideos ==> r@ == "Processing videos"@),
        (s is EnrichPhotos ==> r@ == "Generating photo thumbnails"@),
{
    match s {
        Stage::Idle => "Idle",
        Stage::ScanPhotos => "Scanning photos",
        Stage::ScanVideos => "Scanning videos",
        Stage::CleanPhotos => "Reconciling photos",
        Stage::CleanVideos => "Reconciling videos",
        Stage::EnrichVideos => "Processing videos",
        Stage::EnrichPhotos => "Generating photo thumbnails",
    }
}

/// The supervisor of one bootstrap run.
pub struct Coordinator {
    stage: Stage,
}

impl Coordinator {
    /// The stage the coordinator is in.
    pub closed spec fn stage(self) -> Stage {
        self.stage
    }

    /// True while a run is in progress.
    pub open spec fn running(self) -> bool {
        !(self.stage() is Idle)
    }

    /// A fresh coordinator, idle.
    pub fn new() -> (r: Coordinator)
        ensures
            r.stage() is Idle,
    {
        Coordinator { stage: Stage::Idle }
    }

    /// The stage the coordinator is in.
    pub fn current_stage(&self) -> (r: Stage)
        ensures
            r == self.stage(),
    {
        self.stage
    }

    /// Asks for a bootstrap run.  When idle, the run begins with its first
    /// stage.  When a run is already in progress the request is a no-op:
    /// the coordinator is left exactly as it was, no second stage sequence
    /// begins, and the caller is told to do nothing.
    pub fn start(&mut self) -> (started: bool)
        ensures
            started == !old(self).running(),
            old(self).running() ==> *final(self) == *old(self),
            !old(self).running() ==> final(self).stage() is ScanPhotos,
    {
        match self.stage {
            Stage::Idle => {
                self.stage = Stage::ScanPhotos;
                true
            },
            _ => false,
        }
    }

    /// Takes the completion signal of the stage in progress and moves to
    /// its successor.  The returned stage is the one to run next; nothing
    /// is returned when the run just finished and the coordinator is idle
    /// again.
    pub fn on_stage_completed(&mut self) -> (r: Option<Stage>)
        requires
            old(self).running(),
        ensures
            final(self).stage() == next_stage(old(self).stage()),
            match r {
                Some(s) => s == next_stage(old(self).stage()) && final(self).running(),
                None => !final(self).running(),
            },
    {
        let next = match self.stage {
            Stage::Idle => Stage::Idle,
            Stage::ScanPhotos => Stage::ScanVideos,
            Stage::ScanVideos => Stage::CleanPhotos,
            Stage::CleanPhotos => Stage::CleanVideos,
            Stage::CleanVideos => Stage::EnrichVideos,
            Stage::EnrichVideos => Stage::EnrichPhotos,
            Stage::EnrichPhotos => Stage::Idle,
        };
        self.stage = next;
        match next {
            Stage::Idle => None,
            s => Some(s),
        }
    }
}

/// Law: one run visits the stages in the pipeline order and no other —
/// scans first, then reconciliation, then enrichment, then idle again.
pub proof fn lemma_bootstrap_order()
    ensures
        next_stage(Stage::ScanPhotos) == Stage::ScanVideos,
        next_stage(Stage::ScanVideos) == Stage::CleanPhotos,
        next_stage(Stage::CleanPhotos) == Stage::CleanVideos,
        next_stage(Stage::CleanVideos) == Stage::EnrichVideos,
        next_stage(Stage::EnrichVideos) == Stage::EnrichPhotos,
        next_stage(Stage::EnrichPhotos) == Stage::Idle,
{
}

} // verus!
