//! The enrichment stage: applying computed thumbnails and traits to the
//! repository, one item at a time, with exact progress accounting.
//!
//! Rendering a thumbnail, probing a codec and transcoding read media files,
//! so they happen outside the library; their per-item outcomes come in as
//! plain values.  A failed item carries no traits, changes nothing, and
//! still counts in the progress stream, so the stage as a whole always
//! completes.

use vstd::prelude::*;

use crate::events::{stage_stream, PipelineEvent};
use crate::model::{PictureId, VideoId};
use crate::repo::{
    find_pic_id, find_vid_id, with_pic_enriched, with_vid_enriched, PictureRowView, Repository,
    VideoRowView,
};

verus! {

/// Banner shown while photo thumbnails are generated.
pub const PHOTO_ENRICH_BANNER: &'static str = "Generating photo thumbnails";

/// Progress-bar label of the photo enrichment stage.
pub const PHOTO_ENRICH_LABEL: &'static str = "Photos";

/// Banner shown while video thumbnails and renditions are generated.
pub const VIDEO_ENRICH_BANNER: &'static str = "Processing videos";

/// Progress-bar label of the video enrichment stage.
pub const VIDEO_ENRICH_LABEL: &'static str = "Videos";

/// What photo enrichment computed for one picture.
#[derive(Clone, Debug)]
pub struct PictureTraits {
    /// Path of the rendered thumbnail.
    pub thumbnail_path: String,
    /// Whether the front-camera heuristic calls the picture a selfie.
    pub is_selfie: bool,
}

/// Ghost image of `PictureTraits`.
pub ghost struct PictureTraitsView {
    pub thumbnail_path: Seq<char>,
    pub is_selfie: bool,
}

impl View for PictureTraits {
    type V = PictureTraitsView;

    open spec fn view(&self) -> PictureTraitsView {
        PictureTraitsView { thumbnail_path: self.thumbnail_path@, is_selfie: self.is_selfie }
    }
}

/// The outcome of enriching one picture: its traits, or nothing when the
/// item failed and was skipped.
#[derive(Clone, Debug)]
pub struct PictureOutcome {
    /// The picture the outcome belongs to.
    pub id: PictureId,
    /// The computed traits; absent when the item failed.
    pub traits: Option<PictureTraits>,
}

/// Ghost image of `PictureOutcome`.
pub ghost struct PictureOutcomeView {
    pub id: int,
    pub traits: Option<PictureTraitsView>,
}

impl View for PictureOutcome {
    type V = PictureOutcomeView;

    open spec fn view(&self) -> PictureOutcomeView {
        PictureOutcomeView {
            id: self.id.0 as int,
            traits: match self.traits {
                Some(ref t) => Some(t@),
                None => None,
            },
        }
    }
}

/// The view of a sequence of picture outcomes.
pub open spec fn pic_outcomes_view(v: Seq<PictureOutcome>) -> Seq<PictureOutcomeView> {
    v.map_values(|o: PictureOutcome| o@)
}

/// The outcome of enriching one video.  Every part is optional: a missing
/// thumbnail or verdict means that part failed; a missing rendition path
/// means no transcode finished — because none was needed, or because it
/// failed or was cut short, in which case nothing is recorded and the
/// stored requirement stands.
#[derive(Clone, Debug)]
pub struct VideoOutcome {
    /// The video the outcome belongs to.
    pub id: VideoId,
    /// Path of the rendered thumbnail, when one was rendered.
    pub thumbnail_path: Option<String>,
    /// The codec probe's verdict, when the probe ran.
    pub transcode_required: Option<bool>,
    /// Path of the finished rendition, only when a transcode succeeded.
    pub transcoded_path: Option<String>,
}

/// Ghost image of `VideoOutcome`.
pub ghost struct VideoOutcomeView {
    pub id: int,
    pub thumbnail_path: Option<Seq<char>>,
    pub transcode_required: Option<bool>,
    pub transcoded_path: Option<Seq<char>>,
}

impl View for VideoOutcome {
    type V = VideoOutcomeView;

    open spec fn view(&self) -> VideoOutcomeView {
        VideoOutcomeView {
            id: self.id.0 as int,
            thumbnail_path: match self.thumbnail_path {
                Some(ref t) => Some(t@),
                None => None,
            },
            transcode_required: self.transcode_required,
            transcoded_path: match self.transcoded_path {
                Some(ref t) => Some(t@),
                None => None,
            },
        }
    }
}

/// The view of a sequence of video outcomes.
pub open spec fn vid_outcomes_view(v: Seq<VideoOutcome>) -> Seq<VideoOutcomeView> {
    v.map_values(|o: VideoOutcome| o@)
}

/// One picture outcome applied to the picture table: the row it names
/// takes the traits; a failed or unmatched outcome changes nothing.
pub open spec fn apply_pic_outcome(
    pics: Seq<PictureRowView>,
    oc: PictureOutcomeView,
) -> Seq<PictureRowView> {
    match find_pic_id(pics, oc.id) {
        Some(j) => match oc.traits {
            Some(t) => pics.update(j, with_pic_enriched(pics[j], t.thumbnail_path, t.is_selfie)),
            None => pics,
        },
        None => pics,
    }
}

/// A whole list of picture outcomes applied in order.
pub open spec fn apply_pic_outcomes(
    pics: Seq<PictureRowView>,
    ocs: Seq<PictureOutcomeView>,
) -> Seq<PictureRowView>
    decreases ocs.len(),
{
    if ocs.len() == 0 {
        pics
    } else {
        apply_pic_outcome(apply_pic_outcomes(pics, ocs.drop_last()), ocs.last())
    }
}

/// One video outcome applied to the video table.
pub open spec fn apply_vid_outcome(
    vids: Seq<VideoRowView>,
    oc: VideoOutcomeView,
) -> Seq<VideoRowView> {
    match find_vid_id(vids, oc.id) {
        Some(j) => vids.update(
            j,
            with_vid_enriched(vids[j], oc.thumbnail_path, oc.transcode_required, oc.transcoded_path),
        ),
        None => vids,
    }
}

/// A whole list of video outcomes applied in order.
pub open spec fn apply_vid_outcomes(
    vids: Seq<VideoRowView>,
    ocs: Seq<VideoOutcomeView>,
) -> Seq<VideoRowView>
    decreases ocs.len(),
{
    if ocs.len() == 0 {
        vids
    } else {
        apply_vid_outcome(apply_vid_outcomes(vids, ocs.drop_last()), ocs.last())
    }
}

/// Runs the photo enrichment stage over the given per-item outcomes: each
/// outcome is committed on its own, a failed item is skipped and counted,
/// and the returned stream reports one start carrying the item count,
/// exactly one advance per item, and one completion.
pub fn enrich_pictures(repo: &mut Repository, outcomes: &Vec<PictureOutcome>) -> (events: Vec<
    PipelineEvent,
>)
    requires
        old(repo).wf(),
    ensures
        final(repo).wf(),
        final(repo).vids() == old(repo).vids(),
        final(repo).next_picture_id() == old(repo).next_picture_id(),
        final(repo).next_video_id() == old(repo).next_video_id(),
        final(repo).pics() == apply_pic_outcomes(old(repo).pics(), pic_outcomes_view(outcomes@)),
        stage_stream(events@, outcomes@.len() as int),
    {
        let n = outcomes.len();
        let mut events: Vec<PipelineEvent> = Vec::new();
        events.push(PipelineEvent::ProgressStarted(n, PHOTO_ENRICH_BANNER, PHOTO_ENRICH_LABEL));
        proof {
            assert(apply_pic_outcomes(
                old(repo).pics(),
                pic_outcomes_view(outcomes@).take(0),
            ) =~= old(repo).pics());
        }
        let mut i: usize = 0;
        while i < n
            invariant
                old(repo).wf(),
                repo.wf(),
                n == outcomes@.len(),
                i <= n,
                repo.vids() == old(repo).vids(),
                repo.next_picture_id() == old(repo).next_picture_id(),
                repo.next_video_id() == old(repo).next_video_id(),
                repo.pics() == apply_pic_outcomes(
                    old(repo).pics(),
                    pic_outcomes_view(outcomes@).take(i as int),
                ),
                events@.len() == i + 1,
                events@[0] matches PipelineEvent::ProgressStarted(c, _, _) && c == n,
                forall|q: int| 1 <= q <= i ==> events@[q] is ProgressAdvanced,
            decreases n - i,
        {
            let ghost pics_before = repo.pics();
            let oc = &outcomes[i];
            match &oc.traits {
                Some(t) => {
                    repo.mark_picture_enriched(oc.id, t.thumbnail_path.clone(), t.is_selfie);
                },
                None => {},
            }
            events.push(PipelineEvent::ProgressAdvanced);
            proof {
                let ocs = pic_outcomes_view(outcomes@);
                assert(ocs.take(i + 1).drop_last() =~= ocs.take(i as int));
                assert(ocs.take(i + 1).last() == ocs[i as int]);
                assert(ocs[i as int] == outcomes@[i as int]@);
                assert(repo.pics() == apply_pic_outcome(pics_before, ocs[i as int]));
                assert(repo.pics() == apply_pic_outcomes(old(repo).pics(), ocs.take(i + 1)));
            }
            i = i + 1;
        }
        events.push(PipelineEvent::ProgressCompleted);
        proof {
            assert(pic_outcomes_view(outcomes@).take(n as int) =~= pic_outcomes_view(outcomes@));
        }
        events
    }

/// Runs the video enrichment stage over the given per-item outcomes, with
/// the same per-item commits and the same progress accounting as the photo
/// stage; a transcode that did not finish records nothing, so the
/// requirement stands for a later run.
pub fn enrich_videos(repo: &mut Repository, outcomes: &Vec<VideoOutcome>) -> (events: Vec<
    PipelineEvent,
>)
    requires
        old(repo).wf(),
    ensures
        final(repo).wf(),
        final(repo).pics() == old(repo).pics(),
        final(repo).next_picture_id() == old(repo).next_picture_id(),
        final(repo).next_video_id() == old(repo).next_video_id(),
        final(repo).vids() == apply_vid_outcomes(old(repo).vids(), vid_outcomes_view(outcomes@)),
        stage_stream(events@, outcomes@.len() as int),
    {
        let n = outcomes.len();
        let mut events: Vec<PipelineEvent> = Vec::new();
        events.push(PipelineEvent::ProgressStarted(n, VIDEO_ENRICH_BANNER, VIDEO_ENRICH_LABEL));
        proof {
            assert(apply_vid_outcomes(
                old(repo).vids(),
                vid_outcomes_view(outcomes@).take(0),
            ) =~= old(repo).vids());
        }
        let mut i: usize = 0;
        while i < n
            invariant
                old(repo).wf(),
                repo.wf(),
                n == outcomes@.len(),
                i <= n,
                repo.pics() == old(repo).pics(),
                repo.next_picture_id() == old(repo).next_picture_id(),
                repo.next_video_id() == old(repo).next_video_id(),
                repo.vids() == apply_vid_outcomes(
                    old(repo).vids(),
                    vid_outcomes_view(outcomes@).take(i as int),
                ),
                events@.len() == i + 1,
                events@[0] matches PipelineEvent::ProgressStarted(c, _, _) && c == n,
                forall|q: int| 1 <= q <= i ==> events@[q] is ProgressAdvanced,
            decreases n - i,
        {
            let ghost vids_before = repo.vids();
            let oc = &outcomes[i];
            let thumb = match &oc.thumbnail_path {
                Some(t) => Some(t.clone()),
                None => None,
            };
            let transcoded = match &oc.transcoded_path {
                Some(t) => Some(t.clone()),
                None => None,
            };
            repo.mark_video_enriched(oc.id, thumb, oc.transcode_required, transcoded);
            events.push(PipelineEvent::ProgressAdvanced);
            proof {
                let ocs = vid_outcomes_view(outcomes@);
                assert(ocs.take(i + 1).drop_last() =~= ocs.take(i as int));
                assert(ocs.take(i + 1).last() == ocs[i as int]);
                assert(ocs[i as int] == outcomes@[i as int]@);
                assert(repo.vids() == apply_vid_outcome(vids_before, ocs[i as int]));
                assert(repo.vids() == apply_vid_outcomes(old(repo).vids(), ocs.take(i + 1)));
            }
            i = i + 1;
        }
        events.push(PipelineEvent::ProgressCompleted);
        proof {
            assert(vid_outcomes_view(outcomes@).take(n as int) =~= vid_outcomes_view(outcomes@));
        }
        events
    }

/// The pictures still waiting for enrichment: those without a thumbnail,
/// in row order.
pub fn pending_pictures(repo: &Repository) -> (ids: Vec<PictureId>)
    ensures
        ids@.map_values(|x: PictureId| x.0 as int) == pending_pic_ids(repo.pics()),
{
    let rows = repo.pictures();
    let n = rows.len();
    let mut ids: Vec<PictureId> = Vec::new();
    proof {
        assert(ids@.map_values(|x: PictureId| x.0 as int) =~= pending_pic_ids(
            repo.pics().take(0),
        ));
    }
    let mut i: usize = 0;
    while i < n
        invariant
            n == rows@.len(),
            rows@.map_values(|x: crate::repo::PictureRow| x@) == repo.pics(),
            i <= n,
            ids@.map_values(|x: PictureId| x.0 as int) == pending_pic_ids(
                repo.pics().take(i as int),
            ),
        decreases n - i,
    {
        proof {
            assert(repo.pics().take(i + 1).drop_last() =~= repo.pics().take(i as int));
            assert(repo.pics().take(i + 1).last() == repo.pics()[i as int]);
        }
        let ghost before = ids@;
        match &rows[i].thumbnail {
            Some(_) => {},
            None => {
                ids.push(rows[i].id);
                proof {
                    assert(ids@.map_values(|x: PictureId| x.0 as int) =~= before.map_values(
                        |x: PictureId| x.0 as int,
                    ).push(repo.pics()[i as int].id));
                }
            },
        }
        proof {
            assert(ids@.map_values(|x: PictureId| x.0 as int) =~= pending_pic_ids(
                repo.pics().take(i + 1),
            ));
        }
        i = i + 1;
    }
    proof {
        assert(repo.pics().take(n as int) =~= repo.pics());
    }
    ids
}

/// The ids of the picture rows without a thumbnail, in row order.
pub open spec fn pending_pic_ids(pics: Seq<PictureRowView>) -> Seq<int>
    decreases pics.len(),
{
    if pics.len() == 0 {
        Seq::<int>::empty()
    } else {
        let rest = pending_pic_ids(pics.drop_last());
        if pics.last().thumbnail is None {
            rest.push(pics.last().id)
        } else {
            rest
        }
    }
}

/// The videos still waiting for enrichment: those without a thumbnail or
/// with a rendition still owed or undecided, in row order.
pub fn pending_videos(repo: &Repository) -> (ids: Vec<VideoId>)
    ensures
        ids@.map_values(|x: VideoId| x.0 as int) == pending_vid_ids(repo.vids()),
{
    let rows = repo.videos();
    let n = rows.len();
    let mut ids: Vec<VideoId> = Vec::new();
    proof {
        assert(ids@.map_values(|x: VideoId| x.0 as int) =~= pending_vid_ids(repo.vids().take(0)));
    }
    let mut i: usize = 0;
    while i < n
        invariant
            n == rows@.len(),
            rows@.map_values(|x: crate::repo::VideoRow| x@) == repo.vids(),
            i <= n,
            ids@.map_values(|x: VideoId| x.0 as int) == pending_vid_ids(repo.vids().take(i as int)),
        decreases n - i,
    {
        proof {
            assert(repo.vids().take(i + 1).drop_last() =~= repo.vids().take(i as int));
            assert(repo.vids().take(i + 1).last() == repo.vids()[i as int]);
        }
        let ghost before = ids@;
        let row = &rows[i];
        let needs = match (&row.thumbnail, &row.transcode_required) {
            (None, _) => true,
            (Some(_), None) => true,
            (Some(_), Some(req)) => *req && match &row.transcoded {
                Some(_) => false,
                None => true,
            },
        };
        if needs {
            ids.push(row.id);
            proof {
                assert(ids@.map_values(|x: VideoId| x.0 as int) =~= before.map_values(
                    |x: VideoId| x.0 as int,
                ).push(repo.vids()[i as int].id));
            }
        }
        proof {
            assert(ids@.map_values(|x: VideoId| x.0 as int) =~= pending_vid_ids(
                repo.vids().take(i + 1),
            ));
        }
        i = i + 1;
    }
    proof {
        assert(repo.vids().take(n as int) =~= repo.vids());
    }
    ids
}

/// True when a video row still needs enrichment work.
pub open spec fn vid_needs_enrichment(v: VideoRowView) -> bool {
    ||| v.thumbnail is None
    ||| v.transcode_required is None
    ||| (v.transcode_required == Some(true) && v.transcoded is None)
}

/// The ids of the video rows that still need enrichment, in row order.
pub open spec fn pending_vid_ids(vids: Seq<VideoRowView>) -> Seq<int>
    decreases vids.len(),
{
    if vids.len() == 0 {
        Seq::<int>::empty()
    } else {
        let rest = pending_vid_ids(vids.drop_last());
        if vid_needs_enrichment(vids.last()) {
            rest.push(vids.last().id)
        } else {
            rest
        }
    }
}

/// Law: a transcode that did not finish records nothing.  When an outcome
/// carries no rendition path — the conversion failed or was cut short —
/// the row's rendition stays exactly as it was, and whenever a rendition
/// is owed (by this probe or an earlier one) the requirement still stands,
/// so a later run retries.
pub proof fn lemma_failed_transcode_keeps_requirement(v: VideoRowView, oc: VideoOutcomeView)
    requires
        oc.transcoded_path is None,
    ensures
        with_vid_enriched(
            v,
            oc.thumbnail_path,
            oc.transcode_required,
            oc.transcoded_path,
        ).transcoded == v.transcoded,
        (oc.transcode_required == Some(true) || (oc.transcode_required is None
            && v.transcode_required == Some(true))) ==> with_vid_enriched(
            v,
            oc.thumbnail_path,
            oc.transcode_required,
            oc.transcoded_path,
        ).transcode_required == Some(true),
{
}

/// Messages the preview worker takes.
#[derive(Clone, Copy, Debug)]
pub enum GeneratePreviewsInput {
    Generate,
}

/// Messages the preview worker reports.
#[derive(Clone, Copy, Debug, PartialEq, Eq, Structural)]
pub enum GeneratePreviewsOutput {
    PreviewsGenerated,
}

/// A worker that owns the repository while photo previews are generated
/// and applies each computed preview as its own commit, so that one bad
/// item never blocks the rest.
pub struct GeneratePreviews {
    repo: Repository,
}

impl GeneratePreviews {
    /// The repository the worker owns.
    pub closed spec fn repo(self) -> Repository {
        self.repo
    }

    /// A worker over the given repository.
    pub fn new(repo: Repository) -> (r: GeneratePreviews)
        ensures
            r.repo() == repo,
    {
        GeneratePreviews { repo }
    }

    /// The repository the worker owns, for reading.
    pub fn repository(&self) -> (r: &Repository)
        ensures
            *r == self.repo(),
    {
        &self.repo
    }

    /// Applies the computed previews one by one and reports the stage's
    /// progress stream; a failed item is skipped and still counted.
    pub fn update_previews(&mut self, outcomes: &Vec<PictureOutcome>) -> (events: Vec<
        PipelineEvent,
    >)
        requires
            old(self).repo().wf(),
        ensures
            final(self).repo().wf(),
            final(self).repo().vids() == old(self).repo().vids(),
            final(self).repo().pics() == apply_pic_outcomes(
                old(self).repo().pics(),
                pic_outcomes_view(outcomes@),
            ),
            stage_stream(events@, outcomes@.len() as int),
    {
        enrich_pictures(&mut self.repo, outcomes)
    }

    /// Takes one message: a generation request runs the stage and reports
    /// completion along with the progress stream.
    pub fn update(&mut self, msg: GeneratePreviewsInput, outcomes: &Vec<PictureOutcome>) -> (r: (
        Vec<PipelineEvent>,
        Option<GeneratePreviewsOutput>,
    ))
        requires
            old(self).repo().wf(),
        ensures
            final(self).repo().wf(),
            final(self).repo().vids() == old(self).repo().vids(),
            final(self).repo().pics() == apply_pic_outcomes(
                old(self).repo().pics(),
                pic_outcomes_view(outcomes@),
            ),
            stage_stream(r.0@, outcomes@.len() as int),
            r.1 == Some(GeneratePreviewsOutput::PreviewsGenerated),
    {
        match msg {
            GeneratePreviewsInput::Generate => {
                let events = enrich_pictures(&mut self.repo, outcomes);
                (events, Some(GeneratePreviewsOutput::PreviewsGenerated))
            },
        }
    }
}

} // verus!
