//! The persisted store of visual items.
//!
//! The repository owns the picture and video rows, keyed by canonical path;
//! it upserts scanner records idempotently, applies the enricher's point
//! updates, drops rows whose files are gone, and merges the two tables into
//! the visual items it serves, newest first.

use vstd::prelude::*;
use vstd::string::*;

use crate::model::{PictureId, VideoId, Visual, VisualId, VisualMedia, VisualMediaView, VisualView};
use crate::paths;
use crate::scan::ScannedFile;

verus! {

/// Index of the picture row keyed by `path`, if any.
pub open spec fn find_pic_path(pics: Seq<PictureRowView>, path: Seq<char>) -> Option<int>
    decreases pics.len(),
{
    if pics.len() == 0 {
        None
    } else if pics[0].path == path {
        Some(0)
    } else {
        match find_pic_path(pics.drop_first(), path) {
            Some(i) => Some(i + 1),
            None => None,
        }
    }
}

/// What `find_pic_path` finds: the first row keyed by `path`, or none
/// anywhere.
pub proof fn lemma_find_pic_path(pics: Seq<PictureRowView>, path: Seq<char>)
    ensures
        match find_pic_path(pics, path) {
            Some(i) => 0 <= i < pics.len() && pics[i].path == path && forall|j: int|
                0 <= j < i ==> pics[j].path != path,
            None => forall|j: int| 0 <= j < pics.len() ==> pics[j].path != path,
        },
    decreases pics.len(),
{
    if pics.len() == 0 {
    } else if pics[0].path == path {
    } else {
        let rest = pics.drop_first();
        lemma_find_pic_path(rest, path);
        match find_pic_path(rest, path) {
            Some(i) => {
                assert forall|j: int| 0 <= j < i + 1 implies pics[j].path != path by {
                    if j >= 1 {
                        assert(pics[j] == rest[j - 1]);
                    }
                }
            },
            None => {
                assert forall|j: int| 0 <= j < pics.len() implies pics[j].path != path by {
                    if j >= 1 {
                        assert(pics[j] == rest[j - 1]);
                    }
                }
            },
        }
    }
}

/// Index of the video row keyed by `path`, if any.
pub open spec fn find_vid_path(vids: Seq<VideoRowView>, path: Seq<char>) -> Option<int>
    decreases vids.len(),
{
    if vids.len() == 0 {
        None
    } else if vids[0].path == path {
        Some(0)
    } else {
        match find_vid_path(vids.drop_first(), path) {
            Some(i) => Some(i + 1),
            None => None,
        }
    }
}

/// What `find_vid_path` finds: the first row keyed by `path`, or none
/// anywhere.
pub proof fn lemma_find_vid_path(vids: Seq<VideoRowView>, path: Seq<char>)
    ensures
        match find_vid_path(vids, path) {
            Some(i) => 0 <= i < vids.len() && vids[i].path == path && forall|j: int|
                0 <= j < i ==> vids[j].path != path,
            None => forall|j: int| 0 <= j < vids.len() ==> vids[j].path != path,
        },
    decreases vids.len(),
{
    if vids.len() == 0 {
    } else if vids[0].path == path {
    } else {
        let rest = vids.drop_first();
        lemma_find_vid_path(rest, path);
        match find_vid_path(rest, path) {
            Some(i) => {
                assert forall|j: int| 0 <= j < i + 1 implies vids[j].path != path by {
                    if j >= 1 {
                        assert(vids[j] == rest[j - 1]);
                    }
                }
            },
            None => {
                assert forall|j: int| 0 <= j < vids.len() implies vids[j].path != path by {
                    if j >= 1 {
                        assert(vids[j] == rest[j - 1]);
                    }
                }
            },
        }
    }
}

/// A persisted picture row.
#[derive(Debug)]
pub struct PictureRow {
    /// Stable row id.
    pub id: PictureId,
    /// Canonical path of the picture file; unique over the table.
    pub path: String,
    /// Directory part of the path.
    pub parent: String,
    /// Path without its extension: the merge key pairing the picture with a
    /// companion video.
    pub base: String,
    /// Creation timestamp, seconds since the Unix epoch.
    pub created_at: i64,
    /// Thumbnail, once enrichment has produced one.
    pub thumbnail: Option<String>,
    /// Selfie trait, once enrichment has decided it.
    pub selfie: Option<bool>,
}

/// Ghost image of `PictureRow`.
pub ghost struct PictureRowView {
    pub id: int,
    pub path: Seq<char>,
    pub parent: Seq<char>,
    pub base: Seq<char>,
    pub created_at: int,
    pub thumbnail: Option<Seq<char>>,
    pub selfie: Option<bool>,
}

impl View for PictureRow {
    type V = PictureRowView;

    open spec fn view(&self) -> PictureRowView {
        PictureRowView {
            id: self.id.0 as int,
            path: self.path@,
            parent: self.parent@,
            base: self.base@,
            created_at: self.created_at as int,
            thumbnail: match self.thumbnail {
                Some(ref t) => Some(t@),
                None => None,
            },
            selfie: self.selfie,
        }
    }
}

/// A persisted video row.
#[derive(Debug)]
pub struct VideoRow {
    /// Stable row id.
    pub id: VideoId,
    /// Canonical path of the video file; unique over the table.
    pub path: String,
    /// Directory part of the path.
    pub parent: String,
    /// Path without its extension: the merge key pairing the video with a
    /// companion picture.
    pub base: String,
    /// Creation timestamp, seconds since the Unix epoch.
    pub created_at: i64,
    /// Thumbnail, once enrichment has produced one.
    pub thumbnail: Option<String>,
    /// Viewer-playable rendition, once a transcode has succeeded.
    pub transcoded: Option<String>,
    /// Whether a rendition is still owed: unknown before the codec probe,
    /// true from the probe until a transcode succeeds.
    pub transcode_required: Option<bool>,
}

/// Ghost image of `VideoRow`.
pub ghost struct VideoRowView {
    pub id: int,
    pub path: Seq<char>,
    pub parent: Seq<char>,
    pub base: Seq<char>,
    pub created_at: int,
    pub thumbnail: Option<Seq<char>>,
    pub transcoded: Option<Seq<char>>,
    pub transcode_required: Option<bool>,
}

impl View for VideoRow {
    type V = VideoRowView;

    open spec fn view(&self) -> VideoRowView {
        VideoRowView {
            id: self.id.0 as int,
            path: self.path@,
            parent: self.parent@,
            base: self.base@,
            created_at: self.created_at as int,
            thumbnail: match self.thumbnail {
                Some(ref t) => Some(t@),
                None => None,
            },
            transcoded: match self.transcoded {
                Some(ref t) => Some(t@),
                None => None,
            },
            transcode_required: self.transcode_required,
        }
    }
}

impl Clone for PictureRow {
    fn clone(&self) -> (r: Self)
        ensures
            r@ == self@,
    {
        PictureRow {
            id: self.id,
            path: self.path.clone(),
            parent: self.parent.clone(),
            base: self.base.clone(),
            created_at: self.created_at,
            thumbnail: match &self.thumbnail {
                Some(t) => Some(t.clone()),
                None => None,
            },
            selfie: self.selfie,
        }
    }
}

impl Clone for VideoRow {
    fn clone(&self) -> (r: Self)
        ensures
            r@ == self@,
    {
        VideoRow {
            id: self.id,
            path: self.path.clone(),
            parent: self.parent.clone(),
            base: self.base.clone(),
            created_at: self.created_at,
            thumbnail: match &self.thumbnail {
                Some(t) => Some(t.clone()),
                None => None,
            },
            transcoded: match &self.transcoded {
                Some(t) => Some(t.clone()),
                None => None,
            },
            transcode_required: self.transcode_required,
        }
    }
}

/// The row a fresh picture sighting becomes.
pub open spec fn new_picture_row(rec: crate::scan::ScannedFileView, id: int) -> PictureRowView {
    PictureRowView {
        id: id,
        path: rec.path,
        parent: paths::dir_of(rec.path),
        base: paths::base_of(rec.path),
        created_at: rec.created_at,
        thumbnail: None,
        selfie: None,
    }
}

/// The row a fresh video sighting becomes.
pub open spec fn new_video_row(rec: crate::scan::ScannedFileView, id: int) -> VideoRowView {
    VideoRowView {
        id: id,
        path: rec.path,
        parent: paths::dir_of(rec.path),
        base: paths::base_of(rec.path),
        created_at: rec.created_at,
        thumbnail: None,
        transcoded: None,
        transcode_required: None,
    }
}

/// A picture row re-sighted by the scanner: only the creation timestamp is
/// refreshed; identity and enrichment survive.
pub open spec fn resight_picture_row(r: PictureRowView, created_at: int) -> PictureRowView {
    PictureRowView {
        id: r.id,
        path: r.path,
        parent: r.parent,
        base: r.base,
        created_at: created_at,
        thumbnail: r.thumbnail,
        selfie: r.selfie,
    }
}

/// A video row re-sighted by the scanner.
pub open spec fn resight_video_row(r: VideoRowView, created_at: int) -> VideoRowView {
    VideoRowView {
        id: r.id,
        path: r.path,
        parent: r.parent,
        base: r.base,
        created_at: created_at,
        thumbnail: r.thumbnail,
        transcoded: r.transcoded,
        transcode_required: r.transcode_required,
    }
}

/// Well-formedness of the picture table: paths and ids unique, ids below the
/// id counter, derived columns consistent with the path.
pub open spec fn pics_wf(pics: Seq<PictureRowView>, next_id: int) -> bool {
    &&& forall|i: int, j: int|
        0 <= i < j < pics.len() ==> pics[i].path != pics[j].path && pics[i].id != pics[j].id
    &&& forall|i: int|
        0 <= i < pics.len() ==> 0 <= #[trigger] pics[i].id < next_id && pics[i].parent
            == paths::dir_of(pics[i].path) && pics[i].base == paths::base_of(pics[i].path)
}

/// Well-formedness of the video table.
pub open spec fn vids_wf(vids: Seq<VideoRowView>, next_id: int) -> bool {
    &&& forall|i: int, j: int|
        0 <= i < j < vids.len() ==> vids[i].path != vids[j].path && vids[i].id != vids[j].id
    &&& forall|i: int|
        0 <= i < vids.len() ==> 0 <= #[trigger] vids[i].id < next_id && vids[i].parent
            == paths::dir_of(vids[i].path) && vids[i].base == paths::base_of(vids[i].path)
}

/// Re-sighting a row keeps the picture table well formed.
proof fn lemma_pics_wf_resight(pics: Seq<PictureRowView>, i: int, t: int, next: int)
    requires
        pics_wf(pics, next),
        0 <= i < pics.len(),
    ensures
        pics_wf(pics.update(i, resight_picture_row(pics[i], t)), next),
{
    let ps = pics.update(i, resight_picture_row(pics[i], t));
    assert forall|a: int, b: int| 0 <= a < b < ps.len() implies ps[a].path != ps[b].path && ps[a].id
        != ps[b].id by {
        assert(ps[a].path == pics[a].path && ps[a].id == pics[a].id);
        assert(ps[b].path == pics[b].path && ps[b].id == pics[b].id);
    }
    assert forall|a: int| 0 <= a < ps.len() implies 0 <= #[trigger] ps[a].id < next && ps[a].parent
        == paths::dir_of(ps[a].path) && ps[a].base == paths::base_of(ps[a].path) by {
        assert(pics[a].id < next && pics[a].parent == paths::dir_of(pics[a].path) && pics[a].base
            == paths::base_of(pics[a].path));
    }
}

/// Appending a fresh row under an unseen path keeps the picture table well
/// formed.
proof fn lemma_pics_wf_push(pics: Seq<PictureRowView>, rec: crate::scan::ScannedFileView, next: int)
    requires
        pics_wf(pics, next),
        0 <= next,
        forall|j: int| 0 <= j < pics.len() ==> pics[j].path != rec.path,
    ensures
        pics_wf(pics.push(new_picture_row(rec, next)), next + 1),
{
    let ps = pics.push(new_picture_row(rec, next));
    assert forall|a: int, b: int| 0 <= a < b < ps.len() implies ps[a].path != ps[b].path && ps[a].id
        != ps[b].id by {
        if b < pics.len() {
            assert(ps[a] == pics[a] && ps[b] == pics[b]);
        } else {
            assert(ps[a] == pics[a] && ps[b] == new_picture_row(rec, next));
            assert(pics[a].id < next);
        }
    }
    assert forall|a: int| 0 <= a < ps.len() implies 0 <= #[trigger] ps[a].id < next + 1 && ps[a].parent
        == paths::dir_of(ps[a].path) && ps[a].base == paths::base_of(ps[a].path) by {
        if a < pics.len() {
            assert(ps[a] == pics[a]);
            assert(pics[a].id < next);
        } else {
            assert(ps[a] == new_picture_row(rec, next));
        }
    }
}

/// Re-sighting a row keeps the video table well formed.
proof fn lemma_vids_wf_resight(vids: Seq<VideoRowView>, i: int, t: int, next: int)
    requires
        vids_wf(vids, next),
        0 <= i < vids.len(),
    ensures
        vids_wf(vids.update(i, resight_video_row(vids[i], t)), next),
{
    let vs = vids.update(i, resight_video_row(vids[i], t));
    assert forall|a: int, b: int| 0 <= a < b < vs.len() implies vs[a].path != vs[b].path && vs[a].id
        != vs[b].id by {
        assert(vs[a].path == vids[a].path && vs[a].id == vids[a].id);
        assert(vs[b].path == vids[b].path && vs[b].id == vids[b].id);
    }
    assert forall|a: int| 0 <= a < vs.len() implies 0 <= #[trigger] vs[a].id < next && vs[a].parent
        == paths::dir_of(vs[a].path) && vs[a].base == paths::base_of(vs[a].path) by {
        assert(vids[a].id < next && vids[a].parent == paths::dir_of(vids[a].path) && vids[a].base
            == paths::base_of(vids[a].path));
    }
}

/// Appending a fresh row under an unseen path keeps the video table well
/// formed.
proof fn lemma_vids_wf_push(vids: Seq<VideoRowView>, rec: crate::scan::ScannedFileView, next: int)
    requires
        vids_wf(vids, next),
        0 <= next,
        forall|j: int| 0 <= j < vids.len() ==> vids[j].path != rec.path,
    ensures
        vids_wf(vids.push(new_video_row(rec, next)), next + 1),
{
    let vs = vids.push(new_video_row(rec, next));
    assert forall|a: int, b: int| 0 <= a < b < vs.len() implies vs[a].path != vs[b].path && vs[a].id
        != vs[b].id by {
        if b < vids.len() {
            assert(vs[a] == vids[a] && vs[b] == vids[b]);
        } else {
            assert(vs[a] == vids[a] && vs[b] == new_video_row(rec, next));
            assert(vids[a].id < next);
        }
    }
    assert forall|a: int| 0 <= a < vs.len() implies 0 <= #[trigger] vs[a].id < next + 1 && vs[a].parent
        == paths::dir_of(vs[a].path) && vs[a].base == paths::base_of(vs[a].path) by {
        if a < vids.len() {
            assert(vs[a] == vids[a]);
            assert(vids[a].id < next);
        } else {
            assert(vs[a] == new_video_row(rec, next));
        }
    }
}

/// The persisted store of picture and video rows.
pub struct Repository {
    pictures: Vec<PictureRow>,
    videos: Vec<VideoRow>,
    next_picture_id: i64,
    next_video_id: i64,
}

impl Repository {
    /// The picture table, as the mathematical sequence of its rows.
    pub closed spec fn pics(self) -> Seq<PictureRowView> {
        self.pictures@.map_values(|r: PictureRow| r@)
    }

    /// The video table, as the mathematical sequence of its rows.
    pub closed spec fn vids(self) -> Seq<VideoRowView> {
        self.videos@.map_values(|r: VideoRow| r@)
    }

    /// The id the next fresh picture row will take.
    pub closed spec fn next_picture_id(self) -> int {
        self.next_picture_id as int
    }

    /// The id the next fresh video row will take.
    pub closed spec fn next_video_id(self) -> int {
        self.next_video_id as int
    }

    /// The repository invariant.
    pub open spec fn wf(self) -> bool {
        &&& pics_wf(self.pics(), self.next_picture_id())
        &&& vids_wf(self.vids(), self.next_video_id())
        &&& 0 <= self.next_picture_id()
        &&& 0 <= self.next_video_id()
    }

    /// An empty repository.
    pub fn new() -> (r: Repository)
        ensures
            r.wf(),
            r.pics() == Seq::<PictureRowView>::empty(),
            r.vids() == Seq::<VideoRowView>::empty(),
            r.next_picture_id() == 0,
            r.next_video_id() == 0,
    {
        let r = Repository { pictures: Vec::new(), videos: Vec::new(), next_picture_id: 0, next_video_id: 0 };
        proof {
            assert(r.pics() =~= Seq::<PictureRowView>::empty());
            assert(r.vids() =~= Seq::<VideoRowView>::empty());
        }
        r
    }

    /// The picture rows, for reading.
    pub fn pictures(&self) -> (r: &Vec<PictureRow>)
        ensures
            r@.map_values(|x: PictureRow| x@) == self.pics(),
    {
        &self.pictures
    }

    /// The id the next fresh picture row will take.
    pub fn picture_id_counter(&self) -> (r: i64)
        ensures
            r as int == self.next_picture_id(),
    {
        self.next_picture_id
    }

    /// The id the next fresh video row will take.
    pub fn video_id_counter(&self) -> (r: i64)
        ensures
            r as int == self.next_video_id(),
    {
        self.next_video_id
    }

    /// The video rows, for reading.
    pub fn videos(&self) -> (r: &Vec<VideoRow>)
        ensures
            r@.map_values(|x: VideoRow| x@) == self.vids(),
    {
        &self.videos
    }

    /// Records one photo sighting: refreshes the row already keyed by the
    /// record's path, or inserts a fresh one, and returns the row's stable
    /// id.  Re-upserting an unchanged file leaves every row as it was.
    pub fn upsert_picture(&mut self, rec: &ScannedFile) -> (id: PictureId)
        requires
            old(self).wf(),
            rec.kind is Photo,
            old(self).next_picture_id() < i64::MAX,
        ensures
            final(self).wf(),
            final(self).vids() == old(self).vids(),
            final(self).next_video_id() == old(self).next_video_id(),
            (final(self).pics(), final(self).next_picture_id()) == spec_upsert_pic(
                old(self).pics(),
                old(self).next_picture_id(),
                rec@,
            ),
            match find_pic_path(old(self).pics(), rec.path@) {
                Some(j) => {
                    &&& id.0 as int == old(self).pics()[j].id
                    &&& final(self).pics() == old(self).pics().update(
                        j,
                        resight_picture_row(old(self).pics()[j], rec.created_at as int),
                    )
                    &&& final(self).next_picture_id() == old(self).next_picture_id()
                },
                None => {
                    &&& id.0 as int == old(self).next_picture_id()
                    &&& final(self).pics() == old(self).pics().push(
                        new_picture_row(rec@, old(self).next_picture_id()),
                    )
                    &&& final(self).next_picture_id() == old(self).next_picture_id() + 1
                },
            },
    {
        proof {
            lemma_find_pic_path(old(self).pics(), rec.path@);
        }
        let n = self.pictures.len();
        let mut i: usize = 0;
        while i < n
            invariant
                old(self).wf(),
                n == self.pictures.len(),
                i <= n,
                *self == *old(self),
                forall|j: int| 0 <= j < i ==> old(self).pics()[j].path != rec.path@,
            decreases n - i,
        {
            if paths::str_eq(self.pictures[i].path.as_str(), rec.path.as_str()) {
                assert(old(self).pics()[i as int].path == rec.path@);
                let id = self.pictures[i].id;
                self.pictures[i].created_at = rec.created_at;
                proof {
                    lemma_find_pic_path(old(self).pics(), rec.path@);
                    assert(self.pics() =~= old(self).pics().update(
                        i as int,
                        resight_picture_row(old(self).pics()[i as int], rec.created_at as int),
                    ));
                    assert(find_pic_path(old(self).pics(), rec.path@) == Some(i as int));
                    lemma_pics_wf_resight(
                        old(self).pics(),
                        i as int,
                        rec.created_at as int,
                        old(self).next_picture_id(),
                    );
                }
                return id;
            }
            i = i + 1;
        }
        assert(find_pic_path(old(self).pics(), rec.path@) is None);
        let id = PictureId(self.next_picture_id);
        let row = PictureRow {
            id,
            path: rec.path.clone(),
            parent: paths::dir_name(rec.path.as_str()),
            base: paths::base(rec.path.as_str()),
            created_at: rec.created_at,
            thumbnail: None,
            selfie: None,
        };
        self.pictures.push(row);
        self.next_picture_id = self.next_picture_id + 1;
        proof {
            assert(self.pics() =~= old(self).pics().push(
                new_picture_row(rec@, old(self).next_picture_id()),
            ));
            lemma_pics_wf_push(old(self).pics(), rec@, old(self).next_picture_id());
        }
        id
    }

    /// Records one video sighting, as `upsert_picture` does for photos.
    pub fn upsert_video(&mut self, rec: &ScannedFile) -> (id: VideoId)
        requires
            old(self).wf(),
            rec.kind is Video,
            old(self).next_video_id() < i64::MAX,
        ensures
            final(self).wf(),
            final(self).pics() == old(self).pics(),
            final(self).next_picture_id() == old(self).next_picture_id(),
            (final(self).vids(), final(self).next_video_id()) == spec_upsert_vid(
                old(self).vids(),
                old(self).next_video_id(),
                rec@,
            ),
            match find_vid_path(old(self).vids(), rec.path@) {
                Some(j) => {
                    &&& id.0 as int == old(self).vids()[j].id
                    &&& final(self).vids() == old(self).vids().update(
                        j,
                        resight_video_row(old(self).vids()[j], rec.created_at as int),
                    )
                    &&& final(self).next_video_id() == old(self).next_video_id()
                },
                None => {
                    &&& id.0 as int == old(self).next_video_id()
                    &&& final(self).vids() == old(self).vids().push(
                        new_video_row(rec@, old(self).next_video_id()),
                    )
                    &&& final(self).next_video_id() == old(self).next_video_id() + 1
                },
            },
    {
        proof {
            lemma_find_vid_path(old(self).vids(), rec.path@);
        }
        let n = self.videos.len();
        let mut i: usize = 0;
        while i < n
            invariant
                old(self).wf(),
                n == self.videos.len(),
                i <= n,
                *self == *old(self),
                forall|j: int| 0 <= j < i ==> old(self).vids()[j].path != rec.path@,
            decreases n - i,
        {
            if paths::str_eq(self.videos[i].path.as_str(), rec.path.as_str()) {
                assert(old(self).vids()[i as int].path == rec.path@);
                let id = self.videos[i].id;
                self.videos[i].created_at = rec.created_at;
                proof {
                    lemma_find_vid_path(old(self).vids(), rec.path@);
                    assert(self.vids() =~= old(self).vids().update(
                        i as int,
                        resight_video_row(old(self).vids()[i as int], rec.created_at as int),
                    ));
                    assert(find_vid_path(old(self).vids(), rec.path@) == Some(i as int));
                    lemma_vids_wf_resight(
                        old(self).vids(),
                        i as int,
                        rec.created_at as int,
                        old(self).next_video_id(),
                    );
                }
                return id;
            }
            i = i + 1;
        }
        assert(find_vid_path(old(self).vids(), rec.path@) is None);
        let id = VideoId(self.next_video_id);
        let row = VideoRow {
            id,
            path: rec.path.clone(),
            parent: paths::dir_name(rec.path.as_str()),
            base: paths::base(rec.path.as_str()),
            created_at: rec.created_at,
            thumbnail: None,
            transcoded: None,
            transcode_required: None,
        };
        self.videos.push(row);
        self.next_video_id = self.next_video_id + 1;
        proof {
            assert(self.vids() =~= old(self).vids().push(
                new_video_row(rec@, old(self).next_video_id()),
            ));
            lemma_vids_wf_push(old(self).vids(), rec@, old(self).next_video_id());
        }
        id
    }

    /// Drops every picture row whose path the current scan did not observe,
    /// and returns how many rows were dropped.  Rows whose path is in
    /// `present` survive untouched, in order; no other row survives.
    pub fn delete_missing_pictures(&mut self, present: &Vec<String>) -> (n: usize)
        requires
            old(self).wf(),
        ensures
            final(self).wf(),
            final(self).vids() == old(self).vids(),
            final(self).next_video_id() == old(self).next_video_id(),
            final(self).next_picture_id() == old(self).next_picture_id(),
            final(self).pics() == keep_present_pics(old(self).pics(), present.deep_view()),
            n + final(self).pics().len() == old(self).pics().len(),
    {
        proof {
            lemma_keep_present_pics_wf(
                old(self).pics(),
                present.deep_view(),
                old(self).next_picture_id(),
            );
            assert(keep_present_pics(old(self).pics().take(0), present.deep_view())
                =~= Seq::<PictureRowView>::empty());
        }
        let n = self.pictures.len();
        let mut kept: Vec<PictureRow> = Vec::new();
        let mut i: usize = 0;
        while i < n
            invariant
                old(self).wf(),
                n == self.pictures.len(),
                i <= n,
                *self == *old(self),
                kept@.map_values(|x: PictureRow| x@) == keep_present_pics(
                    old(self).pics().take(i as int),
                    present.deep_view(),
                ),
                kept@.len() <= i,
            decreases n - i,
        {
            proof {
                assert(old(self).pics().take(i + 1).drop_last() =~= old(self).pics().take(i as int));
                assert(old(self).pics().take(i + 1).last() == old(self).pics()[i as int]);
            }
            if contains_path(present, self.pictures[i].path.as_str()) {
                kept.push(self.pictures[i].clone());
                proof {
                    assert(kept@.map_values(|x: PictureRow| x@) =~= keep_present_pics(
                        old(self).pics().take(i + 1),
                        present.deep_view(),
                    ));
                }
            }
            i = i + 1;
        }
        proof {
            assert(old(self).pics().take(n as int) =~= old(self).pics());
        }
        let remaining = kept.len();
        self.pictures = kept;
        n - remaining
    }

    /// Drops every video row whose path the current scan did not observe,
    /// as `delete_missing_pictures` does for pictures.
    pub fn delete_missing_videos(&mut self, present: &Vec<String>) -> (n: usize)
        requires
            old(self).wf(),
        ensures
            final(self).wf(),
            final(self).pics() == old(self).pics(),
            final(self).next_picture_id() == old(self).next_picture_id(),
            final(self).next_video_id() == old(self).next_video_id(),
            final(self).vids() == keep_present_vids(old(self).vids(), present.deep_view()),
            n + final(self).vids().len() == old(self).vids().len(),
    {
        proof {
            lemma_keep_present_vids_wf(
                old(self).vids(),
                present.deep_view(),
                old(self).next_video_id(),
            );
            assert(keep_present_vids(old(self).vids().take(0), present.deep_view())
                =~= Seq::<VideoRowView>::empty());
        }
        let n = self.videos.len();
        let mut kept: Vec<VideoRow> = Vec::new();
        let mut i: usize = 0;
        while i < n
            invariant
                old(self).wf(),
                n == self.videos.len(),
                i <= n,
                *self == *old(self),
                kept@.map_values(|x: VideoRow| x@) == keep_present_vids(
                    old(self).vids().take(i as int),
                    present.deep_view(),
                ),
                kept@.len() <= i,
            decreases n - i,
        {
            proof {
                assert(old(self).vids().take(i + 1).drop_last() =~= old(self).vids().take(i as int));
                assert(old(self).vids().take(i + 1).last() == old(self).vids()[i as int]);
            }
            if contains_path(present, self.videos[i].path.as_str()) {
                kept.push(self.videos[i].clone());
                proof {
                    assert(kept@.map_values(|x: VideoRow| x@) =~= keep_present_vids(
                        old(self).vids().take(i + 1),
                        present.deep_view(),
                    ));
                }
            }
            i = i + 1;
        }
        proof {
            assert(old(self).vids().take(n as int) =~= old(self).vids());
        }
        let remaining = kept.len();
        self.videos = kept;
        n - remaining
    }

    /// Records the thumbnail of picture `id`, leaving every other row and
    /// column alone; reports whether the row exists.
    pub fn mark_thumbnail(&mut self, id: PictureId, thumb: String) -> (found: bool)
        requires
            old(self).wf(),
        ensures
            final(self).wf(),
            final(self).vids() == old(self).vids(),
            final(self).next_picture_id() == old(self).next_picture_id(),
            final(self).next_video_id() == old(self).next_video_id(),
            match find_pic_id(old(self).pics(), id.0 as int) {
                Some(j) => found && final(self).pics() == old(self).pics().update(
                    j,
                    with_pic_thumbnail(old(self).pics()[j], thumb@),
                ),
                None => !found && final(self).pics() == old(self).pics(),
            },
    {
        proof {
            lemma_find_pic_id(old(self).pics(), id.0 as int);
        }
        let n = self.pictures.len();
        let mut i: usize = 0;
        while i < n
            invariant
                old(self).wf(),
                n == self.pictures.len(),
                i <= n,
                *self == *old(self),
                forall|j: int| 0 <= j < i ==> old(self).pics()[j].id != id.0 as int,
            decreases n - i,
        {
            if self.pictures[i].id.0 == id.0 {
                self.pictures[i].thumbnail = Some(thumb);
                proof {
                    lemma_find_pic_id(old(self).pics(), id.0 as int);
                    assert(find_pic_id(old(self).pics(), id.0 as int) == Some(i as int));
                    assert(self.pics() =~= old(self).pics().update(
                        i as int,
                        with_pic_thumbnail(old(self).pics()[i as int], thumb@),
                    ));
                    lemma_pics_wf_same_keys(
                        old(self).pics(),
                        self.pics(),
                        old(self).next_picture_id(),
                    );
                }
                return true;
            }
            i = i + 1;
        }
        false
    }

    /// Records the selfie trait of picture `id`.
    pub fn mark_selfie(&mut self, id: PictureId, selfie: bool) -> (found: bool)
        requires
            old(self).wf(),
        ensures
            final(self).wf(),
            final(self).vids() == old(self).vids(),
            final(self).next_picture_id() == old(self).next_picture_id(),
            final(self).next_video_id() == old(self).next_video_id(),
            match find_pic_id(old(self).pics(), id.0 as int) {
                Some(j) => found && final(self).pics() == old(self).pics().update(
                    j,
                    with_pic_selfie(old(self).pics()[j], selfie),
                ),
                None => !found && final(self).pics() == old(self).pics(),
            },
    {
        proof {
            lemma_find_pic_id(old(self).pics(), id.0 as int);
        }
        let n = self.pictures.len();
        let mut i: usize = 0;
        while i < n
            invariant
                old(self).wf(),
                n == self.pictures.len(),
                i <= n,
                *self == *old(self),
                forall|j: int| 0 <= j < i ==> old(self).pics()[j].id != id.0 as int,
            decreases n - i,
        {
            if self.pictures[i].id.0 == id.0 {
                self.pictures[i].selfie = Some(selfie);
                proof {
                    lemma_find_pic_id(old(self).pics(), id.0 as int);
                    assert(find_pic_id(old(self).pics(), id.0 as int) == Some(i as int));
                    assert(self.pics() =~= old(self).pics().update(
                        i as int,
                        with_pic_selfie(old(self).pics()[i as int], selfie),
                    ));
                    lemma_pics_wf_same_keys(
                        old(self).pics(),
                        self.pics(),
                        old(self).next_picture_id(),
                    );
                }
                return true;
            }
            i = i + 1;
        }
        false
    }


    /// Records in one commit the traits photo enrichment computed for
    /// picture `id`: its thumbnail and its selfie flag.
    pub fn mark_picture_enriched(&mut self, id: PictureId, thumb: String, selfie: bool) -> (found:
        bool)
        requires
            old(self).wf(),
        ensures
            final(self).wf(),
            final(self).vids() == old(self).vids(),
            final(self).next_picture_id() == old(self).next_picture_id(),
            final(self).next_video_id() == old(self).next_video_id(),
            match find_pic_id(old(self).pics(), id.0 as int) {
                Some(j) => found && final(self).pics() == old(self).pics().update(
                    j,
                    with_pic_enriched(old(self).pics()[j], thumb@, selfie),
                ),
                None => !found && final(self).pics() == old(self).pics(),
            },
    {
        proof {
            lemma_find_pic_id(old(self).pics(), id.0 as int);
        }
        let n = self.pictures.len();
        let mut i: usize = 0;
        while i < n
            invariant
                old(self).wf(),
                n == self.pictures.len(),
                i <= n,
                *self == *old(self),
                forall|j: int| 0 <= j < i ==> old(self).pics()[j].id != id.0 as int,
            decreases n - i,
        {
            if self.pictures[i].id.0 == id.0 {
                self.pictures[i].thumbnail = Some(thumb);
                self.pictures[i].selfie = Some(selfie);
                proof {
                    lemma_find_pic_id(old(self).pics(), id.0 as int);
                    assert(find_pic_id(old(self).pics(), id.0 as int) == Some(i as int));
                    assert(self.pics() =~= old(self).pics().update(
                        i as int,
                        with_pic_enriched(old(self).pics()[i as int], thumb@, selfie),
                    ));
                    lemma_pics_wf_same_keys(
                        old(self).pics(),
                        self.pics(),
                        old(self).next_picture_id(),
                    );
                }
                return true;
            }
            i = i + 1;
        }
        false
    }


    /// Records in one commit what video enrichment computed for video
    /// `id`: a thumbnail when one was rendered, the probe's verdict on
    /// whether a rendition is owed, and the rendition's path when a
    /// transcode finished.  A failed transcode hands no path, so the
    /// stored requirement stands and a later run retries.
    pub fn mark_video_enriched(
        &mut self,
        id: VideoId,
        thumb: Option<String>,
        required: Option<bool>,
        transcoded: Option<String>,
    ) -> (found: bool)
        requires
            old(self).wf(),
        ensures
            final(self).wf(),
            final(self).pics() == old(self).pics(),
            final(self).next_picture_id() == old(self).next_picture_id(),
            final(self).next_video_id() == old(self).next_video_id(),
            match find_vid_id(old(self).vids(), id.0 as int) {
                Some(j) => found && final(self).vids() == old(self).vids().update(
                    j,
                    with_vid_enriched(
                        old(self).vids()[j],
                        match thumb {
                            Some(t) => Some(t@),
                            None => None,
                        },
                        required,
                        match transcoded {
                            Some(t) => Some(t@),
                            None => None,
                        },
                    ),
                ),
                None => !found && final(self).vids() == old(self).vids(),
            },
    {
        proof {
            lemma_find_vid_id(old(self).vids(), id.0 as int);
        }
        let n = self.videos.len();
        let mut i: usize = 0;
        while i < n
            invariant
                old(self).wf(),
                n == self.videos.len(),
                i <= n,
                *self == *old(self),
                forall|j: int| 0 <= j < i ==> old(self).vids()[j].id != id.0 as int,
            decreases n - i,
        {
            if self.videos[i].id.0 == id.0 {
                match thumb {
                    Some(t) => {
                        self.videos[i].thumbnail = Some(t);
                    },
                    None => {},
                }
                match transcoded {
                    Some(t) => {
                        self.videos[i].transcoded = Some(t);
                        self.videos[i].transcode_required = Some(false);
                    },
                    None => {
                        match required {
                            Some(b) => {
                                self.videos[i].transcode_required = Some(b);
                            },
                            None => {},
                        }
                    },
                }
                proof {
                    lemma_find_vid_id(old(self).vids(), id.0 as int);
                    assert(find_vid_id(old(self).vids(), id.0 as int) == Some(i as int));
                    assert(self.vids() =~= old(self).vids().update(
                        i as int,
                        with_vid_enriched(
                            old(self).vids()[i as int],
                            match thumb {
                                Some(t) => Some(t@),
                                None => None,
                            },
                            required,
                            match transcoded {
                                Some(t) => Some(t@),
                                None => None,
                            },
                        ),
                    ));
                    lemma_vids_wf_same_keys(
                        old(self).vids(),
                        self.vids(),
                        old(self).next_video_id(),
                    );
                }
                return true;
            }
            i = i + 1;
        }
        false
    }

    /// Records the thumbnail of video `id`.
    pub fn mark_video_thumbnail(&mut self, id: VideoId, thumb: String) -> (found: bool)
        requires
            old(self).wf(),
        ensures
            final(self).wf(),
            final(self).pics() == old(self).pics(),
            final(self).next_picture_id() == old(self).next_picture_id(),
            final(self).next_video_id() == old(self).next_video_id(),
            match find_vid_id(old(self).vids(), id.0 as int) {
                Some(j) => found && final(self).vids() == old(self).vids().update(
                    j,
                    with_vid_thumbnail(old(self).vids()[j], thumb@),
                ),
                None => !found && final(self).vids() == old(self).vids(),
            },
    {
        proof {
            lemma_find_vid_id(old(self).vids(), id.0 as int);
        }
        let n = self.videos.len();
        let mut i: usize = 0;
        while i < n
            invariant
                old(self).wf(),
                n == self.videos.len(),
                i <= n,
                *self == *old(self),
                forall|j: int| 0 <= j < i ==> old(self).vids()[j].id != id.0 as int,
            decreases n - i,
        {
            if self.videos[i].id.0 == id.0 {
                self.videos[i].thumbnail = Some(thumb);
                proof {
                    lemma_find_vid_id(old(self).vids(), id.0 as int);
                    assert(find_vid_id(old(self).vids(), id.0 as int) == Some(i as int));
                    assert(self.vids() =~= old(self).vids().update(
                        i as int,
                        with_vid_thumbnail(old(self).vids()[i as int], thumb@),
                    ));
                    lemma_vids_wf_same_keys(
                        old(self).vids(),
                        self.vids(),
                        old(self).next_video_id(),
                    );
                }
                return true;
            }
            i = i + 1;
        }
        false
    }

    /// Records whether video `id` still owes a viewer-playable rendition.
    pub fn mark_transcode_required(&mut self, id: VideoId, required: bool) -> (found: bool)
        requires
            old(self).wf(),
        ensures
            final(self).wf(),
            final(self).pics() == old(self).pics(),
            final(self).next_picture_id() == old(self).next_picture_id(),
            final(self).next_video_id() == old(self).next_video_id(),
            match find_vid_id(old(self).vids(), id.0 as int) {
                Some(j) => found && final(self).vids() == old(self).vids().update(
                    j,
                    with_vid_required(old(self).vids()[j], required),
                ),
                None => !found && final(self).vids() == old(self).vids(),
            },
    {
        proof {
            lemma_find_vid_id(old(self).vids(), id.0 as int);
        }
        let n = self.videos.len();
        let mut i: usize = 0;
        while i < n
            invariant
                old(self).wf(),
                n == self.videos.len(),
                i <= n,
                *self == *old(self),
                forall|j: int| 0 <= j < i ==> old(self).vids()[j].id != id.0 as int,
            decreases n - i,
        {
            if self.videos[i].id.0 == id.0 {
                self.videos[i].transcode_required = Some(required);
                proof {
                    lemma_find_vid_id(old(self).vids(), id.0 as int);
                    assert(find_vid_id(old(self).vids(), id.0 as int) == Some(i as int));
                    assert(self.vids() =~= old(self).vids().update(
                        i as int,
                        with_vid_required(old(self).vids()[i as int], required),
                    ));
                    lemma_vids_wf_same_keys(
                        old(self).vids(),
                        self.vids(),
                        old(self).next_video_id(),
                    );
                }
                return true;
            }
            i = i + 1;
        }
        false
    }

    /// Records a finished rendition for video `id`: the transcoded path is
    /// set and the rendition is no longer owed.
    pub fn mark_transcoded(&mut self, id: VideoId, path: String) -> (found: bool)
        requires
            old(self).wf(),
        ensures
            final(self).wf(),
            final(self).pics() == old(self).pics(),
            final(self).next_picture_id() == old(self).next_picture_id(),
            final(self).next_video_id() == old(self).next_video_id(),
            match find_vid_id(old(self).vids(), id.0 as int) {
                Some(j) => found && final(self).vids() == old(self).vids().update(
                    j,
                    with_vid_transcoded(old(self).vids()[j], path@),
                ),
                None => !found && final(self).vids() == old(self).vids(),
            },
    {
        proof {
            lemma_find_vid_id(old(self).vids(), id.0 as int);
        }
        let n = self.videos.len();
        let mut i: usize = 0;
        while i < n
            invariant
                old(self).wf(),
                n == self.videos.len(),
                i <= n,
                *self == *old(self),
                forall|j: int| 0 <= j < i ==> old(self).vids()[j].id != id.0 as int,
            decreases n - i,
        {
            if self.videos[i].id.0 == id.0 {
                self.videos[i].transcoded = Some(path);
                self.videos[i].transcode_required = Some(false);
                proof {
                    lemma_find_vid_id(old(self).vids(), id.0 as int);
                    assert(find_vid_id(old(self).vids(), id.0 as int) == Some(i as int));
                    assert(self.vids() =~= old(self).vids().update(
                        i as int,
                        with_vid_transcoded(old(self).vids()[i as int], path@),
                    ));
                    lemma_vids_wf_same_keys(
                        old(self).vids(),
                        self.vids(),
                        old(self).next_video_id(),
                    );
                }
                return true;
            }
            i = i + 1;
        }
        false
    }
}

/// True when `p` occurs among the observed paths.
pub open spec fn has_path(present: Seq<Seq<char>>, p: Seq<char>) -> bool {
    exists|i: int| 0 <= i < present.len() && present[i] == p
}

/// True when `p` occurs among the observed paths.
pub fn contains_path(present: &Vec<String>, p: &str) -> (r: bool)
    ensures
        r == has_path(present.deep_view(), p@),
{
    let n = present.len();
    let mut i: usize = 0;
    while i < n
        invariant
            n == present@.len(),
            i <= n,
            forall|j: int| 0 <= j < i ==> present.deep_view()[j] != p@,
        decreases n - i,
    {
        if paths::str_eq(present[i].as_str(), p) {
            proof {
                assert(present.deep_view()[i as int] == p@);
            }
            return true;
        }
        proof {
            assert(present.deep_view()[i as int] == present@[i as int]@);
        }
        i = i + 1;
    }
    false
}

/// The picture rows that survive a reconciliation against the observed
/// paths: those whose path was observed, in order.
pub open spec fn keep_present_pics(pics: Seq<PictureRowView>, present: Seq<Seq<char>>) -> Seq<
    PictureRowView,
>
    decreases pics.len(),
{
    if pics.len() == 0 {
        pics
    } else {
        let rest = keep_present_pics(pics.drop_last(), present);
        if has_path(present, pics.last().path) {
            rest.push(pics.last())
        } else {
            rest
        }
    }
}

/// The video rows that survive a reconciliation against the observed paths.
pub open spec fn keep_present_vids(vids: Seq<VideoRowView>, present: Seq<Seq<char>>) -> Seq<
    VideoRowView,
>
    decreases vids.len(),
{
    if vids.len() == 0 {
        vids
    } else {
        let rest = keep_present_vids(vids.drop_last(), present);
        if has_path(present, vids.last().path) {
            rest.push(vids.last())
        } else {
            rest
        }
    }
}

/// Reconciliation keeps the picture table well formed, keeps only rows of
/// the original table, and cannot grow it.
pub proof fn lemma_keep_present_pics_wf(
    pics: Seq<PictureRowView>,
    present: Seq<Seq<char>>,
    next: int,
)
    requires
        pics_wf(pics, next),
    ensures
        pics_wf(keep_present_pics(pics, present), next),
        keep_present_pics(pics, present).len() <= pics.len(),
        forall|k: int|
            0 <= k < keep_present_pics(pics, present).len() ==> pics.contains(
                #[trigger] keep_present_pics(pics, present)[k],
            ),
    decreases pics.len(),
{
    if pics.len() == 0 {
    } else {
        let dl = pics.drop_last();
        assert(pics_wf(dl, next)) by {
            assert(forall|i: int| 0 <= i < dl.len() ==> dl[i] == pics[i]);
        }
        lemma_keep_present_pics_wf(dl, present, next);
        let rk = keep_present_pics(dl, present);
        let kp = keep_present_pics(pics, present);
        assert(forall|k: int| 0 <= k < rk.len() ==> dl.contains(#[trigger] rk[k]));
        assert forall|k: int| 0 <= k < rk.len() implies pics.contains(#[trigger] rk[k]) by {
            let w = choose|w: int| 0 <= w < dl.len() && dl[w] == rk[k];
            assert(pics[w] == rk[k]);
        }
        if has_path(present, pics.last().path) {
            assert(kp == rk.push(pics.last()));
            assert forall|a: int, b: int| 0 <= a < b < kp.len() implies kp[a].path != kp[b].path
                && kp[a].id != kp[b].id by {
                if b < rk.len() {
                    assert(kp[a] == rk[a] && kp[b] == rk[b]);
                } else {
                    assert(kp[a] == rk[a] && kp[b] == pics.last());
                    let w = choose|w: int| 0 <= w < dl.len() && dl[w] == rk[a];
                    assert(pics[w] == rk[a]);
                    assert(pics[w].path != pics[pics.len() - 1].path && pics[w].id != pics[
                        pics.len() - 1
                    ].id);
                }
            }
            assert forall|a: int| 0 <= a < kp.len() implies 0 <= #[trigger] kp[a].id < next
                && kp[a].parent == paths::dir_of(kp[a].path) && kp[a].base == paths::base_of(
                kp[a].path,
            ) by {
                if a < rk.len() {
                    assert(kp[a] == rk[a]);
                } else {
                    assert(kp[a] == pics.last());
                    assert(pics[pics.len() - 1].id < next);
                }
            }
            assert forall|k: int| 0 <= k < kp.len() implies pics.contains(#[trigger] kp[k]) by {
                if k < rk.len() {
                    assert(kp[k] == rk[k]);
                } else {
                    assert(kp[k] == pics[pics.len() - 1]);
                }
            }
        } else {
            assert(kp == rk);
        }
    }
}

/// Reconciliation keeps the video table well formed, keeps only rows of the
/// original table, and cannot grow it.
pub proof fn lemma_keep_present_vids_wf(
    vids: Seq<VideoRowView>,
    present: Seq<Seq<char>>,
    next: int,
)
    requires
        vids_wf(vids, next),
    ensures
        vids_wf(keep_present_vids(vids, present), next),
        keep_present_vids(vids, present).len() <= vids.len(),
        forall|k: int|
            0 <= k < keep_present_vids(vids, present).len() ==> vids.contains(
                #[trigger] keep_present_vids(vids, present)[k],
            ),
    decreases vids.len(),
{
    if vids.len() == 0 {
    } else {
        let dl = vids.drop_last();
        assert(vids_wf(dl, next)) by {
            assert(forall|i: int| 0 <= i < dl.len() ==> dl[i] == vids[i]);
        }
        lemma_keep_present_vids_wf(dl, present, next);
        let rk = keep_present_vids(dl, present);
        let kp = keep_present_vids(vids, present);
        assert(forall|k: int| 0 <= k < rk.len() ==> dl.contains(#[trigger] rk[k]));
        assert forall|k: int| 0 <= k < rk.len() implies vids.contains(#[trigger] rk[k]) by {
            let w = choose|w: int| 0 <= w < dl.len() && dl[w] == rk[k];
            assert(vids[w] == rk[k]);
        }
        if has_path(present, vids.last().path) {
            assert(kp == rk.push(vids.last()));
            assert forall|a: int, b: int| 0 <= a < b < kp.len() implies kp[a].path != kp[b].path
                && kp[a].id != kp[b].id by {
                if b < rk.len() {
                    assert(kp[a] == rk[a] && kp[b] == rk[b]);
                } else {
                    assert(kp[a] == rk[a] && kp[b] == vids.last());
                    let w = choose|w: int| 0 <= w < dl.len() && dl[w] == rk[a];
                    assert(vids[w] == rk[a]);
                    assert(vids[w].path != vids[vids.len() - 1].path && vids[w].id != vids[
                        vids.len() - 1
                    ].id);
                }
            }
            assert forall|a: int| 0 <= a < kp.len() implies 0 <= #[trigger] kp[a].id < next
                && kp[a].parent == paths::dir_of(kp[a].path) && kp[a].base == paths::base_of(
                kp[a].path,
            ) by {
                if a < rk.len() {
                    assert(kp[a] == rk[a]);
                } else {
                    assert(kp[a] == vids.last());
                    assert(vids[vids.len() - 1].id < next);
                }
            }
            assert forall|k: int| 0 <= k < kp.len() implies vids.contains(#[trigger] kp[k]) by {
                if k < rk.len() {
                    assert(kp[k] == rk[k]);
                } else {
                    assert(kp[k] == vids[vids.len() - 1]);
                }
            }
        } else {
            assert(kp == rk);
        }
    }
}

/// Index of the picture row with id `id`, if any.
pub open spec fn find_pic_id(pics: Seq<PictureRowView>, id: int) -> Option<int>
    decreases pics.len(),
{
    if pics.len() == 0 {
        None
    } else if pics[0].id == id {
        Some(0)
    } else {
        match find_pic_id(pics.drop_first(), id) {
            Some(i) => Some(i + 1),
            None => None,
        }
    }
}

/// What `find_pic_id` finds.
pub proof fn lemma_find_pic_id(pics: Seq<PictureRowView>, id: int)
    ensures
        match find_pic_id(pics, id) {
            Some(i) => 0 <= i < pics.len() && pics[i].id == id && forall|j: int|
                0 <= j < i ==> pics[j].id != id,
            None => forall|j: int| 0 <= j < pics.len() ==> pics[j].id != id,
        },
    decreases pics.len(),
{
    if pics.len() == 0 {
    } else if pics[0].id == id {
    } else {
        let rest = pics.drop_first();
        lemma_find_pic_id(rest, id);
        match find_pic_id(rest, id) {
            Some(i) => {
                assert forall|j: int| 0 <= j < i + 1 implies pics[j].id != id by {
                    if j >= 1 {
                        assert(pics[j] == rest[j - 1]);
                    }
                }
            },
            None => {
                assert forall|j: int| 0 <= j < pics.len() implies pics[j].id != id by {
                    if j >= 1 {
                        assert(pics[j] == rest[j - 1]);
                    }
                }
            },
        }
    }
}

/// Index of the video row with id `id`, if any.
pub open spec fn find_vid_id(vids: Seq<VideoRowView>, id: int) -> Option<int>
    decreases vids.len(),
{
    if vids.len() == 0 {
        None
    } else if vids[0].id == id {
        Some(0)
    } else {
        match find_vid_id(vids.drop_first(), id) {
            Some(i) => Some(i + 1),
            None => None,
        }
    }
}

/// What `find_vid_id` finds.
pub proof fn lemma_find_vid_id(vids: Seq<VideoRowView>, id: int)
    ensures
        match find_vid_id(vids, id) {
            Some(i) => 0 <= i < vids.len() && vids[i].id == id && forall|j: int|
                0 <= j < i ==> vids[j].id != id,
            None => forall|j: int| 0 <= j < vids.len() ==> vids[j].id != id,
        },
    decreases vids.len(),
{
    if vids.len() == 0 {
    } else if vids[0].id == id {
    } else {
        let rest = vids.drop_first();
        lemma_find_vid_id(rest, id);
        match find_vid_id(rest, id) {
            Some(i) => {
                assert forall|j: int| 0 <= j < i + 1 implies vids[j].id != id by {
                    if j >= 1 {
                        assert(vids[j] == rest[j - 1]);
                    }
                }
            },
            None => {
                assert forall|j: int| 0 <= j < vids.len() implies vids[j].id != id by {
                    if j >= 1 {
                        assert(vids[j] == rest[j - 1]);
                    }
                }
            },
        }
    }
}

/// A picture row with its thumbnail recorded.
pub open spec fn with_pic_thumbnail(r: PictureRowView, t: Seq<char>) -> PictureRowView {
    PictureRowView {
        id: r.id,
        path: r.path,
        parent: r.parent,
        base: r.base,
        created_at: r.created_at,
        thumbnail: Some(t),
        selfie: r.selfie,
    }
}

/// A picture row with its selfie trait recorded.
pub open spec fn with_pic_selfie(r: PictureRowView, b: bool) -> PictureRowView {
    PictureRowView {
        id: r.id,
        path: r.path,
        parent: r.parent,
        base: r.base,
        created_at: r.created_at,
        thumbnail: r.thumbnail,
        selfie: Some(b),
    }
}

/// A video row with its thumbnail recorded.
pub open spec fn with_vid_thumbnail(r: VideoRowView, t: Seq<char>) -> VideoRowView {
    VideoRowView {
        id: r.id,
        path: r.path,
        parent: r.parent,
        base: r.base,
        created_at: r.created_at,
        thumbnail: Some(t),
        transcoded: r.transcoded,
        transcode_required: r.transcode_required,
    }
}

/// A video row with its transcode-required trait recorded.
pub open spec fn with_vid_required(r: VideoRowView, b: bool) -> VideoRowView {
    VideoRowView {
        id: r.id,
        path: r.path,
        parent: r.parent,
        base: r.base,
        created_at: r.created_at,
        thumbnail: r.thumbnail,
        transcoded: r.transcoded,
        transcode_required: Some(b),
    }
}

/// A video row with a finished rendition recorded: the transcoded path is
/// set and no rendition is owed any more.
pub open spec fn with_vid_transcoded(r: VideoRowView, p: Seq<char>) -> VideoRowView {
    VideoRowView {
        id: r.id,
        path: r.path,
        parent: r.parent,
        base: r.base,
        created_at: r.created_at,
        thumbnail: r.thumbnail,
        transcoded: Some(p),
        transcode_required: Some(false),
    }
}


/// A picture row carrying the traits photo enrichment computed: a fresh
/// thumbnail and a decided selfie flag.
pub open spec fn with_pic_enriched(r: PictureRowView, t: Seq<char>, selfie: bool) -> PictureRowView {
    PictureRowView {
        id: r.id,
        path: r.path,
        parent: r.parent,
        base: r.base,
        created_at: r.created_at,
        thumbnail: Some(t),
        selfie: Some(selfie),
    }
}


/// A video row carrying what video enrichment computed.  A fresh thumbnail
/// replaces none; a finished rendition records its path and settles the
/// requirement; otherwise a probe verdict, when there is one, sets the
/// requirement.  A failed transcode records no path, so the requirement
/// stands.
pub open spec fn with_vid_enriched(
    r: VideoRowView,
    thumb: Option<Seq<char>>,
    required: Option<bool>,
    transcoded: Option<Seq<char>>,
) -> VideoRowView {
    VideoRowView {
        id: r.id,
        path: r.path,
        parent: r.parent,
        base: r.base,
        created_at: r.created_at,
        thumbnail: if thumb is Some {
            thumb
        } else {
            r.thumbnail
        },
        transcoded: if transcoded is Some {
            transcoded
        } else {
            r.transcoded
        },
        transcode_required: if transcoded is Some {
            Some(false)
        } else if required is Some {
            required
        } else {
            r.transcode_required
        },
    }
}

/// A table stays well formed when an update leaves every row's key columns
/// alone.
proof fn lemma_pics_wf_same_keys(
    pics: Seq<PictureRowView>,
    new: Seq<PictureRowView>,
    next: int,
)
    requires
        pics_wf(pics, next),
        new.len() == pics.len(),
        forall|k: int|
            0 <= k < new.len() ==> (#[trigger] new[k]).path == pics[k].path && new[k].id
                == pics[k].id && new[k].parent == pics[k].parent && new[k].base == pics[k].base,
    ensures
        pics_wf(new, next),
{
    assert forall|a: int, b: int| 0 <= a < b < new.len() implies new[a].path != new[b].path
        && new[a].id != new[b].id by {
        assert(pics[a].path != pics[b].path && pics[a].id != pics[b].id);
    }
    assert forall|a: int| 0 <= a < new.len() implies 0 <= #[trigger] new[a].id < next
        && new[a].parent == paths::dir_of(new[a].path) && new[a].base == paths::base_of(
        new[a].path,
    ) by {
        assert(0 <= pics[a].id < next && pics[a].parent == paths::dir_of(pics[a].path)
            && pics[a].base == paths::base_of(pics[a].path));
    }
}

/// A table stays well formed when an update leaves every row's key columns
/// alone.
proof fn lemma_vids_wf_same_keys(vids: Seq<VideoRowView>, new: Seq<VideoRowView>, next: int)
    requires
        vids_wf(vids, next),
        new.len() == vids.len(),
        forall|k: int|
            0 <= k < new.len() ==> (#[trigger] new[k]).path == vids[k].path && new[k].id
                == vids[k].id && new[k].parent == vids[k].parent && new[k].base == vids[k].base,
    ensures
        vids_wf(new, next),
{
    assert forall|a: int, b: int| 0 <= a < b < new.len() implies new[a].path != new[b].path
        && new[a].id != new[b].id by {
        assert(vids[a].path != vids[b].path && vids[a].id != vids[b].id);
    }
    assert forall|a: int| 0 <= a < new.len() implies 0 <= #[trigger] new[a].id < next
        && new[a].parent == paths::dir_of(new[a].path) && new[a].base == paths::base_of(
        new[a].path,
    ) by {
        assert(0 <= vids[a].id < next && vids[a].parent == paths::dir_of(vids[a].path)
            && vids[a].base == paths::base_of(vids[a].path));
    }
}

/// The view of a sequence of visual items.
pub open spec fn visuals_view(vs: Seq<Visual>) -> Seq<VisualView> {
    vs.map_values(|x: Visual| x@)
}

/// Index of the first video row sharing `base`, if any.
pub open spec fn find_vid_base(vids: Seq<VideoRowView>, base: Seq<char>) -> Option<int>
    decreases vids.len(),
{
    if vids.len() == 0 {
        None
    } else if vids[0].base == base {
        Some(0)
    } else {
        match find_vid_base(vids.drop_first(), base) {
            Some(i) => Some(i + 1),
            None => None,
        }
    }
}

/// What `find_vid_base` finds.
pub proof fn lemma_find_vid_base(vids: Seq<VideoRowView>, base: Seq<char>)
    ensures
        match find_vid_base(vids, base) {
            Some(i) => 0 <= i < vids.len() && vids[i].base == base && forall|j: int|
                0 <= j < i ==> vids[j].base != base,
            None => forall|j: int| 0 <= j < vids.len() ==> vids[j].base != base,
        },
    decreases vids.len(),
{
    if vids.len() == 0 {
    } else if vids[0].base == base {
    } else {
        let rest = vids.drop_first();
        lemma_find_vid_base(rest, base);
        match find_vid_base(rest, base) {
            Some(i) => {
                assert forall|j: int| 0 <= j < i + 1 implies vids[j].base != base by {
                    if j >= 1 {
                        assert(vids[j] == rest[j - 1]);
                    }
                }
            },
            None => {
                assert forall|j: int| 0 <= j < vids.len() implies vids[j].base != base by {
                    if j >= 1 {
                        assert(vids[j] == rest[j - 1]);
                    }
                }
            },
        }
    }
}

/// True when some picture row carries this merge key.
pub open spec fn matched_base(pics: Seq<PictureRowView>, base: Seq<char>) -> bool {
    exists|i: int| 0 <= i < pics.len() && pics[i].base == base
}

/// The visual a lone picture row becomes.
pub open spec fn photo_visual(p: PictureRowView) -> VisualView {
    VisualView {
        visual_id: p.base,
        parent_path: p.parent,
        thumbnail_path: p.thumbnail,
        media: VisualMediaView::Photo { picture_id: p.id, picture_path: p.path },
        created_at: p.created_at,
        is_selfie: p.selfie,
        is_transcode_required: None,
    }
}

/// The motion-photo visual a picture and its companion video become: the
/// picture's thumbnail wins when it has one, the creation instant and the
/// selfie trait are the picture's, the transcode traits are the video's.
pub open spec fn both_visual(p: PictureRowView, v: VideoRowView) -> VisualView {
    VisualView {
        visual_id: p.base,
        parent_path: p.parent,
        thumbnail_path: if p.thumbnail is Some {
            p.thumbnail
        } else {
            v.thumbnail
        },
        media: VisualMediaView::Both {
            picture_id: p.id,
            picture_path: p.path,
            video_id: v.id,
            video_path: v.path,
            transcoded_path: v.transcoded,
        },
        created_at: p.created_at,
        is_selfie: p.selfie,
        is_transcode_required: v.transcode_required,
    }
}

/// The visual a lone video row becomes.
pub open spec fn video_visual(v: VideoRowView) -> VisualView {
    VisualView {
        visual_id: v.base,
        parent_path: v.parent,
        thumbnail_path: v.thumbnail,
        media: VisualMediaView::Video {
            video_id: v.id,
            video_path: v.path,
            transcoded_path: v.transcoded,
        },
        created_at: v.created_at,
        is_selfie: None,
        is_transcode_required: v.transcode_required,
    }
}

/// The visual one picture row leads: merged with the first video sharing
/// its base, when there is one.
pub open spec fn visual_of_pic(p: PictureRowView, vids: Seq<VideoRowView>) -> VisualView {
    match find_vid_base(vids, p.base) {
        Some(j) => both_visual(p, vids[j]),
        None => photo_visual(p),
    }
}

/// The visuals the picture table leads, in row order.
pub open spec fn pics_to_visuals(pics: Seq<PictureRowView>, vids: Seq<VideoRowView>) -> Seq<
    VisualView,
>
    decreases pics.len(),
{
    if pics.len() == 0 {
        Seq::<VisualView>::empty()
    } else {
        pics_to_visuals(pics.drop_last(), vids).push(visual_of_pic(pics.last(), vids))
    }
}

/// The visuals of the video rows no picture claims, in row order.
pub open spec fn lone_vids_to_visuals(pics: Seq<PictureRowView>, vids: Seq<VideoRowView>) -> Seq<
    VisualView,
>
    decreases vids.len(),
{
    if vids.len() == 0 {
        Seq::<VisualView>::empty()
    } else {
        let rest = lone_vids_to_visuals(pics, vids.drop_last());
        if matched_base(pics, vids.last().base) {
            rest
        } else {
            rest.push(video_visual(vids.last()))
        }
    }
}

/// Every row merged, before ordering: pairs and lone pictures in
/// picture-row order, then unclaimed videos in video-row order.
pub open spec fn merged_visuals(pics: Seq<PictureRowView>, vids: Seq<VideoRowView>) -> Seq<
    VisualView,
> {
    pics_to_visuals(pics, vids) + lone_vids_to_visuals(pics, vids)
}

/// Insertion, newest first: `v` goes before the first strictly older item.
pub open spec fn insert_desc(s: Seq<VisualView>, v: VisualView) -> Seq<VisualView>
    decreases s.len(),
{
    if s.len() == 0 {
        seq![v]
    } else if s[0].created_at >= v.created_at {
        seq![s[0]] + insert_desc(s.drop_first(), v)
    } else {
        seq![v] + s
    }
}

/// Insertion sort, newest first; items of one instant keep their merge
/// order.
pub open spec fn sort_desc(s: Seq<VisualView>) -> Seq<VisualView>
    decreases s.len(),
{
    if s.len() == 0 {
        s
    } else {
        insert_desc(sort_desc(s.drop_last()), s.last())
    }
}

/// The visual items a repository serves: every row merged, newest first.
pub open spec fn visuals_of(pics: Seq<PictureRowView>, vids: Seq<VideoRowView>) -> Seq<
    VisualView,
> {
    sort_desc(merged_visuals(pics, vids))
}

/// Newest first: creation instants never increase along the sequence.
pub open spec fn sorted_desc(s: Seq<VisualView>) -> bool {
    forall|a: int, b: int| 0 <= a < b < s.len() ==> s[a].created_at >= s[b].created_at
}

/// Where insertion lands: right before the first strictly older item.
proof fn lemma_insert_desc_at(s: Seq<VisualView>, v: VisualView, k: int)
    requires
        0 <= k <= s.len(),
        forall|i: int| 0 <= i < k ==> s[i].created_at >= v.created_at,
        k < s.len() ==> s[k].created_at < v.created_at,
    ensures
        insert_desc(s, v) == s.subrange(0, k) + seq![v] + s.subrange(k, s.len() as int),
    decreases k,
{
    if k == 0 {
        if s.len() == 0 {
            assert(insert_desc(s, v) =~= s.subrange(0, 0) + seq![v] + s.subrange(0, 0));
        } else {
            assert(insert_desc(s, v) == seq![v] + s);
            assert(seq![v] + s =~= s.subrange(0, 0) + seq![v] + s.subrange(0, s.len() as int));
        }
    } else {
        let rest = s.drop_first();
        assert forall|i: int| 0 <= i < k - 1 implies rest[i].created_at >= v.created_at by {
            assert(rest[i] == s[i + 1]);
        }
        assert(k - 1 < rest.len() ==> rest[k - 1].created_at < v.created_at);
        lemma_insert_desc_at(rest, v, k - 1);
        assert(s[0].created_at >= v.created_at);
        assert(insert_desc(s, v) == seq![s[0]] + insert_desc(rest, v));
        assert(seq![s[0]] + (rest.subrange(0, k - 1) + seq![v] + rest.subrange(
            k - 1,
            rest.len() as int,
        )) =~= s.subrange(0, k) + seq![v] + s.subrange(k, s.len() as int));
    }
}

/// Insertion keeps the order, adds exactly `v`, and invents nothing.
pub proof fn lemma_insert_desc(s: Seq<VisualView>, v: VisualView)
    requires
        sorted_desc(s),
    ensures
        sorted_desc(insert_desc(s, v)),
        insert_desc(s, v).to_multiset() == s.to_multiset().insert(v),
        insert_desc(s, v).len() == s.len() + 1,
        forall|i: int|
            0 <= i < insert_desc(s, v).len() ==> (#[trigger] insert_desc(s, v)[i] == v
                || s.contains(insert_desc(s, v)[i])),
    decreases s.len(),
{
    broadcast use vstd::seq_lib::group_to_multiset_ensures;

    let out = insert_desc(s, v);
    if s.len() == 0 {
        assert(seq![v] =~= Seq::<VisualView>::empty().push(v));
        assert(out.to_multiset() == s.to_multiset().insert(v));
    } else if s[0].created_at >= v.created_at {
        let rest = s.drop_first();
        assert forall|a: int, b: int| 0 <= a < b < rest.len() implies rest[a].created_at
            >= rest[b].created_at by {
            assert(rest[a] == s[a + 1] && rest[b] == s[b + 1]);
        }
        lemma_insert_desc(rest, v);
        let sub = insert_desc(rest, v);
        assert(out =~= seq![s[0]] + sub);
        assert forall|i: int| 0 <= i < out.len() implies (#[trigger] out[i] == v || s.contains(
            out[i],
        )) by {
            if i == 0 {
                assert(s[0] == out[i]);
            } else {
                assert(out[i] == sub[i - 1]);
                if sub[i - 1] == v {
                } else {
                    assert(rest.contains(sub[i - 1]));
                    let w = choose|w: int| 0 <= w < rest.len() && rest[w] == sub[i - 1];
                    assert(s[w + 1] == sub[i - 1]);
                }
            }
        }
        assert forall|a: int, b: int| 0 <= a < b < out.len() implies out[a].created_at
            >= out[b].created_at by {
            if a == 0 {
                if out[b] == v {
                } else {
                    assert(out[b] == sub[b - 1]);
                    assert(rest.contains(sub[b - 1]) || sub[b - 1] == v);
                    if sub[b - 1] != v {
                        let w = choose|w: int| 0 <= w < rest.len() && rest[w] == sub[b - 1];
                        assert(s[0].created_at >= s[w + 1].created_at);
                    }
                }
            } else {
                assert(out[a] == sub[a - 1] && out[b] == sub[b - 1]);
            }
        }
        assert(out.to_multiset() =~= s.to_multiset().insert(v)) by {
            assert(seq![s[0]] + sub =~= sub.insert(0, s[0]));
            assert(out.to_multiset() == sub.to_multiset().insert(s[0]));
            assert(rest =~= s.drop_first());
            assert(s =~= rest.insert(0, s[0]));
            assert(s.to_multiset() == rest.to_multiset().insert(s[0]));
            assert(sub.to_multiset() == rest.to_multiset().insert(v));
            assert(rest.to_multiset().insert(v).insert(s[0]) =~= rest.to_multiset().insert(
                s[0],
            ).insert(v));
        }
    } else {
        assert(out =~= seq![v] + s);
        assert(out =~= s.insert(0, v));
        assert forall|a: int, b: int| 0 <= a < b < out.len() implies out[a].created_at
            >= out[b].created_at by {
            if a == 0 {
                assert(out[b] == s[b - 1]);
                if b >= 2 {
                    assert(s[0].created_at >= s[b - 1].created_at);
                }
            } else {
                assert(out[a] == s[a - 1] && out[b] == s[b - 1]);
            }
        }
        assert forall|i: int| 0 <= i < out.len() implies (#[trigger] out[i] == v || s.contains(
            out[i],
        )) by {
            if i >= 1 {
                assert(out[i] == s[i - 1]);
            }
        }
    }
}

/// Sorting newest first: the result is ordered and holds exactly the given
/// items.
pub proof fn lemma_sort_desc(s: Seq<VisualView>)
    ensures
        sorted_desc(sort_desc(s)),
        sort_desc(s).to_multiset() == s.to_multiset(),
        sort_desc(s).len() == s.len(),
    decreases s.len(),
{
    broadcast use vstd::seq_lib::group_to_multiset_ensures;

    if s.len() == 0 {
    } else {
        let dl = s.drop_last();
        lemma_sort_desc(dl);
        lemma_insert_desc(sort_desc(dl), s.last());
        assert(s =~= dl.push(s.last()));
        assert(s.to_multiset() == dl.to_multiset().insert(s.last()));
    }
}

impl Repository {
    /// First video row sharing `base`, if any.
    fn find_video_by_base(&self, base: &str) -> (r: Option<usize>)
        ensures
            match r {
                Some(k) => find_vid_base(self.vids(), base@) == Some(k as int) && k
                    < self.vids().len(),
                None => find_vid_base(self.vids(), base@) is None,
            },
    {
        proof {
            lemma_find_vid_base(self.vids(), base@);
        }
        let n = self.videos.len();
        let mut i: usize = 0;
        while i < n
            invariant
                n == self.videos@.len(),
                i <= n,
                forall|j: int| 0 <= j < i ==> self.vids()[j].base != base@,
            decreases n - i,
        {
            if paths::str_eq(self.videos[i].base.as_str(), base) {
                proof {
                    lemma_find_vid_base(self.vids(), base@);
                    assert(self.vids()[i as int].base == base@);
                    assert(find_vid_base(self.vids(), base@) == Some(i as int));
                }
                return Some(i);
            }
            i = i + 1;
        }
        None
    }

    /// True when some picture row carries this merge key.
    fn has_picture_with_base(&self, base: &str) -> (r: bool)
        ensures
            r == matched_base(self.pics(), base@),
    {
        let n = self.pictures.len();
        let mut i: usize = 0;
        while i < n
            invariant
                n == self.pictures@.len(),
                i <= n,
                forall|j: int| 0 <= j < i ==> self.pics()[j].base != base@,
            decreases n - i,
        {
            if paths::str_eq(self.pictures[i].base.as_str(), base) {
                proof {
                    assert(self.pics()[i as int].base == base@);
                }
                return true;
            }
            i = i + 1;
        }
        false
    }

    /// First position of `items` whose item is strictly older than
    /// `created_at`.
    fn insertion_point(items: &Vec<Visual>, created_at: i64) -> (pos: usize)
        ensures
            pos <= items@.len(),
            forall|q: int|
                0 <= q < pos ==> visuals_view(items@)[q].created_at >= created_at as int,
            pos < items@.len() ==> visuals_view(items@)[pos as int].created_at < created_at as int,
    {
        let n = items.len();
        let mut pos: usize = 0;
        while pos < n
            invariant
                n == items@.len(),
                pos <= n,
                forall|q: int|
                    0 <= q < pos ==> visuals_view(items@)[q].created_at >= created_at as int,
            decreases n - pos,
        {
            if items[pos].created_at < created_at {
                return pos;
            }
            proof {
                assert(visuals_view(items@)[pos as int].created_at >= created_at as int);
            }
            pos = pos + 1;
        }
        pos
    }

    /// Every picture and video row merged into visual items, newest first:
    /// rows sharing a base path become one motion photo, rows without a
    /// counterpart become photo-only or video-only items.
    pub fn all_visuals(&self) -> (r: Vec<Visual>)
        ensures
            visuals_view(r@) == visuals_of(self.pics(), self.vids()),
    {
        let pn = self.pictures.len();
        let mut merged: Vec<Visual> = Vec::new();
        proof {
            assert(visuals_view(merged@) =~= pics_to_visuals(
                self.pics().take(0),
                self.vids(),
            ));
        }
        let mut i: usize = 0;
        while i < pn
            invariant
                pn == self.pictures@.len(),
                i <= pn,
                visuals_view(merged@) == pics_to_visuals(self.pics().take(i as int), self.vids()),
            decreases pn - i,
        {
            let p = &self.pictures[i];
            let vis = match self.find_video_by_base(p.base.as_str()) {
                Some(k) => {
                    let v = &self.videos[k];
                    Visual {
                        visual_id: VisualId::new(p.base.clone()),
                        parent_path: p.parent.clone(),
                        thumbnail_path: match (&p.thumbnail, &v.thumbnail) {
                            (Some(t), _) => Some(t.clone()),
                            (None, Some(t)) => Some(t.clone()),
                            (None, None) => None,
                        },
                        media: VisualMedia::Both {
                            picture_id: p.id,
                            picture_path: p.path.clone(),
                            video_id: v.id,
                            video_path: v.path.clone(),
                            transcoded_path: match &v.transcoded {
                                Some(t) => Some(t.clone()),
                                None => None,
                            },
                        },
                        created_at: p.created_at,
                        is_selfie: p.selfie,
                        is_transcode_required: v.transcode_required,
                    }
                },
                None => Visual {
                    visual_id: VisualId::new(p.base.clone()),
                    parent_path: p.parent.clone(),
                    thumbnail_path: match &p.thumbnail {
                        Some(t) => Some(t.clone()),
                        None => None,
                    },
                    media: VisualMedia::Photo { picture_id: p.id, picture_path: p.path.clone() },
                    created_at: p.created_at,
                    is_selfie: p.selfie,
                    is_transcode_required: None,
                },
            };
            proof {
                assert(vis@ == visual_of_pic(self.pics()[i as int], self.vids()));
            }
            merged.push(vis);
            proof {
                assert(self.pics().take(i + 1).drop_last() =~= self.pics().take(i as int));
                assert(self.pics().take(i + 1).last() == self.pics()[i as int]);
                assert(visuals_view(merged@) =~= pics_to_visuals(
                    self.pics().take(i + 1),
                    self.vids(),
                ));
            }
            i = i + 1;
        }
        proof {
            assert(self.pics().take(pn as int) =~= self.pics());
            assert(lone_vids_to_visuals(self.pics(), self.vids().take(0)) =~= Seq::<
                VisualView,
            >::empty());
            assert(visuals_view(merged@) =~= pics_to_visuals(self.pics(), self.vids())
                + lone_vids_to_visuals(self.pics(), self.vids().take(0)));
        }
        let vn = self.videos.len();
        let mut k: usize = 0;
        while k < vn
            invariant
                vn == self.videos@.len(),
                k <= vn,
                visuals_view(merged@) == pics_to_visuals(self.pics(), self.vids())
                    + lone_vids_to_visuals(self.pics(), self.vids().take(k as int)),
            decreases vn - k,
        {
            let v = &self.videos[k];
            let claimed = self.has_picture_with_base(v.base.as_str());
            let ghost before = visuals_view(merged@);
            proof {
                assert(self.vids().take(k + 1).drop_last() =~= self.vids().take(k as int));
                assert(self.vids().take(k + 1).last() == self.vids()[k as int]);
                assert(claimed == matched_base(self.pics(), self.vids()[k as int].base));
            }
            if !claimed {
                let vis = Visual {
                    visual_id: VisualId::new(v.base.clone()),
                    parent_path: v.parent.clone(),
                    thumbnail_path: match &v.thumbnail {
                        Some(t) => Some(t.clone()),
                        None => None,
                    },
                    media: VisualMedia::Video {
                        video_id: v.id,
                        video_path: v.path.clone(),
                        transcoded_path: match &v.transcoded {
                            Some(t) => Some(t.clone()),
                            None => None,
                        },
                    },
                    created_at: v.created_at,
                    is_selfie: None,
                    is_transcode_required: v.transcode_required,
                };
                proof {
                    assert(vis@ == video_visual(self.vids()[k as int]));
                }
                merged.push(vis);
                proof {
                    assert(visuals_view(merged@) =~= before.push(vis@));
                }
            }
            proof {
                let tk1 = self.vids().take(k + 1);
                if claimed {
                    assert(matched_base(self.pics(), tk1.last().base));
                    assert(lone_vids_to_visuals(self.pics(), tk1) == lone_vids_to_visuals(
                        self.pics(),
                        self.vids().take(k as int),
                    ));
                    assert(visuals_view(merged@) == before);
                } else {
                    assert(!matched_base(self.pics(), tk1.last().base));
                    assert(lone_vids_to_visuals(self.pics(), tk1) == lone_vids_to_visuals(
                        self.pics(),
                        self.vids().take(k as int),
                    ).push(video_visual(self.vids()[k as int])));
                }
                assert(visuals_view(merged@) =~= pics_to_visuals(self.pics(), self.vids())
                    + lone_vids_to_visuals(self.pics(), tk1));
            }
            k = k + 1;
        }
        proof {
            assert(self.vids().take(vn as int) =~= self.vids());
        }
        let ghost mseq = visuals_view(merged@);
        proof {
            assert(mseq == merged_visuals(self.pics(), self.vids()));
        }
        let mn = merged.len();
        let mut out: Vec<Visual> = Vec::new();
        proof {
            assert(visuals_view(out@) =~= sort_desc(mseq.take(0)));
        }
        let mut t: usize = 0;
        while t < mn
            invariant
                mn == merged@.len(),
                t <= mn,
                mseq == visuals_view(merged@),
                visuals_view(out@) == sort_desc(mseq.take(t as int)),
                sorted_desc(visuals_view(out@)),
            decreases mn - t,
        {
            let v = merged[t].clone();
            proof {
                assert(v@ == mseq[t as int]);
            }
            let pos = Self::insertion_point(&out, v.created_at);
            let ghost outv = visuals_view(out@);
            out.insert(pos, v);
            proof {
                lemma_insert_desc_at(outv, mseq[t as int], pos as int);
                assert(outv.subrange(0, pos as int) + seq![mseq[t as int]] + outv.subrange(
                    pos as int,
                    outv.len() as int,
                ) =~= outv.insert(pos as int, mseq[t as int]));
                assert(visuals_view(out@) =~= outv.insert(pos as int, mseq[t as int]));
                assert(mseq.take(t + 1).drop_last() =~= mseq.take(t as int));
                assert(mseq.take(t + 1).last() == mseq[t as int]);
                assert(visuals_view(out@) == sort_desc(mseq.take(t + 1)));
                lemma_insert_desc(outv, mseq[t as int]);
            }
            t = t + 1;
        }
        proof {
            assert(mseq.take(mn as int) =~= mseq);
        }
        out
    }
}

/// One picture upsert, at the level of the mathematical table: the first
/// row keyed by the record's path is re-sighted, or a fresh row is
/// appended.
pub open spec fn spec_upsert_pic(
    pics: Seq<PictureRowView>,
    next: int,
    rec: crate::scan::ScannedFileView,
) -> (Seq<PictureRowView>, int) {
    match find_pic_path(pics, rec.path) {
        Some(j) => (pics.update(j, resight_picture_row(pics[j], rec.created_at)), next),
        None => (pics.push(new_picture_row(rec, next)), next + 1),
    }
}

/// A whole scan pass over the picture table, record by record.
pub open spec fn spec_upsert_pics(
    pics: Seq<PictureRowView>,
    next: int,
    recs: Seq<crate::scan::ScannedFileView>,
) -> (Seq<PictureRowView>, int)
    decreases recs.len(),
{
    if recs.len() == 0 {
        (pics, next)
    } else {
        let once = spec_upsert_pic(pics, next, recs[0]);
        spec_upsert_pics(once.0, once.1, recs.drop_first())
    }
}

/// One video upsert, at the level of the mathematical table.
pub open spec fn spec_upsert_vid(
    vids: Seq<VideoRowView>,
    next: int,
    rec: crate::scan::ScannedFileView,
) -> (Seq<VideoRowView>, int) {
    match find_vid_path(vids, rec.path) {
        Some(j) => (vids.update(j, resight_video_row(vids[j], rec.created_at)), next),
        None => (vids.push(new_video_row(rec, next)), next + 1),
    }
}

/// A whole scan pass over the video table, record by record.
pub open spec fn spec_upsert_vids(
    vids: Seq<VideoRowView>,
    next: int,
    recs: Seq<crate::scan::ScannedFileView>,
) -> (Seq<VideoRowView>, int)
    decreases recs.len(),
{
    if recs.len() == 0 {
        (vids, next)
    } else {
        let once = spec_upsert_vid(vids, next, recs[0]);
        spec_upsert_vids(once.0, once.1, recs.drop_first())
    }
}

/// True when the table already holds this sighting: its path is keyed and
/// the stored timestamp matches.
pub open spec fn pic_reflected(pics: Seq<PictureRowView>, rec: crate::scan::ScannedFileView) -> bool {
    match find_pic_path(pics, rec.path) {
        Some(j) => pics[j].created_at == rec.created_at,
        None => false,
    }
}

/// True when the table already holds this sighting.
pub open spec fn vid_reflected(vids: Seq<VideoRowView>, rec: crate::scan::ScannedFileView) -> bool {
    match find_vid_path(vids, rec.path) {
        Some(j) => vids[j].created_at == rec.created_at,
        None => false,
    }
}

/// True when no two records claim the same path, as the canonical paths of
/// one filesystem walk never do.
pub open spec fn distinct_paths(recs: Seq<crate::scan::ScannedFileView>) -> bool {
    forall|a: int, b: int| 0 <= a < b < recs.len() ==> recs[a].path != recs[b].path
}

/// Finding by path reads the path column alone.
proof fn lemma_find_pic_same_paths(a: Seq<PictureRowView>, b: Seq<PictureRowView>, p: Seq<char>)
    requires
        a.len() == b.len(),
        forall|k: int| 0 <= k < a.len() ==> a[k].path == b[k].path,
    ensures
        find_pic_path(a, p) == find_pic_path(b, p),
    decreases a.len(),
{
    if a.len() == 0 {
    } else {
        let ra = a.drop_first();
        let rb = b.drop_first();
        assert forall|k: int| 0 <= k < ra.len() implies ra[k].path == rb[k].path by {
            assert(ra[k] == a[k + 1] && rb[k] == b[k + 1]);
        }
        lemma_find_pic_same_paths(ra, rb, p);
    }
}

/// Finding by path reads the path column alone.
proof fn lemma_find_vid_same_paths(a: Seq<VideoRowView>, b: Seq<VideoRowView>, p: Seq<char>)
    requires
        a.len() == b.len(),
        forall|k: int| 0 <= k < a.len() ==> a[k].path == b[k].path,
    ensures
        find_vid_path(a, p) == find_vid_path(b, p),
    decreases a.len(),
{
    if a.len() == 0 {
    } else {
        let ra = a.drop_first();
        let rb = b.drop_first();
        assert forall|k: int| 0 <= k < ra.len() implies ra[k].path == rb[k].path by {
            assert(ra[k] == a[k + 1] && rb[k] == b[k + 1]);
        }
        lemma_find_vid_same_paths(ra, rb, p);
    }
}

/// Upserting a sighting the table already reflects changes nothing.
proof fn lemma_upsert_reflected_pic(
    pics: Seq<PictureRowView>,
    next: int,
    rec: crate::scan::ScannedFileView,
)
    requires
        pic_reflected(pics, rec),
    ensures
        spec_upsert_pic(pics, next, rec) == (pics, next),
{
    lemma_find_pic_path(pics, rec.path);
    let j = find_pic_path(pics, rec.path).unwrap();
    assert(resight_picture_row(pics[j], rec.created_at) == pics[j]);
    assert(pics.update(j, pics[j]) =~= pics);
}

/// Upserting a sighting the table already reflects changes nothing.
proof fn lemma_upsert_reflected_vid(
    vids: Seq<VideoRowView>,
    next: int,
    rec: crate::scan::ScannedFileView,
)
    requires
        vid_reflected(vids, rec),
    ensures
        spec_upsert_vid(vids, next, rec) == (vids, next),
{
    lemma_find_vid_path(vids, rec.path);
    let j = find_vid_path(vids, rec.path).unwrap();
    assert(resight_video_row(vids[j], rec.created_at) == vids[j]);
    assert(vids.update(j, vids[j]) =~= vids);
}

/// An upsert keyed by one path leaves sightings of other paths reflected.
proof fn lemma_upsert_keeps_reflected_pic(
    pics: Seq<PictureRowView>,
    next: int,
    rec: crate::scan::ScannedFileView,
    other: crate::scan::ScannedFileView,
)
    requires
        pic_reflected(pics, other),
        rec.path != other.path,
    ensures
        pic_reflected(spec_upsert_pic(pics, next, rec).0, other),
{
    lemma_find_pic_path(pics, other.path);
    lemma_find_pic_path(pics, rec.path);
    let j = find_pic_path(pics, other.path).unwrap();
    let s1 = spec_upsert_pic(pics, next, rec).0;
    match find_pic_path(pics, rec.path) {
        Some(m) => {
            assert(s1.len() == pics.len());
            assert forall|k: int| 0 <= k < s1.len() implies s1[k].path == pics[k].path by {}
            lemma_find_pic_same_paths(s1, pics, other.path);
            assert(pics[m].path == rec.path);
            assert(j != m);
            assert(s1[j] == pics[j]);
        },
        None => {
            lemma_find_pic_path(s1, other.path);
            match find_pic_path(s1, other.path) {
                Some(i2) => {
                    if i2 < pics.len() {
                        assert(s1[i2] == pics[i2]);
                        assert(i2 >= j) by {
                            if i2 < j {
                                assert(pics[i2].path != other.path);
                            }
                        }
                        assert(j >= i2) by {
                            if j < i2 {
                                assert(s1[j] == pics[j]);
                                assert(s1[j].path != other.path);
                            }
                        }
                        assert(i2 == j);
                        assert(s1[i2].created_at == other.created_at);
                    } else {
                        assert(s1[i2] == new_picture_row(rec, next));
                        assert(s1[i2].path == rec.path);
                        assert(false);
                    }
                },
                None => {
                    assert(s1[j] == pics[j]);
                    assert(s1[j].path == other.path);
                    assert(false);
                },
            }
        },
    }
}

/// An upsert keyed by one path leaves sightings of other paths reflected.
proof fn lemma_upsert_keeps_reflected_vid(
    vids: Seq<VideoRowView>,
    next: int,
    rec: crate::scan::ScannedFileView,
    other: crate::scan::ScannedFileView,
)
    requires
        vid_reflected(vids, other),
        rec.path != other.path,
    ensures
        vid_reflected(spec_upsert_vid(vids, next, rec).0, other),
{
    lemma_find_vid_path(vids, other.path);
    lemma_find_vid_path(vids, rec.path);
    let j = find_vid_path(vids, other.path).unwrap();
    let s1 = spec_upsert_vid(vids, next, rec).0;
    match find_vid_path(vids, rec.path) {
        Some(m) => {
            assert(s1.len() == vids.len());
            assert forall|k: int| 0 <= k < s1.len() implies s1[k].path == vids[k].path by {}
            lemma_find_vid_same_paths(s1, vids, other.path);
            assert(vids[m].path == rec.path);
            assert(j != m);
            assert(s1[j] == vids[j]);
        },
        None => {
            lemma_find_vid_path(s1, other.path);
            match find_vid_path(s1, other.path) {
                Some(i2) => {
                    if i2 < vids.len() {
                        assert(s1[i2] == vids[i2]);
                        assert(i2 >= j) by {
                            if i2 < j {
                                assert(vids[i2].path != other.path);
                            }
                        }
                        assert(j >= i2) by {
                            if j < i2 {
                                assert(s1[j] == vids[j]);
                                assert(s1[j].path != other.path);
                            }
                        }
                        assert(i2 == j);
                        assert(s1[i2].created_at == other.created_at);
                    } else {
                        assert(s1[i2] == new_video_row(rec, next));
                        assert(s1[i2].path == rec.path);
                        assert(false);
                    }
                },
                None => {
                    assert(s1[j] == vids[j]);
                    assert(s1[j].path == other.path);
                    assert(false);
                },
            }
        },
    }
}

/// After an upsert, the table reflects the record it took.
proof fn lemma_upsert_reflects_pic(
    pics: Seq<PictureRowView>,
    next: int,
    rec: crate::scan::ScannedFileView,
)
    ensures
        pic_reflected(spec_upsert_pic(pics, next, rec).0, rec),
{
    lemma_find_pic_path(pics, rec.path);
    let s1 = spec_upsert_pic(pics, next, rec).0;
    match find_pic_path(pics, rec.path) {
        Some(j) => {
            assert(s1.len() == pics.len());
            assert forall|k: int| 0 <= k < s1.len() implies s1[k].path == pics[k].path by {}
            lemma_find_pic_same_paths(s1, pics, rec.path);
            assert(s1[j].created_at == rec.created_at);
        },
        None => {
            lemma_find_pic_path(s1, rec.path);
            let n = pics.len() as int;
            assert(s1[n].path == rec.path);
            match find_pic_path(s1, rec.path) {
                Some(i2) => {
                    if i2 < n {
                        assert(s1[i2] == pics[i2]);
                        assert(false);
                    }
                    assert(i2 == n);
                    assert(s1[i2].created_at == rec.created_at);
                },
                None => {
                    assert(s1[n].path != rec.path);
                    assert(false);
                },
            }
        },
    }
}

/// After an upsert, the table reflects the record it took.
proof fn lemma_upsert_reflects_vid(
    vids: Seq<VideoRowView>,
    next: int,
    rec: crate::scan::ScannedFileView,
)
    ensures
        vid_reflected(spec_upsert_vid(vids, next, rec).0, rec),
{
    lemma_find_vid_path(vids, rec.path);
    let s1 = spec_upsert_vid(vids, next, rec).0;
    match find_vid_path(vids, rec.path) {
        Some(j) => {
            assert(s1.len() == vids.len());
            assert forall|k: int| 0 <= k < s1.len() implies s1[k].path == vids[k].path by {}
            lemma_find_vid_same_paths(s1, vids, rec.path);
            assert(s1[j].created_at == rec.created_at);
        },
        None => {
            lemma_find_vid_path(s1, rec.path);
            let n = vids.len() as int;
            assert(s1[n].path == rec.path);
            match find_vid_path(s1, rec.path) {
                Some(i2) => {
                    if i2 < n {
                        assert(s1[i2] == vids[i2]);
                        assert(false);
                    }
                    assert(i2 == n);
                    assert(s1[i2].created_at == rec.created_at);
                },
                None => {
                    assert(s1[n].path != rec.path);
                    assert(false);
                },
            }
        },
    }
}

/// A scan pass over other paths leaves a reflected sighting reflected.
proof fn lemma_pass_keeps_reflected_pic(
    pics: Seq<PictureRowView>,
    next: int,
    recs: Seq<crate::scan::ScannedFileView>,
    other: crate::scan::ScannedFileView,
)
    requires
        pic_reflected(pics, other),
        forall|k: int| 0 <= k < recs.len() ==> recs[k].path != other.path,
    ensures
        pic_reflected(spec_upsert_pics(pics, next, recs).0, other),
    decreases recs.len(),
{
    if recs.len() == 0 {
    } else {
        let once = spec_upsert_pic(pics, next, recs[0]);
        lemma_upsert_keeps_reflected_pic(pics, next, recs[0], other);
        let rest = recs.drop_first();
        assert forall|k: int| 0 <= k < rest.len() implies rest[k].path != other.path by {
            assert(rest[k] == recs[k + 1]);
        }
        lemma_pass_keeps_reflected_pic(once.0, once.1, rest, other);
    }
}

/// A scan pass over other paths leaves a reflected sighting reflected.
proof fn lemma_pass_keeps_reflected_vid(
    vids: Seq<VideoRowView>,
    next: int,
    recs: Seq<crate::scan::ScannedFileView>,
    other: crate::scan::ScannedFileView,
)
    requires
        vid_reflected(vids, other),
        forall|k: int| 0 <= k < recs.len() ==> recs[k].path != other.path,
    ensures
        vid_reflected(spec_upsert_vids(vids, next, recs).0, other),
    decreases recs.len(),
{
    if recs.len() == 0 {
    } else {
        let once = spec_upsert_vid(vids, next, recs[0]);
        lemma_upsert_keeps_reflected_vid(vids, next, recs[0], other);
        let rest = recs.drop_first();
        assert forall|k: int| 0 <= k < rest.len() implies rest[k].path != other.path by {
            assert(rest[k] == recs[k + 1]);
        }
        lemma_pass_keeps_reflected_vid(once.0, once.1, rest, other);
    }
}

/// After a scan pass of distinct paths, every record of the pass is
/// reflected.
proof fn lemma_pass_reflects_all_pic(
    pics: Seq<PictureRowView>,
    next: int,
    recs: Seq<crate::scan::ScannedFileView>,
)
    requires
        distinct_paths(recs),
    ensures
        forall|k: int|
            0 <= k < recs.len() ==> pic_reflected(spec_upsert_pics(pics, next, recs).0, recs[k]),
    decreases recs.len(),
{
    if recs.len() == 0 {
    } else {
        let once = spec_upsert_pic(pics, next, recs[0]);
        let rest = recs.drop_first();
        assert(distinct_paths(rest)) by {
            assert forall|a: int, b: int| 0 <= a < b < rest.len() implies rest[a].path
                != rest[b].path by {
                assert(rest[a] == recs[a + 1] && rest[b] == recs[b + 1]);
            }
        }
        lemma_pass_reflects_all_pic(once.0, once.1, rest);
        lemma_upsert_reflects_pic(pics, next, recs[0]);
        assert forall|k: int| 0 <= k < rest.len() implies rest[k].path != recs[0].path by {
            assert(rest[k] == recs[k + 1]);
        }
        lemma_pass_keeps_reflected_pic(once.0, once.1, rest, recs[0]);
        assert forall|k: int| 0 <= k < recs.len() implies pic_reflected(
            spec_upsert_pics(pics, next, recs).0,
            recs[k],
        ) by {
            if k >= 1 {
                assert(rest[k - 1] == recs[k]);
            }
        }
    }
}

/// After a scan pass of distinct paths, every record of the pass is
/// reflected.
proof fn lemma_pass_reflects_all_vid(
    vids: Seq<VideoRowView>,
    next: int,
    recs: Seq<crate::scan::ScannedFileView>,
)
    requires
        distinct_paths(recs),
    ensures
        forall|k: int|
            0 <= k < recs.len() ==> vid_reflected(spec_upsert_vids(vids, next, recs).0, recs[k]),
    decreases recs.len(),
{
    if recs.len() == 0 {
    } else {
        let once = spec_upsert_vid(vids, next, recs[0]);
        let rest = recs.drop_first();
        assert(distinct_paths(rest)) by {
            assert forall|a: int, b: int| 0 <= a < b < rest.len() implies rest[a].path
                != rest[b].path by {
                assert(rest[a] == recs[a + 1] && rest[b] == recs[b + 1]);
            }
        }
        lemma_pass_reflects_all_vid(once.0, once.1, rest);
        lemma_upsert_reflects_vid(vids, next, recs[0]);
        assert forall|k: int| 0 <= k < rest.len() implies rest[k].path != recs[0].path by {
            assert(rest[k] == recs[k + 1]);
        }
        lemma_pass_keeps_reflected_vid(once.0, once.1, rest, recs[0]);
        assert forall|k: int| 0 <= k < recs.len() implies vid_reflected(
            spec_upsert_vids(vids, next, recs).0,
            recs[k],
        ) by {
            if k >= 1 {
                assert(rest[k - 1] == recs[k]);
            }
        }
    }
}

/// A scan pass whose every record is already reflected is a no-op.
proof fn lemma_pass_on_reflected_pic(
    pics: Seq<PictureRowView>,
    next: int,
    recs: Seq<crate::scan::ScannedFileView>,
)
    requires
        forall|k: int| 0 <= k < recs.len() ==> pic_reflected(pics, recs[k]),
    ensures
        spec_upsert_pics(pics, next, recs) == (pics, next),
    decreases recs.len(),
{
    if recs.len() == 0 {
    } else {
        lemma_upsert_reflected_pic(pics, next, recs[0]);
        let rest = recs.drop_first();
        assert forall|k: int| 0 <= k < rest.len() implies pic_reflected(pics, rest[k]) by {
            assert(rest[k] == recs[k + 1]);
        }
        lemma_pass_on_reflected_pic(pics, next, rest);
    }
}

/// A scan pass whose every record is already reflected is a no-op.
proof fn lemma_pass_on_reflected_vid(
    vids: Seq<VideoRowView>,
    next: int,
    recs: Seq<crate::scan::ScannedFileView>,
)
    requires
        forall|k: int| 0 <= k < recs.len() ==> vid_reflected(vids, recs[k]),
    ensures
        spec_upsert_vids(vids, next, recs) == (vids, next),
    decreases recs.len(),
{
    if recs.len() == 0 {
    } else {
        lemma_upsert_reflected_vid(vids, next, recs[0]);
        let rest = recs.drop_first();
        assert forall|k: int| 0 <= k < rest.len() implies vid_reflected(vids, rest[k]) by {
            assert(rest[k] == recs[k + 1]);
        }
        lemma_pass_on_reflected_vid(vids, next, rest);
    }
}

/// Law: persisting one scan of an unchanged filesystem twice is the same
/// as persisting it once.  A second pass of the same records (one per
/// canonical path, as a walk yields them) leaves the picture table and the
/// id counter exactly where the first pass left them; since `all_visuals`
/// is a function of the tables alone, the served visual items are
/// identical too.
pub proof fn lemma_scan_twice_pics(
    pics: Seq<PictureRowView>,
    next: int,
    recs: Seq<crate::scan::ScannedFileView>,
)
    requires
        distinct_paths(recs),
    ensures
        spec_upsert_pics(
            spec_upsert_pics(pics, next, recs).0,
            spec_upsert_pics(pics, next, recs).1,
            recs,
        ) == spec_upsert_pics(pics, next, recs),
{
    lemma_pass_reflects_all_pic(pics, next, recs);
    let once = spec_upsert_pics(pics, next, recs);
    lemma_pass_on_reflected_pic(once.0, once.1, recs);
}

/// Law: persisting one scan of an unchanged filesystem twice is the same
/// as persisting it once, on the video table.
pub proof fn lemma_scan_twice_vids(
    vids: Seq<VideoRowView>,
    next: int,
    recs: Seq<crate::scan::ScannedFileView>,
)
    requires
        distinct_paths(recs),
    ensures
        spec_upsert_vids(
            spec_upsert_vids(vids, next, recs).0,
            spec_upsert_vids(vids, next, recs).1,
            recs,
        ) == spec_upsert_vids(vids, next, recs),
{
    lemma_pass_reflects_all_vid(vids, next, recs);
    let once = spec_upsert_vids(vids, next, recs);
    lemma_pass_on_reflected_vid(once.0, once.1, recs);
}

/// Each picture row leads the visual at its own index of the merge.
pub proof fn lemma_pics_to_visuals_index(pics: Seq<PictureRowView>, vids: Seq<VideoRowView>)
    ensures
        pics_to_visuals(pics, vids).len() == pics.len(),
        forall|k: int|
            0 <= k < pics.len() ==> pics_to_visuals(pics, vids)[k] == visual_of_pic(
                pics[k],
                vids,
            ),
    decreases pics.len(),
{
    if pics.len() == 0 {
    } else {
        let dl = pics.drop_last();
        lemma_pics_to_visuals_index(dl, vids);
        assert forall|k: int| 0 <= k < pics.len() implies pics_to_visuals(pics, vids)[k]
            == visual_of_pic(pics[k], vids) by {
            if k < pics.len() - 1 {
                assert(pics_to_visuals(pics, vids)[k] == pics_to_visuals(dl, vids)[k]);
                assert(dl[k] == pics[k]);
            }
        }
    }
}

/// Every visual of the unclaimed-video part is video-only.
pub proof fn lemma_lone_vids_media(pics: Seq<PictureRowView>, vids: Seq<VideoRowView>)
    ensures
        forall|k: int|
            0 <= k < lone_vids_to_visuals(pics, vids).len() ==> (#[trigger] lone_vids_to_visuals(
                pics,
                vids,
            )[k]).media is Video,
    decreases vids.len(),
{
    if vids.len() == 0 {
    } else {
        lemma_lone_vids_media(pics, vids.drop_last());
        let rest = lone_vids_to_visuals(pics, vids.drop_last());
        let whole = lone_vids_to_visuals(pics, vids);
        assert forall|k: int| 0 <= k < whole.len() implies (#[trigger] whole[k]).media
            is Video by {
            if k < rest.len() {
                assert(whole[k] == rest[k]);
            }
        }
    }
}

/// Law: a photo and a video sharing a base path in one directory merge
/// into a single visual item.  When `j` is the first video row carrying
/// the picture's base, the merge holds exactly one visual backed by that
/// picture; it is a motion photo holding both rows, its thumbnail is the
/// picture's whenever the picture has one, and its id, creation instant
/// and selfie trait are the picture's.  The served order holds exactly the
/// same items.
pub proof fn lemma_merge_pair(
    pics: Seq<PictureRowView>,
    vids: Seq<VideoRowView>,
    i: int,
    j: int,
)
    requires
        forall|a: int, b: int| 0 <= a < b < pics.len() ==> pics[a].id != pics[b].id,
        0 <= i < pics.len(),
        0 <= j < vids.len(),
        pics[i].base == vids[j].base,
        forall|k: int| 0 <= k < j ==> vids[k].base != vids[j].base,
    ensures
        merged_visuals(pics, vids)[i] == both_visual(pics[i], vids[j]),
        forall|k: int|
            0 <= k < merged_visuals(pics, vids).len() && k != i ==> (
            #[trigger] merged_visuals(pics, vids)[k]).media.picture_id() != Some(pics[i].id),
        visuals_of(pics, vids).to_multiset() == merged_visuals(pics, vids).to_multiset(),
{
    lemma_pics_to_visuals_index(pics, vids);
    lemma_lone_vids_media(pics, vids);
    lemma_find_vid_base(vids, pics[i].base);
    let m = merged_visuals(pics, vids);
    let pv = pics_to_visuals(pics, vids);
    let lv = lone_vids_to_visuals(pics, vids);
    match find_vid_base(vids, pics[i].base) {
        Some(f) => {
            assert(f >= j) by {
                if f < j {
                    assert(vids[f].base != vids[j].base);
                }
            }
            assert(f <= j) by {
                if f > j {
                    assert(vids[j].base != pics[i].base);
                }
            }
            assert(f == j);
        },
        None => {
            assert(vids[j].base != pics[i].base);
        },
    }
    assert(m[i] == pv[i]);
    assert(pv[i] == visual_of_pic(pics[i], vids));
    assert(visual_of_pic(pics[i], vids) == both_visual(pics[i], vids[j]));
    assert forall|k: int| 0 <= k < m.len() && k != i implies (#[trigger] m[k]).media.picture_id()
        != Some(pics[i].id) by {
        if k < pv.len() {
            assert(m[k] == pv[k]);
            assert(pv[k] == visual_of_pic(pics[k], vids));
            assert(pics[k].id != pics[i].id) by {
                if k < i {
                    assert(pics[k].id != pics[i].id);
                }
            }
            match find_vid_base(vids, pics[k].base) {
                Some(_) => {},
                None => {},
            }
        } else {
            assert(m[k] == lv[k - pv.len()]);
            assert(lv[k - pv.len()].media is Video);
        }
    }
    lemma_sort_desc(m);
}

/// Law: reconciliation of the picture table is exact.  Every surviving row
/// carries an observed path, and every row carrying an observed path
/// survives — so exactly the rows whose files are gone are deleted, and no
/// others.
pub proof fn lemma_keep_present_pics_exact(pics: Seq<PictureRowView>, present: Seq<Seq<char>>)
    ensures
        forall|k: int|
            0 <= k < keep_present_pics(pics, present).len() ==> has_path(
                present,
                (#[trigger] keep_present_pics(pics, present)[k]).path,
            ),
        forall|k: int|
            0 <= k < pics.len() && has_path(present, (#[trigger] pics[k]).path)
                ==> keep_present_pics(pics, present).contains(pics[k]),
    decreases pics.len(),
{
    if pics.len() == 0 {
    } else {
        let dl = pics.drop_last();
        lemma_keep_present_pics_exact(dl, present);
        let rk = keep_present_pics(dl, present);
        let kp = keep_present_pics(pics, present);
        if has_path(present, pics.last().path) {
            assert(kp == rk.push(pics.last()));
            assert forall|k: int| 0 <= k < kp.len() implies has_path(
                present,
                (#[trigger] kp[k]).path,
            ) by {
                if k < rk.len() {
                    assert(kp[k] == rk[k]);
                } else {
                    assert(kp[k] == pics.last());
                }
            }
            assert forall|k: int| 0 <= k < pics.len() && has_path(
                present,
                (#[trigger] pics[k]).path,
            ) implies kp.contains(pics[k]) by {
                if k < pics.len() - 1 {
                    assert(dl[k] == pics[k]);
                    assert(rk.contains(pics[k]));
                    let w = choose|w: int| 0 <= w < rk.len() && rk[w] == pics[k];
                    assert(kp[w] == pics[k]);
                } else {
                    assert(kp[kp.len() - 1] == pics[k]);
                }
            }
        } else {
            assert(kp == rk);
            assert forall|k: int| 0 <= k < pics.len() && has_path(
                present,
                (#[trigger] pics[k]).path,
            ) implies kp.contains(pics[k]) by {
                if k < pics.len() - 1 {
                    assert(dl[k] == pics[k]);
                }
            }
        }
    }
}

/// Law: reconciliation of the video table is exact, as
/// `lemma_keep_present_pics_exact` states for pictures.
pub proof fn lemma_keep_present_vids_exact(vids: Seq<VideoRowView>, present: Seq<Seq<char>>)
    ensures
        forall|k: int|
            0 <= k < keep_present_vids(vids, present).len() ==> has_path(
                present,
                (#[trigger] keep_present_vids(vids, present)[k]).path,
            ),
        forall|k: int|
            0 <= k < vids.len() && has_path(present, (#[trigger] vids[k]).path)
                ==> keep_present_vids(vids, present).contains(vids[k]),
    decreases vids.len(),
{
    if vids.len() == 0 {
    } else {
        let dl = vids.drop_last();
        lemma_keep_present_vids_exact(dl, present);
        let rk = keep_present_vids(dl, present);
        let kp = keep_present_vids(vids, present);
        if has_path(present, vids.last().path) {
            assert(kp == rk.push(vids.last()));
            assert forall|k: int| 0 <= k < kp.len() implies has_path(
                present,
                (#[trigger] kp[k]).path,
            ) by {
                if k < rk.len() {
                    assert(kp[k] == rk[k]);
                } else {
                    assert(kp[k] == vids.last());
                }
            }
            assert forall|k: int| 0 <= k < vids.len() && has_path(
                present,
                (#[trigger] vids[k]).path,
            ) implies kp.contains(vids[k]) by {
                if k < vids.len() - 1 {
                    assert(dl[k] == vids[k]);
                    assert(rk.contains(vids[k]));
                    let w = choose|w: int| 0 <= w < rk.len() && rk[w] == vids[k];
                    assert(kp[w] == vids[k]);
                } else {
                    assert(kp[kp.len() - 1] == vids[k]);
                }
            }
        } else {
            assert(kp == rk);
            assert forall|k: int| 0 <= k < vids.len() && has_path(
                present,
                (#[trigger] vids[k]).path,
            ) implies kp.contains(vids[k]) by {
                if k < vids.len() - 1 {
                    assert(dl[k] == vids[k]);
                }
            }
        }
    }
}

} // verus!
