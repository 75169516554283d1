//! The merged media item the pipeline exposes, and its identifiers.
//!
//! A `Visual` combines an optional photo and an optional video that share a
//! base path (a motion photo holds both).  The three shapes are an explicit
//! variant type, and the derived predicates are pure functions over it.

use vstd::prelude::*;

use crate::paths;
use crate::time;

verus! {

/// Stable identifier of a picture row.
#[derive(Clone, Copy, Debug, PartialEq, Eq, Structural)]
pub struct PictureId(pub i64);

impl PictureId {
    pub fn new(id: i64) -> (r: PictureId)
        ensures
            r.0 == id,
    {
        PictureId(id)
    }

    pub fn id(&self) -> (r: i64)
        ensures
            r == self.0,
    {
        self.0
    }
}

/// Stable identifier of a video row.
#[derive(Clone, Copy, Debug, PartialEq, Eq, Structural)]
pub struct VideoId(pub i64);

impl VideoId {
    pub fn new(id: i64) -> (r: VideoId)
        ensures
            r.0 == id,
    {
        VideoId(id)
    }

    pub fn id(&self) -> (r: i64)
        ensures
            r == self.0,
    {
        self.0
    }
}

/// Identifier of a visual item, derived from the merged item's base path so
/// that repeated scans of an unchanged file give the same id.
#[derive(Debug)]
pub struct VisualId(String);

impl Clone for VisualId {
    fn clone(&self) -> (r: Self)
        ensures
            r@ == self@,
    {
        VisualId(self.0.clone())
    }
}

impl VisualId {
    pub fn new(id: String) -> (r: VisualId)
        ensures
            r@ == id@,
    {
        VisualId(id)
    }

    pub fn id(&self) -> (r: &String)
        ensures
            r@ == self@,
    {
        &self.0
    }
}

impl View for VisualId {
    type V = Seq<char>;

    closed spec fn view(&self) -> Seq<char> {
        self.0@
    }
}

/// Calendar bucket of a visual item: its civil year and month.
#[derive(Clone, Copy, Debug, PartialEq, Eq, Structural)]
pub struct YearMonth {
    pub year: i32,
    pub month: u8,
}

/// The media behind a visual item: a photo, a video, or both at once.
#[derive(Debug)]
pub enum VisualMedia {
    Photo { picture_id: PictureId, picture_path: String },
    Video { video_id: VideoId, video_path: String, transcoded_path: Option<String> },
    Both {
        picture_id: PictureId,
        picture_path: String,
        video_id: VideoId,
        video_path: String,
        transcoded_path: Option<String>,
    },
}

/// Ghost image of `VisualMedia`.
pub ghost enum VisualMediaView {
    Photo { picture_id: int, picture_path: Seq<char> },
    Video { video_id: int, video_path: Seq<char>, transcoded_path: Option<Seq<char>> },
    Both {
        picture_id: int,
        picture_path: Seq<char>,
        video_id: int,
        video_path: Seq<char>,
        transcoded_path: Option<Seq<char>>,
    },
}

impl View for VisualMedia {
    type V = VisualMediaView;

    open spec fn view(&self) -> VisualMediaView {
        match self {
            VisualMedia::Photo { picture_id, picture_path } => VisualMediaView::Photo {
                picture_id: picture_id.0 as int,
                picture_path: picture_path@,
            },
            VisualMedia::Video { video_id, video_path, transcoded_path } => VisualMediaView::Video {
                video_id: video_id.0 as int,
                video_path: video_path@,
                transcoded_path: match transcoded_path {
                    Some(p) => Some(p@),
                    None => None,
                },
            },
            VisualMedia::Both { picture_id, picture_path, video_id, video_path, transcoded_path } => VisualMediaView::Both {
                picture_id: picture_id.0 as int,
                picture_path: picture_path@,
                video_id: video_id.0 as int,
                video_path: video_path@,
                transcoded_path: match transcoded_path {
                    Some(p) => Some(p@),
                    None => None,
                },
            },
        }
    }
}

/// A visual artefact: a photo, a video, or a motion photo holding both.
#[derive(Debug)]
pub struct Visual {
    /// Identifier derived from the item's base path.
    pub visual_id: VisualId,
    /// Directory the item lives in.
    pub parent_path: String,
    /// Thumbnail, once enrichment has produced one.  When both a picture and
    /// a video are present this is the picture's thumbnail whenever the
    /// picture has one.
    pub thumbnail_path: Option<String>,
    /// The media behind the item.
    pub media: VisualMedia,
    /// EXIF creation timestamp when available, else the file-system one;
    /// whole seconds since the Unix epoch.
    pub created_at: i64,
    /// Selfie trait: unknown until photo enrichment has run.
    pub is_selfie: Option<bool>,
    /// Transcode trait: unknown until the video's codec has been probed,
    /// then true while a viewer-playable rendition is still owed.
    pub is_transcode_required: Option<bool>,
}

/// Ghost image of `Visual`.
pub ghost struct VisualView {
    pub visual_id: Seq<char>,
    pub parent_path: Seq<char>,
    pub thumbnail_path: Option<Seq<char>>,
    pub media: VisualMediaView,
    pub created_at: int,
    pub is_selfie: Option<bool>,
    pub is_transcode_required: Option<bool>,
}

impl View for Visual {
    type V = VisualView;

    open spec fn view(&self) -> VisualView {
        VisualView {
            visual_id: self.visual_id@,
            parent_path: self.parent_path@,
            thumbnail_path: match self.thumbnail_path {
                Some(ref p) => Some(p@),
                None => None,
            },
            media: self.media@,
            created_at: self.created_at as int,
            is_selfie: self.is_selfie,
            is_transcode_required: self.is_transcode_required,
        }
    }
}

impl VisualMediaView {
    /// The picture row behind the media, if any.
    pub open spec fn picture_id(self) -> Option<int> {
        match self {
            VisualMediaView::Photo { picture_id, .. } => Some(picture_id),
            VisualMediaView::Video { .. } => None,
            VisualMediaView::Both { picture_id, .. } => Some(picture_id),
        }
    }

    /// The video row behind the media, if any.
    pub open spec fn video_id(self) -> Option<int> {
        match self {
            VisualMediaView::Photo { .. } => None,
            VisualMediaView::Video { video_id, .. } => Some(video_id),
            VisualMediaView::Both { video_id, .. } => Some(video_id),
        }
    }
}

impl Visual {
    /// The path of the item: the picture's when one is present, else the
    /// video's.
    pub fn path(&self) -> (r: Option<&String>)
        ensures
            match self.media@ {
                VisualMediaView::Photo { picture_path, .. } => r matches Some(p) && p@
                    == picture_path,
                VisualMediaView::Both { picture_path, .. } => r matches Some(p) && p@
                    == picture_path,
                VisualMediaView::Video { video_path, .. } => r matches Some(p) && p@
                    == video_path,
            },
    {
        match &self.media {
            VisualMedia::Photo { picture_path, .. } => Some(picture_path),
            VisualMedia::Both { picture_path, .. } => Some(picture_path),
            VisualMedia::Video { video_path, .. } => Some(video_path),
        }
    }

    /// True when the selfie trait is known and positive.
    pub fn is_selfie(&self) -> (r: bool)
        ensures
            r == (self.is_selfie == Some(true)),
    {
        match self.is_selfie {
            Some(b) => b,
            None => false,
        }
    }

    /// True when the item is a live photo: a picture with a companion
    /// video sharing its base path, captured together.
    pub fn is_ios_live_photo(&self) -> (r: bool)
        ensures
            r == (self.media@ is Both),
    {
        match &self.media {
            VisualMedia::Both { .. } => true,
            _ => false,
        }
    }

    /// True when the item holds both a picture and a video captured together.
    pub fn is_motion_photo(&self) -> (r: bool)
        ensures
            r == (self.media@ is Both),
    {
        match &self.media {
            VisualMedia::Both { .. } => true,
            _ => false,
        }
    }

    /// True when the item holds a picture and no video.
    pub fn is_photo_only(&self) -> (r: bool)
        ensures
            r == (self.media@ is Photo),
    {
        match &self.media {
            VisualMedia::Photo { .. } => true,
            _ => false,
        }
    }

    /// True when the item holds a video and no picture.
    pub fn is_video_only(&self) -> (r: bool)
        ensures
            r == (self.media@ is Video),
    {
        match &self.media {
            VisualMedia::Video { .. } => true,
            _ => false,
        }
    }

    /// The picture row behind the item, if any.
    pub fn picture_id(&self) -> (r: Option<PictureId>)
        ensures
            match r {
                Some(id) => self.media@.picture_id() == Some(id.0 as int),
                None => self.media@.picture_id() is None,
            },
    {
        match &self.media {
            VisualMedia::Photo { picture_id, .. } => Some(*picture_id),
            VisualMedia::Both { picture_id, .. } => Some(*picture_id),
            VisualMedia::Video { .. } => None,
        }
    }

    /// The video row behind the item, if any.
    pub fn video_id(&self) -> (r: Option<VideoId>)
        ensures
            match r {
                Some(id) => self.media@.video_id() == Some(id.0 as int),
                None => self.media@.video_id() is None,
            },
    {
        match &self.media {
            VisualMedia::Video { video_id, .. } => Some(*video_id),
            VisualMedia::Both { video_id, .. } => Some(*video_id),
            VisualMedia::Photo { .. } => None,
        }
    }

    /// The absolute year of the item's creation instant, starting from 1;
    /// years before the common era count upward from 1 as well.
    pub fn year(&self) -> (r: u32)
        requires
            time::timestamp_in_range(self.created_at as int),
        ensures
            r as int == year_ce_abs(time::civil_of(self.created_at as int).0),
    {
        let (y, _m) = time::civil_from_timestamp(self.created_at);
        if y >= 1 {
            y as u32
        } else {
            let abs: i64 = 1i64 - (y as i64);
            abs as u32
        }
    }

    /// The calendar bucket of the item's creation instant.
    pub fn year_month(&self) -> (r: YearMonth)
        requires
            time::timestamp_in_range(self.created_at as int),
        ensures
            r.year as int == time::civil_of(self.created_at as int).0,
            r.month as int == time::civil_of(self.created_at as int).1,
            1 <= r.month <= 12,
    {
        let (y, m) = time::civil_from_timestamp(self.created_at);
        YearMonth { year: y, month: m as u8 }
    }

    /// The name of the folder the item lives in: the last component of the
    /// parent path, or nothing when the parent path is empty.
    pub fn folder_name(&self) -> (r: Option<String>)
        ensures
            match r {
                Some(n) => self.parent_path@.len() > 0 && n@ == paths::file_name_of(
                    self.parent_path@,
                ),
                None => self.parent_path@.len() == 0,
            },
    {
        if self.parent_path.as_str().unicode_len() == 0 {
            None
        } else {
            Some(paths::file_name(self.parent_path.as_str()))
        }
    }
}

impl Clone for VisualMedia {
    fn clone(&self) -> (r: Self)
        ensures
            r@ == self@,
    {
        match self {
            VisualMedia::Photo { picture_id, picture_path } => VisualMedia::Photo {
                picture_id: *picture_id,
                picture_path: picture_path.clone(),
            },
            VisualMedia::Video { video_id, video_path, transcoded_path } => VisualMedia::Video {
                video_id: *video_id,
                video_path: video_path.clone(),
                transcoded_path: match transcoded_path {
                    Some(p) => Some(p.clone()),
                    None => None,
                },
            },
            VisualMedia::Both { picture_id, picture_path, video_id, video_path, transcoded_path } => VisualMedia::Both {
                picture_id: *picture_id,
                picture_path: picture_path.clone(),
                video_id: *video_id,
                video_path: video_path.clone(),
                transcoded_path: match transcoded_path {
                    Some(p) => Some(p.clone()),
                    None => None,
                },
            },
        }
    }
}

impl Clone for Visual {
    fn clone(&self) -> (r: Self)
        ensures
            r@ == self@,
    {
        Visual {
            visual_id: self.visual_id.clone(),
            parent_path: self.parent_path.clone(),
            thumbnail_path: match &self.thumbnail_path {
                Some(p) => Some(p.clone()),
                None => None,
            },
            media: self.media.clone(),
            created_at: self.created_at,
            is_selfie: self.is_selfie,
            is_transcode_required: self.is_transcode_required,
        }
    }
}

/// Absolute year number starting from 1, as the common-era reading gives it.
pub open spec fn year_ce_abs(y: int) -> int {
    if y < 1 {
        1 - y
    } else {
        y
    }
}

} // verus!
