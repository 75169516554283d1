//! Classification of walked files and the candidate records the scanner
//! emits.
//!
//! The walk itself is input/output and lives outside the library; it hands
//! in each file's path and timestamps, and the functions here decide which
//! files are media and build the records the repository ingests.  Identity
//! is the canonical path, so a renamed file counts as new and the old row is
//! later cleaned out.

use vstd::prelude::*;
use vstd::string::*;

use crate::paths;

verus! {

/// The two media kinds the pipeline indexes.
#[derive(Clone, Copy, Debug, PartialEq, Eq, Structural)]
pub enum MediaKind {
    Photo,
    Video,
}

/// True when `e` (already lower-cased) is a photo extension.
pub open spec fn photo_ext(e: Seq<char>) -> bool {
    ||| e == "jpg"@
    ||| e == "jpeg"@
    ||| e == "png"@
    ||| e == "gif"@
    ||| e == "webp"@
    ||| e == "tiff"@
    ||| e == "tif"@
    ||| e == "heic"@
    ||| e == "heif"@
    ||| e == "avif"@
    ||| e == "bmp"@
}

/// True when `e` (already lower-cased) is a video extension.
pub open spec fn video_ext(e: Seq<char>) -> bool {
    ||| e == "mp4"@
    ||| e == "m4v"@
    ||| e == "mov"@
    ||| e == "avi"@
    ||| e == "mkv"@
    ||| e == "webm"@
    ||| e == "mpg"@
    ||| e == "mpeg"@
}

/// The media kind a path's extension places it in, if any; the extension is
/// read case-insensitively.
pub open spec fn spec_classify(path: Seq<char>) -> Option<MediaKind> {
    if photo_ext(paths::lower(paths::ext_of(path))) {
        Some(MediaKind::Photo)
    } else if video_ext(paths::lower(paths::ext_of(path))) {
        Some(MediaKind::Video)
    } else {
        None
    }
}

/// Decides whether a walked path is a photo, a video, or not media at all.
pub fn classify(path: &str) -> (r: Option<MediaKind>)
    ensures
        r == spec_classify(path@),
{
    let e = paths::extension(path);
    let s = e.as_str();
    if paths::eq_lower(s, "jpg") || paths::eq_lower(s, "jpeg") || paths::eq_lower(s, "png")
        || paths::eq_lower(s, "gif") || paths::eq_lower(s, "webp") || paths::eq_lower(s, "tiff")
        || paths::eq_lower(s, "tif") || paths::eq_lower(s, "heic") || paths::eq_lower(s, "heif")
        || paths::eq_lower(s, "avif") || paths::eq_lower(s, "bmp") {
        Some(MediaKind::Photo)
    } else if paths::eq_lower(s, "mp4") || paths::eq_lower(s, "m4v") || paths::eq_lower(s, "mov")
        || paths::eq_lower(s, "avi") || paths::eq_lower(s, "mkv") || paths::eq_lower(s, "webm")
        || paths::eq_lower(s, "mpg") || paths::eq_lower(s, "mpeg") {
        Some(MediaKind::Video)
    } else {
        None
    }
}

/// A candidate file record the scanner emits: one sighting of a media file.
#[derive(Clone, Debug)]
pub struct ScannedFile {
    /// Canonical path of the file; the record's identity.
    pub path: String,
    /// Directory part of the path.
    pub parent_path: String,
    /// EXIF creation timestamp when one was available, else the file-system
    /// creation time; whole seconds since the Unix epoch.
    pub created_at: i64,
    /// Which scanner the file belongs to.
    pub kind: MediaKind,
}

/// Ghost image of `ScannedFile`.
pub ghost struct ScannedFileView {
    pub path: Seq<char>,
    pub parent_path: Seq<char>,
    pub created_at: int,
    pub kind: MediaKind,
}

impl View for ScannedFile {
    type V = ScannedFileView;

    open spec fn view(&self) -> ScannedFileView {
        ScannedFileView {
            path: self.path@,
            parent_path: self.parent_path@,
            created_at: self.created_at as int,
            kind: self.kind,
        }
    }
}

/// True when a record is internally consistent: its parent is the directory
/// part of its path.
pub open spec fn record_wf(r: ScannedFileView) -> bool {
    r.parent_path == paths::dir_of(r.path)
}

/// Builds the record for one walked file, or nothing when the extension does
/// not mark it as media.  The creation timestamp is the EXIF one when
/// available, else the file-system one.
pub fn make_record(path: &str, exif_created_at: Option<i64>, fs_created_at: i64) -> (r: Option<
    ScannedFile,
>)
    ensures
        match r {
            Some(rec) => {
                &&& spec_classify(path@) == Some(rec.kind)
                &&& rec.path@ == path@
                &&& record_wf(rec@)
                &&& rec.created_at as int == match exif_created_at {
                    Some(t) => t as int,
                    None => fs_created_at as int,
                }
            },
            None => spec_classify(path@) is None,
        },
{
    match classify(path) {
        Some(kind) => {
            let created_at: i64 = match exif_created_at {
                Some(t) => t,
                None => fs_created_at,
            };
            Some(
                ScannedFile {
                    path: path.to_owned(),
                    parent_path: paths::dir_name(path),
                    created_at,
                    kind,
                },
            )
        },
        None => None,
    }
}

} // verus!
