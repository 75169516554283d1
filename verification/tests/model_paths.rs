use chrono::Datelike;
use fotema_pipeline::model::{PictureId, Visual, VisualId, VisualMedia};
use fotema_pipeline::paths::{base, dir_name, eq_lower, extension, file_name, str_eq};
use fotema_pipeline::time::civil_from_timestamp;
use fotema_pipeline::view::ViewName;

fn photo_visual(parent: &str, path: &str, created_at: i64) -> Visual {
    Visual {
        visual_id: VisualId::new(String::from(path)),
        parent_path: String::from(parent),
        thumbnail_path: None,
        media: VisualMedia::Photo {
            picture_id: PictureId::new(1),
            picture_path: String::from(path),
        },
        created_at,
        is_selfie: None,
        is_transcode_required: None,
    }
}

#[test]
fn path_helpers_split_as_documented() {
    assert_eq!(base("dir/IMG_0001.HEIC"), "dir/IMG_0001");
    assert_eq!(base("dir/archive.tar.gz"), "dir/archive.tar");
    assert_eq!(base("noext"), "noext");
    assert_eq!(base("dir.d/noext"), "dir.d/noext");
    assert_eq!(dir_name("a/b/c.jpg"), "a/b");
    assert_eq!(dir_name("c.jpg"), "");
    assert_eq!(file_name("a/b/c.jpg"), "c.jpg");
    assert_eq!(file_name("c.jpg"), "c.jpg");
    assert_eq!(extension("a/b.JPG"), "JPG");
    assert_eq!(extension("a/b"), "");
    assert_eq!(extension("a.d/b"), "");
}

#[test]
fn string_comparisons() {
    assert!(str_eq("abc", "abc"));
    assert!(!str_eq("abc", "abd"));
    assert!(!str_eq("abc", "ab"));
    assert!(eq_lower("HEIC", "heic"));
    assert!(eq_lower("MoV", "mov"));
    assert!(!eq_lower("heif", "heic"));
    assert!(!eq_lower("jpeg", "jpg"));
}

#[test]
fn civil_dates_match_the_calendar() {
    let (y, m) = civil_from_timestamp(0);
    assert_eq!((y, m), (1970, 1));
    let (y, m) = civil_from_timestamp(-1);
    assert_eq!((y, m), (1969, 12));
    let (y, m) = civil_from_timestamp(1682899200);
    assert_eq!((y, m), (2023, 5));
    // Cross-check a spread of instants against chrono read directly.
    for ts in [-86400, 1, 951782400, 1234567890, 4102444800] {
        let dt = chrono::DateTime::<chrono::Utc>::from_timestamp(ts, 0).unwrap();
        let (y, m) = civil_from_timestamp(ts);
        assert_eq!(y, dt.year());
        assert_eq!(m, dt.month());
    }
}

#[test]
fn visual_year_and_bucket() {
    let v = photo_visual("album", "album/a.jpg", 1682899200);
    assert_eq!(v.year(), 2023);
    let ym = v.year_month();
    assert_eq!(ym.year, 2023);
    assert_eq!(ym.month, 5);
}

#[test]
fn visual_accessors() {
    let v = photo_visual("albums/holiday", "albums/holiday/a.jpg", 7);
    assert_eq!(v.path().map(|p| p.as_str()), Some("albums/holiday/a.jpg"));
    assert!(v.is_photo_only());
    assert!(!v.is_video_only());
    assert!(!v.is_motion_photo());
    assert!(!v.is_selfie());
    assert_eq!(v.folder_name().as_deref(), Some("holiday"));
    assert_eq!(v.picture_id().map(|i| i.id()), Some(1));
    assert!(v.video_id().is_none());

    let mut selfie = photo_visual("d", "d/b.jpg", 8);
    selfie.is_selfie = Some(true);
    assert!(selfie.is_selfie());

    let rootless = photo_visual("", "c.jpg", 9);
    assert!(rootless.folder_name().is_none());
}

#[test]
fn visual_id_round_trip() {
    let id = VisualId::new(String::from("lib/IMG_0001"));
    assert_eq!(id.id(), "lib/IMG_0001");
    let copy = id.clone();
    assert_eq!(copy.id(), "lib/IMG_0001");
}

#[test]
fn view_names_round_trip() {
    let views = [
        ViewName::Nothing,
        ViewName::Library,
        ViewName::Videos,
        ViewName::Animated,
        ViewName::Folders,
        ViewName::Folder,
        ViewName::Selfies,
    ];
    for v in views {
        assert_eq!(ViewName::from_name(v.name()), v);
    }
    assert_eq!(ViewName::from_name("no-such-view"), ViewName::Nothing);
    assert_eq!(ViewName::from_name("Library"), ViewName::Library);
    assert_eq!(ViewName::Selfies.name(), "Selfies");
}
