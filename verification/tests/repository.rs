use fotema_pipeline::model::{PictureId, VideoId};
use fotema_pipeline::repo::Repository;
use fotema_pipeline::scan::{classify, make_record, MediaKind, ScannedFile};

fn photo_record(path: &str, created_at: i64) -> ScannedFile {
    let rec = make_record(path, Some(created_at), 0).expect("photo path must classify");
    assert!(matches!(rec.kind, MediaKind::Photo));
    rec
}

fn video_record(path: &str, created_at: i64) -> ScannedFile {
    let rec = make_record(path, Some(created_at), 0).expect("video path must classify");
    assert!(matches!(rec.kind, MediaKind::Video));
    rec
}

#[test]
fn upsert_assigns_stable_ids() {
    let mut repo = Repository::new();
    let a = repo.upsert_picture(&photo_record("dir/a.jpg", 100));
    let b = repo.upsert_picture(&photo_record("dir/b.jpg", 200));
    assert_ne!(a.id(), b.id());
    let a_again = repo.upsert_picture(&photo_record("dir/a.jpg", 100));
    assert_eq!(a.id(), a_again.id());
    assert_eq!(repo.pictures().len(), 2);
}

#[test]
fn upsert_twice_yields_identical_visuals() {
    let records = vec![
        photo_record("lib/a.jpg", 300),
        photo_record("lib/b.heic", 100),
        video_record("lib/b.mov", 100),
        video_record("lib/c.mp4", 200),
    ];
    let mut repo = Repository::new();
    for r in &records {
        match r.kind {
            MediaKind::Photo => {
                repo.upsert_picture(r);
            },
            MediaKind::Video => {
                repo.upsert_video(r);
            },
        }
    }
    let once = repo.all_visuals();
    for r in &records {
        match r.kind {
            MediaKind::Photo => {
                repo.upsert_picture(r);
            },
            MediaKind::Video => {
                repo.upsert_video(r);
            },
        }
    }
    let twice = repo.all_visuals();
    assert_eq!(once.len(), twice.len());
    for (x, y) in once.iter().zip(twice.iter()) {
        assert_eq!(x.visual_id.id(), y.visual_id.id());
        assert_eq!(x.created_at, y.created_at);
        assert_eq!(x.parent_path, y.parent_path);
        assert_eq!(x.thumbnail_path, y.thumbnail_path);
        assert_eq!(x.is_selfie, y.is_selfie);
        assert_eq!(x.is_transcode_required, y.is_transcode_required);
        assert_eq!(x.is_motion_photo(), y.is_motion_photo());
        assert_eq!(
            x.picture_id().map(|i| i.id()),
            y.picture_id().map(|i| i.id())
        );
        assert_eq!(x.video_id().map(|i| i.id()), y.video_id().map(|i| i.id()));
    }
}

#[test]
fn photo_and_video_sharing_base_merge_into_motion_photo() {
    let mut repo = Repository::new();
    let pid = repo.upsert_picture(&photo_record("album/IMG_0001.HEIC", 500));
    let vid = repo.upsert_video(&video_record("album/IMG_0001.MOV", 500));
    assert!(repo.mark_picture_enriched(pid, String::from("cache/pic.png"), false));
    assert!(repo.mark_video_thumbnail(vid, String::from("cache/vid.png")));

    let visuals = repo.all_visuals();
    assert_eq!(visuals.len(), 1);
    let v = &visuals[0];
    assert!(v.is_motion_photo());
    assert!(v.is_ios_live_photo());
    assert!(!v.is_photo_only());
    assert!(!v.is_video_only());
    assert_eq!(v.picture_id().map(|i| i.id()), Some(pid.id()));
    assert_eq!(v.video_id().map(|i| i.id()), Some(vid.id()));
    assert_eq!(v.thumbnail_path.as_deref(), Some("cache/pic.png"));
    assert_eq!(v.visual_id.id(), "album/IMG_0001");
}

#[test]
fn merge_prefers_picture_thumbnail_only_when_present() {
    let mut repo = Repository::new();
    repo.upsert_picture(&photo_record("d/x.jpg", 1));
    let vid = repo.upsert_video(&video_record("d/x.mp4", 1));
    assert!(repo.mark_video_thumbnail(vid, String::from("cache/vid.png")));
    let visuals = repo.all_visuals();
    assert_eq!(visuals.len(), 1);
    assert_eq!(visuals[0].thumbnail_path.as_deref(), Some("cache/vid.png"));
}

#[test]
fn delete_missing_drops_exactly_the_unobserved_rows() {
    let mut repo = Repository::new();
    for i in 0..10 {
        repo.upsert_picture(&photo_record(&format!("lib/p{}.jpg", i), i));
    }
    assert_eq!(repo.pictures().len(), 10);
    let present: Vec<String> = (0..7).map(|i| format!("lib/p{}.jpg", i)).collect();
    let removed = repo.delete_missing_pictures(&present);
    assert_eq!(removed, 3);
    assert_eq!(repo.pictures().len(), 7);
    for (i, row) in repo.pictures().iter().enumerate() {
        assert_eq!(row.path, format!("lib/p{}.jpg", i));
    }
}

#[test]
fn delete_missing_videos_counts_and_keeps_order() {
    let mut repo = Repository::new();
    repo.upsert_video(&video_record("v/a.mp4", 1));
    repo.upsert_video(&video_record("v/b.mp4", 2));
    repo.upsert_video(&video_record("v/c.mp4", 3));
    let present = vec![String::from("v/c.mp4"), String::from("v/a.mp4")];
    let removed = repo.delete_missing_videos(&present);
    assert_eq!(removed, 1);
    let paths: Vec<&str> = repo.videos().iter().map(|r| r.path.as_str()).collect();
    assert_eq!(paths, vec!["v/a.mp4", "v/c.mp4"]);
}

#[test]
fn all_visuals_orders_newest_first() {
    let mut repo = Repository::new();
    repo.upsert_picture(&photo_record("lib/old.jpg", 100));
    repo.upsert_picture(&photo_record("lib/new.jpg", 300));
    repo.upsert_video(&video_record("lib/mid.mp4", 200));
    let visuals = repo.all_visuals();
    let created: Vec<i64> = visuals.iter().map(|v| v.created_at).collect();
    assert_eq!(created, vec![300, 200, 100]);
    assert_eq!(visuals[0].visual_id.id(), "lib/new");
    assert_eq!(visuals[1].visual_id.id(), "lib/mid");
    assert_eq!(visuals[2].visual_id.id(), "lib/old");
}

#[test]
fn mark_on_unknown_id_changes_nothing() {
    let mut repo = Repository::new();
    repo.upsert_picture(&photo_record("lib/a.jpg", 1));
    assert!(!repo.mark_thumbnail(PictureId::new(99), String::from("t.png")));
    assert!(!repo.mark_selfie(PictureId::new(99), true));
    assert!(!repo.mark_transcoded(VideoId::new(99), String::from("r.mp4")));
    assert!(repo.pictures()[0].thumbnail.is_none());
}

#[test]
fn point_updates_land_on_their_row() {
    let mut repo = Repository::new();
    let a = repo.upsert_picture(&photo_record("lib/a.jpg", 1));
    let b = repo.upsert_picture(&photo_record("lib/b.jpg", 2));
    assert!(repo.mark_thumbnail(b, String::from("b.png")));
    assert!(repo.mark_selfie(a, true));
    let rows = repo.pictures();
    assert_eq!(rows[0].thumbnail, None);
    assert_eq!(rows[0].selfie, Some(true));
    assert_eq!(rows[1].thumbnail.as_deref(), Some("b.png"));
    assert_eq!(rows[1].selfie, None);
}

#[test]
fn classify_reads_extensions_case_insensitively() {
    assert!(matches!(classify("a/IMG.HEIC"), Some(MediaKind::Photo)));
    assert!(matches!(classify("a/clip.MOV"), Some(MediaKind::Video)));
    assert!(matches!(classify("a/b.jpg"), Some(MediaKind::Photo)));
    assert!(matches!(classify("a/b.mp4"), Some(MediaKind::Video)));
    assert!(classify("a/notes.txt").is_none());
    assert!(classify("a/noext").is_none());
}

#[test]
fn make_record_prefers_exif_timestamp() {
    let with_exif = make_record("d/a.jpg", Some(111), 222).unwrap();
    assert_eq!(with_exif.created_at, 111);
    let without_exif = make_record("d/a.jpg", None, 222).unwrap();
    assert_eq!(without_exif.created_at, 222);
    assert_eq!(without_exif.parent_path, "d");
    assert!(make_record("d/a.txt", Some(1), 2).is_none());
}
