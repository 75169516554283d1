use fotema_pipeline::coordinator::{Coordinator, Stage};
use fotema_pipeline::enrich::{
    enrich_pictures, enrich_videos, pending_pictures, pending_videos, GeneratePreviews,
    GeneratePreviewsInput, GeneratePreviewsOutput, PictureOutcome, PictureTraits, VideoOutcome,
};
use fotema_pipeline::events::PipelineEvent;
use fotema_pipeline::progress::ProgressMonitor;
use fotema_pipeline::repo::Repository;
use fotema_pipeline::scan::{make_record, MediaKind};
use fotema_pipeline::store::{publish_visuals, StateStore};
use fotema_pipeline::transcode::{is_transcode_required, transcode_temp_path};

fn assert_stage_stream(events: &[PipelineEvent], n: usize) {
    assert_eq!(events.len(), n + 2);
    match events[0] {
        PipelineEvent::ProgressStarted(count, _, _) => assert_eq!(count, n),
        _ => panic!("stream must open with a start event"),
    }
    for e in &events[1..n + 1] {
        assert!(matches!(e, PipelineEvent::ProgressAdvanced));
    }
    assert!(matches!(events[n + 1], PipelineEvent::ProgressCompleted));
}

#[test]
fn enrichment_emits_one_advance_per_item_even_when_items_fail() {
    let mut repo = Repository::new();
    let mut ids = Vec::new();
    for i in 0..5 {
        let rec = make_record(&format!("lib/p{}.jpg", i), Some(i), 0).unwrap();
        ids.push(repo.upsert_picture(&rec));
    }
    let outcomes: Vec<PictureOutcome> = ids
        .iter()
        .enumerate()
        .map(|(i, id)| PictureOutcome {
            id: *id,
            traits: if i % 2 == 0 {
                Some(PictureTraits {
                    thumbnail_path: format!("cache/p{}.png", i),
                    is_selfie: false,
                })
            } else {
                None
            },
        })
        .collect();
    let events = enrich_pictures(&mut repo, &outcomes);
    assert_stage_stream(&events, 5);
    let rows = repo.pictures();
    assert_eq!(rows[0].thumbnail.as_deref(), Some("cache/p0.png"));
    assert_eq!(rows[1].thumbnail, None);
    assert_eq!(rows[2].thumbnail.as_deref(), Some("cache/p2.png"));
}

#[test]
fn pending_items_shrink_as_enrichment_lands() {
    let mut repo = Repository::new();
    let a = repo.upsert_picture(&make_record("l/a.jpg", Some(1), 0).unwrap());
    let b = repo.upsert_picture(&make_record("l/b.jpg", Some(2), 0).unwrap());
    assert_eq!(pending_pictures(&repo).len(), 2);
    repo.mark_picture_enriched(a, String::from("a.png"), false);
    let pending = pending_pictures(&repo);
    assert_eq!(pending.len(), 1);
    assert_eq!(pending[0].id(), b.id());
}

#[test]
fn failed_transcode_records_nothing_and_requirement_stands() {
    let mut repo = Repository::new();
    let vid = repo.upsert_video(&make_record("l/clip.mp4", Some(1), 0).unwrap());
    let outcomes = vec![VideoOutcome {
        id: vid,
        thumbnail_path: Some(String::from("cache/clip.png")),
        transcode_required: Some(true),
        transcoded_path: None,
    }];
    let events = enrich_videos(&mut repo, &outcomes);
    assert_stage_stream(&events, 1);
    let row = &repo.videos()[0];
    assert_eq!(row.transcoded, None);
    assert_eq!(row.transcode_required, Some(true));
    assert!(pending_videos(&repo).iter().any(|i| i.id() == vid.id()));
}

#[test]
fn successful_transcode_settles_the_requirement() {
    let mut repo = Repository::new();
    let vid = repo.upsert_video(&make_record("l/clip.mp4", Some(1), 0).unwrap());
    let outcomes = vec![VideoOutcome {
        id: vid,
        thumbnail_path: Some(String::from("cache/clip.png")),
        transcode_required: Some(true),
        transcoded_path: Some(String::from("cache/clip.webm")),
    }];
    enrich_videos(&mut repo, &outcomes);
    let row = &repo.videos()[0];
    assert_eq!(row.transcoded.as_deref(), Some("cache/clip.webm"));
    assert_eq!(row.transcode_required, Some(false));
    assert!(pending_videos(&repo).is_empty());
}

#[test]
fn transcode_decisions() {
    assert!(!is_transcode_required("h264"));
    assert!(!is_transcode_required("H264"));
    assert!(!is_transcode_required("vp9"));
    assert!(is_transcode_required("hevc"));
    assert!(is_transcode_required("mpeg2video"));
    let tmp = transcode_temp_path("cache/clip.webm");
    assert_eq!(tmp, "cache/clip.webm.part");
    assert_ne!(tmp, "cache/clip.webm");
}

#[test]
fn coordinator_walks_stages_in_order() {
    let mut c = Coordinator::new();
    assert!(matches!(c.current_stage(), Stage::Idle));
    assert!(c.start());
    let mut stages = vec![c.current_stage()];
    while let Some(next) = c.on_stage_completed() {
        stages.push(next);
    }
    assert_eq!(
        stages,
        vec![
            Stage::ScanPhotos,
            Stage::ScanVideos,
            Stage::CleanPhotos,
            Stage::CleanVideos,
            Stage::EnrichVideos,
            Stage::EnrichPhotos,
        ]
    );
    assert!(matches!(c.current_stage(), Stage::Idle));
}

#[test]
fn start_while_running_is_a_no_op() {
    let mut c = Coordinator::new();
    assert!(c.start());
    let stage_before = c.current_stage();
    assert!(!c.start());
    assert_eq!(c.current_stage(), stage_before);
    c.on_stage_completed();
    assert!(!c.start());
    assert!(matches!(c.current_stage(), Stage::ScanVideos));
}

#[test]
fn state_store_publishes_to_every_subscriber() {
    let mut store = StateStore::new();
    let s1 = store.subscribe();
    let s2 = store.subscribe();
    assert_ne!(s1, s2);
    assert!(store.get_snapshot().is_empty());

    let mut repo = Repository::new();
    repo.upsert_picture(&make_record("l/a.jpg", Some(5), 0).unwrap());
    let notify = publish_visuals(&repo, &mut store);
    assert_eq!(notify, vec![s1, s2]);
    assert_eq!(store.get_snapshot().len(), 1);
    assert_eq!(store.get_snapshot()[0].created_at, 5);
}

#[test]
fn progress_monitor_balances_over_a_stage_stream() {
    let mut repo = Repository::new();
    for i in 0..3 {
        repo.upsert_picture(&make_record(&format!("l/p{}.jpg", i), Some(i), 0).unwrap());
    }
    let outcomes: Vec<PictureOutcome> = pending_pictures(&repo)
        .iter()
        .map(|id| PictureOutcome { id: *id, traits: None })
        .collect();
    let events = enrich_pictures(&mut repo, &outcomes);
    let mut monitor = ProgressMonitor::new();
    for e in &events {
        monitor.on_event(e);
    }
    assert_eq!(monitor.end_count, 3);
    assert_eq!(monitor.current_count, 3);
}

#[test]
fn preview_worker_reports_completion() {
    let mut repo = Repository::new();
    let id = repo.upsert_picture(&make_record("l/a.jpg", Some(1), 0).unwrap());
    let mut worker = GeneratePreviews::new(repo);
    let outcomes = vec![PictureOutcome {
        id,
        traits: Some(PictureTraits {
            thumbnail_path: String::from("cache/a.png"),
            is_selfie: true,
        }),
    }];
    let (events, output) = worker.update(GeneratePreviewsInput::Generate, &outcomes);
    assert_stage_stream(&events, 1);
    assert!(matches!(output, Some(GeneratePreviewsOutput::PreviewsGenerated)));
    let rows = worker.repository().pictures();
    assert_eq!(rows[0].thumbnail.as_deref(), Some("cache/a.png"));
    assert_eq!(rows[0].selfie, Some(true));
}

#[test]
fn end_to_end_bootstrap_run() {
    // A library holding a photo and a video with an unplayable codec.
    let photo_ts: i64 = 1682899200; // 2023-05-01T00:00:00Z
    let video_ts: i64 = 1685577600; // 2023-06-01T00:00:00Z
    let walked = vec![
        ("library/a.jpg", Some(photo_ts), 0i64),
        ("library/b.mp4", Some(video_ts), 0i64),
        ("library/readme.txt", None, 0i64),
    ];

    let mut repo = Repository::new();
    let mut store = StateStore::new();
    let reader = store.subscribe();
    let mut coordinator = Coordinator::new();
    assert!(coordinator.start());

    let mut stage = Some(coordinator.current_stage());
    let mut notified: Vec<u64> = Vec::new();
    while let Some(s) = stage {
        match s {
            Stage::Idle => unreachable!(),
            Stage::ScanPhotos => {
                for (path, exif, fsts) in &walked {
                    if let Some(rec) = make_record(path, *exif, *fsts) {
                        if matches!(rec.kind, MediaKind::Photo) {
                            repo.upsert_picture(&rec);
                        }
                    }
                }
            },
            Stage::ScanVideos => {
                for (path, exif, fsts) in &walked {
                    if let Some(rec) = make_record(path, *exif, *fsts) {
                        if matches!(rec.kind, MediaKind::Video) {
                            repo.upsert_video(&rec);
                        }
                    }
                }
            },
            Stage::CleanPhotos => {
                let present: Vec<String> =
                    walked.iter().map(|(p, _, _)| String::from(*p)).collect();
                assert_eq!(repo.delete_missing_pictures(&present), 0);
            },
            Stage::CleanVideos => {
                let present: Vec<String> =
                    walked.iter().map(|(p, _, _)| String::from(*p)).collect();
                assert_eq!(repo.delete_missing_videos(&present), 0);
            },
            Stage::EnrichVideos => {
                let pending = pending_videos(&repo);
                let outcomes: Vec<VideoOutcome> = pending
                    .iter()
                    .map(|id| VideoOutcome {
                        id: *id,
                        thumbnail_path: Some(String::from("cache/b.png")),
                        transcode_required: Some(is_transcode_required("hevc")),
                        transcoded_path: Some(String::from("cache/b.webm")),
                    })
                    .collect();
                let events = enrich_videos(&mut repo, &outcomes);
                assert_stage_stream(&events, 1);
            },
            Stage::EnrichPhotos => {
                let pending = pending_pictures(&repo);
                let outcomes: Vec<PictureOutcome> = pending
                    .iter()
                    .map(|id| PictureOutcome {
                        id: *id,
                        traits: Some(PictureTraits {
                            thumbnail_path: String::from("cache/a.png"),
                            is_selfie: false,
                        }),
                    })
                    .collect();
                let events = enrich_pictures(&mut repo, &outcomes);
                assert_stage_stream(&events, 1);
            },
        }
        stage = coordinator.on_stage_completed();
        if stage.is_none() {
            notified = publish_visuals(&repo, &mut store);
        }
    }
    assert_eq!(notified, vec![reader]);

    let visuals = store.get_snapshot();
    assert_eq!(visuals.len(), 2);
    // Newest first: the June video before the May photo.
    let b = &visuals[0];
    let a = &visuals[1];
    assert_eq!(b.created_at, video_ts);
    assert!(b.is_video_only());
    assert_eq!(b.is_transcode_required, Some(false));
    match &b.media {
        fotema_pipeline::model::VisualMedia::Video { transcoded_path, .. } => {
            assert_eq!(transcoded_path.as_deref(), Some("cache/b.webm"));
        },
        _ => panic!("the video item must be video-only"),
    }
    assert_eq!(a.created_at, photo_ts);
    assert!(a.is_photo_only());
    assert!(a.thumbnail_path.is_some());
    assert_eq!(a.year_month().year, 2023);
    assert_eq!(a.year_month().month, 5);
    assert_eq!(b.year_month().year, 2023);
    assert_eq!(b.year_month().month, 6);
}
