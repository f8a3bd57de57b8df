use photo_hat_engine::engine::{
    apple_double, candidate_stem, check_new_components, cleanup_step, companions_match,
    counter_key, duplicate_decision, export_action, export_outcome, export_precheck,
    fallback_time, finish_phase, folder_names, media_kind, merge_keywords, order_companions,
    page_limit, parse_decision, parse_u128, plan_precheck, reservation_key, resolve_precheck,
    resolved_status, scan_candidate, stage_plan, staged_extension, timeout_seconds, CleanupStep,
    kind_of, resolution_variant, skip_variant, transfer_first, transfer_next, Decision, ExportAction, ExportError, ItemStatus, MediaKind,
    PlanError, ResolveError, ScanError, TransferWork, WorkOutcome,
};
use photo_hat_engine::paths::{path_within, relative_parts, sidecar_path, DirError};
use photo_hat_engine::recipe::CaptureTime;
use photo_hat_engine::{check_cancel, extension, progress, Companion};
use photo_hat_engine::metadata::Metadata;

fn companion(ext: &str, hash: &str) -> Companion {
    Companion {
        path: format!("/src/a.{ext}"),
        extension: ext.into(),
        hash: hash.into(),
    }
}

#[test]
fn cancellation_stops_a_job() {
    assert!(check_cancel(false).is_ok());
    let e = check_cancel(true).unwrap_err();
    assert_eq!(e.message(), "Cancelled; recorded progress is safe to resume");
}

#[test]
fn progress_reports_carry_their_fields() {
    let p = progress("scan", 3, 10, "/a.jpg");
    assert_eq!((p.phase.as_str(), p.completed, p.total, p.current.as_str()), ("scan", 3, 10, "/a.jpg"));
}

#[test]
fn extensions_are_lowercased() {
    assert_eq!(extension("a/B.JPG"), "jpg");
    assert_eq!(extension("a/.bashrc"), "");
    assert_eq!(extension("archive.tar.GZ"), "gz");
    assert_eq!(extension("dir.d/file"), "");
}

#[test]
fn companions_are_ordered_by_role() {
    let ordered = order_companions(vec![companion("xmp", "1"), companion("acr", "2")]).unwrap();
    let roles: Vec<&str> = ordered.iter().map(|c| c.extension.as_str()).collect();
    assert_eq!(roles, vec!["acr", "xmp"]);
    assert!(order_companions(vec![companion("xmp", "1"), companion("xmp", "2")]).is_err());
    assert!(order_companions(vec![]).unwrap().is_empty());
}

#[test]
fn companion_sets_compare_by_role_and_hash() {
    let a = vec![companion("xmp", "1")];
    assert!(companions_match(&a, &vec![companion("xmp", "1")]));
    assert!(!companions_match(&a, &vec![companion("xmp", "2")]));
    assert!(!companions_match(&a, &vec![]));
}

#[test]
fn scan_skips_appledouble_and_other_formats() {
    assert!(apple_double("/x/._resource.jpg"));
    assert!(!scan_candidate("/x/._resource.jpg"));
    assert!(scan_candidate("/x/IMG.CR2"));
    assert!(!scan_candidate("/x/notes.txt"));
}

#[test]
fn media_kind_follows_detected_content() {
    let mut m = Metadata::empty();
    m.push_text("File:FileTypeExtension", "MOV");
    assert_eq!(media_kind(&m), Ok(MediaKind::Video));
    let mut m = Metadata::empty();
    m.push_text("FileTypeExtension", "png");
    assert_eq!(media_kind(&m), Ok(MediaKind::Photo));
    let mut m = Metadata::empty();
    m.push_text("FileTypeExtension", "TXT");
    assert_eq!(media_kind(&m), Err(ScanError::NotMedia));
    let mut m = Metadata::empty();
    m.push_text("FileTypeExtension", "jpg");
    m.push_text("FileType", "MacOS");
    assert_eq!(media_kind(&m), Err(ScanError::NotMedia));
    assert_eq!(media_kind(&Metadata::empty()), Err(ScanError::NotMedia));
}

#[test]
fn folder_names_start_with_the_source_root() {
    assert_eq!(
        folder_names("Summer", "Events/Wedding 2024"),
        vec!["Summer", "Events", "Wedding 2024"]
    );
    assert_eq!(folder_names("Summer", ""), vec!["Summer"]);
}

#[test]
fn duplicates_follow_their_first_file() {
    let d = duplicate_decision(5, Some(5), true, ItemStatus::Planned);
    assert_eq!(d.status, ItemStatus::Planned);
    assert!(!d.merge_into_first);
    let d = duplicate_decision(7, Some(5), true, ItemStatus::Planned);
    assert_eq!(d.status, ItemStatus::Duplicate);
    assert!(d.merge_into_first && !d.first_needs_review);
    let d = duplicate_decision(7, Some(5), false, ItemStatus::Planned);
    assert_eq!(d.status, ItemStatus::Review);
    assert!(d.first_needs_review);
    let d = duplicate_decision(7, Some(5), true, ItemStatus::Review);
    assert_eq!(d.status, ItemStatus::Review);
    assert_eq!(duplicate_decision(7, None, false, ItemStatus::Review).status, ItemStatus::Planned);
}

#[test]
fn merged_keywords_are_a_sorted_union() {
    let a = vec!["B".to_string(), "A".into()];
    let b = vec!["A".to_string(), "C".into()];
    assert_eq!(merge_keywords(&a, &b), vec!["A", "B", "C"]);
}

#[test]
fn collision_names_get_numbered_suffixes() {
    assert_eq!(candidate_stem("IMG", 0), "IMG");
    assert_eq!(candidate_stem("IMG", 2), "IMG__2");
    assert_eq!(candidate_stem("IMG", 10), "IMG__10");
}

#[test]
fn collision_attempts_never_repeat_a_name() {
    let names: Vec<String> = (0..200).map(|n| candidate_stem("IMG__1", n)).collect();
    for (i, a) in names.iter().enumerate() {
        for b in &names[i + 1..] {
            assert_ne!(a, b);
        }
    }
}

#[test]
fn keys_fold_case_and_normalize() {
    assert_eq!(reservation_key("/Out/Photos/IMG"), "/out/photos/img");
    assert_eq!(counter_key("/Out/Cafe\u{301}"), "/out/caf\u{e9}");
}

#[test]
fn sidecars_share_folder_and_stem() {
    assert_eq!(sidecar_path("out/Photos/IMG__2.jpg", "xmp"), "out/Photos/IMG__2.xmp");
    assert_eq!(sidecar_path("IMG.tar.gz", "xmp"), "IMG.tar.xmp");
    assert_eq!(sidecar_path("/a/.hidden", "xmp"), "/a/.hidden.xmp");
    assert_eq!(sidecar_path("/a/b.jpg", ""), "/a/b");
}

#[test]
fn containment_compares_whole_components() {
    assert!(path_within("/out", "/out/a"));
    assert!(path_within("/out", "/out"));
    assert!(!path_within("/out", "/outside/a"));
    assert!(!path_within("/out", "out/a"));
    assert_eq!(relative_parts("/out", "/out/a/b").unwrap(), vec!["a", "b"]);
    assert_eq!(relative_parts("/out", "/out/../x"), Err(DirError::Unsafe));
    assert_eq!(relative_parts("/out", "/other"), Err(DirError::Escaped));
    assert!(relative_parts("/out", "/out").unwrap().is_empty());
}

#[test]
fn new_directories_cannot_traverse() {
    assert!(check_new_components(&vec!["a".to_string(), "b".into()]).is_ok());
    assert!(check_new_components(&vec!["a".to_string(), "..".into()]).is_err());
    assert!(check_new_components(&vec![".".to_string()]).is_err());
}

#[test]
fn numbers_parse_like_std() {
    assert_eq!(parse_u128("+42"), Some(42));
    assert_eq!(parse_u128("007"), Some(7));
    assert_eq!(parse_u128(""), None);
    assert_eq!(parse_u128("+"), None);
    assert_eq!(parse_u128("-1"), None);
    assert_eq!(parse_u128("1 "), None);
    assert_eq!(parse_u128("340282366920938463463374607431768211455"), Some(u128::MAX));
    assert_eq!(parse_u128("340282366920938463463374607431768211456"), None);
}

#[test]
fn modification_times_become_utc_calendar_times() {
    assert_eq!(
        fallback_time("1700000000123456789"),
        Some(CaptureTime {
            year: 2023,
            month: 11,
            day: 14,
            hour: 22,
            minute: 13,
            second: 20,
            nanosecond: 0
        })
    );
    let epoch = fallback_time("0").unwrap();
    assert_eq!((epoch.year, epoch.month, epoch.day), (1970, 1, 1));
    assert_eq!(fallback_time("soon"), None);
}

#[test]
fn tool_timeout_defaults_and_minimum() {
    assert_eq!(timeout_seconds(None), 60);
    assert_eq!(timeout_seconds(Some("5")), 60);
    assert_eq!(timeout_seconds(Some("30")), 30);
    assert_eq!(timeout_seconds(Some("+20")), 20);
    assert_eq!(timeout_seconds(Some("x")), 60);
    assert_eq!(timeout_seconds(Some("18446744073709551616")), 60);
}

#[test]
fn plans_need_a_finished_scan() {
    assert_eq!(plan_precheck(None, 0), Err(PlanError::ScanIncomplete));
    assert_eq!(plan_precheck(Some("scanning"), 0), Err(PlanError::ScanIncomplete));
    assert_eq!(plan_precheck(Some("complete"), 1), Err(PlanError::ExportStarted));
    assert_eq!(plan_precheck(Some("complete"), 0), Ok(()));
}

#[test]
fn exports_need_a_plan_without_reviews() {
    assert_eq!(export_precheck(None, 0), Err(ExportError::NotPlanned));
    assert_eq!(export_precheck(Some("ready"), 2), Err(ExportError::ReviewsPending(2)));
    assert_eq!(export_precheck(Some("ready"), 0), Ok(()));
    assert_eq!(
        ExportError::ReviewsPending(2).message(),
        "Resolve 2 files with conflicting duplicate sidecars before export"
    );
    assert_eq!(export_outcome(0), Ok(()));
    assert_eq!(export_outcome(3), Err(ExportError::NeedsAttention(3)));
    assert_eq!(finish_phase(0), "export complete");
    assert_eq!(finish_phase(1), "export needs attention");
}

#[test]
fn export_actions_by_status() {
    let m = Metadata::empty();
    assert_eq!(export_action(ItemStatus::Done, &m, "/a.jpg"), ExportAction::Skip);
    assert_eq!(export_action(ItemStatus::Skipped, &m, "/a.jpg"), ExportAction::Skip);
    assert_eq!(export_action(ItemStatus::Planned, &m, "/._a.jpg"), ExportAction::SkipAppleDouble);
    assert_eq!(export_action(ItemStatus::Duplicate, &m, "/a.jpg"), ExportAction::VerifyDuplicate);
    assert_eq!(export_action(ItemStatus::Error, &m, "/a.jpg"), ExportAction::Transfer);
    let mut mac = Metadata::empty();
    mac.push_text("FileType", "MacOS");
    assert_eq!(export_action(ItemStatus::Planned, &mac, "/a.jpg"), ExportAction::SkipAppleDouble);
}

#[test]
fn staging_embeds_only_into_correctly_named_formats() {
    let p = stage_plan("jpeg", "jpg", true);
    assert!(p.embed && !p.try_link && p.iptc);
    let p = stage_plan("cr2", "cr2", true);
    assert!(!p.embed && p.try_link && !p.iptc);
    let p = stage_plan("jpg", "png", false);
    assert!(!p.embed && !p.try_link && !p.iptc);
    let p = stage_plan("tif", "tiff", false);
    assert!(!p.embed && p.iptc);
}

#[test]
fn video_and_raw_are_never_edited() {
    for ext in ["mov", "mp4", "webm", "mpeg", "cr2", "nef", "dng"] {
        let p = stage_plan("dat", ext, true);
        assert!(!p.embed, "{ext}");
    }
    for ext in ["mov", "mp4", "webm", "mpeg", "cr2", "nef"] {
        assert!(!stage_plan(ext, ext, false).embed, "{ext}");
    }
}

#[test]
fn staged_extension_prefers_detected_content() {
    let mut m = Metadata::empty();
    m.push_text("FileTypeExtension", "PNG");
    assert_eq!(staged_extension(&m, "/a/photo.jpg"), "png");
    assert_eq!(staged_extension(&Metadata::empty(), "/a/photo.JPG"), "jpg");
}

#[test]
fn resolving_keeps_all_or_the_first() {
    assert_eq!(parse_decision("keep_all"), Ok(Decision::KeepAll));
    assert_eq!(parse_decision("use_first"), Ok(Decision::UseFirst));
    assert_eq!(parse_decision("delete"), Err(ResolveError::UnknownDecision));
    assert_eq!(resolve_precheck(1), Err(ResolveError::GroupStarted));
    assert_eq!(resolve_precheck(0), Ok(()));
    assert_eq!(resolved_status(Decision::KeepAll, 9, 3), ItemStatus::Planned);
    assert_eq!(resolved_status(Decision::UseFirst, 3, 3), ItemStatus::Planned);
    assert_eq!(resolved_status(Decision::UseFirst, 9, 3), ItemStatus::Duplicate);
}

#[test]
fn statuses_round_trip_through_their_names() {
    for s in [
        ItemStatus::Planned,
        ItemStatus::Review,
        ItemStatus::Duplicate,
        ItemStatus::Skipped,
        ItemStatus::Publishing,
        ItemStatus::Cleanup,
        ItemStatus::Done,
        ItemStatus::Error,
    ] {
        assert_eq!(ItemStatus::parse(&s.name()), Some(s));
    }
    assert_eq!(ItemStatus::parse("gone"), None);
}

#[test]
fn listing_limits_are_clamped() {
    assert_eq!(page_limit(0), 1);
    assert_eq!(page_limit(100), 100);
    assert_eq!(page_limit(1000), 500);
}

#[test]
fn cleanup_retains_shared_sidecars() {
    assert_eq!(cleanup_step(true, true, false), CleanupStep::Skip);
    assert_eq!(cleanup_step(false, false, true), CleanupStep::Retain);
    assert_eq!(cleanup_step(false, true, true), CleanupStep::Remove);
    assert_eq!(cleanup_step(false, false, false), CleanupStep::Remove);
}

fn steps(staged: bool, moving: bool, outcomes: &[WorkOutcome]) -> Vec<TransferWork> {
    let mut work = transfer_first(staged);
    let mut all = vec![work];
    for o in outcomes {
        work = transfer_next(work, moving, *o);
        all.push(work);
    }
    all
}

#[test]
fn a_move_removes_sources_only_after_verified_publication() {
    let ok = WorkOutcome::Succeeded;
    let s = steps(false, true, &[ok, ok, ok, ok, ok]);
    assert_eq!(
        s,
        vec![
            TransferWork::Stage,
            TransferWork::Publish,
            TransferWork::VerifyOutputs,
            TransferWork::RemoveSources,
            TransferWork::MarkDone,
            TransferWork::Finished,
        ]
    );
    // A failed verification records an error and never reaches removal.
    let s = steps(false, true, &[ok, ok, WorkOutcome::Failed]);
    assert_eq!(s.last(), Some(&TransferWork::RecordError));
    assert!(!s.contains(&TransferWork::RemoveSources));
    // A cancelled publication stops the job.
    assert_eq!(
        steps(true, true, &[WorkOutcome::Cancelled]),
        vec![TransferWork::Publish, TransferWork::StopJob]
    );
}

#[test]
fn a_copy_is_done_right_after_publication() {
    assert_eq!(
        steps(true, false, &[WorkOutcome::Succeeded, WorkOutcome::Succeeded]),
        vec![TransferWork::Publish, TransferWork::MarkDone, TransferWork::Finished]
    );
    assert_eq!(
        steps(false, false, &[WorkOutcome::Failed]),
        vec![TransferWork::Stage, TransferWork::RecordError]
    );
}

#[test]
fn web_variants_match_their_full_resolution_counterparts() {
    let (low_key, low) = resolution_variant("/a/Events/Wedding 2024/Web/portrait_instagram.jpg");
    let (high_key, high_low) =
        resolution_variant("/a/Events/Wedding 2024/High Res/portrait_Full.jpg");
    let (lone_key, lone_low) = resolution_variant("/a/Events/Wedding 2024/Web/speech_instagram.jpg");
    assert_eq!(low_key, "/a/Events/Wedding 2024/portrait");
    assert_eq!(low_key, high_key);
    assert!(low && !high_low && lone_low);
    assert_ne!(lone_key, high_key);
    let (plain_key, plain_low) = resolution_variant("/a/b/Portrait.jpg");
    assert_eq!(plain_key, "/a/b/portrait");
    assert!(!plain_low);
    assert_eq!(resolution_variant("photo_web.jpg"), ("/photo".to_string(), true));
}

#[test]
fn only_low_variants_with_a_counterpart_are_skipped() {
    assert!(skip_variant(ItemStatus::Planned, true, true));
    assert!(skip_variant(ItemStatus::Duplicate, true, true));
    assert!(!skip_variant(ItemStatus::Planned, true, false));
    assert!(!skip_variant(ItemStatus::Planned, false, true));
    assert!(!skip_variant(ItemStatus::Review, true, true));
}

#[test]
fn kinds_follow_the_detected_extension() {
    assert_eq!(kind_of("mov", None), Ok(MediaKind::Video));
    assert_eq!(kind_of("jpg", Some("JPEG")), Ok(MediaKind::Photo));
    assert_eq!(kind_of("jpg", Some("MacOS")), Err(ScanError::NotMedia));
    assert_eq!(kind_of("txt", None), Err(ScanError::NotMedia));
}
