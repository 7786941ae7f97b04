use tag_editor_core::error::{AppError, AppErrorKind};
use tag_editor_core::logic::sorting::{
    decide_size_destination, decide_tag_destination, is_valid_long_side_threshold, orientation_of,
    size_subfolder_name, LongSideBand, Orientation, SizeDestination, TagDestination,
};
use tag_editor_core::models::{DirEntryInfo, OperationReport, SortingOperation};
use tag_editor_core::services::sort_service::{
    check_threshold, destination_report, size_destination, SortBatch, TagSortRole,
    ensure_dir_accessible, list_file_names, list_subfolder_names, notice_report, pair_action,
    plan_pair, record_outcome, record_skip, rollback_of, sort_files, unsplittable_message,
    FolderProbe, ItemJob, PairAction, PairPlan, PairRun, PairStage, PairStep, Rollback,
    StepOutcome,
};

fn v(items: &[&str]) -> Vec<String> {
    items.iter().map(|s| s.to_string()).collect()
}

#[test]
fn pbt_sorting_threshold_boundary_and_extreme_values() {
    assert!(is_valid_long_side_threshold(1));
    assert!(is_valid_long_side_threshold(100_000));
    assert!(is_valid_long_side_threshold(512));
    assert!(!is_valid_long_side_threshold(0));
    assert!(!is_valid_long_side_threshold(-1));
    assert!(!is_valid_long_side_threshold(100_001));
    assert!(!is_valid_long_side_threshold(i64::MIN));
    assert!(!is_valid_long_side_threshold(i64::MAX));
}

#[test]
fn landscape_and_portrait_route_to_distinct_folders() {
    let l = decide_size_destination(800, 400, 500);
    let p = decide_size_destination(300, 900, 500);
    assert_eq!(size_subfolder_name(l.orientation, l.band), "landscape_large");
    assert_eq!(size_subfolder_name(p.orientation, p.band), "portrait_large");
}

#[test]
fn long_side_equal_to_threshold_is_at_or_above() {
    assert_eq!(decide_size_destination(500, 100, 500).band, LongSideBand::AtOrAbove);
}

#[test]
fn long_side_below_threshold_is_small() {
    let d = decide_size_destination(100, 499, 500);
    assert_eq!(d, SizeDestination { orientation: Orientation::Portrait, band: LongSideBand::Below });
    assert_eq!(size_subfolder_name(d.orientation, d.band), "portrait_small");
}

#[test]
fn square_is_treated_as_landscape() {
    assert_eq!(orientation_of(300, 300), Orientation::Landscape);
    let d = decide_size_destination(300, 300, 1000);
    assert_eq!(size_subfolder_name(d.orientation, d.band), "landscape_small");
}

#[test]
fn image_with_judge_tag_moves_to_contains_with_pair() {
    assert_eq!(decide_tag_destination(&v(&["cat", "sky"]), &v(&["cat"])), TagDestination::Contains);
}

#[test]
fn image_without_judge_tag_moves_to_not_contains() {
    assert_eq!(decide_tag_destination(&v(&["dog"]), &v(&["cat"])), TagDestination::NotContains);
}

#[test]
fn image_without_tag_file_is_not_contains() {
    assert_eq!(decide_tag_destination(&Vec::new(), &v(&["cat"])), TagDestination::NotContains);
}

#[test]
fn any_of_multiple_judge_tags_matches_contains() {
    assert_eq!(decide_tag_destination(&v(&["sky", "dog"]), &v(&["cat", "dog"])), TagDestination::Contains);
}

#[test]
fn match_is_trim_only_exact() {
    assert_eq!(decide_tag_destination(&v(&["  cat  ", "sky"]), &v(&["cat"])), TagDestination::Contains);
    assert_eq!(decide_tag_destination(&v(&["catface"]), &v(&["cat"])), TagDestination::NotContains);
    assert_eq!(decide_tag_destination(&v(&["Cat"]), &v(&["cat"])), TagDestination::NotContains);
    assert_eq!(decide_tag_destination(&v(&["  "]), &v(&[" "])), TagDestination::NotContains);
}

fn file(name: &str) -> DirEntryInfo {
    DirEntryInfo { name: name.to_string(), is_dir: false, is_file: true }
}

fn dir(name: &str) -> DirEntryInfo {
    DirEntryInfo { name: name.to_string(), is_dir: true, is_file: false }
}

#[test]
fn missing_source_returns_err_and_changes_nothing() {
    let missing = FolderProbe::Failed(AppError::new(AppErrorKind::NotFound, "gone".to_string()));
    let err = sort_files(SortingOperation::Move, "/src", "/dst", &missing, &FolderProbe::Folder).unwrap_err();
    assert_eq!(err.kind, AppErrorKind::NotFound);
    assert_eq!(err.path.as_deref(), Some("/src"));
}

#[test]
fn missing_dest_returns_err_and_changes_nothing() {
    let err = sort_files(SortingOperation::Copy, "/src", "/dst", &FolderProbe::Folder, &FolderProbe::NotFolder).unwrap_err();
    assert_eq!(err.kind, AppErrorKind::InvalidInput);
    assert_eq!(err.message, "宛先フォルダがフォルダではありません");
    assert_eq!(err.path.as_deref(), Some("/dst"));
    let op = sort_files(SortingOperation::Gather, "/src", "/dst", &FolderProbe::Folder, &FolderProbe::Folder).unwrap();
    assert_eq!(op, SortingOperation::Gather);
    assert!(ensure_dir_accessible("/x", "対象フォルダ", &FolderProbe::Folder).is_ok());
}

#[test]
fn listings_split_files_and_subfolders_in_order() {
    let entries = vec![file("b.png"), dir("z"), file("a.txt"), dir("m")];
    assert_eq!(list_file_names(&entries), v(&["a.txt", "b.png"]));
    assert_eq!(list_subfolder_names(&entries), v(&["m", "z"]));
}

#[test]
fn pairs_plan_their_tag_files() {
    let sep = std::path::MAIN_SEPARATOR;
    let p = plan_pair("/s", "cat.png", "/d", "cat.png");
    assert_eq!(p.src_image, format!("/s{sep}cat.png"));
    assert_eq!(p.dst_image, format!("/d{sep}cat.png"));
    assert_eq!(p.src_tag, format!("/s{sep}cat.txt"));
    assert_eq!(p.dst_tag, format!("/d{sep}cat.txt"));
}

#[test]
fn move_tag_collision_excludes_pair_but_moves_others() {
    assert_eq!(pair_action(true, false, true), PairAction::Conflict);
    assert_eq!(pair_action(false, false, true), PairAction::Transfer { with_tag: false });
    assert_eq!(pair_action(true, true, false), PairAction::Conflict);
    assert_eq!(pair_action(true, false, false), PairAction::Transfer { with_tag: true });
    assert_eq!(rollback_of(true), Rollback::MoveBack);
    assert_eq!(rollback_of(false), Rollback::RemoveCopy);
}

#[test]
fn reports_count_each_outcome() {
    let mut r = OperationReport::empty();
    record_outcome(&mut r, &ItemJob::Transfer { name: "a.png".to_string() }, &StepOutcome::Done);
    record_outcome(&mut r, &ItemJob::Transfer { name: "b.png".to_string() }, &StepOutcome::Conflict);
    record_outcome(
        &mut r,
        &ItemJob::BySize { name: "c.png".to_string(), subfolder: "portrait_small".to_string() },
        &StepOutcome::Undone("busy".to_string()),
    );
    record_skip(&mut r, unsplittable_message("plain.png"));
    assert_eq!((r.succeeded, r.conflicted, r.skipped), (1, 1, 2));
    assert_eq!(
        r.messages,
        v(&[
            "b.png は宛先に同名ファイルが存在するため処理しませんでした",
            "c.png の対 Tag_File の移動に失敗したため移動を取り消しました: busy",
            "plain.png は接頭辞と元ファイル名に分解できないため処理対象から除外しました",
        ])
    );
}

#[test]
fn invalid_threshold_does_nothing_and_is_recorded() {
    assert!(!is_valid_long_side_threshold(0));
    let r = notice_report("閾値 0 は無効です（1〜100000 の整数のみ有効）。処理を実行しませんでした".to_string());
    assert_eq!((r.succeeded, r.conflicted, r.skipped), (0, 0, 0));
    assert!(r.messages.iter().any(|m| m.contains("無効")));
}

/// Drives a pair through an in-memory set of paths; transfers into a path
/// listed in `failing` fail.
fn drive(run: PairRun, files: &mut Vec<String>, failing: &[&str]) -> Option<StepOutcome> {
    let mut run = run;
    loop {
        match run.step() {
            PairStep::Transfer { src, dst, is_move } => {
                if failing.contains(&dst.as_str()) || !files.contains(&src) {
                    run.report(Err(format!("cannot write {dst}")));
                } else {
                    if is_move {
                        files.retain(|f| f != &src);
                    }
                    files.push(dst);
                    run.report(Ok(()));
                }
            }
            PairStep::Undo { rollback, from, to } => {
                files.retain(|f| f != &from);
                if rollback == Rollback::MoveBack {
                    files.push(to);
                }
                run.report(Ok(()));
            }
            PairStep::Finished => return run.outcome(),
        }
    }
}

fn pair(name: &str) -> PairPlan {
    PairPlan {
        src_image: format!("src/{name}.png"),
        dst_image: format!("dst/{name}.png"),
        src_tag: format!("src/{name}.txt"),
        dst_tag: format!("dst/{name}.txt"),
    }
}

#[test]
fn pair_run_moves_image_then_tag() {
    let mut files = v(&["src/a.png", "src/a.txt"]);
    let run = PairRun::new(pair("a"), true, true, false, false);
    assert_eq!(run.stage, PairStage::Image);
    assert_eq!(drive(run, &mut files, &[]), Some(StepOutcome::Done));
    files.sort();
    assert_eq!(files, v(&["dst/a.png", "dst/a.txt"]));
}

#[test]
fn pair_run_conflict_touches_nothing() {
    let mut files = v(&["src/a.png", "src/a.txt"]);
    let run = PairRun::new(pair("a"), true, true, false, true);
    assert_eq!(run.step(), PairStep::Finished);
    assert_eq!(drive(run, &mut files, &[]), Some(StepOutcome::Conflict));
    assert_eq!(files, v(&["src/a.png", "src/a.txt"]));
    // Without its tag file, an existing tag destination is no conflict.
    let run = PairRun::new(pair("b"), true, false, false, true);
    assert_eq!(run.stage, PairStage::Image);
}

#[test]
fn pair_run_failed_image_is_skipped() {
    let mut files = v(&["src/a.png"]);
    let run = PairRun::new(pair("a"), true, false, false, false);
    let out = drive(run, &mut files, &["dst/a.png"]);
    assert_eq!(out, Some(StepOutcome::Failed("cannot write dst/a.png".to_string())));
    assert_eq!(files, v(&["src/a.png"]));
}

#[test]
fn pair_run_failed_tag_puts_image_back() {
    let mut files = v(&["src/a.png", "src/a.txt"]);
    let run = PairRun::new(pair("a"), true, true, false, false);
    let out = drive(run, &mut files, &["dst/a.txt"]);
    assert_eq!(out, Some(StepOutcome::Undone("cannot write dst/a.txt".to_string())));
    files.sort();
    assert_eq!(files, v(&["src/a.png", "src/a.txt"]));
}

#[test]
fn pair_run_failed_tag_removes_copied_image() {
    let mut files = v(&["src/a.png", "src/a.txt"]);
    let run = PairRun::new(pair("a"), false, true, false, false);
    let out = drive(run, &mut files, &["dst/a.txt"]);
    assert!(matches!(out, Some(StepOutcome::Undone(_))));
    files.sort();
    assert_eq!(files, v(&["src/a.png", "src/a.txt"]));
}

#[test]
fn invalid_threshold_is_reported_without_work() {
    assert_eq!(check_threshold(512).unwrap(), 512);
    assert_eq!(check_threshold(1).unwrap(), 1);
    assert_eq!(check_threshold(100_000).unwrap(), 100_000);
    let r = check_threshold(0).unwrap_err();
    assert_eq!((r.succeeded, r.conflicted, r.skipped), (0, 0, 0));
    assert_eq!(r.messages, v(&["閾値 0 は無効です（1〜100000 の整数のみ有効）。処理を実行しませんでした"]));
    let r = check_threshold(-5).unwrap_err();
    assert_eq!(r.messages, v(&["閾値 -5 は無効です（1〜100000 の整数のみ有効）。処理を実行しませんでした"]));
    let r = check_threshold(i64::MIN).unwrap_err();
    assert_eq!(
        r.messages,
        v(&["閾値 -9223372036854775808 は無効です（1〜100000 の整数のみ有効）。処理を実行しませんでした"])
    );
    let r = check_threshold(100_001).unwrap_err();
    assert_eq!(r.messages, v(&["閾値 100001 は無効です（1〜100000 の整数のみ有効）。処理を実行しませんでした"]));
}

#[test]
fn batch_counts_every_image_once() {
    let entries = vec![
        DirEntryInfo { name: "b.png".to_string(), is_dir: false, is_file: true },
        DirEntryInfo { name: "a.png".to_string(), is_dir: false, is_file: true },
        DirEntryInfo { name: "c.png".to_string(), is_dir: false, is_file: true },
        DirEntryInfo { name: "notes.txt".to_string(), is_dir: false, is_file: true },
        DirEntryInfo { name: "d.png".to_string(), is_dir: true, is_file: false },
    ];
    let mut files = v(&["src/a.png", "src/b.png", "src/c.png"]);
    let mut batch = SortBatch::images(&entries);
    let mut seen = Vec::new();
    while let Some(name) = batch.next_item() {
        seen.push(name.clone());
        let stem = name.trim_end_matches(".png");
        if stem == "b" {
            batch.skip("b is unreadable".to_string());
            continue;
        }
        // c's destination is taken.
        let run = PairRun::new(pair(stem), true, false, stem == "c", false);
        let mut run = run;
        loop {
            match run.step() {
                PairStep::Transfer { src, dst, .. } => {
                    files.retain(|f| f != &src);
                    files.push(dst);
                    run.report(Ok(()));
                }
                PairStep::Undo { .. } => run.report(Ok(())),
                PairStep::Finished => break,
            }
        }
        batch.record_pair(&ItemJob::Transfer { name }, run);
    }
    assert_eq!(seen, v(&["a.png", "b.png", "c.png"]));
    let r = batch.finish();
    assert_eq!((r.succeeded, r.conflicted, r.skipped), (1, 1, 1));
    assert_eq!(r.succeeded + r.conflicted + r.skipped, 3);
    files.sort();
    assert_eq!(files, v(&["dst/a.png", "src/b.png", "src/c.png"]));
}

#[test]
fn passed_items_are_not_counted() {
    let mut batch = SortBatch::new(v(&["x", "y"]));
    assert!(batch.next_item().is_some());
    batch.pass();
    assert_eq!(batch.next_item().as_deref(), Some("y"));
    batch.skip("y skipped".to_string());
    assert!(batch.next_item().is_none());
    let r = batch.finish();
    assert_eq!((r.succeeded, r.conflicted, r.skipped), (0, 0, 1));
    assert_eq!(r.messages, v(&["y skipped"]));
}

#[test]
fn size_destination_reads_the_image_size() {
    let img = image::RgbImage::new(200, 100);
    let mut out = std::io::Cursor::new(Vec::new());
    img.write_to(&mut out, image::ImageFormat::Png).unwrap();
    let bytes = out.into_inner();
    let d = size_destination("wide.png", &bytes, 100).unwrap();
    assert_eq!((d.orientation, d.band), (Orientation::Landscape, LongSideBand::AtOrAbove));
    let d = size_destination("wide.png", &bytes, 512).unwrap();
    assert_eq!((d.orientation, d.band), (Orientation::Landscape, LongSideBand::Below));
    assert!(size_destination("broken.png", b"not a real png", 100).is_err());
}

#[test]
fn uncreatable_tag_destination_does_nothing_and_is_notified() {
    assert!(destination_report(TagSortRole::Contains, "/in", &Ok(())).is_none());
    let r = destination_report(TagSortRole::NotContains, "/out", &Err("denied".to_string())).unwrap();
    assert_eq!((r.succeeded, r.conflicted, r.skipped), (0, 0, 0));
    assert_eq!(r.messages, v(&["「含まない」振り分け先 /out が利用不可のため処理を実行しませんでした: denied"]));
    assert!(r.messages[0].contains("利用不可"));
}

#[test]
fn pair_onto_its_own_tag_destination_is_a_conflict() {
    let plan = PairPlan {
        src_image: "d/a.png".to_string(),
        dst_image: "d/b.txt".to_string(),
        src_tag: "d/a.txt".to_string(),
        dst_tag: "d/b.txt".to_string(),
    };
    assert_eq!(PairRun::new(plan.clone(), true, true, false, false).stage, PairStage::Over(StepOutcome::Conflict));
    // Without its tag file, the image alone may go.
    assert_eq!(PairRun::new(plan, true, false, false, false).stage, PairStage::Image);
}
