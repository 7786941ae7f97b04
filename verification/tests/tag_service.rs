use tag_editor_core::error::{AppError, AppErrorKind, IoErrorKind, IoFailure};
use tag_editor_core::models::{ImageEntry, OperationReport, TagCount};
use tag_editor_core::services::tag_file::{read_tag_file, tag_file_path, TagFileContent};
use tag_editor_core::services::tag_service::{
    aggregate_tags, bulk_add_tags, bulk_remove_tags, dedup_tags, filter_images, BulkRun, BulkStep,
    TagFileRead,
};
use std::collections::HashMap;

fn v(items: &[&str]) -> Vec<String> {
    items.iter().map(|s| s.to_string()).collect()
}

/// Runs a bulk edit against in-memory tag files (keyed by image path);
/// images listed in `unwritable` fail to write.
fn drive(mut run: BulkRun, files: &mut HashMap<String, String>, unwritable: &[&str]) -> OperationReport {
    loop {
        match run.next_step() {
            BulkStep::Finished(report) => return report,
            BulkStep::ReadTagFile(path) => {
                let read: TagFileRead = Ok(match files.get(&path) {
                    Some(c) => TagFileContent { exists: true, content: c.clone() },
                    None => TagFileContent { exists: false, content: String::new() },
                });
                if let Some(content) = run.on_read(&read) {
                    if unwritable.contains(&path.as_str()) {
                        let e = AppError::new(AppErrorKind::NotFound, "no such dir".to_string())
                            .with_path(path.clone());
                        run.on_write(&Err(e));
                    } else {
                        files.insert(path, content);
                        run.on_write(&Ok(()));
                    }
                }
            }
        }
    }
}

#[test]
fn add_creates_tag_file_when_absent() {
    let mut files = HashMap::new();
    let report = drive(bulk_add_tags(&v(&["a.png"]), &v(&["1girl", "solo"])), &mut files, &[]);
    assert_eq!(report.succeeded, 1);
    assert_eq!(report.skipped, 0);
    assert_eq!(files["a.png"], "1girl, solo");
}

#[test]
fn add_is_non_duplicating() {
    let mut files = HashMap::from([("b.png".to_string(), "1girl, Solo".to_string())]);
    let report = drive(bulk_add_tags(&v(&["b.png"]), &v(&[" solo ", "long hair"])), &mut files, &[]);
    assert_eq!(report.succeeded, 1);
    assert_eq!(files["b.png"], "1girl, Solo, long hair");
}

#[test]
fn remove_removes_matching() {
    let mut files = HashMap::from([("c.png".to_string(), "1girl, Solo, solo".to_string())]);
    let report = drive(bulk_remove_tags(&v(&["c.png"]), &v(&["SOLO"])), &mut files, &[]);
    assert_eq!(report.succeeded, 1);
    assert_eq!(files["c.png"], "1girl");
}

#[test]
fn dedup_dedups() {
    let mut files = HashMap::from([("d.png".to_string(), "Solo, 1girl, solo".to_string())]);
    let report = drive(dedup_tags(&v(&["d.png"])), &mut files, &[]);
    assert_eq!(report.succeeded, 1);
    assert_eq!(files["d.png"], "Solo, 1girl");
}

#[test]
fn empty_targets_is_noop_with_notice() {
    let empty: Vec<String> = Vec::new();
    let mut files = HashMap::new();
    let report = drive(bulk_add_tags(&empty, &v(&["solo"])), &mut files, &[]);
    assert_eq!(report.succeeded, 0);
    assert_eq!(report.skipped, 0);
    assert_eq!(report.conflicted, 0);
    assert_eq!(report.messages.len(), 1);
    assert!(report.messages[0].contains("対象"));
    assert!(files.is_empty());
}

#[test]
fn remove_empty_targets_is_noop_with_notice() {
    let mut files = HashMap::new();
    let report = drive(bulk_remove_tags(&Vec::new(), &v(&["solo"])), &mut files, &[]);
    assert_eq!((report.succeeded, report.skipped, report.conflicted), (0, 0, 0));
    assert_eq!(report.messages.len(), 1);
    assert!(report.messages[0].contains("対象"));
}

#[test]
fn dedup_empty_targets_is_noop_with_notice() {
    let mut files = HashMap::new();
    let report = drive(dedup_tags(&Vec::new()), &mut files, &[]);
    assert_eq!((report.succeeded, report.skipped, report.conflicted), (0, 0, 0));
    assert!(report.messages[0].contains("対象"));
}

#[test]
fn partial_failure_is_skipped_and_counted() {
    let mut files = HashMap::new();
    let report = drive(bulk_add_tags(&v(&["ok.png", "nodir/bad.png"]), &v(&["solo"])), &mut files, &["nodir/bad.png"]);
    assert_eq!(report.succeeded, 1);
    assert_eq!(report.skipped, 1);
    assert_eq!(files["ok.png"], "solo");
    assert!(report.messages.iter().any(|m| m.contains("bad.png")));
    assert_eq!(
        report.messages[0],
        "nodir/bad.png の書き込みに失敗したためスキップしました: no such dir (nodir/bad.png)"
    );
}

#[test]
fn unreadable_tag_file_is_skipped_with_its_error() {
    let mut run = bulk_add_tags(&v(&["x.png"]), &v(&["solo"]));
    match run.next_step() {
        BulkStep::ReadTagFile(p) => assert_eq!(p, "x.png"),
        _ => panic!("expected a read"),
    }
    let e = AppError::new(AppErrorKind::AccessDenied, "denied".to_string()).with_path("x.txt".to_string());
    assert!(run.on_read(&Err(e)).is_none());
    match run.next_step() {
        BulkStep::Finished(r) => {
            assert_eq!((r.succeeded, r.skipped), (0, 1));
            assert_eq!(r.messages, vec!["x.png の読み込みに失敗したためスキップしました: denied (x.txt)".to_string()]);
        }
        _ => panic!("expected the report"),
    }
}

fn ok(content: &str) -> TagFileRead {
    Ok(TagFileContent { exists: true, content: content.to_string() })
}

fn missing() -> TagFileRead {
    Ok(TagFileContent { exists: false, content: String::new() })
}

fn failed() -> TagFileRead {
    Err(AppError::new(AppErrorKind::Io, "is a directory".to_string()))
}

fn tc(tag: &str, count: usize) -> TagCount {
    TagCount { tag: tag.to_string(), count }
}

#[test]
fn aggregates_counts_across_multiple_tag_files() {
    let r = aggregate_tags(&vec![ok("cat, dog, cat"), ok("dog, bird"), ok("cat")]);
    assert_eq!(r.unreadable, 0);
    assert_eq!(r.tags, vec![tc("cat", 3), tc("dog", 2), tc("bird", 1)]);
}

#[test]
fn image_without_tag_file_contributes_no_tags_and_is_not_unreadable() {
    let r = aggregate_tags(&vec![ok("cat, dog"), missing()]);
    assert_eq!(r.unreadable, 0);
    assert_eq!(r.tags, vec![tc("cat", 1), tc("dog", 1)]);
}

#[test]
fn unreadable_tag_file_is_excluded_and_counted() {
    let r = aggregate_tags(&vec![ok("cat, dog"), failed()]);
    assert_eq!(r.unreadable, 1);
    assert_eq!(r.tags, vec![tc("cat", 1), tc("dog", 1)]);
}

#[test]
fn empty_folder_yields_empty_aggregation() {
    let r = aggregate_tags(&Vec::new());
    assert!(r.tags.is_empty());
    assert_eq!(r.unreadable, 0);
}

#[test]
fn folder_with_only_empty_tag_files_yields_empty_aggregation() {
    let r = aggregate_tags(&vec![ok(""), ok("   ,  ")]);
    assert!(r.tags.is_empty());
    assert_eq!(r.unreadable, 0);
}

#[test]
fn multiple_unreadable_tag_files_are_excluded_and_count_matches() {
    let r = aggregate_tags(&vec![failed(), ok("cat, dog"), failed(), ok("cat, bird"), failed()]);
    assert_eq!(r.unreadable, 3);
    assert_eq!(r.tags, vec![tc("cat", 2), tc("bird", 1), tc("dog", 1)]);
}

#[test]
fn readable_files_aggregate_correctly_despite_interleaved_unreadable() {
    let r = aggregate_tags(&vec![ok("sky, sky, cloud"), failed(), ok("sky, cloud")]);
    assert_eq!(r.unreadable, 1);
    assert_eq!(r.tags, vec![tc("sky", 3), tc("cloud", 2)]);
}

#[test]
fn no_valid_tags_yields_empty_but_reports_unreadable_count() {
    let r = aggregate_tags(&vec![ok(""), ok("   ,  ,"), failed(), failed()]);
    assert!(r.tags.is_empty());
    assert_eq!(r.unreadable, 2);
}

#[test]
fn all_tag_files_unreadable_yields_empty_with_full_unreadable_count() {
    let r = aggregate_tags(&vec![failed(), failed()]);
    assert!(r.tags.is_empty());
    assert_eq!(r.unreadable, 2);
}

fn entry(name: &str) -> ImageEntry {
    ImageEntry {
        path: format!("/d/{name}"),
        file_name: name.to_string(),
        has_tag_file: true,
        thumbnail_available: true,
    }
}

fn filtered(items: &[(&str, TagFileRead)], wanted: &[&str], unwanted: &[&str]) -> Vec<String> {
    let entries: Vec<ImageEntry> = items.iter().map(|(n, _)| entry(n)).collect();
    let reads: Vec<TagFileRead> = items.iter().map(|(_, r)| r.clone()).collect();
    filter_images(&entries, &reads, &v(wanted), &v(unwanted))
        .iter()
        .map(|e| e.file_name.clone())
        .collect()
}

#[test]
fn filter_include_keeps_only_matching_images() {
    let items = [("a.png", ok("cat, dog, sky")), ("b.png", ok("cat, sky")), ("c.png", ok("cat, dog"))];
    assert_eq!(filtered(&items, &["cat", "dog"], &[]), vec!["a.png", "c.png"]);
}

#[test]
fn filter_exclude_drops_matching_images() {
    let items = [("a.png", ok("cat, night")), ("b.png", ok("cat, day"))];
    assert_eq!(filtered(&items, &[], &["night"]), vec!["b.png"]);
}

#[test]
fn filter_include_and_exclude_combined() {
    let items = [
        ("a.png", ok("cat, dog, sky")),
        ("b.png", ok("cat, dog, night")),
        ("c.png", ok("cat, sky")),
    ];
    assert_eq!(filtered(&items, &["cat", "dog"], &["night"]), vec!["a.png"]);
}

#[test]
fn filter_empty_conditions_returns_all_images() {
    let items = [("a.png", ok("cat")), ("b.png", missing())];
    assert_eq!(filtered(&items, &[], &[]), vec!["a.png", "b.png"]);
}

#[test]
fn filter_include_excludes_image_without_tag_file() {
    let items = [("a.png", ok("cat")), ("b.png", missing())];
    assert_eq!(filtered(&items, &["cat"], &[]), vec!["a.png"]);
}

#[test]
fn filter_drops_unreadable_and_ignores_case_and_blanks() {
    let items = [("a.png", ok(" Cat ")), ("b.png", failed())];
    assert_eq!(filtered(&items, &["CAT", "  "], &[]), vec!["a.png"]);
}

#[test]
fn read_missing_tag_file_reports_not_exists() {
    let missing = IoFailure { kind: IoErrorKind::NotFound, raw_os_error: Some(2), text: "gone".to_string() };
    let c = read_tag_file("/d/a.png", Err(missing)).unwrap();
    assert!(!c.exists);
    assert!(c.content.is_empty());
    let c = read_tag_file("/d/a.png", Ok("cat".to_string())).unwrap();
    assert!(c.exists);
    assert_eq!(c.content, "cat");
    let denied = IoFailure { kind: IoErrorKind::PermissionDenied, raw_os_error: None, text: "denied".to_string() };
    let e = read_tag_file("/d/a.png", Err(denied)).unwrap_err();
    assert_eq!(e.kind, AppErrorKind::AccessDenied);
    assert_eq!(e.path.as_deref(), Some("/d/a.txt"));
}

#[test]
fn tag_file_path_replaces_the_extension() {
    assert_eq!(tag_file_path("/d/a.png"), "/d/a.txt");
    assert_eq!(tag_file_path("/d/noext"), "/d/noext.txt");
    assert_eq!(tag_file_path("/d/.hidden"), "/d/.hidden.txt");
    assert_eq!(tag_file_path("/d.x/a.b.png"), "/d.x/a.b.txt");
}
