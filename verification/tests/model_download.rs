use std::collections::HashMap;
use tag_editor_core::error::{AppError, AppErrorKind, AppResult};
use tag_editor_core::models::{ModelFamily, ModelSource, ModelVariant};
use tag_editor_core::services::model_download::{
    backup_path, download_error, download_tmp_path, onnx_basename, DownloadAction, DownloadAnswer,
    DownloadError, DownloadPhase, DownloadRun, HfHubDownloader, MAX_DOWNLOAD_ATTEMPTS,
};

const CSV: &[u8] = b"tag_id,name,category\n1,solo,0\n2,miku,4\n";

struct Outcome {
    result: AppResult<String>,
    phases: Vec<DownloadPhase>,
    calls: Vec<String>,
}

/// Drives a run against an in-memory folder; `fetch` answers each fetch,
/// `cancel_after` gives the cancel flag answered at each acknowledgement.
fn drive(
    run: &mut DownloadRun,
    files: &mut HashMap<String, Vec<u8>>,
    fetch: &mut dyn FnMut(&str, usize) -> Result<Vec<u8>, DownloadError>,
    cancel: &mut dyn FnMut(usize) -> bool,
    fail_write: &dyn Fn(&str) -> bool,
) -> Outcome {
    let mut phases = Vec::new();
    let mut calls: Vec<String> = Vec::new();
    let mut acks = 0usize;
    let mut answer = DownloadAnswer::Ack { cancel_requested: cancel(0) };
    loop {
        let action = run.step(answer);
        answer = match action {
            DownloadAction::CreateDir(dir) => {
                if fail_write(&dir) {
                    let e = AppError::new(AppErrorKind::AlreadyExists, "File exists (os error 17)".to_string());
                    DownloadAnswer::DirCreated(Err(e))
                } else {
                    DownloadAnswer::DirCreated(Ok(()))
                }
            }
            DownloadAction::Fetch { file, .. } => {
                let n = calls.iter().filter(|c| **c == file).count() + 1;
                calls.push(file.clone());
                DownloadAnswer::Fetched(fetch(&file, n))
            }
            DownloadAction::Report(p) => {
                phases.push(p);
                acks += 1;
                DownloadAnswer::Ack { cancel_requested: cancel(acks) }
            }
            DownloadAction::Backup { from, to } => match files.remove(&from) {
                Some(b) => {
                    files.insert(to, b);
                    DownloadAnswer::BackedUp(Ok(true))
                }
                None => DownloadAnswer::BackedUp(Ok(false)),
            },
            DownloadAction::Write { dest, payload } => {
                if fail_write(&dest) {
                    DownloadAnswer::Written(Err(AppError::new(AppErrorKind::Io, "disk full".to_string())))
                } else {
                    files.insert(dest, run.payload(payload).clone());
                    DownloadAnswer::Written(Ok(()))
                }
            }
            DownloadAction::Remove(p) => {
                files.remove(&p);
                DownloadAnswer::Ack { cancel_requested: false }
            }
            DownloadAction::Restore { from, to } => {
                if let Some(b) = files.remove(&from) {
                    files.insert(to, b);
                }
                DownloadAnswer::Ack { cancel_requested: false }
            }
            DownloadAction::Finish(result) => {
                assert!(run.is_over());
                return Outcome { result, phases, calls };
            }
        };
    }
}

fn wd14() -> ModelVariant {
    ModelVariant {
        id: "wd14-vit".to_string(),
        display_name: "WD14 ViT".to_string(),
        family: ModelFamily::Wd14,
        source: ModelSource {
            repo: "owner/wd14-vit".to_string(),
            onnx_file: "model.onnx".to_string(),
            tag_files: vec!["selected_tags.csv".to_string()],
        },
    }
}

fn serve(name: &str, _n: usize) -> Result<Vec<u8>, DownloadError> {
    match name {
        "model.onnx" | "sub/foo.onnx" => Ok(b"onnx".to_vec()),
        "selected_tags.csv" | "tags.json" => Ok(CSV.to_vec()),
        other => Err(DownloadError::Other(format!("未登録のファイル: {other}"))),
    }
}

fn join(dir: &str, name: &str) -> String {
    format!("{dir}{}{name}", std::path::MAIN_SEPARATOR)
}

fn simple(variant: &ModelVariant, present: bool, files: &mut HashMap<String, Vec<u8>>) -> Outcome {
    let mut run = DownloadRun::new(variant, "/m/wd14-vit", present);
    drive(&mut run, files, &mut serve, &mut |_| false, &|_| false)
}

#[test]
fn successful_download_saves_files_and_dir_is_loadable_shape() {
    let mut files = HashMap::new();
    let out = simple(&wd14(), false, &mut files);
    assert_eq!(out.result.unwrap(), "/m/wd14-vit");
    assert_eq!(files.get(&join("/m/wd14-vit", "model.onnx")).unwrap(), b"onnx");
    assert_eq!(files.get(&join("/m/wd14-vit", "selected_tags.csv")).unwrap(), CSV);
    assert_eq!(files.len(), 2);
}

#[test]
fn uses_source_onnx_file_and_saves_by_basename() {
    let mut v = wd14();
    v.source.onnx_file = "sub/foo.onnx".to_string();
    let mut files = HashMap::new();
    let out = simple(&v, false, &mut files);
    assert!(out.result.is_ok());
    assert_eq!(out.calls[0], "sub/foo.onnx");
    assert!(files.contains_key(&join("/m/wd14-vit", "foo.onnx")));
}

#[test]
fn tag_files_fallback_to_second_candidate() {
    let mut v = wd14();
    v.source.tag_files = vec!["tags.csv".to_string(), "tags.json".to_string()];
    let mut files = HashMap::new();
    let out = simple(&v, false, &mut files);
    assert!(out.result.is_ok());
    assert_eq!(out.calls.iter().filter(|c| *c == "tags.csv").count(), 3);
    assert!(files.contains_key(&join("/m/wd14-vit", "tags.json")));
}

#[test]
fn empty_tag_files_yields_download_error() {
    let mut v = wd14();
    v.source.tag_files = Vec::new();
    let mut files = HashMap::new();
    let err = simple(&v, false, &mut files).result.unwrap_err();
    assert_eq!(err.kind, AppErrorKind::Download);
    assert_eq!(err.path.as_deref(), Some("owner/wd14-vit/tag-definition"));
    assert!(files.is_empty());
}

#[test]
fn download_failing_every_attempt_yields_download_error_and_retries_three_times() {
    let mut files = HashMap::new();
    let mut run = DownloadRun::new(&wd14(), "/m/wd14-vit", false);
    let out = drive(&mut run, &mut files, &mut |_, _| Err(DownloadError::Timeout), &mut |_| false, &|_| false);
    let err = out.result.unwrap_err();
    assert_eq!(err.kind, AppErrorKind::Download);
    assert_eq!(
        err.message,
        "モデルファイルの取得に失敗しました（owner/wd14-vit/model.onnx）: ダウンロードがタイムアウトしました"
    );
    assert_eq!(out.calls.len(), MAX_DOWNLOAD_ATTEMPTS as usize);
    assert!(files.is_empty());
}

#[test]
fn tag_definition_download_failure_yields_download_error() {
    let mut files = HashMap::new();
    let mut run = DownloadRun::new(&wd14(), "/m/wd14-vit", false);
    let mut fetch = |name: &str, _n: usize| {
        if name == "model.onnx" { Ok(b"onnx".to_vec()) } else { Err(DownloadError::Other("404".to_string())) }
    };
    let out = drive(&mut run, &mut files, &mut fetch, &mut |_| false, &|_| false);
    let err = out.result.unwrap_err();
    assert_eq!(err.kind, AppErrorKind::Download);
    assert_eq!(err.path.as_deref(), Some("owner/wd14-vit/selected_tags.csv"));
    assert_eq!(out.phases, vec![DownloadPhase::OnnxFetched]);
}

#[test]
fn save_failure_leaves_no_usable_model() {
    // The variant folder is a regular file: creating the folder fails.
    let mut files = HashMap::new();
    files.insert("/m/not-a-dir".to_string(), b"i am a file".to_vec());
    let before = files.clone();
    let mut run = DownloadRun::new(&wd14(), "/m/not-a-dir", false);
    let out = drive(&mut run, &mut files, &mut serve, &mut |_| false, &|d: &str| d == "/m/not-a-dir");
    let err = out.result.unwrap_err();
    assert_ne!(err.kind, AppErrorKind::Download);
    assert_ne!(err.kind, AppErrorKind::Cancelled);
    assert_eq!(err.path.as_deref(), Some("/m/not-a-dir"));
    assert!(out.calls.is_empty());
    assert!(out.phases.is_empty());
    assert_eq!(files, before);
}

#[test]
fn cancel_before_start_yields_cancelled() {
    let mut files = HashMap::new();
    let mut run = DownloadRun::new(&wd14(), "/m/wd14-vit", false);
    let out = drive(&mut run, &mut files, &mut serve, &mut |_| true, &|_| false);
    assert_eq!(out.result.unwrap_err().kind, AppErrorKind::Cancelled);
    assert!(out.calls.is_empty());
}

#[test]
fn cancel_after_onnx_keeps_files_untouched() {
    let mut files = HashMap::new();
    let mut run = DownloadRun::new(&wd14(), "/m/wd14-vit", false);
    let out = drive(&mut run, &mut files, &mut serve, &mut |k| k == 1, &|_| false);
    assert_eq!(out.result.unwrap_err().kind, AppErrorKind::Cancelled);
    assert_eq!(out.calls, vec!["model.onnx".to_string()]);
    assert!(files.is_empty());
}

#[test]
fn progress_phases_are_reported_in_order() {
    let mut files = HashMap::new();
    let out = simple(&wd14(), false, &mut files);
    assert_eq!(
        out.phases,
        vec![DownloadPhase::OnnxFetched, DownloadPhase::TagDefinitionFetched, DownloadPhase::Saved]
    );
}

fn present_files() -> HashMap<String, Vec<u8>> {
    let mut files = HashMap::new();
    files.insert(join("/m/wd14-vit", "model.onnx"), b"old-onnx".to_vec());
    files.insert(join("/m/wd14-vit", "selected_tags.csv"), b"old-csv".to_vec());
    files
}

#[test]
fn overwrite_success_replaces_existing_assets() {
    let mut files = present_files();
    let out = simple(&wd14(), true, &mut files);
    assert!(out.result.is_ok());
    assert_eq!(files.get(&join("/m/wd14-vit", "model.onnx")).unwrap(), b"onnx");
    assert_eq!(files.get(&join("/m/wd14-vit", "selected_tags.csv")).unwrap(), CSV);
    assert_eq!(files.len(), 2);
}

#[test]
fn overwrite_fetch_failure_keeps_existing_assets() {
    let mut files = present_files();
    let before = files.clone();
    let mut run = DownloadRun::new(&wd14(), "/m/wd14-vit", true);
    let out = drive(&mut run, &mut files, &mut |_, _| Err(DownloadError::Timeout), &mut |_| false, &|_| false);
    assert_eq!(out.result.unwrap_err().kind, AppErrorKind::Download);
    assert_eq!(files, before);
}

#[test]
fn overwrite_save_failure_restores_existing_assets() {
    let mut files = present_files();
    let before = files.clone();
    let mut run = DownloadRun::new(&wd14(), "/m/wd14-vit", true);
    let out = drive(&mut run, &mut files, &mut serve, &mut |_| false, &|d: &str| d.ends_with(".csv"));
    assert!(out.result.is_err());
    assert_eq!(files, before);
}

fn onnx_on(k: usize) -> impl FnMut(&str, usize) -> Result<Vec<u8>, DownloadError> {
    move |name: &str, n: usize| {
        if name == "model.onnx" && n < k {
            Err(DownloadError::Other("flaky".to_string()))
        } else {
            serve(name, n)
        }
    }
}

#[test]
fn boundary_k1_succeeds_on_first_attempt() {
    let mut files = HashMap::new();
    let mut run = DownloadRun::new(&wd14(), "/m/wd14-vit", false);
    let out = drive(&mut run, &mut files, &mut onnx_on(1), &mut |_| false, &|_| false);
    assert!(out.result.is_ok());
    assert_eq!(out.calls.iter().filter(|c| *c == "model.onnx").count(), 1);
}

#[test]
fn boundary_k3_succeeds_on_last_allowed_attempt() {
    let mut files = HashMap::new();
    let mut run = DownloadRun::new(&wd14(), "/m/wd14-vit", false);
    let out = drive(&mut run, &mut files, &mut onnx_on(3), &mut |_| false, &|_| false);
    assert!(out.result.is_ok());
    assert_eq!(out.calls.iter().filter(|c| *c == "model.onnx").count(), 3);
}

#[test]
fn boundary_k4_stops_at_limit_and_fails() {
    let mut files = HashMap::new();
    let mut run = DownloadRun::new(&wd14(), "/m/wd14-vit", false);
    let out = drive(&mut run, &mut files, &mut onnx_on(4), &mut |_| false, &|_| false);
    assert_eq!(out.result.unwrap_err().kind, AppErrorKind::Download);
    assert_eq!(out.calls.iter().filter(|c| *c == "model.onnx").count(), 3);
    assert_eq!(out.calls.iter().filter(|c| *c == "selected_tags.csv").count(), 0);
}

#[test]
fn retry_stops_at_limit_even_if_next_attempt_would_succeed() {
    let mut files = HashMap::new();
    let mut run = DownloadRun::new(&wd14(), "/m/wd14-vit", false);
    let out = drive(&mut run, &mut files, &mut onnx_on(4), &mut |_| false, &|_| false);
    assert_eq!(out.result.unwrap_err().kind, AppErrorKind::Download);
    assert_eq!(out.calls.len(), MAX_DOWNLOAD_ATTEMPTS as usize);
    assert!(files.is_empty());
}

#[test]
fn download_names_and_errors() {
    assert_eq!(onnx_basename("sub/foo.onnx"), "foo.onnx");
    assert_eq!(onnx_basename("foo.onnx"), "foo.onnx");
    assert_eq!(onnx_basename("a/b/"), "b");
    assert_eq!(onnx_basename(""), "model.onnx");
    assert_eq!(onnx_basename("a/.."), "model.onnx");
    assert_eq!(backup_path("/m/x.onnx"), "/m/x.onnx.overwrite.bak");
    assert_eq!(download_tmp_path("/m/x.onnx"), "/m/x.onnx.download.tmp");
    let e = download_error("r", "f.csv", &DownloadError::Other("boom".to_string()));
    assert_eq!(e.kind, AppErrorKind::Download);
    assert_eq!(e.message, "モデルファイルの取得に失敗しました（r/f.csv）: ダウンロードに失敗しました: boom");
    assert_eq!(e.path.as_deref(), Some("r/f.csv"));
    assert_eq!(HfHubDownloader::new(), HfHubDownloader);
}

#[test]
fn failed_new_download_keeps_a_tag_file_it_did_not_write() {
    // A tag definition already lies in the folder; the `.onnx` write fails.
    let mut files = HashMap::new();
    let csv = join("/m/wd14-vit", "selected_tags.csv");
    files.insert(csv.clone(), b"old".to_vec());
    let mut run = DownloadRun::new(&wd14(), "/m/wd14-vit", false);
    let out = drive(&mut run, &mut files, &mut serve, &mut |_| false, &|d: &str| d.ends_with(".onnx"));
    assert!(out.result.is_err());
    assert_eq!(files.get(&csv).unwrap(), b"old");
    assert_eq!(files.len(), 1);
}

#[test]
fn failed_tag_write_removes_the_onnx_file_it_wrote() {
    let mut files = HashMap::new();
    let mut run = DownloadRun::new(&wd14(), "/m/wd14-vit", false);
    let out = drive(&mut run, &mut files, &mut serve, &mut |_| false, &|d: &str| d.ends_with(".csv"));
    assert!(out.result.is_err());
    assert!(!files.contains_key(&join("/m/wd14-vit", "model.onnx")));
}

#[test]
fn every_candidate_failing_tries_each_three_times_in_order() {
    let mut v = wd14();
    v.source.tag_files = vec!["a.csv".to_string(), "b.json".to_string()];
    let mut files = HashMap::new();
    let mut run = DownloadRun::new(&v, "/m/wd14-vit", false);
    let mut fetch = |name: &str, n: usize| {
        if name == "model.onnx" {
            Ok(b"onnx".to_vec())
        } else {
            Err(DownloadError::Other(format!("{name} #{n}")))
        }
    };
    let out = drive(&mut run, &mut files, &mut fetch, &mut |_| false, &|_| false);
    assert_eq!(
        out.calls,
        vec!["model.onnx", "a.csv", "a.csv", "a.csv", "b.json", "b.json", "b.json"]
    );
    let e = out.result.unwrap_err();
    assert_eq!(e.kind, AppErrorKind::Download);
    assert!(e.message.contains("owner/wd14-vit/a.csv"));
    assert!(e.message.contains("b.json #3"));
    assert_eq!(out.phases, vec![DownloadPhase::OnnxFetched]);
    assert!(files.is_empty());
}
