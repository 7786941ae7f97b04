//! Downloading a model variant: fetching its `.onnx` file and tag
//! definition with retries, then saving them into the variant folder, a
//! fresh save removing what it wrote on failure and an overwrite keeping the
//! previous files until the new ones are in place. The caller performs each
//! step (network, file system, progress, cancellation) and answers it; the
//! run decides the next one.
use vstd::prelude::*;
use crate::error::{AppError, AppErrorKind, AppResult};
use crate::logic::paths::{join_with, joined, main_separator, platform_sep};
use crate::logic::text::{
    chars_of, concat2, concat3, owned, push_str, split_chars, split_on, string_of, string_views,
    views,
};
use crate::models::ModelVariant;

verus! {

/// How many times one file is fetched at most.
pub const MAX_DOWNLOAD_ATTEMPTS: u8 = 3;

/// Seconds one fetch may take.
pub const DOWNLOAD_TIMEOUT_SECS: u64 = 30;

/// A failed fetch.
#[derive(Debug, Clone, PartialEq, Eq)]
pub enum DownloadError {
    /// The fetch did not finish in time.
    Timeout,
    /// Any other failure, with its text.
    Other(String),
}

/// The text of a failed fetch.
pub open spec fn download_error_text(e: DownloadError) -> Seq<char> {
    match e {
        DownloadError::Timeout => "ダウンロードがタイムアウトしました"@,
        DownloadError::Other(m) => "ダウンロードに失敗しました: "@ + m@,
    }
}

impl DownloadError {
    /// The text of the failure (see [`download_error_text`]).
    pub fn describe(&self) -> (s: String)
        ensures
            s@ == download_error_text(*self),
    {
        match self {
            DownloadError::Timeout => owned("ダウンロードがタイムアウトしました"),
            DownloadError::Other(m) => concat2("ダウンロードに失敗しました: ", m.as_str()),
        }
    }
}

/// The stages a download reports as they complete.
#[derive(Debug, Clone, Copy, PartialEq, Eq, Structural)]
pub enum DownloadPhase {
    OnnxFetched,
    TagDefinitionFetched,
    Saved,
}

/// The transport of downloads from the Hugging Face Hub; the fetching
/// itself is done by the caller.
#[derive(Debug, Clone, Copy, PartialEq, Eq, Default)]
pub struct HfHubDownloader;

impl HfHubDownloader {
    /// The transport with its default settings.
    pub fn new() -> (r: HfHubDownloader)
        ensures
            r == HfHubDownloader,
    {
        HfHubDownloader
    }
}

/// The error message of a file that could not be fetched, with the text
/// of the failure.
pub open spec fn fetch_failure_message(repo: Seq<char>, file: Seq<char>, text: Seq<char>) -> Seq<char> {
    "モデルファイルの取得に失敗しました（"@ + repo + "/"@ + file + "）: "@ + text
}

/// The error message of a file that could not be fetched.
pub open spec fn download_failure_message(repo: Seq<char>, file: Seq<char>, e: DownloadError) -> Seq<char> {
    fetch_failure_message(repo, file, download_error_text(e))
}

/// The download error of `file` of `repo`, about the path `repo/file`.
pub fn download_error(repo: &str, file: &str, e: &DownloadError) -> (r: AppError)
    ensures
        r.kind == AppErrorKind::Download,
        r.message@ == download_failure_message(repo@, file@, *e),
        r.path_view() == Some(repo@ + "/"@ + file@),
{
    let mut m = concat3("モデルファイルの取得に失敗しました（", repo, "/");
    push_str(&mut m, file);
    push_str(&mut m, "）: ");
    let t = e.describe();
    push_str(&mut m, t.as_str());
    let path = concat3(repo, "/", file);
    AppError::new(AppErrorKind::Download, m).with_path(path)
}

/// The parts of a repository path that name something: not empty, not `.`.
pub open spec fn named_parts(parts: Seq<Seq<char>>) -> Seq<Seq<char>>
    decreases parts.len(),
{
    if parts.len() == 0 {
        Seq::empty()
    } else {
        let r = named_parts(parts.drop_last());
        let p = parts.last();
        if p.len() == 0 || p == seq!['.'] {
            r
        } else {
            r.push(p)
        }
    }
}

/// The name the `.onnx` file is saved under: the last part of its
/// repository path (as `Path::file_name` gives it), or `model.onnx` when the
/// path names no file (it is empty or ends in `..`).
pub open spec fn onnx_save_name(onnx_file: Seq<char>) -> Seq<char> {
    let parts = named_parts(split_on(onnx_file, '/'));
    if parts.len() == 0 || parts.last() == seq!['.', '.'] {
        "model.onnx"@
    } else {
        parts.last()
    }
}

/// The name the `.onnx` file is saved under (see [`onnx_save_name`]).
pub fn onnx_basename(onnx_file: &str) -> (r: String)
    ensures
        r@ == onnx_save_name(onnx_file@),
{
    let cs = chars_of(onnx_file);
    let pieces = split_chars(&cs, '/');
    let ghost pv = views(pieces@);
    let mut last: Option<usize> = None;
    let mut i: usize = 0;
    proof {
        assert(pv.take(0) =~= Seq::<Seq<char>>::empty());
    }
    while i < pieces.len()
        invariant
            i <= pieces.len(),
            pv == views(pieces@),
            pv == split_on(onnx_file@, '/'),
            match last {
                Some(k) => k < i && named_parts(pv.take(i as int)).len() > 0 && named_parts(pv.take(i as int)).last() == pv[k as int],
                None => named_parts(pv.take(i as int)).len() == 0,
            },
        decreases pieces.len() - i,
    {
        proof {
            assert(pv.take(i + 1).drop_last() =~= pv.take(i as int));
            assert(pv.take(i + 1).last() == pieces@[i as int]@);
        }
        let p = &pieces[i];
        let dot = p.len() == 1 && p[0] == '.';
        proof {
            if p@.len() == 1 && p@[0] == '.' {
                assert(p@ =~= seq!['.']);
            }
            if p@ == seq!['.'] {
                assert(p@.len() == 1 && p@[0] == '.');
            }
        }
        if p.len() > 0 && !dot {
            last = Some(i);
        }
        i += 1;
    }
    proof {
        assert(pv.take(pieces.len() as int) =~= pv);
    }
    match last {
        Some(k) => {
            let p = &pieces[k];
            let dots = p.len() == 2 && p[0] == '.' && p[1] == '.';
            proof {
                if p@.len() == 2 && p@[0] == '.' && p@[1] == '.' {
                    assert(p@ =~= seq!['.', '.']);
                }
                if p@ == seq!['.', '.'] {
                    assert(p@.len() == 2 && p@[0] == '.' && p@[1] == '.');
                }
            }
            if dots {
                owned("model.onnx")
            } else {
                string_of(p)
            }
        },
        None => owned("model.onnx"),
    }
}

/// Where an asset is kept while an overwrite is in progress.
pub open spec fn backup_of(dest: Seq<char>) -> Seq<char> {
    dest + ".overwrite.bak"@
}

/// Where an asset is kept while an overwrite is in progress: the file name
/// with `.overwrite.bak` appended, in the same folder.
pub fn backup_path(dest: &str) -> (r: String)
    ensures
        r@ == backup_of(dest@),
{
    concat2(dest, ".overwrite.bak")
}

/// The temporary file an asset is written to before it is renamed into
/// place.
pub fn download_tmp_path(dest: &str) -> (r: String)
    ensures
        r@ == dest@ + ".download.tmp"@,
{
    concat2(dest, ".download.tmp")
}

// ---------------------------------------------------------------------------
// The download run
// ---------------------------------------------------------------------------

/// Which fetched file a write puts in place.
#[derive(Debug, Clone, Copy, PartialEq, Eq, Structural)]
pub enum Payload {
    Onnx,
    TagDefinition,
}

/// What the caller does next in a download.
#[derive(Debug)]
pub enum DownloadAction {
    /// Create the variant folder and its parents; answer `DirCreated`.
    CreateDir(String),
    /// Fetch `file` of `repo` once, allowing [`DOWNLOAD_TIMEOUT_SECS`];
    /// answer `Fetched`.
    Fetch { repo: String, file: String },
    /// Report that a phase completed; answer `Ack`, with the cancel flag as
    /// read after reporting.
    Report(DownloadPhase),
    /// Rename `from` to `to` when `from` exists; answer `BackedUp` with
    /// whether it existed.
    Backup { from: String, to: String },
    /// Write the fetched bytes of `payload` to `dest`, through its temporary
    /// file ([`download_tmp_path`]); answer `Written`.
    Write { dest: String, payload: Payload },
    /// Remove a file, ignoring failure; answer `Ack`.
    Remove(String),
    /// Rename `from` back to `to`, ignoring failure; answer `Ack`.
    Restore { from: String, to: String },
    /// The download is over: the variant folder, or the error.
    Finish(AppResult<String>),
}

/// The caller's answer to the last action (to `Start` for the first one).
#[derive(Debug)]
pub enum DownloadAnswer {
    /// Done; whether cancellation is requested now.
    Ack { cancel_requested: bool },
    DirCreated(AppResult<()>),
    Fetched(Result<Vec<u8>, DownloadError>),
    BackedUp(AppResult<bool>),
    Written(AppResult<()>),
}

/// Where a download stands.
#[derive(Debug, Clone, Copy, PartialEq, Eq, Structural)]
pub enum Stage {
    /// Not started: waits for the first answer (the cancel flag).
    Start,
    /// Creating the variant folder.
    MakeDir,
    /// Fetching the `.onnx` file, this attempt.
    FetchOnnx(u8),
    /// The `.onnx` file was fetched and reported.
    AfterOnnx,
    /// Fetching tag-definition candidate `.0`, attempt `.1`.
    FetchTag(usize, u8),
    /// The tag definition was fetched and reported.
    AfterTag,
    /// Keeping the existing `.onnx` file aside.
    BackupOnnx,
    /// Keeping the existing tag definition aside.
    BackupTag,
    /// Writing the `.onnx` file.
    WriteOnnx,
    /// Writing the tag definition.
    WriteTag,
    /// Running decided actions one after the other.
    Draining,
    /// Finished.
    Over,
}

/// An action as plain values.
pub enum ActionView {
    CreateDir(Seq<char>),
    Fetch(Seq<char>, Seq<char>),
    Report(DownloadPhase),
    Backup(Seq<char>, Seq<char>),
    Write(Seq<char>, Payload),
    Remove(Seq<char>),
    Restore(Seq<char>, Seq<char>),
    Done(Seq<char>),
    Failed(AppErrorKind, Seq<char>, Option<Seq<char>>),
}

/// The view of an action.
pub open spec fn action_view(a: DownloadAction) -> ActionView {
    match a {
        DownloadAction::CreateDir(p) => ActionView::CreateDir(p@),
        DownloadAction::Fetch { repo, file } => ActionView::Fetch(repo@, file@),
        DownloadAction::Report(ph) => ActionView::Report(ph),
        DownloadAction::Backup { from, to } => ActionView::Backup(from@, to@),
        DownloadAction::Write { dest, payload } => ActionView::Write(dest@, payload),
        DownloadAction::Remove(p) => ActionView::Remove(p@),
        DownloadAction::Restore { from, to } => ActionView::Restore(from@, to@),
        DownloadAction::Finish(Ok(d)) => ActionView::Done(d@),
        DownloadAction::Finish(Err(e)) => ActionView::Failed(e.kind, e.message@, e.path_view()),
    }
}

/// The view of an error as a finishing action.
pub open spec fn failed(e: AppError) -> ActionView {
    ActionView::Failed(e.kind, e.message@, e.path_view())
}

/// The finishing action of a cancelled download.
pub open spec fn cancelled() -> ActionView {
    ActionView::Failed(AppErrorKind::Cancelled, "モデルダウンロードがキャンセルされました"@, None)
}

/// A download in progress (see [`DownloadRun::step`]).
pub struct DownloadRun {
    repo: String,
    onnx_file: String,
    tag_files: Vec<String>,
    dir: String,
    sep: char,
    was_present: bool,
    stage: Stage,
    onnx: Vec<u8>,
    tagdef_name: String,
    tagdef: Vec<u8>,
    onnx_dest: String,
    tag_dest: String,
    onnx_backed: bool,
    tag_backed: bool,
    queue: Vec<DownloadAction>,
}

/// The state of a download as plain values.
pub struct RunView {
    pub stage: Stage,
    pub repo: Seq<char>,
    pub onnx_file: Seq<char>,
    pub tag_files: Seq<Seq<char>>,
    pub dir: Seq<char>,
    pub sep: char,
    pub was_present: bool,
    pub onnx: Seq<u8>,
    pub tagdef_name: Seq<char>,
    pub tagdef: Seq<u8>,
    pub onnx_dest: Seq<char>,
    pub tag_dest: Seq<char>,
    pub onnx_backed: bool,
    pub tag_backed: bool,
    pub queue: Seq<ActionView>,
}

/// The answer the caller gives to what the last action asked, as expected in
/// each stage.
pub open spec fn answer_fits(stage: Stage, a: DownloadAnswer) -> bool {
    match stage {
        Stage::Start | Stage::AfterOnnx | Stage::AfterTag | Stage::Draining => a is Ack,
        Stage::MakeDir => a is DirCreated,
        Stage::FetchOnnx(_) | Stage::FetchTag(_, _) => a is Fetched,
        Stage::BackupOnnx | Stage::BackupTag => a is BackedUp,
        Stage::WriteOnnx | Stage::WriteTag => a is Written,
        Stage::Over => false,
    }
}

/// Runs the decided actions `q` (never empty): the first now, the rest on
/// the following answers; the run is over after the last.
pub open spec fn drain(v: RunView, q: Seq<ActionView>) -> (RunView, ActionView) {
    (
        RunView {
            stage: if q.len() <= 1 {
                Stage::Over
            } else {
                Stage::Draining
            },
            queue: q.drop_first(),
            ..v
        },
        q[0],
    )
}

/// What undoes a failed save: the file this run wrote is removed (the
/// `.onnx` file, once its write succeeded; a failed write leaves its
/// destination as it was) and, in an overwrite, the kept files are put
/// back; then the error. A file this run did not write is never removed.
pub open spec fn cleanup(v: RunView, e: AppError) -> Seq<ActionView> {
    (if v.stage == Stage::WriteTag {
        seq![ActionView::Remove(v.onnx_dest)]
    } else {
        Seq::empty()
    }) + (if v.onnx_backed {
        seq![ActionView::Restore(backup_of(v.onnx_dest), v.onnx_dest)]
    } else {
        Seq::empty()
    }) + (if v.tag_backed {
        seq![ActionView::Restore(backup_of(v.tag_dest), v.tag_dest)]
    } else {
        Seq::empty()
    }) + seq![failed(e)]
}

/// What ends a successful save: the kept files are removed, `Saved` is
/// reported, and the download finishes with the variant folder.
pub open spec fn completion(v: RunView) -> Seq<ActionView> {
    (if v.onnx_backed {
        seq![ActionView::Remove(backup_of(v.onnx_dest))]
    } else {
        Seq::empty()
    }) + (if v.tag_backed {
        seq![ActionView::Remove(backup_of(v.tag_dest))]
    } else {
        Seq::empty()
    }) + seq![ActionView::Report(DownloadPhase::Saved), ActionView::Done(v.dir)]
}

/// The next state and action of a download, from its state and the answer
/// to its last action:
/// - it starts by creating the variant folder unless cancelled;
/// - each file is fetched up to [`MAX_DOWNLOAD_ATTEMPTS`] times; the `.onnx`
///   file first, then the tag-definition candidates in order until one
///   comes; a file that never comes is a download error (about the first
///   candidate for tag definitions), as is an empty candidate list;
/// - cancellation is honoured before starting and after each fetched file;
/// - the files are saved under the `.onnx` file's name and the candidate's
///   name; an overwrite first keeps the existing files aside;
/// - a failed save is undone (see [`cleanup`]); a successful one ends as in
///   [`completion`].
pub open spec fn next_step(v: RunView, a: DownloadAnswer) -> (RunView, ActionView) {
    match (v.stage, a) {
        (Stage::Start, DownloadAnswer::Ack { cancel_requested }) => if cancel_requested {
            drain(v, seq![cancelled()])
        } else {
            (RunView { stage: Stage::MakeDir, ..v }, ActionView::CreateDir(v.dir))
        },
        (Stage::MakeDir, DownloadAnswer::DirCreated(r)) => match r {
            Err(e) => drain(v, seq![ActionView::Failed(e.kind, e.message@, Some(v.dir))]),
            Ok(_) => (
                RunView { stage: Stage::FetchOnnx(1), ..v },
                ActionView::Fetch(v.repo, v.onnx_file),
            ),
        },
        (Stage::FetchOnnx(k), DownloadAnswer::Fetched(r)) => match r {
            Ok(b) => (
                RunView { stage: Stage::AfterOnnx, onnx: b@, ..v },
                ActionView::Report(DownloadPhase::OnnxFetched),
            ),
            Err(e) => if k < MAX_DOWNLOAD_ATTEMPTS {
                (
                    RunView { stage: Stage::FetchOnnx((k + 1) as u8), ..v },
                    ActionView::Fetch(v.repo, v.onnx_file),
                )
            } else {
                drain(
                    v,
                    seq![
                        ActionView::Failed(
                            AppErrorKind::Download,
                            download_failure_message(v.repo, v.onnx_file, e),
                            Some(v.repo + "/"@ + v.onnx_file),
                        ),
                    ],
                )
            },
        },
        (Stage::AfterOnnx, DownloadAnswer::Ack { cancel_requested }) => if cancel_requested {
            drain(v, seq![cancelled()])
        } else if v.tag_files.len() == 0 {
            drain(
                v,
                seq![
                    ActionView::Failed(
                        AppErrorKind::Download,
                        fetch_failure_message(
                            v.repo,
                            "tag-definition"@,
                            "ダウンロードに失敗しました: "@ + "タグ定義候補が定義されていません"@,
                        ),
                        Some(v.repo + "/"@ + "tag-definition"@),
                    ),
                ],
            )
        } else {
            (RunView { stage: Stage::FetchTag(0, 1), ..v }, ActionView::Fetch(v.repo, v.tag_files[0]))
        },
        (Stage::FetchTag(i, k), DownloadAnswer::Fetched(r)) => match r {
            Ok(b) => (
                RunView { stage: Stage::AfterTag, tagdef_name: v.tag_files[i as int], tagdef: b@, ..v },
                ActionView::Report(DownloadPhase::TagDefinitionFetched),
            ),
            Err(e) => if k < MAX_DOWNLOAD_ATTEMPTS {
                (
                    RunView { stage: Stage::FetchTag(i, (k + 1) as u8), ..v },
                    ActionView::Fetch(v.repo, v.tag_files[i as int]),
                )
            } else if i + 1 < v.tag_files.len() {
                (
                    RunView { stage: Stage::FetchTag((i + 1) as usize, 1), ..v },
                    ActionView::Fetch(v.repo, v.tag_files[i + 1]),
                )
            } else {
                drain(
                    v,
                    seq![
                        ActionView::Failed(
                            AppErrorKind::Download,
                            download_failure_message(v.repo, v.tag_files[0], e),
                            Some(v.repo + "/"@ + v.tag_files[0]),
                        ),
                    ],
                )
            },
        },
        (Stage::AfterTag, DownloadAnswer::Ack { cancel_requested }) => if cancel_requested {
            drain(v, seq![cancelled()])
        } else {
            let od = joined(v.dir, onnx_save_name(v.onnx_file), v.sep);
            let td = joined(v.dir, v.tagdef_name, v.sep);
            if v.was_present {
                (
                    RunView { stage: Stage::BackupOnnx, onnx_dest: od, tag_dest: td, ..v },
                    ActionView::Backup(od, backup_of(od)),
                )
            } else {
                (
                    RunView { stage: Stage::WriteOnnx, onnx_dest: od, tag_dest: td, ..v },
                    ActionView::Write(od, Payload::Onnx),
                )
            }
        },
        (Stage::BackupOnnx, DownloadAnswer::BackedUp(r)) => match r {
            Err(e) => drain(v, seq![failed(e)]),
            Ok(moved) => (
                RunView { stage: Stage::BackupTag, onnx_backed: moved, ..v },
                ActionView::Backup(v.tag_dest, backup_of(v.tag_dest)),
            ),
        },
        (Stage::BackupTag, DownloadAnswer::BackedUp(r)) => match r {
            Err(e) => drain(
                v,
                (if v.onnx_backed {
                    seq![ActionView::Restore(backup_of(v.onnx_dest), v.onnx_dest)]
                } else {
                    Seq::empty()
                }) + seq![failed(e)],
            ),
            Ok(moved) => (
                RunView { stage: Stage::WriteOnnx, tag_backed: moved, ..v },
                ActionView::Write(v.onnx_dest, Payload::Onnx),
            ),
        },
        (Stage::WriteOnnx, DownloadAnswer::Written(r)) => match r {
            Err(e) => drain(v, cleanup(v, e)),
            Ok(_) => (
                RunView { stage: Stage::WriteTag, ..v },
                ActionView::Write(v.tag_dest, Payload::TagDefinition),
            ),
        },
        (Stage::WriteTag, DownloadAnswer::Written(r)) => match r {
            Err(e) => drain(v, cleanup(v, e)),
            Ok(_) => drain(v, completion(v)),
        },
        (Stage::Draining, DownloadAnswer::Ack { .. }) => drain(v, v.queue),
        _ => (v, cancelled()),
    }
}

/// A queue never runs out before its finishing action.
pub open spec fn queue_ok(stage: Stage, q: Seq<ActionView>) -> bool {
    stage == Stage::Draining ==> q.len() >= 1
}

impl DownloadRun {
    /// The run is consistent: attempts stay within the limit, a candidate
    /// index within the candidates, and the queue is long enough.
    pub closed spec fn well_formed(&self) -> bool {
        &&& match self.stage {
            Stage::FetchOnnx(k) => 1 <= k <= MAX_DOWNLOAD_ATTEMPTS,
            Stage::FetchTag(i, k) => 1 <= k <= MAX_DOWNLOAD_ATTEMPTS && i < self.tag_files.len(),
            _ => true,
        }
        &&& queue_ok(self.stage, self@.queue)
        &&& platform_sep(self.sep)
    }

    /// A download of `variant` into `variant_dir`; `was_present` tells
    /// whether that folder already held the variant's files (an overwrite).
    pub fn new(variant: &ModelVariant, variant_dir: &str, was_present: bool) -> (r: DownloadRun)
        ensures
            r.well_formed(),
            r@.stage == Stage::Start,
            r@.repo == variant.source.repo@,
            r@.onnx_file == variant.source.onnx_file@,
            r@.tag_files == string_views(variant.source.tag_files@),
            r@.dir == variant_dir@,
            r@.was_present == was_present,
            !r@.onnx_backed,
            !r@.tag_backed,
    {
        let sep = main_separator();
        DownloadRun {
            repo: variant.source.repo.clone(),
            onnx_file: variant.source.onnx_file.clone(),
            tag_files: crate::models::clone_strings(&variant.source.tag_files),
            dir: owned(variant_dir),
            sep,
            was_present,
            stage: Stage::Start,
            onnx: Vec::new(),
            tagdef_name: String::new(),
            tagdef: Vec::new(),
            onnx_dest: String::new(),
            tag_dest: String::new(),
            onnx_backed: false,
            tag_backed: false,
            queue: Vec::new(),
        }
    }

    /// The fetched bytes a write action puts in place.
    pub fn payload(&self, p: Payload) -> (r: &Vec<u8>)
        ensures
            r@ == match p {
                Payload::Onnx => self@.onnx,
                Payload::TagDefinition => self@.tagdef,
            },
    {
        match p {
            Payload::Onnx => &self.onnx,
            Payload::TagDefinition => &self.tagdef,
        }
    }

    /// Whether the run is over (its last action was `Finish`).
    pub fn is_over(&self) -> (r: bool)
        ensures
            r == (self@.stage == Stage::Over),
    {
        self.stage == Stage::Over
    }

    fn start_queue(&mut self, q: Vec<DownloadAction>) -> (a: DownloadAction)
        requires
            q.len() >= 1,
        ensures
            (final(self)@, action_view(a)) == drain(
                old(self)@,
                q@.map_values(|x: DownloadAction| action_view(x)),
            ),
            final(self).sep == old(self).sep,
            final(self).tag_files == old(self).tag_files,
            queue_ok(final(self).stage, final(self)@.queue),
    {
        let ghost qv = q@.map_values(|x: DownloadAction| action_view(x));
        let mut q = q;
        let first = q.remove(0);
        self.stage = if q.len() == 0 {
            Stage::Over
        } else {
            Stage::Draining
        };
        self.queue = q;
        proof {
            assert(self@.queue =~= qv.drop_first());
        }
        first
    }

    fn fail_with(&mut self, e: AppError) -> (a: DownloadAction)
        ensures
            (final(self)@, action_view(a)) == drain(old(self)@, seq![failed(e)]),
            final(self).sep == old(self).sep,
            final(self).tag_files == old(self).tag_files,
            queue_ok(final(self).stage, final(self)@.queue),
    {
        let mut q: Vec<DownloadAction> = Vec::new();
        q.push(DownloadAction::Finish(Err(e)));
        proof {
            assert(q@.map_values(|x: DownloadAction| action_view(x)) =~= seq![failed(e)]);
        }
        self.start_queue(q)
    }

    fn cancelled_error() -> (e: AppError)
        ensures
            failed(e) == cancelled(),
    {
        AppError::new(AppErrorKind::Cancelled, owned("モデルダウンロードがキャンセルされました"))
    }
    fn download_failure(&self, file: &str, e: &DownloadError) -> (a: DownloadAction)
        ensures
            action_view(a) == ActionView::Failed(
                AppErrorKind::Download,
                download_failure_message(self@.repo, file@, *e),
                Some(self@.repo + "/"@ + file@),
            ),
    {
        DownloadAction::Finish(Err(download_error(self.repo.as_str(), file, e)))
    }

    /// Takes the answer to the last action (for the first call, `Ack` with
    /// the cancel flag) and gives the next action (see [`next_step`]).
    pub fn step(&mut self, answer: DownloadAnswer) -> (a: DownloadAction)
        requires
            old(self).well_formed(),
            answer_fits(old(self)@.stage, answer),
        ensures
            final(self).well_formed(),
            (final(self)@, action_view(a)) == next_step(old(self)@, answer),
    {
        let ghost v = self@;
        match (self.stage, answer) {
            (Stage::Start, DownloadAnswer::Ack { cancel_requested }) => {
                if cancel_requested {
                    self.fail_with(Self::cancelled_error())
                } else {
                    self.stage = Stage::MakeDir;
                    DownloadAction::CreateDir(self.dir.clone())
                }
            },
            (Stage::MakeDir, DownloadAnswer::DirCreated(r)) => match r {
                Err(e) => {
                    let e = e.with_path(self.dir.clone());
                    self.fail_with(e)
                },
                Ok(_) => {
                    self.stage = Stage::FetchOnnx(1);
                    DownloadAction::Fetch { repo: self.repo.clone(), file: self.onnx_file.clone() }
                },
            },
            (Stage::FetchOnnx(k), DownloadAnswer::Fetched(r)) => match r {
                Ok(b) => {
                    self.onnx = b;
                    self.stage = Stage::AfterOnnx;
                    DownloadAction::Report(DownloadPhase::OnnxFetched)
                },
                Err(e) => {
                    if k < MAX_DOWNLOAD_ATTEMPTS {
                        self.stage = Stage::FetchOnnx(k + 1);
                        DownloadAction::Fetch {
                            repo: self.repo.clone(),
                            file: self.onnx_file.clone(),
                        }
                    } else {
                        let f = self.onnx_file.clone();
                        let fin = self.download_failure(f.as_str(), &e);
                        let mut q: Vec<DownloadAction> = Vec::new();
                        q.push(fin);
                        proof {
                            assert(q@.map_values(|x: DownloadAction| action_view(x)) =~= seq![
                                action_view(q@[0]),
                            ]);
                        }
                        self.start_queue(q)
                    }
                },
            },
            (Stage::AfterOnnx, DownloadAnswer::Ack { cancel_requested }) => {
                if cancel_requested {
                    self.fail_with(Self::cancelled_error())
                } else if self.tag_files.len() == 0 {
                    let e = DownloadError::Other(owned("タグ定義候補が定義されていません"));
                    let fin = self.download_failure("tag-definition", &e);
                    let mut q: Vec<DownloadAction> = Vec::new();
                    q.push(fin);
                    proof {
                        assert(q@.map_values(|x: DownloadAction| action_view(x)) =~= seq![
                            action_view(q@[0]),
                        ]);
                    }
                    self.start_queue(q)
                } else {
                    self.stage = Stage::FetchTag(0, 1);
                    DownloadAction::Fetch { repo: self.repo.clone(), file: self.tag_files[0].clone() }
                }
            },
            (Stage::FetchTag(i, k), DownloadAnswer::Fetched(r)) => match r {
                Ok(b) => {
                    self.tagdef_name = self.tag_files[i].clone();
                    self.tagdef = b;
                    self.stage = Stage::AfterTag;
                    DownloadAction::Report(DownloadPhase::TagDefinitionFetched)
                },
                Err(e) => {
                    if k < MAX_DOWNLOAD_ATTEMPTS {
                        self.stage = Stage::FetchTag(i, k + 1);
                        DownloadAction::Fetch { repo: self.repo.clone(), file: self.tag_files[i].clone() }
                    } else if i + 1 < self.tag_files.len() {
                        self.stage = Stage::FetchTag(i + 1, 1);
                        DownloadAction::Fetch {
                            repo: self.repo.clone(),
                            file: self.tag_files[i + 1].clone(),
                        }
                    } else {
                        let f = self.tag_files[0].clone();
                        let fin = self.download_failure(f.as_str(), &e);
                        let mut q: Vec<DownloadAction> = Vec::new();
                        q.push(fin);
                        proof {
                            assert(q@.map_values(|x: DownloadAction| action_view(x)) =~= seq![
                                action_view(q@[0]),
                            ]);
                        }
                        self.start_queue(q)
                    }
                },
            },
            (Stage::AfterTag, DownloadAnswer::Ack { cancel_requested }) => {
                if cancel_requested {
                    self.fail_with(Self::cancelled_error())
                } else {
                    let name = onnx_basename(self.onnx_file.as_str());
                    let od = join_with(self.dir.as_str(), name.as_str(), self.sep);
                    let td = join_with(self.dir.as_str(), self.tagdef_name.as_str(), self.sep);
                    self.onnx_dest = od.clone();
                    self.tag_dest = td;
                    if self.was_present {
                        self.stage = Stage::BackupOnnx;
                        let to = backup_path(od.as_str());
                        DownloadAction::Backup { from: od, to }
                    } else {
                        self.stage = Stage::WriteOnnx;
                        DownloadAction::Write { dest: od, payload: Payload::Onnx }
                    }
                }
            },
            (Stage::BackupOnnx, DownloadAnswer::BackedUp(r)) => match r {
                Err(e) => self.fail_with(e),
                Ok(moved) => {
                    self.onnx_backed = moved;
                    self.stage = Stage::BackupTag;
                    let to = backup_path(self.tag_dest.as_str());
                    DownloadAction::Backup { from: self.tag_dest.clone(), to }
                },
            },
            (Stage::BackupTag, DownloadAnswer::BackedUp(r)) => match r {
                Err(e) => {
                    let mut q: Vec<DownloadAction> = Vec::new();
                    if self.onnx_backed {
                        q.push(
                            DownloadAction::Restore {
                                from: backup_path(self.onnx_dest.as_str()),
                                to: self.onnx_dest.clone(),
                            },
                        );
                    }
                    q.push(DownloadAction::Finish(Err(e)));
                    proof {
                        assert(q@.map_values(|x: DownloadAction| action_view(x)) =~= (if v.onnx_backed {
                            seq![ActionView::Restore(backup_of(v.onnx_dest), v.onnx_dest)]
                        } else {
                            Seq::empty()
                        }) + seq![failed(e)]);
                    }
                    self.start_queue(q)
                },
                Ok(moved) => {
                    self.tag_backed = moved;
                    self.stage = Stage::WriteOnnx;
                    DownloadAction::Write { dest: self.onnx_dest.clone(), payload: Payload::Onnx }
                },
            },
            (Stage::WriteOnnx, DownloadAnswer::Written(r)) => match r {
                Err(e) => {
                    let q = self.cleanup_actions(e);
                    self.start_queue(q)
                },
                Ok(_) => {
                    self.stage = Stage::WriteTag;
                    DownloadAction::Write {
                        dest: self.tag_dest.clone(),
                        payload: Payload::TagDefinition,
                    }
                },
            },
            (Stage::WriteTag, DownloadAnswer::Written(r)) => match r {
                Err(e) => {
                    let q = self.cleanup_actions(e);
                    self.start_queue(q)
                },
                Ok(_) => {
                    let q = self.completion_actions();
                    self.start_queue(q)
                },
            },
            (Stage::Draining, DownloadAnswer::Ack { .. }) => {
                let mut q: Vec<DownloadAction> = Vec::new();
                std::mem::swap(&mut q, &mut self.queue);
                proof {
                    assert(q@.map_values(|x: DownloadAction| action_view(x)) == v.queue);
                }
                self.start_queue(q)
            },
            (_, _) => {
                proof {
                    assert(false);
                }
                self.fail_with(Self::cancelled_error())
            },
        }
    }

    fn cleanup_actions(&self, e: AppError) -> (q: Vec<DownloadAction>)
        ensures
            q@.map_values(|x: DownloadAction| action_view(x)) == cleanup(self@, e),
            q.len() >= 1,
    {
        let mut q: Vec<DownloadAction> = Vec::new();
        if self.stage == Stage::WriteTag {
            q.push(DownloadAction::Remove(self.onnx_dest.clone()));
        }
        if self.onnx_backed {
            q.push(
                DownloadAction::Restore {
                    from: backup_path(self.onnx_dest.as_str()),
                    to: self.onnx_dest.clone(),
                },
            );
        }
        if self.tag_backed {
            q.push(
                DownloadAction::Restore {
                    from: backup_path(self.tag_dest.as_str()),
                    to: self.tag_dest.clone(),
                },
            );
        }
        q.push(DownloadAction::Finish(Err(e)));
        proof {
            assert(q@.map_values(|x: DownloadAction| action_view(x)) =~= cleanup(self@, e));
        }
        q
    }

    fn completion_actions(&self) -> (q: Vec<DownloadAction>)
        ensures
            q@.map_values(|x: DownloadAction| action_view(x)) == completion(self@),
            q.len() >= 1,
    {
        let mut q: Vec<DownloadAction> = Vec::new();
        if self.onnx_backed {
            q.push(DownloadAction::Remove(backup_path(self.onnx_dest.as_str())));
        }
        if self.tag_backed {
            q.push(DownloadAction::Remove(backup_path(self.tag_dest.as_str())));
        }
        q.push(DownloadAction::Report(DownloadPhase::Saved));
        q.push(DownloadAction::Finish(Ok(self.dir.clone())));
        proof {
            assert(q@.map_values(|x: DownloadAction| action_view(x)) =~= completion(self@));
        }
        q
    }
}

impl View for DownloadRun {
    type V = RunView;

    closed spec fn view(&self) -> RunView {
        RunView {
            stage: self.stage,
            repo: self.repo@,
            onnx_file: self.onnx_file@,
            tag_files: string_views(self.tag_files@),
            dir: self.dir@,
            sep: self.sep,
            was_present: self.was_present,
            onnx: self.onnx@,
            tagdef_name: self.tagdef_name@,
            tagdef: self.tagdef@,
            onnx_dest: self.onnx_dest@,
            tag_dest: self.tag_dest@,
            onnx_backed: self.onnx_backed,
            tag_backed: self.tag_backed,
            queue: self.queue@.map_values(|a: DownloadAction| action_view(a)),
        }
    }
}

/// An action that changes files of the variant folder.
pub open spec fn touches_assets(a: ActionView) -> bool {
    a is Backup || a is Write || a is Remove || a is Restore
}

/// A stage before both files are fetched.
pub open spec fn fetching(s: Stage) -> bool {
    s is Start || s is MakeDir || s is FetchOnnx || s is AfterOnnx || s is FetchTag
}

/// While fetching, a download never changes the files of the variant
/// folder, and it either keeps fetching, moves on to saving, or finishes:
/// a failed or cancelled download of a present variant leaves its files as
/// they were.
pub proof fn law_fetching_leaves_assets(v: RunView, a: DownloadAnswer)
    requires
        fetching(v.stage),
        answer_fits(v.stage, a),
    ensures
        !touches_assets(next_step(v, a).1),
        fetching(next_step(v, a).0.stage) || next_step(v, a).0.stage == Stage::AfterTag
            || next_step(v, a).0.stage == Stage::Over,
{
}

/// Each file is fetched at most [`MAX_DOWNLOAD_ATTEMPTS`] times: a failed
/// attempt under the limit asks for the same `.onnx` file again, one attempt
/// more; at the limit the download fails as a download error.
pub proof fn law_onnx_fetch_bounded(v: RunView, k: u8, e: DownloadError)
    requires
        v.stage == Stage::FetchOnnx(k),
        1 <= k <= MAX_DOWNLOAD_ATTEMPTS,
    ensures
        ({
            let (w, act) = next_step(v, DownloadAnswer::Fetched(Err(e)));
            &&& k < MAX_DOWNLOAD_ATTEMPTS ==> w.stage == Stage::FetchOnnx((k + 1) as u8) && act
                == ActionView::Fetch(v.repo, v.onnx_file)
            &&& k == MAX_DOWNLOAD_ATTEMPTS ==> w.stage == Stage::Over && act matches ActionView::Failed(
                AppErrorKind::Download,
                _,
                _,
            )
        }),
{
}

/// A tag-definition candidate is fetched at most [`MAX_DOWNLOAD_ATTEMPTS`]
/// times before the next candidate is tried; when the last one fails too,
/// the download fails as a download error.
pub proof fn law_tag_fetch_bounded(v: RunView, i: usize, k: u8, e: DownloadError)
    requires
        v.stage == Stage::FetchTag(i, k),
        1 <= k <= MAX_DOWNLOAD_ATTEMPTS,
        i < v.tag_files.len(),
    ensures
        ({
            let (w, act) = next_step(v, DownloadAnswer::Fetched(Err(e)));
            &&& k < MAX_DOWNLOAD_ATTEMPTS ==> w.stage == Stage::FetchTag(i, (k + 1) as u8) && act
                == ActionView::Fetch(v.repo, v.tag_files[i as int])
            &&& k == MAX_DOWNLOAD_ATTEMPTS && i + 1 < v.tag_files.len() ==> w.stage == Stage::FetchTag(
                (i + 1) as usize,
                1,
            ) && act == ActionView::Fetch(v.repo, v.tag_files[i + 1])
            &&& k == MAX_DOWNLOAD_ATTEMPTS && i + 1 == v.tag_files.len() ==> w.stage == Stage::Over
                && act matches ActionView::Failed(AppErrorKind::Download, _, _)
        }),
{
}

/// A failed write undoes the save: the `.onnx` file is removed when this
/// run had written it (the tag definition was the failed write), the files
/// kept aside in an overwrite are put back, and the download ends with the
/// write's error. Nothing else is removed.
pub proof fn law_failed_save_is_undone(v: RunView, e: AppError)
    requires
        v.stage == Stage::WriteOnnx || v.stage == Stage::WriteTag,
    ensures
        next_step(v, DownloadAnswer::Written(Err(e))) == drain(v, cleanup(v, e)),
        v.stage == Stage::WriteTag ==> cleanup(v, e)[0] == ActionView::Remove(v.onnx_dest),
        forall|i: int|
            0 <= i < cleanup(v, e).len() && (#[trigger] cleanup(v, e)[i]) is Remove ==> v.stage
                == Stage::WriteTag && cleanup(v, e)[i] == ActionView::Remove(v.onnx_dest),
        cleanup(v, e).last() == failed(e),
        v.onnx_backed ==> cleanup(v, e).contains(ActionView::Restore(backup_of(v.onnx_dest), v.onnx_dest)),
        v.tag_backed ==> cleanup(v, e).contains(ActionView::Restore(backup_of(v.tag_dest), v.tag_dest)),
{
    let c = cleanup(v, e);
    let r: int = if v.stage == Stage::WriteTag { 1 } else { 0 };
    if v.onnx_backed {
        assert(c[r] == ActionView::Restore(backup_of(v.onnx_dest), v.onnx_dest));
    }
    if v.tag_backed {
        let j = if v.onnx_backed { r + 1 } else { r };
        assert(c[j] == ActionView::Restore(backup_of(v.tag_dest), v.tag_dest));
    }
}

/// The files a step may remove: the `.onnx` file this run wrote (after the
/// tag definition's write failed) and the backups this run made.
pub open spec fn removable(v: RunView, p: Seq<char>) -> bool {
    ||| (v.stage == Stage::WriteTag && p == v.onnx_dest)
    ||| (v.onnx_backed && p == backup_of(v.onnx_dest))
    ||| (v.tag_backed && p == backup_of(v.tag_dest))
}

/// An action that removes only what [`removable`] allows.
pub open spec fn removal_ok(v: RunView, x: ActionView) -> bool {
    match x {
        ActionView::Remove(p) => removable(v, p),
        _ => true,
    }
}

/// What a step decides: its action and, when it starts running a queue,
/// the queued actions after it.
pub open spec fn decided(v: RunView, a: DownloadAnswer) -> Seq<ActionView> {
    let (w, act) = next_step(v, a);
    if w.stage == Stage::Draining {
        seq![act] + w.queue
    } else {
        seq![act]
    }
}

proof fn lemma_drain_decides(v: RunView, q: Seq<ActionView>)
    requires
        q.len() >= 1,
    ensures
        forall|i: int|
            0 <= i < (if drain(v, q).0.stage == Stage::Draining {
                seq![drain(v, q).1] + drain(v, q).0.queue
            } else {
                seq![drain(v, q).1]
            }).len() ==> (if drain(v, q).0.stage == Stage::Draining {
                seq![drain(v, q).1] + drain(v, q).0.queue
            } else {
                seq![drain(v, q).1]
            })[i] == q[i],
{
}

/// A download never removes a file it did not make: every removal it
/// decides is of the `.onnx` file this run wrote or of a backup this run
/// made. So a file already in the variant folder that the run did not
/// write (such as a tag definition left there before) is kept.
pub proof fn law_removes_only_what_the_run_made(v: RunView, a: DownloadAnswer)
    requires
        answer_fits(v.stage, a),
        v.stage != Stage::Draining,
    ensures
        forall|i: int| 0 <= i < decided(v, a).len() ==> removal_ok(v, #[trigger] decided(v, a)[i]),
{
    let d = decided(v, a);
    match (v.stage, a) {
        (Stage::WriteOnnx, DownloadAnswer::Written(Err(e))) => {
            lemma_drain_decides(v, cleanup(v, e));
            assert forall|i: int| 0 <= i < d.len() implies removal_ok(v, #[trigger] d[i]) by {
                law_failed_save_is_undone(v, e);
                assert(d[i] == cleanup(v, e)[i]);
            }
        },
        (Stage::WriteTag, DownloadAnswer::Written(Err(e))) => {
            lemma_drain_decides(v, cleanup(v, e));
            assert forall|i: int| 0 <= i < d.len() implies removal_ok(v, #[trigger] d[i]) by {
                law_failed_save_is_undone(v, e);
                assert(d[i] == cleanup(v, e)[i]);
            }
        },
        (Stage::WriteTag, DownloadAnswer::Written(Ok(_))) => {
            let c = completion(v);
            lemma_drain_decides(v, c);
            assert forall|i: int| 0 <= i < d.len() implies removal_ok(v, #[trigger] d[i]) by {
                assert(d[i] == c[i]);
                let ob: int = if v.onnx_backed { 1 } else { 0 };
                let tb: int = if v.tag_backed { 1 } else { 0 };
                if i < ob {
                    assert(c[i] == ActionView::Remove(backup_of(v.onnx_dest)));
                } else if i < ob + tb {
                    assert(c[i] == ActionView::Remove(backup_of(v.tag_dest)));
                } else {
                    assert(c[i] == seq![ActionView::Report(DownloadPhase::Saved), ActionView::Done(v.dir)][i - ob - tb]);
                }
            }
        },
        (Stage::BackupTag, DownloadAnswer::BackedUp(Err(e))) => {
            let q = (if v.onnx_backed {
                seq![ActionView::Restore(backup_of(v.onnx_dest), v.onnx_dest)]
            } else {
                Seq::empty()
            }) + seq![failed(e)];
            lemma_drain_decides(v, q);
            assert forall|i: int| 0 <= i < d.len() implies removal_ok(v, #[trigger] d[i]) by {
                assert(d[i] == q[i]);
            }
        },
        _ => {},
    }
}

/// A download succeeds only once the tag definition was written after the
/// `.onnx` file: then the kept files are removed, `Saved` is reported and
/// the download ends with the variant folder.
pub proof fn law_success_after_both_writes(v: RunView)
    requires
        v.stage == Stage::WriteTag,
    ensures
        next_step(v, DownloadAnswer::Written(Ok(()))) == drain(v, completion(v)),
        completion(v).last() == ActionView::Done(v.dir),
        completion(v).contains(ActionView::Report(DownloadPhase::Saved)),
{
    let c = completion(v);
    assert(c[c.len() - 2] == ActionView::Report(DownloadPhase::Saved));
}

// ---------------------------------------------------------------------------
// Whole runs
// ---------------------------------------------------------------------------

/// The actions of a download from state `v` given the answers in turn, and
/// the state it ends in.
pub open spec fn run_steps(v: RunView, answers: Seq<DownloadAnswer>) -> (RunView, Seq<ActionView>)
    decreases answers.len(),
{
    if answers.len() == 0 {
        (v, Seq::empty())
    } else {
        let (w, a) = next_step(v, answers[0]);
        let (u, rest) = run_steps(w, answers.drop_first());
        (u, seq![a] + rest)
    }
}

/// The answers of a new download in which everything goes well.
pub open spec fn happy_answers(onnx: Vec<u8>, tagdef: Vec<u8>) -> Seq<DownloadAnswer> {
    seq![
        DownloadAnswer::Ack { cancel_requested: false },
        DownloadAnswer::DirCreated(Ok(())),
        DownloadAnswer::Fetched(Ok(onnx)),
        DownloadAnswer::Ack { cancel_requested: false },
        DownloadAnswer::Fetched(Ok(tagdef)),
        DownloadAnswer::Ack { cancel_requested: false },
        DownloadAnswer::Written(Ok(())),
        DownloadAnswer::Written(Ok(())),
        DownloadAnswer::Ack { cancel_requested: false },
    ]
}

/// A new download in which every call succeeds creates the folder, fetches
/// the `.onnx` file and the first tag-definition candidate once each,
/// reports the three phases in order, writes the `.onnx` file under its
/// base name and the tag definition under the candidate's name, and ends
/// with the variant folder; nothing is removed or backed up.
pub proof fn law_successful_new_download(v: RunView, onnx: Vec<u8>, tagdef: Vec<u8>)
    requires
        v.stage == Stage::Start,
        !v.was_present,
        !v.onnx_backed,
        !v.tag_backed,
        v.tag_files.len() > 0,
    ensures
        ({
            let (u, acts) = run_steps(v, happy_answers(onnx, tagdef));
            let od = joined(v.dir, onnx_save_name(v.onnx_file), v.sep);
            let td = joined(v.dir, v.tag_files[0], v.sep);
            &&& u.stage == Stage::Over
            &&& u.onnx == onnx@
            &&& u.tagdef == tagdef@
            &&& acts == seq![
                ActionView::CreateDir(v.dir),
                ActionView::Fetch(v.repo, v.onnx_file),
                ActionView::Report(DownloadPhase::OnnxFetched),
                ActionView::Fetch(v.repo, v.tag_files[0]),
                ActionView::Report(DownloadPhase::TagDefinitionFetched),
                ActionView::Write(od, Payload::Onnx),
                ActionView::Write(td, Payload::TagDefinition),
                ActionView::Report(DownloadPhase::Saved),
                ActionView::Done(v.dir),
            ]
        }),
{
    let ans = happy_answers(onnx, tagdef);
    let od = joined(v.dir, onnx_save_name(v.onnx_file), v.sep);
    let td = joined(v.dir, v.tag_files[0], v.sep);
    let (v1, a1) = next_step(v, ans[0]);
    assert(a1 == ActionView::CreateDir(v.dir) && v1.stage == Stage::MakeDir);
    let (v2, a2) = next_step(v1, ans[1]);
    assert(a2 == ActionView::Fetch(v.repo, v.onnx_file) && v2.stage == Stage::FetchOnnx(1));
    let (v3, a3) = next_step(v2, ans[2]);
    assert(a3 == ActionView::Report(DownloadPhase::OnnxFetched) && v3.stage == Stage::AfterOnnx);
    let (v4, a4) = next_step(v3, ans[3]);
    assert(a4 == ActionView::Fetch(v.repo, v.tag_files[0]) && v4.stage == Stage::FetchTag(0, 1));
    let (v5, a5) = next_step(v4, ans[4]);
    assert(a5 == ActionView::Report(DownloadPhase::TagDefinitionFetched) && v5.stage
        == Stage::AfterTag && v5.tagdef_name == v.tag_files[0]);
    let (v6, a6) = next_step(v5, ans[5]);
    assert(a6 == ActionView::Write(od, Payload::Onnx) && v6.stage == Stage::WriteOnnx
        && v6.onnx_dest == od && v6.tag_dest == td);
    let (v7, a7) = next_step(v6, ans[6]);
    assert(a7 == ActionView::Write(td, Payload::TagDefinition) && v7.stage == Stage::WriteTag);
    let (v8, a8) = next_step(v7, ans[7]);
    assert(completion(v7) =~= seq![ActionView::Report(DownloadPhase::Saved), ActionView::Done(v.dir)]);
    assert(a8 == ActionView::Report(DownloadPhase::Saved) && v8.stage == Stage::Draining);
    let (v9, a9) = next_step(v8, ans[8]);
    assert(a9 == ActionView::Done(v.dir) && v9.stage == Stage::Over);
    assert(v9.onnx == onnx@ && v9.tagdef == tagdef@);
    let t9 = ans.skip(9);
    assert(t9 =~= Seq::<DownloadAnswer>::empty());
    assert(run_steps(v9, t9) == (v9, Seq::<ActionView>::empty()));
    let t8 = ans.skip(8);
    assert(t8.drop_first() =~= t9 && t8[0] == ans[8]);
    assert(run_steps(v8, t8).1 =~= seq![a9]);
    let t7 = ans.skip(7);
    assert(t7.drop_first() =~= t8 && t7[0] == ans[7]);
    assert(run_steps(v7, t7).1 =~= seq![a8, a9]);
    let t6 = ans.skip(6);
    assert(t6.drop_first() =~= t7 && t6[0] == ans[6]);
    assert(run_steps(v6, t6).1 =~= seq![a7, a8, a9]);
    let t5 = ans.skip(5);
    assert(t5.drop_first() =~= t6 && t5[0] == ans[5]);
    assert(run_steps(v5, t5).1 =~= seq![a6, a7, a8, a9]);
    let t4 = ans.skip(4);
    assert(t4.drop_first() =~= t5 && t4[0] == ans[4]);
    assert(run_steps(v4, t4).1 =~= seq![a5, a6, a7, a8, a9]);
    let t3 = ans.skip(3);
    assert(t3.drop_first() =~= t4 && t3[0] == ans[3]);
    assert(run_steps(v3, t3).1 =~= seq![a4, a5, a6, a7, a8, a9]);
    let t2 = ans.skip(2);
    assert(t2.drop_first() =~= t3 && t2[0] == ans[2]);
    assert(run_steps(v2, t2).1 =~= seq![a3, a4, a5, a6, a7, a8, a9]);
    let t1 = ans.skip(1);
    assert(t1.drop_first() =~= t2 && t1[0] == ans[1]);
    assert(run_steps(v1, t1).1 =~= seq![a2, a3, a4, a5, a6, a7, a8, a9]);
    assert(ans.drop_first() =~= t1);
    assert(run_steps(v, ans).1 =~= seq![a1, a2, a3, a4, a5, a6, a7, a8, a9]);
    assert(run_steps(v, ans).0 == v9);
}

/// When every fetch of the `.onnx` file fails, a download (new or an
/// overwrite) creates the folder, tries the file exactly
/// [`MAX_DOWNLOAD_ATTEMPTS`] times and ends as a download error, without
/// reporting progress or touching any file of the folder.
pub proof fn law_onnx_never_comes(v: RunView, e1: DownloadError, e2: DownloadError, e3: DownloadError)
    requires
        v.stage == Stage::Start,
    ensures
        ({
            let answers = seq![
                DownloadAnswer::Ack { cancel_requested: false },
                DownloadAnswer::DirCreated(Ok(())),
                DownloadAnswer::Fetched(Err(e1)),
                DownloadAnswer::Fetched(Err(e2)),
                DownloadAnswer::Fetched(Err(e3)),
            ];
            let (u, acts) = run_steps(v, answers);
            &&& u.stage == Stage::Over
            &&& acts.len() == 5
            &&& acts[0] == ActionView::CreateDir(v.dir)
            &&& acts[1] == ActionView::Fetch(v.repo, v.onnx_file)
            &&& acts[2] == ActionView::Fetch(v.repo, v.onnx_file)
            &&& acts[3] == ActionView::Fetch(v.repo, v.onnx_file)
            &&& acts[4] matches ActionView::Failed(AppErrorKind::Download, _, _)
        }),
{
    reveal_with_fuel(run_steps, 6);
    let answers = seq![
        DownloadAnswer::Ack { cancel_requested: false },
        DownloadAnswer::DirCreated(Ok(())),
        DownloadAnswer::Fetched(Err(e1)),
        DownloadAnswer::Fetched(Err(e2)),
        DownloadAnswer::Fetched(Err(e3)),
    ];
    let (v1, a1) = next_step(v, answers[0]);
    let (v2, a2) = next_step(v1, answers[1]);
    let (v3, a3) = next_step(v2, answers[2]);
    let (v4, a4) = next_step(v3, answers[3]);
    let (v5, a5) = next_step(v4, answers[4]);
    assert(v5.stage == Stage::Over);
    assert(answers.drop_first().drop_first().drop_first().drop_first().drop_first() =~= Seq::<DownloadAnswer>::empty());
}

/// A folder that cannot be created ends the download with that error, about
/// the folder, before anything is fetched.
pub proof fn law_folder_failure_fetches_nothing(v: RunView, e: AppError)
    requires
        v.stage == Stage::Start,
    ensures
        ({
            let answers = seq![
                DownloadAnswer::Ack { cancel_requested: false },
                DownloadAnswer::DirCreated(Err(e)),
            ];
            let (u, acts) = run_steps(v, answers);
            &&& u.stage == Stage::Over
            &&& acts == seq![
                ActionView::CreateDir(v.dir),
                ActionView::Failed(e.kind, e.message@, Some(v.dir)),
            ]
        }),
{
    reveal_with_fuel(run_steps, 3);
    let answers = seq![
        DownloadAnswer::Ack { cancel_requested: false },
        DownloadAnswer::DirCreated(Err(e)),
    ];
    assert(answers.drop_first().drop_first() =~= Seq::<DownloadAnswer>::empty());
}

/// Running two runs of answers one after the other.
proof fn lemma_run_steps_append(v: RunView, a: Seq<DownloadAnswer>, b: Seq<DownloadAnswer>)
    ensures
        run_steps(v, a + b) == (
            run_steps(run_steps(v, a).0, b).0,
            run_steps(v, a).1 + run_steps(run_steps(v, a).0, b).1,
        ),
    decreases a.len(),
{
    if a.len() == 0 {
        assert(a + b =~= b);
        assert(run_steps(v, a).1 + run_steps(v, b).1 =~= run_steps(v, b).1);
    } else {
        let (w, x) = next_step(v, a[0]);
        assert((a + b).drop_first() =~= a.drop_first() + b);
        assert((a + b)[0] == a[0]);
        lemma_run_steps_append(w, a.drop_first(), b);
        assert(seq![x] + (run_steps(w, a.drop_first()).1 + run_steps(run_steps(w, a.drop_first()).0, b).1)
            =~= (seq![x] + run_steps(w, a.drop_first()).1) + run_steps(run_steps(w, a.drop_first()).0, b).1);
    }
}

/// The first seven answers of a run in which everything goes well lead to
/// the write of the tag definition, after the `.onnx` file was written.
#[verifier::rlimit(40)]
proof fn lemma_happy_prefix(v: RunView, onnx: Vec<u8>, tagdef: Vec<u8>)
    requires
        v.stage == Stage::Start,
        !v.was_present,
        !v.onnx_backed,
        !v.tag_backed,
        v.tag_files.len() > 0,
    ensures
        ({
            let (u, acts) = run_steps(v, happy_answers(onnx, tagdef).take(7));
            let od = joined(v.dir, onnx_save_name(v.onnx_file), v.sep);
            let td = joined(v.dir, v.tag_files[0], v.sep);
            &&& u.stage == Stage::WriteTag
            &&& u.onnx_dest == od
            &&& u.tag_dest == td
            &&& !u.onnx_backed
            &&& !u.tag_backed
            &&& u.dir == v.dir
            &&& acts == seq![
                ActionView::CreateDir(v.dir),
                ActionView::Fetch(v.repo, v.onnx_file),
                ActionView::Report(DownloadPhase::OnnxFetched),
                ActionView::Fetch(v.repo, v.tag_files[0]),
                ActionView::Report(DownloadPhase::TagDefinitionFetched),
                ActionView::Write(od, Payload::Onnx),
                ActionView::Write(td, Payload::TagDefinition),
            ]
        }),
{
    let ans = happy_answers(onnx, tagdef).take(7);
    let od = joined(v.dir, onnx_save_name(v.onnx_file), v.sep);
    let td = joined(v.dir, v.tag_files[0], v.sep);
    let (v1, a1) = next_step(v, ans[0]);
    assert(a1 == ActionView::CreateDir(v.dir) && v1.stage == Stage::MakeDir);
    let (v2, a2) = next_step(v1, ans[1]);
    assert(a2 == ActionView::Fetch(v.repo, v.onnx_file) && v2.stage == Stage::FetchOnnx(1));
    let (v3, a3) = next_step(v2, ans[2]);
    assert(a3 == ActionView::Report(DownloadPhase::OnnxFetched) && v3.stage == Stage::AfterOnnx);
    let (v4, a4) = next_step(v3, ans[3]);
    assert(a4 == ActionView::Fetch(v.repo, v.tag_files[0]) && v4.stage == Stage::FetchTag(0, 1));
    let (v5, a5) = next_step(v4, ans[4]);
    assert(a5 == ActionView::Report(DownloadPhase::TagDefinitionFetched) && v5.stage
        == Stage::AfterTag && v5.tagdef_name == v.tag_files[0]);
    let (v6, a6) = next_step(v5, ans[5]);
    assert(a6 == ActionView::Write(od, Payload::Onnx) && v6.stage == Stage::WriteOnnx
        && v6.onnx_dest == od && v6.tag_dest == td);
    let (v7, a7) = next_step(v6, ans[6]);
    assert(a7 == ActionView::Write(td, Payload::TagDefinition) && v7.stage == Stage::WriteTag);
    let t7 = ans.skip(7);
    assert(t7 =~= Seq::<DownloadAnswer>::empty());
    assert(run_steps(v7, t7) == (v7, Seq::<ActionView>::empty()));
    let t6 = ans.skip(6);
    assert(t6.drop_first() =~= t7 && t6[0] == ans[6]);
    assert(run_steps(v6, t6).1 =~= seq![a7]);
    let t5 = ans.skip(5);
    assert(t5.drop_first() =~= t6 && t5[0] == ans[5]);
    assert(run_steps(v5, t5).1 =~= seq![a6, a7]);
    let t4 = ans.skip(4);
    assert(t4.drop_first() =~= t5 && t4[0] == ans[4]);
    assert(run_steps(v4, t4).1 =~= seq![a5, a6, a7]);
    let t3 = ans.skip(3);
    assert(t3.drop_first() =~= t4 && t3[0] == ans[3]);
    assert(run_steps(v3, t3).1 =~= seq![a4, a5, a6, a7]);
    let t2 = ans.skip(2);
    assert(t2.drop_first() =~= t3 && t2[0] == ans[2]);
    assert(run_steps(v2, t2).1 =~= seq![a3, a4, a5, a6, a7]);
    let t1 = ans.skip(1);
    assert(t1.drop_first() =~= t2 && t1[0] == ans[1]);
    assert(run_steps(v1, t1).1 =~= seq![a2, a3, a4, a5, a6, a7]);
    assert(ans.drop_first() =~= t1);
    assert(run_steps(v, ans).1 =~= seq![a1, a2, a3, a4, a5, a6, a7]);
    assert(run_steps(v, ans).0 == v7);
}

/// A new download whose tag-definition write fails after its `.onnx` file
/// was written removes that `.onnx` file and nothing else, and ends with
/// the write's error without reporting `Saved`: the folder is left as it
/// was before the download.
pub proof fn law_new_download_undone_after_tag_write_fails(
    v: RunView,
    onnx: Vec<u8>,
    tagdef: Vec<u8>,
    e: AppError,
)
    requires
        v.stage == Stage::Start,
        !v.was_present,
        !v.onnx_backed,
        !v.tag_backed,
        v.tag_files.len() > 0,
    ensures
        ({
            let answers = happy_answers(onnx, tagdef).take(7) + seq![
                DownloadAnswer::Written(Err(e)),
                DownloadAnswer::Ack { cancel_requested: false },
            ];
            let (u, acts) = run_steps(v, answers);
            let od = joined(v.dir, onnx_save_name(v.onnx_file), v.sep);
            let td = joined(v.dir, v.tag_files[0], v.sep);
            &&& u.stage == Stage::Over
            &&& acts.len() == 9
            &&& acts[5] == ActionView::Write(od, Payload::Onnx)
            &&& acts[6] == ActionView::Write(td, Payload::TagDefinition)
            &&& acts[7] == ActionView::Remove(od)
            &&& acts[8] == failed(e)
            &&& !acts.contains(ActionView::Report(DownloadPhase::Saved))
        }),
{
    let happy = happy_answers(onnx, tagdef);
    let pre = happy.take(7);
    let post = seq![DownloadAnswer::Written(Err(e)), DownloadAnswer::Ack { cancel_requested: false }];
    lemma_happy_prefix(v, onnx, tagdef);
    lemma_run_steps_append(v, pre, post);
    let (v7, pacts) = run_steps(v, pre);
    let od = joined(v.dir, onnx_save_name(v.onnx_file), v.sep);
    let td = joined(v.dir, v.tag_files[0], v.sep);
    let c = cleanup(v7, e);
    assert(c =~= seq![ActionView::Remove(od), failed(e)]);
    let (w1, b1) = next_step(v7, post[0]);
    let (w2, b2) = next_step(w1, post[1]);
    assert(b1 == ActionView::Remove(od) && w1.stage == Stage::Draining);
    assert(b2 == failed(e) && w2.stage == Stage::Over);
    let p1 = post.skip(1);
    assert(p1.drop_first() =~= Seq::<DownloadAnswer>::empty() && p1[0] == post[1]);
    assert(run_steps(w2, p1.drop_first()) == (w2, Seq::<ActionView>::empty()));
    assert(run_steps(w1, p1).0 == w2);
    assert(run_steps(w1, p1).1 =~= seq![b2]);
    assert(post.drop_first() =~= p1);
    assert(run_steps(v7, post).1 =~= seq![b1, b2]);
    let acts = run_steps(v, pre + post).1;
    assert(acts =~= pacts + seq![b1, b2]);
    assert forall|i: int| 0 <= i < acts.len() implies acts[i] != ActionView::Report(DownloadPhase::Saved) by {
        if i < 7 {
            assert(acts[i] == pacts[i]);
        }
    }
    assert(!acts.contains(ActionView::Report(DownloadPhase::Saved)));
}


/// Failed fetches answered with `errs`, in turn.
pub open spec fn failed_fetches(errs: Seq<DownloadError>) -> Seq<DownloadAnswer> {
    Seq::new(errs.len(), |j: int| DownloadAnswer::Fetched(Err(errs[j])))
}

/// The fetches of the tag-definition candidates from the `from`-th fetch on
/// (counting from 0), `count` of them: each candidate is tried
/// [`MAX_DOWNLOAD_ATTEMPTS`] times before the next one.
pub open spec fn candidate_fetches(repo: Seq<char>, files: Seq<Seq<char>>, from: int, count: nat) -> Seq<
    ActionView,
> {
    Seq::new(count, |j: int| ActionView::Fetch(repo, files[(from + j) / (MAX_DOWNLOAD_ATTEMPTS as int)]))
}

/// The error that ends a download whose tag-definition candidates all
/// failed, the last failure being `e`.
pub open spec fn no_candidate_failure(v: RunView, e: DownloadError) -> ActionView {
    ActionView::Failed(
        AppErrorKind::Download,
        download_failure_message(v.repo, v.tag_files[0], e),
        Some(v.repo + "/"@ + v.tag_files[0]),
    )
}

/// From the `m`-th fetch of the candidates on, failures only lead through
/// the remaining attempts to the download error.
proof fn lemma_candidate_retries(w: RunView, m: int, errs: Seq<DownloadError>)
    requires
        0 <= m < 3 * w.tag_files.len(),
        w.tag_files.len() <= usize::MAX,
        w.stage == Stage::FetchTag((m / 3) as usize, (m % 3 + 1) as u8),
        errs.len() == 3 * w.tag_files.len() - m,
    ensures
        run_steps(w, failed_fetches(errs)).0.stage == Stage::Over,
        run_steps(w, failed_fetches(errs)).1 == candidate_fetches(
            w.repo,
            w.tag_files,
            m + 1,
            (errs.len() - 1) as nat,
        ) + seq![no_candidate_failure(w, errs.last())],
    decreases errs.len(),
{
    let ans = failed_fetches(errs);
    let i = m / 3;
    let k = m % 3 + 1;
    let (w1, x) = next_step(w, ans[0]);
    assert(ans[0] == DownloadAnswer::Fetched(Err(errs[0])));
    if errs.len() == 1 {
        assert(m == 3 * w.tag_files.len() - 1);
        assert(k == 3 && i + 1 == w.tag_files.len());
        assert(x == no_candidate_failure(w, errs[0]) && w1.stage == Stage::Over);
        assert(ans.drop_first() =~= Seq::<DownloadAnswer>::empty());
        assert(run_steps(w1, ans.drop_first()) == (w1, Seq::<ActionView>::empty()));
        assert(candidate_fetches(w.repo, w.tag_files, m + 1, 0) =~= Seq::<ActionView>::empty());
        assert(run_steps(w, ans).1 =~= seq![x]);
    } else {
        assert(x == ActionView::Fetch(w.repo, w.tag_files[(m + 1) / 3]));
        assert(w1.stage == Stage::FetchTag(((m + 1) / 3) as usize, ((m + 1) % 3 + 1) as u8));
        assert(w1.repo == w.repo && w1.tag_files == w.tag_files);
        let rest = errs.drop_first();
        assert(ans.drop_first() =~= failed_fetches(rest));
        lemma_candidate_retries(w1, m + 1, rest);
        assert(rest.last() == errs.last());
        assert(no_candidate_failure(w1, rest.last()) == no_candidate_failure(w, errs.last()));
        let tail = candidate_fetches(w.repo, w.tag_files, m + 2, (rest.len() - 1) as nat);
        assert(candidate_fetches(w.repo, w.tag_files, m + 1, (errs.len() - 1) as nat) =~= seq![x]
            + tail);
        assert(run_steps(w, ans).1 =~= seq![x] + (tail + seq![no_candidate_failure(w, errs.last())]));
    }
}

/// When the `.onnx` file comes but every tag-definition candidate fails,
/// the download tries each candidate exactly [`MAX_DOWNLOAD_ATTEMPTS`]
/// times, in their order, going on to the next only after the last attempt
/// of the one before, and ends as a download error with the last failure;
/// it writes, keeps aside and removes nothing.
pub proof fn law_no_candidate_comes(v: RunView, onnx: Vec<u8>, errs: Seq<DownloadError>)
    requires
        v.stage == Stage::Start,
        0 < v.tag_files.len() <= usize::MAX,
        errs.len() == 3 * v.tag_files.len(),
    ensures
        ({
            let answers = seq![
                DownloadAnswer::Ack { cancel_requested: false },
                DownloadAnswer::DirCreated(Ok(())),
                DownloadAnswer::Fetched(Ok(onnx)),
                DownloadAnswer::Ack { cancel_requested: false },
            ] + failed_fetches(errs);
            let (u, acts) = run_steps(v, answers);
            &&& u.stage == Stage::Over
            &&& acts == seq![
                ActionView::CreateDir(v.dir),
                ActionView::Fetch(v.repo, v.onnx_file),
                ActionView::Report(DownloadPhase::OnnxFetched),
            ] + candidate_fetches(v.repo, v.tag_files, 0, errs.len()) + seq![
                no_candidate_failure(v, errs.last()),
            ]
        }),
{
    let pre = seq![
        DownloadAnswer::Ack { cancel_requested: false },
        DownloadAnswer::DirCreated(Ok(())),
        DownloadAnswer::Fetched(Ok(onnx)),
        DownloadAnswer::Ack { cancel_requested: false },
    ];
    let post = failed_fetches(errs);
    let (v1, a1) = next_step(v, pre[0]);
    let (v2, a2) = next_step(v1, pre[1]);
    let (v3, a3) = next_step(v2, pre[2]);
    let (v4, a4) = next_step(v3, pre[3]);
    assert(v4.stage == Stage::FetchTag(0, 1) && a4 == ActionView::Fetch(v.repo, v.tag_files[0]));
    reveal_with_fuel(run_steps, 5);
    assert(pre.drop_first().drop_first().drop_first().drop_first() =~= Seq::<DownloadAnswer>::empty());
    assert(run_steps(v, pre).0 == v4);
    assert(run_steps(v, pre).1 =~= seq![a1, a2, a3, a4]);
    lemma_run_steps_append(v, pre, post);
    assert(v4.repo == v.repo && v4.tag_files == v.tag_files);
    lemma_candidate_retries(v4, 0, errs);
    let tail = candidate_fetches(v.repo, v.tag_files, 1, (errs.len() - 1) as nat);
    assert(candidate_fetches(v.repo, v.tag_files, 0, errs.len()) =~= seq![a4] + tail);
    assert(no_candidate_failure(v4, errs.last()) == no_candidate_failure(v, errs.last()));
    assert(run_steps(v, pre + post).1 =~= seq![a1, a2, a3] + (seq![a4] + tail) + seq![
        no_candidate_failure(v, errs.last()),
    ]);
}


/// From attempt `k` of the `.onnx` file on, failures answered with `errs`
/// and then the file: each failure asks for the file again, and the file is
/// reported fetched.
proof fn lemma_onnx_retries(w: RunView, k: u8, errs: Seq<DownloadError>, onnx: Vec<u8>)
    requires
        w.stage == Stage::FetchOnnx(k),
        1 <= k,
        k + errs.len() <= MAX_DOWNLOAD_ATTEMPTS,
    ensures
        run_steps(w, failed_fetches(errs).push(DownloadAnswer::Fetched(Ok(onnx)))).0.stage
            == Stage::AfterOnnx,
        run_steps(w, failed_fetches(errs).push(DownloadAnswer::Fetched(Ok(onnx)))).0.onnx == onnx@,
        run_steps(w, failed_fetches(errs).push(DownloadAnswer::Fetched(Ok(onnx)))).1 == Seq::new(
            errs.len(),
            |j: int| ActionView::Fetch(w.repo, w.onnx_file),
        ).push(ActionView::Report(DownloadPhase::OnnxFetched)),
    decreases errs.len(),
{
    let ans = failed_fetches(errs).push(DownloadAnswer::Fetched(Ok(onnx)));
    let (w1, x) = next_step(w, ans[0]);
    if errs.len() == 0 {
        assert(ans[0] == DownloadAnswer::Fetched(Ok(onnx)));
        assert(ans.drop_first() =~= Seq::<DownloadAnswer>::empty());
        assert(run_steps(w1, ans.drop_first()) == (w1, Seq::<ActionView>::empty()));
        assert(run_steps(w, ans).1 =~= seq![x]);
    } else {
        assert(ans[0] == DownloadAnswer::Fetched(Err(errs[0])));
        assert(w1.stage == Stage::FetchOnnx((k + 1) as u8));
        assert(x == ActionView::Fetch(w.repo, w.onnx_file));
        let rest = errs.drop_first();
        assert(ans.drop_first() =~= failed_fetches(rest).push(DownloadAnswer::Fetched(Ok(onnx))));
        lemma_onnx_retries(w1, (k + 1) as u8, rest, onnx);
        assert(w1.repo == w.repo && w1.onnx_file == w.onnx_file);
        assert(Seq::new(errs.len(), |j: int| ActionView::Fetch(w.repo, w.onnx_file)).push(
            ActionView::Report(DownloadPhase::OnnxFetched),
        ) =~= seq![x] + Seq::new(rest.len(), |j: int| ActionView::Fetch(w.repo, w.onnx_file)).push(
            ActionView::Report(DownloadPhase::OnnxFetched),
        ));
    }
}

/// The `.onnx` file is fetched until the first success, at most
/// [`MAX_DOWNLOAD_ATTEMPTS`] times: when its first attempts fail with
/// `errs` (fewer than the limit) and the next one brings the file, the
/// download asks for it exactly once per failure and once more, then
/// reports it fetched, holding the bytes of that last attempt.
pub proof fn law_onnx_comes_on_attempt(v: RunView, errs: Seq<DownloadError>, onnx: Vec<u8>)
    requires
        v.stage == Stage::Start,
        errs.len() < MAX_DOWNLOAD_ATTEMPTS,
    ensures
        ({
            let answers = seq![
                DownloadAnswer::Ack { cancel_requested: false },
                DownloadAnswer::DirCreated(Ok(())),
            ] + failed_fetches(errs).push(DownloadAnswer::Fetched(Ok(onnx)));
            let (u, acts) = run_steps(v, answers);
            &&& u.stage == Stage::AfterOnnx
            &&& u.onnx == onnx@
            &&& acts == seq![ActionView::CreateDir(v.dir)] + Seq::new(
                errs.len() + 1,
                |j: int| ActionView::Fetch(v.repo, v.onnx_file),
            ) + seq![ActionView::Report(DownloadPhase::OnnxFetched)]
        }),
{
    let pre = seq![
        DownloadAnswer::Ack { cancel_requested: false },
        DownloadAnswer::DirCreated(Ok(())),
    ];
    let post = failed_fetches(errs).push(DownloadAnswer::Fetched(Ok(onnx)));
    let (v1, a1) = next_step(v, pre[0]);
    let (v2, a2) = next_step(v1, pre[1]);
    assert(v2.stage == Stage::FetchOnnx(1));
    reveal_with_fuel(run_steps, 3);
    assert(pre.drop_first().drop_first() =~= Seq::<DownloadAnswer>::empty());
    assert(run_steps(v, pre).0 == v2);
    assert(run_steps(v, pre).1 =~= seq![a1, a2]);
    lemma_run_steps_append(v, pre, post);
    lemma_onnx_retries(v2, 1, errs, onnx);
    assert(v2.repo == v.repo && v2.onnx_file == v.onnx_file);
    let fetches = Seq::new(errs.len() + 1, |j: int| ActionView::Fetch(v.repo, v.onnx_file));
    assert(seq![a1, a2] + Seq::new(errs.len(), |j: int| ActionView::Fetch(v.repo, v.onnx_file)).push(
        ActionView::Report(DownloadPhase::OnnxFetched),
    ) =~= seq![ActionView::CreateDir(v.dir)] + fetches + seq![
        ActionView::Report(DownloadPhase::OnnxFetched),
    ]);
}


/// Once the `.onnx` file is reported fetched, a cancel asked at that point
/// ends the download as cancelled, and a variant with no tag-definition
/// candidate ends it as a download error about `tag-definition`; either
/// way nothing more is fetched and no file is written.
pub proof fn law_stops_after_onnx(v: RunView, onnx: Vec<u8>, cancel: bool)
    requires
        v.stage == Stage::Start,
        cancel || v.tag_files.len() == 0,
    ensures
        ({
            let answers = seq![
                DownloadAnswer::Ack { cancel_requested: false },
                DownloadAnswer::DirCreated(Ok(())),
                DownloadAnswer::Fetched(Ok(onnx)),
                DownloadAnswer::Ack { cancel_requested: cancel },
            ];
            let (u, acts) = run_steps(v, answers);
            &&& u.stage == Stage::Over
            &&& acts.len() == 4
            &&& acts.take(3) == seq![
                ActionView::CreateDir(v.dir),
                ActionView::Fetch(v.repo, v.onnx_file),
                ActionView::Report(DownloadPhase::OnnxFetched),
            ]
            &&& cancel ==> acts[3] == cancelled()
            &&& !cancel ==> acts[3] matches ActionView::Failed(AppErrorKind::Download, _, _)
        }),
{
    reveal_with_fuel(run_steps, 5);
    let answers = seq![
        DownloadAnswer::Ack { cancel_requested: false },
        DownloadAnswer::DirCreated(Ok(())),
        DownloadAnswer::Fetched(Ok(onnx)),
        DownloadAnswer::Ack { cancel_requested: cancel },
    ];
    let (v1, a1) = next_step(v, answers[0]);
    let (v2, a2) = next_step(v1, answers[1]);
    let (v3, a3) = next_step(v2, answers[2]);
    let (v4, a4) = next_step(v3, answers[3]);
    assert(v4.stage == Stage::Over);
    assert(answers.drop_first().drop_first().drop_first().drop_first() =~= Seq::<DownloadAnswer>::empty());
    assert(run_steps(v, answers).1 =~= seq![a1, a2, a3, a4]);
}

/// A cancel asked once the tag definition is reported fetched ends a new
/// download as cancelled before anything is written: the folder is left
/// with none of the variant's files.
pub proof fn law_cancel_after_fetching_writes_nothing(v: RunView, onnx: Vec<u8>, tagdef: Vec<u8>)
    requires
        v.stage == Stage::Start,
        v.tag_files.len() > 0,
    ensures
        ({
            let answers = happy_answers(onnx, tagdef).take(5).push(
                DownloadAnswer::Ack { cancel_requested: true },
            );
            let (u, acts) = run_steps(v, answers);
            &&& u.stage == Stage::Over
            &&& acts == seq![
                ActionView::CreateDir(v.dir),
                ActionView::Fetch(v.repo, v.onnx_file),
                ActionView::Report(DownloadPhase::OnnxFetched),
                ActionView::Fetch(v.repo, v.tag_files[0]),
                ActionView::Report(DownloadPhase::TagDefinitionFetched),
                cancelled(),
            ]
        }),
{
    reveal_with_fuel(run_steps, 7);
    let answers = happy_answers(onnx, tagdef).take(5).push(DownloadAnswer::Ack { cancel_requested: true });
    let (v1, a1) = next_step(v, answers[0]);
    assert(a1 == ActionView::CreateDir(v.dir) && v1.stage == Stage::MakeDir);
    let (v2, a2) = next_step(v1, answers[1]);
    assert(a2 == ActionView::Fetch(v.repo, v.onnx_file) && v2.stage == Stage::FetchOnnx(1));
    let (v3, a3) = next_step(v2, answers[2]);
    assert(a3 == ActionView::Report(DownloadPhase::OnnxFetched) && v3.stage == Stage::AfterOnnx);
    let (v4, a4) = next_step(v3, answers[3]);
    assert(a4 == ActionView::Fetch(v.repo, v.tag_files[0]) && v4.stage == Stage::FetchTag(0, 1));
    let (v5, a5) = next_step(v4, answers[4]);
    assert(a5 == ActionView::Report(DownloadPhase::TagDefinitionFetched) && v5.stage == Stage::AfterTag);
    let (v6, a6) = next_step(v5, answers[5]);
    assert(a6 == cancelled() && v6.stage == Stage::Over);
    let t6 = answers.skip(6);
    assert(t6 =~= Seq::<DownloadAnswer>::empty());
    assert(run_steps(v6, t6) == (v6, Seq::<ActionView>::empty()));
    let t5 = answers.skip(5);
    assert(t5.drop_first() =~= t6 && t5[0] == answers[5]);
    assert(run_steps(v5, t5).1 =~= seq![a6]);
    let t4 = answers.skip(4);
    assert(t4.drop_first() =~= t5 && t4[0] == answers[4]);
    assert(run_steps(v4, t4).1 =~= seq![a5, a6]);
    let t3 = answers.skip(3);
    assert(t3.drop_first() =~= t4 && t3[0] == answers[3]);
    assert(run_steps(v3, t3).1 =~= seq![a4, a5, a6]);
    let t2 = answers.skip(2);
    assert(t2.drop_first() =~= t3 && t2[0] == answers[2]);
    assert(run_steps(v2, t2).1 =~= seq![a3, a4, a5, a6]);
    let t1 = answers.skip(1);
    assert(t1.drop_first() =~= t2 && t1[0] == answers[1]);
    assert(run_steps(v1, t1).1 =~= seq![a2, a3, a4, a5, a6]);
    assert(answers.drop_first() =~= t1);
    assert(run_steps(v, answers).1 =~= seq![a1, a2, a3, a4, a5, a6]);
    assert(run_steps(v, answers).0 == v6);
}

} // verus!
