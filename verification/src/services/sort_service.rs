//! Sorting images between folders: moving or copying image/tag-file pairs,
//! gathering subfolders into one folder, distributing gathered names back,
//! and routing by size or by tag. The caller reads folders and performs the
//! moves; this module decides each step and keeps the report.
use vstd::prelude::*;
use crate::error::{AppError, AppErrorKind, AppResult};
use crate::logic::file_names::{paired_tag_file_name, paired_tag_name};
use crate::logic::order::{sort_names, sorted_names};
use crate::logic::paths::{join_with, joined, main_separator, platform_sep};
use crate::logic::naming::{dec, dec_chars};
use crate::logic::sorting::{
    decide_size_destination, is_valid_long_side_threshold, LongSideBand, Orientation,
    SizeDestination, MAX_LONG_SIDE_THRESHOLD, MIN_LONG_SIDE_THRESHOLD,
};
use crate::logic::text::{concat2, concat3, owned, push_str, string_of, string_views};
use crate::models::{DirEntryInfo, OperationReport, SortingOperation};

verus! {

// ---------------------------------------------------------------------------
// Folders
// ---------------------------------------------------------------------------

/// What probing a folder gave.
#[derive(Debug, Clone)]
pub enum FolderProbe {
    /// A folder that can be listed.
    Folder,
    /// Something that is not a folder.
    NotFolder,
    /// The probe failed (missing, no permission, ...).
    Failed(AppError),
}

/// The error of a path that is not a folder.
pub open spec fn not_folder_message(role: Seq<char>) -> Seq<char> {
    role + "がフォルダではありません"@
}

/// Checks that a folder can be used: a failed probe is its error, something
/// else than a folder is invalid input; both carry the path.
pub fn ensure_dir_accessible(path: &str, role: &str, probe: &FolderProbe) -> (r: AppResult<()>)
    ensures
        match probe {
            FolderProbe::Folder => r is Ok,
            FolderProbe::NotFolder => (r matches Err(e) && e.kind == AppErrorKind::InvalidInput
                && e.message@ == not_folder_message(role@) && e.path_view() == Some(path@)),
            FolderProbe::Failed(f) => (r matches Err(e) && e.kind == f.kind && e.message@
                == f.message@ && e.path_view() == Some(path@)),
        },
{
    match probe {
        FolderProbe::Folder => Ok(()),
        FolderProbe::NotFolder => {
            let e = AppError::new(
                AppErrorKind::InvalidInput,
                concat2(role, "がフォルダではありません"),
            );
            Err(e.with_path(owned(path)))
        },
        FolderProbe::Failed(f) => {
            let e = AppError::new(f.kind, f.message.clone());
            Err(e.with_path(owned(path)))
        },
    }
}

/// Checks both folders of a sort before anything is touched: the source
/// first, then the destination. Gives back the operation to run.
pub fn sort_files(
    op: SortingOperation,
    source: &str,
    dest: &str,
    source_probe: &FolderProbe,
    dest_probe: &FolderProbe,
) -> (r: AppResult<SortingOperation>)
    ensures
        match r {
            Ok(o) => o == op && source_probe is Folder && dest_probe is Folder,
            Err(e) => !(source_probe is Folder) ==> e.path_view() == Some(source@),
        },
        source_probe is Folder && !(dest_probe is Folder) ==> (r matches Err(e) && e.path_view()
            == Some(dest@)),
{
    ensure_dir_accessible(source, "対象フォルダ", source_probe)?;
    ensure_dir_accessible(dest, "宛先フォルダ", dest_probe)?;
    Ok(op)
}

/// Names of the entries that are not folders, in listing order.
pub open spec fn file_entry_names(entries: Seq<DirEntryInfo>) -> Seq<Seq<char>>
    decreases entries.len(),
{
    if entries.len() == 0 {
        Seq::empty()
    } else {
        let r = file_entry_names(entries.drop_last());
        if entries.last().is_dir {
            r
        } else {
            r.push(entries.last().name@)
        }
    }
}

/// Names of the entries that are folders, in listing order.
pub open spec fn folder_entry_names(entries: Seq<DirEntryInfo>) -> Seq<Seq<char>>
    decreases entries.len(),
{
    if entries.len() == 0 {
        Seq::empty()
    } else {
        let r = folder_entry_names(entries.drop_last());
        if entries.last().is_dir {
            r.push(entries.last().name@)
        } else {
            r
        }
    }
}

fn names_where(entries: &Vec<DirEntryInfo>, dirs: bool) -> (out: Vec<String>)
    ensures
        string_views(out@) == if dirs {
            folder_entry_names(entries@)
        } else {
            file_entry_names(entries@)
        },
{
    let mut out: Vec<String> = Vec::new();
    let mut i: usize = 0;
    proof {
        assert(entries@.take(0) =~= Seq::<DirEntryInfo>::empty());
    }
    while i < entries.len()
        invariant
            i <= entries.len(),
            string_views(out@) == if dirs {
                folder_entry_names(entries@.take(i as int))
            } else {
                file_entry_names(entries@.take(i as int))
            },
        decreases entries.len() - i,
    {
        proof {
            assert(entries@.take(i + 1).drop_last() =~= entries@.take(i as int));
            assert(entries@.take(i + 1).last() == entries@[i as int]);
        }
        if entries[i].is_dir == dirs {
            let ghost before = out@;
            out.push(entries[i].name.clone());
            proof {
                assert(string_views(out@) =~= string_views(before).push(entries@[i as int].name@));
            }
        }
        i += 1;
    }
    proof {
        assert(entries@.take(entries.len() as int) =~= entries@);
    }
    out
}

/// The names of the files of a folder (not its subfolders), in ascending
/// order.
pub fn list_file_names(entries: &Vec<DirEntryInfo>) -> (out: Vec<String>)
    ensures
        string_views(out@) == sorted_names(file_entry_names(entries@)),
{
    let names = names_where(entries, false);
    sort_names(&names)
}

/// The names of the subfolders of a folder, in ascending order.
pub fn list_subfolder_names(entries: &Vec<DirEntryInfo>) -> (out: Vec<String>)
    ensures
        string_views(out@) == sorted_names(folder_entry_names(entries@)),
{
    let names = names_where(entries, true);
    sort_names(&names)
}

// ---------------------------------------------------------------------------
// Image and tag-file pairs
// ---------------------------------------------------------------------------

/// The paths of moving an image and its tag file from one folder and name
/// to another.
#[derive(Debug, Clone, PartialEq, Eq)]
pub struct PairPlan {
    pub src_image: String,
    pub dst_image: String,
    pub src_tag: String,
    pub dst_tag: String,
}

/// `p` holds the paths of the pair `src_dir/src_name` to
/// `dst_dir/dst_name` with separator `sep`: the tag files are the stems of
/// the names with `.txt`, in the same folders.
pub open spec fn pair_paths(
    p: PairPlan,
    src_dir: Seq<char>,
    src_name: Seq<char>,
    dst_dir: Seq<char>,
    dst_name: Seq<char>,
    sep: char,
) -> bool {
    &&& p.src_image@ == joined(src_dir, src_name, sep)
    &&& p.dst_image@ == joined(dst_dir, dst_name, sep)
    &&& p.src_tag@ == joined(src_dir, paired_tag_name(src_name), sep)
    &&& p.dst_tag@ == joined(dst_dir, paired_tag_name(dst_name), sep)
}

/// The paths of the pair `src_dir/src_name` to `dst_dir/dst_name` (see
/// [`pair_paths`]).
pub fn plan_pair(src_dir: &str, src_name: &str, dst_dir: &str, dst_name: &str) -> (p: PairPlan)
    ensures
        exists|sep: char|
            #![trigger platform_sep(sep)]
            platform_sep(sep) && pair_paths(p, src_dir@, src_name@, dst_dir@, dst_name@, sep),
{
    let sep = main_separator();
    let src_tag_name = paired_tag_file_name(src_name);
    let dst_tag_name = paired_tag_file_name(dst_name);
    let p = PairPlan {
        src_image: join_with(src_dir, src_name, sep),
        dst_image: join_with(dst_dir, dst_name, sep),
        src_tag: join_with(src_dir, src_tag_name.as_str(), sep),
        dst_tag: join_with(dst_dir, dst_tag_name.as_str(), sep),
    };
    proof {
        assert(platform_sep(sep));
    }
    p
}

/// What to do with a pair.
#[derive(Debug, Clone, Copy, PartialEq, Eq, Structural)]
pub enum PairAction {
    /// Leave both in place: one of them would overwrite an existing file.
    Conflict,
    /// Move (or copy) the image, then its tag file when `with_tag`.
    Transfer { with_tag: bool },
}

/// The action for a pair: a conflict when the image's destination exists,
/// or the tag file takes part and its destination exists; otherwise a
/// transfer, with the tag file when it takes part.
pub fn pair_action(with_tag: bool, dst_image_exists: bool, dst_tag_exists: bool) -> (a: PairAction)
    ensures
        a == if dst_image_exists || (with_tag && dst_tag_exists) {
            PairAction::Conflict
        } else {
            PairAction::Transfer { with_tag }
        },
{
    if dst_image_exists || (with_tag && dst_tag_exists) {
        PairAction::Conflict
    } else {
        PairAction::Transfer { with_tag }
    }
}

/// What undoes a transferred image after its tag file failed to follow: a
/// moved image goes back, a copied one is removed.
#[derive(Debug, Clone, Copy, PartialEq, Eq, Structural)]
pub enum Rollback {
    MoveBack,
    RemoveCopy,
}

/// The rollback of a transfer (see [`Rollback`]).
pub fn rollback_of(is_move: bool) -> (r: Rollback)
    ensures
        r == if is_move {
            Rollback::MoveBack
        } else {
            Rollback::RemoveCopy
        },
{
    if is_move {
        Rollback::MoveBack
    } else {
        Rollback::RemoveCopy
    }
}

// ---------------------------------------------------------------------------
// Transferring a pair
// ---------------------------------------------------------------------------

/// Where the transfer of a pair stands.
#[derive(Debug, Clone, PartialEq, Eq)]
pub enum PairStage {
    /// The image is to go.
    Image,
    /// The image went; its tag file is to follow.
    Tag,
    /// The tag file failed for the reason given; the image is to be undone.
    Undo(String),
    /// The pair ended so.
    Over(StepOutcome),
}

/// What the caller is to do next for a pair.
#[derive(Debug, Clone, PartialEq, Eq)]
pub enum PairStep {
    /// Move (or copy) `src` to `dst` and report how it went.
    Transfer { src: String, dst: String, is_move: bool },
    /// Undo the image: move `from` back to `to`, or remove the copy `from`;
    /// then report (how it went does not matter).
    Undo { rollback: Rollback, from: String, to: String },
    /// Nothing left to do.
    Finished,
}

/// The transfer of an image and its tag file, one step at a time, so that
/// the pair is never left split: when the tag file cannot follow its image,
/// the image is undone.
#[derive(Debug, Clone, PartialEq, Eq)]
pub struct PairRun {
    /// The paths of the pair.
    pub plan: PairPlan,
    /// Move (`true`) or copy.
    pub is_move: bool,
    /// Whether the tag file takes part.
    pub with_tag: bool,
    /// Where the transfer stands.
    pub stage: PairStage,
}

/// The stage after the step of `stage` went as `result`.
pub open spec fn pair_next(stage: PairStage, with_tag: bool, result: Result<(), String>) -> PairStage {
    match stage {
        PairStage::Image => match result {
            Ok(_) => if with_tag {
                PairStage::Tag
            } else {
                PairStage::Over(StepOutcome::Done)
            },
            Err(e) => PairStage::Over(StepOutcome::Failed(e)),
        },
        PairStage::Tag => match result {
            Ok(_) => PairStage::Over(StepOutcome::Done),
            Err(e) => PairStage::Undo(e),
        },
        PairStage::Undo(e) => PairStage::Over(StepOutcome::Undone(e)),
        PairStage::Over(o) => PairStage::Over(o),
    }
}

/// Whether a pair is in conflict: its image's destination exists, or its
/// tag file takes part and its destination exists or is the image's own.
pub open spec fn in_conflict(plan: PairPlan, with_tag: bool, dst_image_exists: bool, dst_tag_exists: bool) -> bool {
    dst_image_exists || (with_tag && (dst_tag_exists || plan.dst_image@ == plan.dst_tag@))
}

/// Where the transfer of a pair starts: over, as a conflict, when it is in
/// conflict; otherwise at its image.
pub open spec fn pair_start(plan: PairPlan, with_tag: bool, dst_image_exists: bool, dst_tag_exists: bool) -> PairStage {
    if in_conflict(plan, with_tag, dst_image_exists, dst_tag_exists) {
        PairStage::Over(StepOutcome::Conflict)
    } else {
        PairStage::Image
    }
}

/// The rollback of a transfer, as a value.
pub open spec fn rollback_for(is_move: bool) -> Rollback {
    if is_move {
        Rollback::MoveBack
    } else {
        Rollback::RemoveCopy
    }
}

impl PairRun {
    /// Starts the transfer of a pair: a conflict ends it at once, otherwise
    /// the image goes first. A conflict is a destination that exists (see
    /// [`pair_action`]), or a tag file that takes part and would land on the
    /// image's own destination (so that neither overwrites the other).
    pub fn new(
        plan: PairPlan,
        is_move: bool,
        with_tag: bool,
        dst_image_exists: bool,
        dst_tag_exists: bool,
    ) -> (r: PairRun)
        ensures
            r.plan == plan,
            r.is_move == is_move,
            r.with_tag == with_tag,
            r.stage == pair_start(plan, with_tag, dst_image_exists, dst_tag_exists),
    {
        let same_destination = crate::logic::text::str_eq(
            plan.dst_image.as_str(),
            plan.dst_tag.as_str(),
        );
        let stage = match pair_action(with_tag, dst_image_exists, dst_tag_exists || same_destination) {
            PairAction::Conflict => PairStage::Over(StepOutcome::Conflict),
            PairAction::Transfer { .. } => PairStage::Image,
        };
        PairRun { plan, is_move, with_tag, stage }
    }

    /// The next step: the image, then the tag file, then the undo of the
    /// image when the tag file failed.
    pub fn step(&self) -> (s: PairStep)
        ensures
            match self.stage {
                PairStage::Image => s matches PairStep::Transfer { src, dst, is_move } && src@
                    == self.plan.src_image@ && dst@ == self.plan.dst_image@ && is_move == self.is_move,
                PairStage::Tag => s matches PairStep::Transfer { src, dst, is_move } && src@
                    == self.plan.src_tag@ && dst@ == self.plan.dst_tag@ && is_move == self.is_move,
                PairStage::Undo(_) => s matches PairStep::Undo { rollback, from, to } && rollback
                    == rollback_for(self.is_move) && from@ == self.plan.dst_image@ && to@
                    == self.plan.src_image@,
                PairStage::Over(_) => s is Finished,
            },
    {
        match &self.stage {
            PairStage::Image => PairStep::Transfer {
                src: self.plan.src_image.clone(),
                dst: self.plan.dst_image.clone(),
                is_move: self.is_move,
            },
            PairStage::Tag => PairStep::Transfer {
                src: self.plan.src_tag.clone(),
                dst: self.plan.dst_tag.clone(),
                is_move: self.is_move,
            },
            PairStage::Undo(_) => PairStep::Undo {
                rollback: rollback_of(self.is_move),
                from: self.plan.dst_image.clone(),
                to: self.plan.src_image.clone(),
            },
            PairStage::Over(_) => PairStep::Finished,
        }
    }

    /// Takes how the last step went.
    pub fn report(&mut self, result: Result<(), String>)
        requires
            !(old(self).stage is Over),
        ensures
            final(self).stage == pair_next(old(self).stage, old(self).with_tag, result),
            final(self).plan == old(self).plan,
            final(self).is_move == old(self).is_move,
            final(self).with_tag == old(self).with_tag,
    {
        let mut stage = PairStage::Image;
        std::mem::swap(&mut stage, &mut self.stage);
        self.stage = match stage {
            PairStage::Image => match result {
                Ok(_) => if self.with_tag {
                    PairStage::Tag
                } else {
                    PairStage::Over(StepOutcome::Done)
                },
                Err(e) => PairStage::Over(StepOutcome::Failed(e)),
            },
            PairStage::Tag => match result {
                Ok(_) => PairStage::Over(StepOutcome::Done),
                Err(e) => PairStage::Undo(e),
            },
            PairStage::Undo(e) => PairStage::Over(StepOutcome::Undone(e)),
            PairStage::Over(o) => PairStage::Over(o),
        };
    }

    /// How the pair ended, once it has.
    pub fn outcome(self) -> (o: Option<StepOutcome>)
        ensures
            match self.stage {
                PairStage::Over(x) => o == Some(x),
                _ => o is None,
            },
    {
        match self.stage {
            PairStage::Over(x) => Some(x),
            _ => None,
        }
    }
}

/// A pair in conflict is left whole where it is: its transfer is over from
/// the start, as a conflict, so no step moves or copies either file, and
/// nothing reported changes that; a pair not in conflict starts at its
/// image.
pub proof fn law_conflict_moves_nothing(
    plan: PairPlan,
    with_tag: bool,
    dst_image_exists: bool,
    dst_tag_exists: bool,
    r: Result<(), String>,
)
    ensures
        in_conflict(plan, with_tag, dst_image_exists, dst_tag_exists) ==> pair_start(
            plan,
            with_tag,
            dst_image_exists,
            dst_tag_exists,
        ) == PairStage::Over(StepOutcome::Conflict) && pair_next(
            PairStage::Over(StepOutcome::Conflict),
            with_tag,
            r,
        ) == PairStage::Over(StepOutcome::Conflict),
        !in_conflict(plan, with_tag, dst_image_exists, dst_tag_exists) ==> pair_start(
            plan,
            with_tag,
            dst_image_exists,
            dst_tag_exists,
        ) == PairStage::Image,
{
}

/// A pair ends within three steps; it ends done exactly when its image went
/// and, when the tag file takes part, the tag file went too; and when the
/// tag file fails after its image went, the image is undone before the pair
/// ends.
pub proof fn law_pair_kept_whole(
    with_tag: bool,
    r1: Result<(), String>,
    r2: Result<(), String>,
    r3: Result<(), String>,
)
    ensures
        ({
            let s1 = pair_next(PairStage::Image, with_tag, r1);
            let s2 = pair_next(s1, with_tag, r2);
            let s3 = pair_next(s2, with_tag, r3);
            &&& s3 is Over
            &&& (s3 == PairStage::Over(StepOutcome::Done) <==> (r1 is Ok && (with_tag ==> r2 is Ok)))
            &&& (r1 is Ok && with_tag && r2 is Err) ==> (s2 is Undo && s3 matches PairStage::Over(
                StepOutcome::Undone(_),
            ))
        }),
{
}

// ---------------------------------------------------------------------------
// Reports
// ---------------------------------------------------------------------------

/// One item of a batch operation, with the names its messages use.
#[derive(Debug, Clone, PartialEq, Eq)]
pub enum ItemJob {
    /// Move or copy of an image pair.
    Transfer { name: String },
    /// Sorting an image pair into a size subfolder.
    BySize { name: String, subfolder: String },
    /// Sorting an image pair by tag.
    ByTag { name: String },
    /// Renaming an image pair.
    Rename { old: String },
    /// Gathering one file of a subfolder under a prefixed name.
    Gather { gathered: String, subfolder: String, file: String },
    /// Distributing one gathered file into its subfolder.
    Distribute { name: String, prefix: String, original: String },
    /// Normalising the name of a tag file.
    Normalize { old: String, new: String },
}

/// How one item ended.
#[derive(Debug, Clone, PartialEq, Eq)]
pub enum StepOutcome {
    /// Done.
    Done,
    /// Left in place because its destination exists.
    Conflict,
    /// The move failed; the text says why.
    Failed(String),
    /// The image moved but its tag file did not; the image was put back.
    Undone(String),
}

/// The message of an item left in place for a conflict.
pub open spec fn conflict_message(job: ItemJob) -> Seq<char> {
    match job {
        ItemJob::Transfer { name } => name@ + " は宛先に同名ファイルが存在するため処理しませんでした"@,
        ItemJob::BySize { name, subfolder } => name@ + " は振り分け先 "@ + subfolder@
            + " に同名ファイルが存在するため移動しませんでした"@,
        ItemJob::ByTag { name } => name@ + " は振り分け先に同名ファイルが存在するため移動しませんでした"@,
        ItemJob::Rename { old } => old@ + " は改名後の名前が既存ファイルと衝突するため改名しませんでした"@,
        ItemJob::Gather { gathered, .. } => gathered@
            + " は宛先に同名ファイルが存在するため処理しませんでした"@,
        ItemJob::Distribute { prefix, original, .. } => prefix@ + "/"@ + original@
            + " は宛先に同名ファイルが存在するため処理しませんでした"@,
        ItemJob::Normalize { old, new } => old@ + " は正規化後の名前 \""@ + new@
            + "\" が既存ファイルと衝突するため改名しませんでした"@,
    }
}

/// The message of an item whose move failed.
pub open spec fn failure_message(job: ItemJob, e: Seq<char>) -> Seq<char> {
    match job {
        ItemJob::Transfer { name } => name@ + " の処理に失敗したためスキップしました: "@ + e,
        ItemJob::BySize { name, .. } => name@ + " の移動に失敗したためスキップしました: "@ + e,
        ItemJob::ByTag { name } => name@ + " の移動に失敗したためスキップしました: "@ + e,
        ItemJob::Rename { old } => old@ + " の改名に失敗したためスキップしました: "@ + e,
        ItemJob::Gather { subfolder, file, .. } => subfolder@ + "/"@ + file@
            + " の処理に失敗したためスキップしました: "@ + e,
        ItemJob::Distribute { name, .. } => name@ + " の処理に失敗したためスキップしました: "@ + e,
        ItemJob::Normalize { old, .. } => old@ + " の改名に失敗したためスキップしました: "@ + e,
    }
}

/// The message of a pair whose tag file failed to follow its image.
pub open spec fn undone_message(job: ItemJob, e: Seq<char>) -> Seq<char> {
    match job {
        ItemJob::Transfer { name } => name@
            + " の対 Tag_File の処理に失敗したため処理を取り消しました: "@ + e,
        ItemJob::Rename { old } => old@ + " の対 Tag_File の改名に失敗したため改名を取り消しました: "@
            + e,
        ItemJob::BySize { name, .. } => name@
            + " の対 Tag_File の移動に失敗したため移動を取り消しました: "@ + e,
        ItemJob::ByTag { name } => name@ + " の対 Tag_File の移動に失敗したため移動を取り消しました: "@
            + e,
        _ => failure_message(job, e),
    }
}

/// The report after one more item: a success is counted; a conflict is
/// counted with its message; a failure or an undone pair is skipped with its
/// message.
pub open spec fn report_after(
    r: (usize, usize, usize, Seq<Seq<char>>),
    job: ItemJob,
    outcome: StepOutcome,
) -> (usize, usize, usize, Seq<Seq<char>>) {
    match outcome {
        StepOutcome::Done => ((r.0 + 1) as usize, r.1, r.2, r.3),
        StepOutcome::Conflict => (r.0, (r.1 + 1) as usize, r.2, r.3.push(conflict_message(job))),
        StepOutcome::Failed(e) => (r.0, r.1, (r.2 + 1) as usize, r.3.push(failure_message(job, e@))),
        StepOutcome::Undone(e) => (r.0, r.1, (r.2 + 1) as usize, r.3.push(undone_message(job, e@))),
    }
}

fn conflict_text(job: &ItemJob) -> (m: String)
    ensures
        m@ == conflict_message(*job),
{
    match job {
        ItemJob::Transfer { name } => concat2(
            name.as_str(),
            " は宛先に同名ファイルが存在するため処理しませんでした",
        ),
        ItemJob::BySize { name, subfolder } => {
            let mut m = concat3(name.as_str(), " は振り分け先 ", subfolder.as_str());
            push_str(&mut m, " に同名ファイルが存在するため移動しませんでした");
            m
        },
        ItemJob::ByTag { name } => concat2(
            name.as_str(),
            " は振り分け先に同名ファイルが存在するため移動しませんでした",
        ),
        ItemJob::Rename { old } => concat2(
            old.as_str(),
            " は改名後の名前が既存ファイルと衝突するため改名しませんでした",
        ),
        ItemJob::Gather { gathered, .. } => concat2(
            gathered.as_str(),
            " は宛先に同名ファイルが存在するため処理しませんでした",
        ),
        ItemJob::Distribute { prefix, original, .. } => {
            let mut m = concat3(prefix.as_str(), "/", original.as_str());
            push_str(&mut m, " は宛先に同名ファイルが存在するため処理しませんでした");
            m
        },
        ItemJob::Normalize { old, new } => {
            let mut m = concat3(old.as_str(), " は正規化後の名前 \"", new.as_str());
            push_str(&mut m, "\" が既存ファイルと衝突するため改名しませんでした");
            m
        },
    }
}

fn failure_text(job: &ItemJob, e: &str) -> (m: String)
    ensures
        m@ == failure_message(*job, e@),
{
    match job {
        ItemJob::Transfer { name } => concat3(
            name.as_str(),
            " の処理に失敗したためスキップしました: ",
            e,
        ),
        ItemJob::BySize { name, .. } => concat3(
            name.as_str(),
            " の移動に失敗したためスキップしました: ",
            e,
        ),
        ItemJob::ByTag { name } => concat3(
            name.as_str(),
            " の移動に失敗したためスキップしました: ",
            e,
        ),
        ItemJob::Rename { old } => concat3(old.as_str(), " の改名に失敗したためスキップしました: ", e),
        ItemJob::Gather { subfolder, file, .. } => {
            let mut m = concat3(subfolder.as_str(), "/", file.as_str());
            push_str(&mut m, " の処理に失敗したためスキップしました: ");
            push_str(&mut m, e);
            m
        },
        ItemJob::Distribute { name, .. } => concat3(
            name.as_str(),
            " の処理に失敗したためスキップしました: ",
            e,
        ),
        ItemJob::Normalize { old, .. } => concat3(
            old.as_str(),
            " の改名に失敗したためスキップしました: ",
            e,
        ),
    }
}

fn undone_text(job: &ItemJob, e: &str) -> (m: String)
    ensures
        m@ == undone_message(*job, e@),
{
    match job {
        ItemJob::Transfer { name } => concat3(
            name.as_str(),
            " の対 Tag_File の処理に失敗したため処理を取り消しました: ",
            e,
        ),
        ItemJob::Rename { old } => concat3(
            old.as_str(),
            " の対 Tag_File の改名に失敗したため改名を取り消しました: ",
            e,
        ),
        ItemJob::BySize { name, .. } => concat3(
            name.as_str(),
            " の対 Tag_File の移動に失敗したため移動を取り消しました: ",
            e,
        ),
        ItemJob::ByTag { name } => concat3(
            name.as_str(),
            " の対 Tag_File の移動に失敗したため移動を取り消しました: ",
            e,
        ),
        _ => failure_text(job, e),
    }
}

/// Records how one item ended (see [`report_after`]).
pub fn record_outcome(report: &mut OperationReport, job: &ItemJob, outcome: &StepOutcome)
    requires
        old(report).succeeded < usize::MAX,
        old(report).conflicted < usize::MAX,
        old(report).skipped < usize::MAX,
    ensures
        final(report)@ == report_after(old(report)@, *job, *outcome),
{
    let ghost before = report.messages@;
    match outcome {
        StepOutcome::Done => {
            report.succeeded += 1;
        },
        StepOutcome::Conflict => {
            report.conflicted += 1;
            let m = conflict_text(job);
            report.messages.push(m);
        },
        StepOutcome::Failed(e) => {
            report.skipped += 1;
            let m = failure_text(job, e.as_str());
            report.messages.push(m);
        },
        StepOutcome::Undone(e) => {
            report.skipped += 1;
            let m = undone_text(job, e.as_str());
            report.messages.push(m);
        },
    }
    proof {
        match *outcome {
            StepOutcome::Done => {},
            _ => {
                assert(string_views(report.messages@) =~= string_views(before).push(
                    report.messages@.last()@,
                ));
            },
        }
    }
}

/// Records an item skipped before any move, with its message.
pub fn record_skip(report: &mut OperationReport, message: String)
    requires
        old(report).skipped < usize::MAX,
    ensures
        final(report)@ == (
            old(report)@.0,
            old(report)@.1,
            (old(report)@.2 + 1) as usize,
            old(report)@.3.push(message@),
        ),
{
    let ghost before = report.messages@;
    report.skipped += 1;
    report.messages.push(message);
    proof {
        assert(string_views(report.messages@) =~= string_views(before).push(message@));
    }
}

/// A report that only carries a notice: nothing was done.
pub fn notice_report(message: String) -> (r: OperationReport)
    ensures
        r@ == (0usize, 0usize, 0usize, seq![message@]),
{
    let mut r = OperationReport::empty();
    r.messages.push(message);
    proof {
        assert(string_views(r.messages@) =~= seq![message@]);
    }
    r
}

// ---------------------------------------------------------------------------
// Messages of items skipped before any move
// ---------------------------------------------------------------------------

/// A subfolder that could not be listed while gathering.
pub fn unreadable_subfolder_message(subfolder: &str, e: &str) -> (m: String)
    ensures
        m@ == "サブフォルダ "@ + subfolder@ + " を読み取れないためスキップしました: "@ + e@,
{
    let mut m = concat3("サブフォルダ ", subfolder, " を読み取れないためスキップしました: ");
    push_str(&mut m, e);
    m
}

/// A name that does not split into prefix and original name.
pub fn unsplittable_message(name: &str) -> (m: String)
    ensures
        m@ == name@ + " は接頭辞と元ファイル名に分解できないため処理対象から除外しました"@,
{
    concat2(name, " は接頭辞と元ファイル名に分解できないため処理対象から除外しました")
}

/// A destination subfolder that could not be created while distributing.
pub fn distribute_folder_message(name: &str, prefix: &str, e: &str) -> (m: String)
    ensures
        m@ == name@ + " の宛先サブフォルダ "@ + prefix@ + " を作成できないためスキップしました: "@ + e@,
{
    let mut m = concat3(name, " の宛先サブフォルダ ", prefix);
    push_str(&mut m, " を作成できないためスキップしました: ");
    push_str(&mut m, e);
    m
}

/// An image whose size could not be read.
pub fn dimension_failure_message(name: &str, e: &str) -> (m: String)
    ensures
        m@ == name@ + " の寸法を取得できないため振り分けから除外しました: "@ + e@,
{
    concat3(name, " の寸法を取得できないため振り分けから除外しました: ", e)
}

/// A size subfolder that could not be created.
pub fn size_folder_message(name: &str, subfolder: &str, e: &str) -> (m: String)
    ensures
        m@ == name@ + " の振り分け先サブフォルダ "@ + subfolder@
            + " を作成できないためスキップしました: "@ + e@,
{
    let mut m = concat3(name, " の振り分け先サブフォルダ ", subfolder);
    push_str(&mut m, " を作成できないためスキップしました: ");
    push_str(&mut m, e);
    m
}

/// An image whose tag file could not be read while sorting by tag.
pub fn tag_read_failure_message(name: &str, e: &str) -> (m: String)
    ensures
        m@ == name@ + " の Tag_File を読み込めないため振り分けから除外しました: "@ + e@,
{
    concat3(name, " の Tag_File を読み込めないため振り分けから除外しました: ", e)
}

/// The notice of a destination of sorting by tag that cannot be used.
pub fn destination_unavailable_message(role: &str, dir: &str, e: &str) -> (m: String)
    ensures
        m@ == role@ + " "@ + dir@ + " が利用不可のため処理を実行しませんでした: "@ + e@,
{
    let mut m = concat3(role, " ", dir);
    push_str(&mut m, " が利用不可のため処理を実行しませんでした: ");
    push_str(&mut m, e);
    m
}

/// An integer in decimal, with a `-` when negative.
pub open spec fn int_text(i: int) -> Seq<char> {
    if i < 0 {
        seq!['-'] + dec((-i) as nat)
    } else {
        dec(i as nat)
    }
}

/// The notice of a size sort whose threshold is invalid.
pub open spec fn invalid_threshold_message(threshold: int) -> Seq<char> {
    "閾値 "@ + int_text(threshold) + " は無効です（1〜100000 の整数のみ有効）。処理を実行しませんでした"@
}

/// The threshold of a size sort, checked before anything is touched: a
/// valid one as pixels; an invalid one gives the report that only notes it.
pub fn check_threshold(threshold: i64) -> (r: Result<u32, OperationReport>)
    ensures
        match r {
            Ok(t) => MIN_LONG_SIDE_THRESHOLD <= threshold <= MAX_LONG_SIDE_THRESHOLD && t == threshold,
            Err(report) => !(MIN_LONG_SIDE_THRESHOLD <= threshold <= MAX_LONG_SIDE_THRESHOLD)
                && report@ == (0usize, 0usize, 0usize, seq![invalid_threshold_message(threshold as int)]),
        },
{
    if is_valid_long_side_threshold(threshold) {
        return Ok(threshold as u32);
    }
    let digits = if threshold < 0 {
        let magnitude: u64 = (-(threshold + 1)) as u64 + 1;
        let mut d: Vec<char> = vec!['-'];
        let m = dec_chars(magnitude);
        crate::logic::text::extend_chars(&mut d, &m);
        proof {
            assert(d@ =~= seq!['-'] + dec((-threshold) as nat));
        }
        d
    } else {
        dec_chars(threshold as u64)
    };
    let text = string_of(&digits);
    let m = concat3("閾値 ", text.as_str(), " は無効です（1〜100000 の整数のみ有効）。処理を実行しませんでした");
    Err(notice_report(m))
}

/// What the `image` crate reads as the width and height of the image file
/// `name` whose content is `bytes`, the format taken from the name's
/// extension.
pub uninterp spec fn read_size(name: Seq<char>, bytes: Seq<u8>) -> Option<(u32, u32)>;

/// Reads an image's size with `ImageReader::with_format` (the format by
/// `ImageFormat::from_path`, as `image::image_dimensions` takes it from the
/// path) and `into_dimensions`. Claimed: success and the size are
/// [`read_size`] of the arguments; the error's text is not described.
#[verifier::external_body]
fn image_size(name: &str, bytes: &[u8]) -> (r: Result<(u32, u32), String>)
    ensures
        match r {
            Ok((w, h)) => read_size(name@, bytes@) == Some((w, h)),
            Err(_) => read_size(name@, bytes@) is None,
        },
{
    let format = image::ImageFormat::from_path(name).map_err(|e| e.to_string())?;
    let reader = image::ImageReader::with_format(std::io::Cursor::new(bytes), format);
    reader.into_dimensions().map_err(|e| e.to_string())
}

/// Where an image goes in a size sort, from the file `name` and its
/// content: its size is read (an error, with the reason, where it cannot
/// be), then its orientation (landscape when at least as wide as high) and
/// whether its long side reaches `threshold`.
pub fn size_destination(name: &str, bytes: &[u8], threshold: u32) -> (r: Result<SizeDestination, String>)
    ensures
        match read_size(name@, bytes@) {
            None => r is Err,
            Some((w, h)) => r matches Ok(d) && d.orientation == (if w >= h {
                Orientation::Landscape
            } else {
                Orientation::Portrait
            }) && d.band == (if (if w >= h {
                w
            } else {
                h
            }) >= threshold {
                LongSideBand::AtOrAbove
            } else {
                LongSideBand::Below
            }),
        },
{
    let (w, h) = image_size(name, bytes)?;
    Ok(decide_size_destination(w, h, threshold))
}

/// A destination of a sort by tag.
#[derive(Debug, Clone, Copy, PartialEq, Eq, Structural)]
pub enum TagSortRole {
    /// Where the images that carry a judge tag go.
    Contains,
    /// Where the others go.
    NotContains,
}

/// How a role is named in messages.
pub open spec fn role_name(role: TagSortRole) -> Seq<char> {
    match role {
        TagSortRole::Contains => "「含む」振り分け先"@,
        TagSortRole::NotContains => "「含まない」振り分け先"@,
    }
}

/// What creating a destination of a sort by tag means for the sort: it
/// goes on when the folder was made; otherwise nothing is done and the
/// report only notes that the destination cannot be used.
pub fn destination_report(role: TagSortRole, dir: &str, made: &Result<(), String>) -> (r: Option<
    OperationReport,
>)
    ensures
        match made {
            Ok(_) => r is None,
            Err(e) => r matches Some(report) && report@ == (
                0usize,
                0usize,
                0usize,
                seq![role_name(role) + " "@ + dir@ + " が利用不可のため処理を実行しませんでした: "@ + e@],
            ),
        },
{
    match made {
        Ok(_) => None,
        Err(e) => {
            let name = match role {
                TagSortRole::Contains => "「含む」振り分け先",
                TagSortRole::NotContains => "「含まない」振り分け先",
            };
            Some(notice_report(destination_unavailable_message(name, dir, e.as_str())))
        },
    }
}

// ---------------------------------------------------------------------------
// Batches
// ---------------------------------------------------------------------------

/// How a finished pair transfer ended.
pub open spec fn ended(stage: PairStage) -> StepOutcome {
    match stage {
        PairStage::Over(o) => o,
        _ => StepOutcome::Done,
    }
}

/// The items of a sort, handed out one at a time; each item handed out is
/// recorded exactly once: as how its pair transfer ended, as skipped with a
/// message, or as passed (nothing to do, nothing counted).
pub struct SortBatch {
    items: Vec<String>,
    next: usize,
    in_hand: bool,
    passed: usize,
    report: OperationReport,
}

impl SortBatch {
    /// The items, in order.
    pub closed spec fn items(&self) -> Seq<Seq<char>> {
        string_views(self.items@)
    }

    /// How many items were handed out.
    pub closed spec fn handed_out(&self) -> nat {
        self.next as nat
    }

    /// Whether the last item handed out is still to be recorded.
    pub closed spec fn in_hand(&self) -> bool {
        self.in_hand
    }

    /// How many items were passed.
    pub closed spec fn passed(&self) -> nat {
        self.passed as nat
    }

    /// The report so far.
    pub closed spec fn tally(&self) -> (usize, usize, usize, Seq<Seq<char>>) {
        self.report@
    }

    /// Every item handed out and done with is counted once.
    pub closed spec fn well_formed(&self) -> bool {
        &&& self.next <= self.items@.len()
        &&& self.report.succeeded + self.report.conflicted + self.report.skipped + self.passed + (
        if self.in_hand {
            1int
        } else {
            0int
        }) == self.next
    }

    /// A batch of the given items, nothing done yet.
    pub fn new(items: Vec<String>) -> (b: SortBatch)
        ensures
            b.well_formed(),
            b.items() == string_views(items@),
            b.handed_out() == 0,
            !b.in_hand(),
            b.passed() == 0,
            b.tally() == (0usize, 0usize, 0usize, Seq::<Seq<char>>::empty()),
    {
        let report = OperationReport::empty();
        proof {
            assert(string_views(report.messages@) =~= Seq::<Seq<char>>::empty());
        }
        SortBatch { items, next: 0, in_hand: false, passed: 0, report }
    }

    /// A batch of the images of a folder, given its entries: the files with
    /// an image extension, in ascending order.
    pub fn images(entries: &Vec<DirEntryInfo>) -> (b: SortBatch)
        ensures
            b.well_formed(),
            b.items() == sorted_names(crate::services::file_service::image_file_names(entries@)),
            b.handed_out() == 0,
            !b.in_hand(),
            b.passed() == 0,
            b.tally() == (0usize, 0usize, 0usize, Seq::<Seq<char>>::empty()),
    {
        let unsorted = crate::services::file_service::image_names(entries);
        SortBatch::new(sort_names(&unsorted))
    }

    /// The next item, when one is left.
    pub fn next_item(&mut self) -> (item: Option<String>)
        requires
            old(self).well_formed(),
            !old(self).in_hand(),
        ensures
            final(self).well_formed(),
            final(self).items() == old(self).items(),
            final(self).passed() == old(self).passed(),
            final(self).tally() == old(self).tally(),
            if old(self).handed_out() < old(self).items().len() {
                item matches Some(x) && x@ == old(self).items()[old(self).handed_out() as int]
                    && final(self).in_hand() && final(self).handed_out() == old(self).handed_out() + 1
            } else {
                item is None && !final(self).in_hand() && final(self).handed_out()
                    == old(self).handed_out()
            },
    {
        if self.next < self.items.len() {
            let x = self.items[self.next].clone();
            proof {
                assert(string_views(self.items@)[self.next as int] == self.items@[self.next as int]@);
            }
            self.next = self.next + 1;
            self.in_hand = true;
            Some(x)
        } else {
            None
        }
    }

    /// Records the item in hand as its pair transfer ended (see
    /// [`report_after`]).
    pub fn record_pair(&mut self, job: &ItemJob, run: PairRun)
        requires
            old(self).well_formed(),
            old(self).in_hand(),
            run.stage is Over,
        ensures
            final(self).well_formed(),
            !final(self).in_hand(),
            final(self).items() == old(self).items(),
            final(self).handed_out() == old(self).handed_out(),
            final(self).passed() == old(self).passed(),
            final(self).tally() == report_after(old(self).tally(), *job, ended(run.stage)),
    {
        let ghost stage = run.stage;
        match run.outcome() {
            Some(o) => {
                record_outcome(&mut self.report, job, &o);
            },
            None => {
                proof {
                    assert(false);
                }
            },
        }
        self.in_hand = false;
    }

    /// Records the item in hand as skipped before any move, with its
    /// message.
    pub fn skip(&mut self, message: String)
        requires
            old(self).well_formed(),
            old(self).in_hand(),
        ensures
            final(self).well_formed(),
            !final(self).in_hand(),
            final(self).items() == old(self).items(),
            final(self).handed_out() == old(self).handed_out(),
            final(self).passed() == old(self).passed(),
            final(self).tally() == (
                old(self).tally().0,
                old(self).tally().1,
                (old(self).tally().2 + 1) as usize,
                old(self).tally().3.push(message@),
            ),
    {
        record_skip(&mut self.report, message);
        self.in_hand = false;
    }

    /// Lets the item in hand go: nothing was to be done for it, and it is
    /// not counted.
    pub fn pass(&mut self)
        requires
            old(self).well_formed(),
            old(self).in_hand(),
        ensures
            final(self).well_formed(),
            !final(self).in_hand(),
            final(self).items() == old(self).items(),
            final(self).handed_out() == old(self).handed_out(),
            final(self).passed() == old(self).passed() + 1,
            final(self).tally() == old(self).tally(),
    {
        self.passed = self.passed + 1;
        self.in_hand = false;
    }

    /// The report of a batch whose items were all handed out and recorded:
    /// every item is counted once, as done, conflicted, skipped or passed.
    pub fn finish(self) -> (r: OperationReport)
        requires
            self.well_formed(),
            !self.in_hand(),
            self.handed_out() == self.items().len(),
        ensures
            r@ == self.tally(),
            r.succeeded + r.conflicted + r.skipped + self.passed() == self.items().len(),
    {
        proof {
            assert(string_views(self.items@).len() == self.items@.len());
        }
        self.report
    }
}


/// A batch counts every item it handed out exactly once: the items done,
/// conflicted, skipped and passed, with the one in hand, are the items
/// handed out, never more than the batch holds.
pub proof fn law_batch_counts_each_item_once(b: SortBatch)
    requires
        b.well_formed(),
    ensures
        b.tally().0 + b.tally().1 + b.tally().2 + b.passed() + (if b.in_hand() {
            1int
        } else {
            0int
        }) == b.handed_out(),
        b.handed_out() <= b.items().len(),
{
}

} // verus!
