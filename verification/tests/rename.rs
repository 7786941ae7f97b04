use tag_editor_core::error::AppErrorKind;
use tag_editor_core::models::{DirEntryInfo, OperationReport};
use tag_editor_core::services::rename_service::{
    caption_names, has_forbidden_chars, normalized_target, proposed_name, rename_decision,
    rename_targets, Numbering, RenameDecision, RenamePattern,
};
use tag_editor_core::services::sort_service::{
    record_outcome, record_skip, ItemJob, PairRun, PairStage, PairStep, StepOutcome,
};

fn file(name: &str) -> DirEntryInfo {
    DirEntryInfo { name: name.to_string(), is_dir: false, is_file: true }
}

#[test]
fn invalid_regex_returns_err_and_renames_nothing() {
    let err = RenamePattern::compile("(").err().unwrap();
    assert_eq!(err.kind, AppErrorKind::InvalidInput);
    assert!(err.message.starts_with("正規表現が不正です: "));
}

#[test]
fn invalid_regex_leaves_all_multiple_files_unchanged() {
    let err = RenamePattern::compile("a(b").err().unwrap();
    assert_eq!(err.kind, AppErrorKind::InvalidInput);
}

#[test]
fn basic_regex_replace_renames_image_and_paired_txt() {
    let p = RenamePattern::compile("cat").ok().unwrap();
    let new = proposed_name(&p, "cat_001.png", "dog", None, 0);
    assert_eq!(new, "dog_001.png");
    match rename_decision("/d", "cat_001.png", &new) {
        RenameDecision::Rename { plan, tag_moves } => {
            assert!(tag_moves);
            assert!(plan.dst_tag.ends_with("dog_001.txt"));
            assert!(plan.src_tag.ends_with("cat_001.txt"));
        }
        other => panic!("unexpected {other:?}"),
    }
}

#[test]
fn numbering_expands_num_in_ascending_order() {
    let entries = vec![file("c.png"), file("a.png"), file("b.png"), file("a.txt")];
    let names = rename_targets(&entries);
    assert_eq!(names, vec!["a.png", "b.png", "c.png"]);
    let p = RenamePattern::compile(r"^.*\.png$").ok().unwrap();
    let numbering = Some(Numbering { start: 1, width: 3 });
    let new: Vec<String> = names
        .iter()
        .enumerate()
        .map(|(i, n)| proposed_name(&p, n, "img_NUM.png", numbering, i as u64))
        .collect();
    assert_eq!(new, vec!["img_001.png", "img_002.png", "img_003.png"]);
}

#[test]
fn forbidden_char_is_recorded_and_not_renamed() {
    let p = RenamePattern::compile("ok").ok().unwrap();
    let new = proposed_name(&p, "ok.png", "a:b", None, 0);
    match rename_decision("/d", "ok.png", &new) {
        RenameDecision::Forbidden(m) => {
            assert!(m.contains("ok.png"));
            assert_eq!(m, "ok.png は改名後の名前 \"a:b.png\" が無効な文字を含むため改名しませんでした");
        }
        other => panic!("unexpected {other:?}"),
    }
}

#[test]
fn forbidden_char_skips_only_offending_item_others_still_rename() {
    let p = RenamePattern::compile(r"(.*)\.png$").ok().unwrap();
    assert_eq!(proposed_name(&p, ".png", "$1", None, 0), "");
    assert!(matches!(rename_decision("/d", ".png", ""), RenameDecision::Forbidden(_)));
    let keep = proposed_name(&p, "keep.png", "$1", None, 0);
    assert_eq!(keep, "keep");
    assert!(matches!(rename_decision("/d", "keep.png", &keep), RenameDecision::Rename { .. }));
    // The tally: the offending item is skipped, the other renamed.
    let mut r = OperationReport::empty();
    if let RenameDecision::Forbidden(m) = rename_decision("/d", ".png", "") {
        record_skip(&mut r, m);
    }
    record_outcome(&mut r, &ItemJob::Rename { old: "keep.png".to_string() }, &StepOutcome::Done);
    assert_eq!((r.succeeded, r.skipped, r.conflicted), (1, 1, 0));
}

#[test]
fn image_renamed_onto_its_own_tag_name_is_a_conflict() {
    // a.png renamed to b.txt while a.txt exists: both would be named b.txt.
    let p = RenamePattern::compile(r"^a\.png$").ok().unwrap();
    let new = proposed_name(&p, "a.png", "b.txt", None, 0);
    assert_eq!(new, "b.txt");
    match rename_decision("/d", "a.png", &new) {
        RenameDecision::Rename { plan, tag_moves } => {
            assert_eq!(plan.dst_image, plan.dst_tag);
            let run = PairRun::new(plan, true, tag_moves, false, false);
            assert_eq!(run.stage, PairStage::Over(StepOutcome::Conflict));
            assert_eq!(run.step(), PairStep::Finished);
        }
        other => panic!("unexpected {other:?}"),
    }
}

#[test]
fn unchanged_names_are_left_alone() {
    assert_eq!(rename_decision("/d", "a.png", "a.png"), RenameDecision::Unchanged);
    assert!(has_forbidden_chars("a\u{7f}b"));
    assert!(has_forbidden_chars("x/y"));
    assert!(!has_forbidden_chars("猫.png"));
}

#[test]
fn double_extension_txt_is_renamed() {
    assert_eq!(normalized_target("image.png.txt").as_deref(), Some("image.txt"));
}

#[test]
fn plain_txt_is_left_untouched_and_not_counted() {
    assert_eq!(normalized_target("notes.txt"), None);
    let names = caption_names(&vec![file("notes.txt"), file("b.PNG.TXT"), file("a.png")]);
    assert_eq!(names, vec!["b.PNG.TXT", "notes.txt"]);
}

#[test]
fn rename_service_collision_is_recorded_as_conflicted_and_not_renamed() {
    let mut r = OperationReport::empty();
    record_outcome(&mut r, &ItemJob::Rename { old: "src.png".to_string() }, &StepOutcome::Conflict);
    assert_eq!((r.succeeded, r.conflicted, r.skipped), (0, 1, 0));
    assert!(r.messages.iter().any(|m| m.contains("src.png")));
    let mut r = OperationReport::empty();
    let job = ItemJob::Normalize { old: "image.png.txt".to_string(), new: "image.txt".to_string() };
    record_outcome(&mut r, &job, &StepOutcome::Conflict);
    assert_eq!(
        r.messages,
        vec!["image.png.txt は正規化後の名前 \"image.txt\" が既存ファイルと衝突するため改名しませんでした".to_string()]
    );
}
