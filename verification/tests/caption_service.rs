use tag_editor_core::models::DirEntryInfo;
use tag_editor_core::services::caption_service::{deletion_result, find_orphan_captions};

fn file(name: &str) -> DirEntryInfo {
    DirEntryInfo { name: name.to_string(), is_dir: false, is_file: true }
}

#[test]
fn txt_with_matching_image_is_not_orphan() {
    let orphans = find_orphan_captions("/d", &vec![file("image.png"), file("image.txt")]);
    assert!(orphans.is_empty());
}

#[test]
fn txt_without_matching_image_is_orphan() {
    let entries = vec![file("orphan.txt"), file("kept.jpg"), file("kept.txt")];
    let orphans = find_orphan_captions("/d", &entries);
    assert_eq!(orphans.len(), 1);
    assert!(orphans[0].ends_with("orphan.txt"));
}

#[test]
fn image_extension_match_is_case_insensitive() {
    let entries = vec![
        file("photo.JPG"),
        file("photo.txt"),
        file("clip.MP4"),
        file("clip.txt"),
        file("anim.GiF"),
        file("anim.txt"),
    ];
    assert!(find_orphan_captions("/d", &entries).is_empty());
}

#[test]
fn delete_removes_listed_orphans_and_returns_count() {
    let entries = vec![file("a.txt"), file("b.txt"), file("c.png"), file("c.txt")];
    let orphans = find_orphan_captions("/d", &entries);
    assert_eq!(orphans.len(), 2);
    let result = deletion_result(&vec![true, true]);
    assert_eq!(result.deleted, 2);
}

#[test]
fn delete_skips_missing_paths_and_counts_only_deleted() {
    let result = deletion_result(&vec![false, true]);
    assert_eq!(result.deleted, 1);
}

#[test]
fn empty_folder_yields_no_orphans() {
    assert!(find_orphan_captions("/d", &Vec::new()).is_empty());
}

#[test]
fn orphans_are_sorted_paths_and_stems_ignore_case() {
    let sep = std::path::MAIN_SEPARATOR;
    let entries = vec![
        file("z.txt"),
        file("Photo.PNG"),
        file("photo.TXT"),
        file("m.Txt"),
        DirEntryInfo { name: "d.png".to_string(), is_dir: true, is_file: false },
        file("d.txt"),
    ];
    let orphans = find_orphan_captions("/d", &entries);
    assert_eq!(
        orphans,
        vec![format!("/d{sep}d.txt"), format!("/d{sep}m.Txt"), format!("/d{sep}z.txt")]
    );
}
