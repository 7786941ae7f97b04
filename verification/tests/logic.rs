use tag_editor_core::logic::file_names::{basename_of, has_supported_extension, paired_tag_file_name};
use tag_editor_core::logic::naming::{
    apply_numbering, format_number, gather_name, normalize_caption_name, split_gathered_name,
};
use tag_editor_core::logic::order::sort_names;
use tag_editor_core::logic::paths::join_with;
use tag_editor_core::logic::tag_ops::{
    add_tags, dedup_tags, normalize_key, remove_tags, render_tags, split_tokens,
};

fn v(items: &[&str]) -> Vec<String> {
    items.iter().map(|s| s.to_string()).collect()
}

#[test]
fn tokens_are_trimmed_and_blank_ones_dropped() {
    assert_eq!(split_tokens(" cat ,, dog ,  "), v(&["cat", "dog"]));
    assert_eq!(normalize_key("  Long Hair "), "long hair".chars().collect::<Vec<char>>());
}

#[test]
fn add_remove_dedup_follow_keys() {
    let base = v(&["1girl", "Solo"]);
    assert_eq!(add_tags(&base, &v(&[" solo ", "long hair", "long hair"])), v(&["1girl", "Solo", "long hair"]));
    assert_eq!(remove_tags(&v(&["1girl", "Solo", "solo"]), &v(&["SOLO"])), v(&["1girl"]));
    assert_eq!(dedup_tags(&v(&["Solo", "1girl", "solo"])), v(&["Solo", "1girl"]));
    assert_eq!(render_tags(&v(&["a", "b"])), "a, b");
}

#[test]
fn numbers_are_zero_padded() {
    assert_eq!(format_number(7, 3), "007");
    assert_eq!(format_number(1234, 2), "1234");
    assert_eq!(apply_numbering("n_NUM_NUM", 5, 2, 2), "n_07_07");
}

#[test]
fn gathered_names_split_back() {
    let g = gather_name("sub", "file.png");
    assert_eq!(g, "sub__file.png");
    assert_eq!(split_gathered_name(&g), Some(("sub".to_string(), "file.png".to_string())));
    assert_eq!(split_gathered_name("plain.png"), None);
    assert_eq!(split_gathered_name("__x"), None);
}

#[test]
fn caption_names_normalise() {
    assert_eq!(normalize_caption_name("image.png.TXT").as_deref(), Some("image.txt"));
    assert_eq!(normalize_caption_name("notes.txt"), None);
}

#[test]
fn names_sort_by_character_code() {
    assert_eq!(sort_names(&v(&["b", "B", "a", "ab", "猫", "a"])), v(&["B", "a", "a", "ab", "b", "猫"]));
}

#[test]
fn file_name_rules() {
    assert!(has_supported_extension("x.JpEg"));
    assert!(!has_supported_extension("x.jpg.txt"));
    assert_eq!(basename_of("a.b.png"), "a.b");
    assert_eq!(basename_of("noext"), "noext");
    assert_eq!(paired_tag_file_name("a.b.png"), "a.b.txt");
    assert_eq!(join_with("dir", "f", '/'), "dir/f");
    assert_eq!(join_with("dir/", "f", '/'), "dir/f");
    assert_eq!(join_with("", "f", '/'), "f");
    assert_eq!(join_with("C:\\d", "f", '\\'), "C:\\d\\f");
}

#[test]
fn tag_edits_are_idempotent() {
    let base = v(&["1girl", "Solo", "smile"]);
    let tags = v(&["solo", "hat"]);
    let once = add_tags(&base, &tags);
    assert_eq!(add_tags(&once, &tags), once);
    let removed = remove_tags(&base, &tags);
    assert_eq!(remove_tags(&removed, &tags), removed);
    let dup = v(&["a", "A ", "b", "a"]);
    let d = dedup_tags(&dup);
    assert_eq!(dedup_tags(&d), d);
}

#[test]
fn rendered_tags_split_back() {
    let tags = v(&["1girl", "long hair", "smile"]);
    assert_eq!(split_tokens(&render_tags(&tags)), tags);
    assert_eq!(split_tokens(&render_tags(&Vec::new())), Vec::<String>::new());
}

#[test]
fn numbers_in_a_sequence_are_distinct_and_padded() {
    let names: Vec<String> = (0..12).map(|i| apply_numbering("img_NUM", 8, i, 2)).collect();
    assert_eq!(names[0], "img_08");
    assert_eq!(names[11], "img_19");
    let mut sorted = names.clone();
    sorted.dedup();
    assert_eq!(sorted.len(), 12);
    assert_eq!(format_number(100, 2), "100");
}
