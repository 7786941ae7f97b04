use std::collections::HashSet;
use tag_editor_core::models::{DirEntryInfo, ModelFamily, ModelSource, ModelVariant};
use tag_editor_core::services::model_service::{
    builtin_candidates, builtin_catalog, catalog_presence, is_present, resolve_model_dir,
    validate_catalog, variant_dir,
};

fn candidate(id: &str, display: &str, family: ModelFamily, repo: &str, onnx: &str) -> ModelVariant {
    ModelVariant {
        id: id.to_string(),
        display_name: display.to_string(),
        family,
        source: ModelSource {
            repo: repo.to_string(),
            onnx_file: onnx.to_string(),
            tag_files: vec!["selected_tags.csv".to_string()],
        },
    }
}

fn variant(id: &str) -> ModelVariant {
    candidate(id, id, ModelFamily::Wd14, &format!("repo/{id}"), "model.onnx")
}

fn file(name: &str) -> DirEntryInfo {
    DirEntryInfo { name: name.to_string(), is_dir: false, is_file: true }
}

#[test]
fn builtin_catalog_covers_wd14_variants_and_ml_danbooru_multiple_onnx() {
    let catalog = builtin_catalog();
    let wd14: Vec<&ModelVariant> = catalog.iter().filter(|v| v.family == ModelFamily::Wd14).collect();
    assert!(wd14.len() >= 2);
    assert!(wd14.iter().all(|v| v.source.onnx_file == "model.onnx"
        && v.source.tag_files.contains(&"selected_tags.csv".to_string())));
    let mld: Vec<&ModelVariant> =
        catalog.iter().filter(|v| v.family == ModelFamily::MlDanbooru).collect();
    assert!(mld.len() >= 2);
    let repos: HashSet<&str> = mld.iter().map(|v| v.source.repo.as_str()).collect();
    assert_eq!(repos.len(), 1);
    let onnx_files: HashSet<&str> = mld.iter().map(|v| v.source.onnx_file.as_str()).collect();
    assert_eq!(onnx_files.len(), mld.len());
}

#[test]
fn builtin_catalog_fields_are_non_empty_and_ids_unique() {
    let catalog = builtin_catalog();
    assert!(catalog.iter().all(|v| !v.id.trim().is_empty() && !v.display_name.trim().is_empty()));
    let ids: HashSet<&str> = catalog.iter().map(|v| v.id.as_str()).collect();
    assert_eq!(ids.len(), catalog.len());
}

#[test]
fn builtin_catalog_is_the_validated_candidates() {
    let candidates = builtin_candidates();
    assert_eq!(candidates.len(), 7);
    assert_eq!(builtin_catalog(), candidates);
    assert_eq!(candidates[0].id, "wd14-vit-v3");
    assert_eq!(candidates[0].source.repo, "SmilingWolf/wd-vit-tagger-v3");
    assert_eq!(candidates[6].source.onnx_file, "TResnet-D-FLq_ema_6-30000.onnx");
    assert_eq!(candidates[6].source.tag_files, vec!["tags.csv".to_string(), "tags.json".to_string()]);
}

#[test]
fn validate_catalog_excludes_empty_id_or_display_name() {
    let candidates = vec![
        candidate("ok", "OK", ModelFamily::Wd14, "repo/ok", "model.onnx"),
        candidate("", "空 id", ModelFamily::Wd14, "repo/x", "model.onnx"),
        candidate("empty-name", "  ", ModelFamily::Wd14, "repo/y", "model.onnx"),
    ];
    let total = candidates.len();
    let (registered, excluded) = validate_catalog(candidates);
    assert_eq!(registered.len(), 1);
    assert_eq!(registered[0].id, "ok");
    assert_eq!(excluded.len(), 2);
    assert_eq!(registered.len() + excluded.len(), total);
}

#[test]
fn validate_catalog_deduplicates_conflicting_ids() {
    let candidates = vec![
        candidate("dup", "A", ModelFamily::Wd14, "repo/a", "a.onnx"),
        candidate("dup", "B", ModelFamily::Wd14, "repo/a", "b.onnx"),
        candidate("dup", "C", ModelFamily::MlDanbooru, "repo/a", "c.onnx"),
    ];
    let (registered, excluded) = validate_catalog(candidates);
    assert_eq!(registered.len(), 3);
    assert!(excluded.is_empty());
    let ids: HashSet<&str> = registered.iter().map(|v| v.id.as_str()).collect();
    assert_eq!(ids.len(), 3);
    assert_eq!(registered[0].id, "dup");
    assert!(registered[1].id.starts_with("dup-"));
    assert!(registered[2].id.starts_with("dup-"));
}

#[test]
fn validate_catalog_partition_union_equals_input() {
    let candidates = vec![
        candidate("a", "A", ModelFamily::Wd14, "r/a", "a.onnx"),
        candidate("", "", ModelFamily::Wd14, "r/b", "b.onnx"),
        candidate("a", "A dup", ModelFamily::Wd14, "r/a", "a2.onnx"),
    ];
    let total = candidates.len();
    let (registered, excluded) = validate_catalog(candidates);
    assert_eq!(registered.len() + excluded.len(), total);
}

#[test]
fn representative_partition_and_dedup() {
    let cand = |id: &str, display: &str, family: ModelFamily, onnx: &str| {
        candidate(id, display, family, "deepghs/ml-danbooru-onnx", onnx)
    };
    let candidates = vec![
        cand("a", "A", ModelFamily::Wd14, "a.onnx"),
        cand("", "空 id", ModelFamily::Wd14, "b.onnx"),
        cand("dup", "同一リポジトリ .onnx 1", ModelFamily::MlDanbooru, "c.onnx"),
        cand("dup", "同一リポジトリ .onnx 2", ModelFamily::MlDanbooru, "d.onnx"),
        cand("empty-name", "   ", ModelFamily::Wd14, "e.onnx"),
    ];
    let total = candidates.len();
    let (registered, excluded) = validate_catalog(candidates);
    assert_eq!(registered.len() + excluded.len(), total);
    assert_eq!(excluded.len(), 2);
    let ids: HashSet<&str> = registered.iter().map(|v| v.id.as_str()).collect();
    assert_eq!(ids.len(), registered.len());
    assert!(registered.iter().all(|v| !v.id.trim().is_empty() && !v.display_name.trim().is_empty()));
}

#[test]
fn suffixes_skip_ids_already_taken() {
    let candidates = vec![
        candidate("x", "1", ModelFamily::Wd14, "r", "a.onnx"),
        candidate("x-2", "2", ModelFamily::Wd14, "r", "b.onnx"),
        candidate("x", "3", ModelFamily::Wd14, "r", "c.onnx"),
        candidate("x", "4", ModelFamily::Wd14, "r", "d.onnx"),
    ];
    let (registered, _) = validate_catalog(candidates);
    let ids: Vec<&str> = registered.iter().map(|v| v.id.as_str()).collect();
    assert_eq!(ids, vec!["x", "x-2", "x-3", "x-4"]);
}

#[test]
fn resolve_model_dir_is_deterministic() {
    assert_eq!(resolve_model_dir("/opt/tageditor"), resolve_model_dir("/opt/tageditor"));
}

#[test]
fn resolve_model_dir_is_prefixed_by_base_dir() {
    let dir = resolve_model_dir("/opt/tageditor");
    assert!(std::path::Path::new(&dir).starts_with("/opt/tageditor"));
    assert_eq!(std::path::PathBuf::from(&dir), std::path::Path::new("/opt/tageditor").join("models"));
}

#[test]
fn resolve_model_dir_preserves_absoluteness() {
    let base = if std::path::MAIN_SEPARATOR == '\\' { "C:\\opt\\tageditor" } else { "/opt/tageditor" };
    assert!(std::path::Path::new(&resolve_model_dir(base)).is_absolute());
}

#[test]
fn variant_dir_is_under_model_dir_with_id() {
    let v = variant("wd14-vit");
    let vdir = variant_dir("/opt/tageditor", &v);
    let model_dir = resolve_model_dir("/opt/tageditor");
    assert_eq!(std::path::PathBuf::from(&vdir), std::path::Path::new(&model_dir).join("wd14-vit"));
    assert!(std::path::Path::new(&vdir).starts_with(&model_dir));
}

#[test]
fn distinct_ids_yield_distinct_variant_dirs() {
    let a = variant_dir("/opt/tageditor", &variant("wd14-vit"));
    let b = variant_dir("/opt/tageditor", &variant("wd14-convnext"));
    assert_ne!(a, b);
}

#[test]
fn trailing_separator_does_not_change_result() {
    let without = resolve_model_dir("/opt/tageditor");
    let with = resolve_model_dir("/opt/tageditor/");
    assert_eq!(std::path::PathBuf::from(without), std::path::PathBuf::from(with));
}

#[test]
fn empty_base_dir_resolves_to_fixed_component() {
    let a = resolve_model_dir("");
    let b = resolve_model_dir("");
    assert_eq!(a, b);
    assert_eq!(std::path::Path::new(&a).components().count(), 1);
}

#[test]
fn is_present_true_when_onnx_and_tagdef_pair_exists() {
    assert!(is_present(&vec![file("model.onnx"), file("selected_tags.csv")]));
}

#[test]
fn is_present_true_with_json_tagdef() {
    assert!(is_present(&vec![file("model.onnx"), file("tags.json")]));
}

#[test]
fn is_present_true_with_uppercase_extensions() {
    assert!(is_present(&vec![file("MODEL.ONNX"), file("TAGS.JSON")]));
}

#[test]
fn is_present_false_when_only_onnx() {
    assert!(!is_present(&vec![file("model.onnx")]));
}

#[test]
fn is_present_false_when_only_tagdef() {
    assert!(!is_present(&vec![file("selected_tags.csv")]));
}

#[test]
fn is_present_false_when_dir_empty() {
    assert!(!is_present(&Vec::new()));
}

#[test]
fn representative_presence_cases() {
    assert!(!is_present(&vec![file("model.onnx")]));
    assert!(!is_present(&vec![file("selected_tags.csv")]));
    assert!(is_present(&vec![file("model.onnx"), file("selected_tags.csv")]));
    assert!(is_present(&vec![file("MODEL.ONNX"), file("TAGS.JSON")]));
    assert!(!is_present(&Vec::new()));
}

#[test]
fn presence_needs_regular_files_with_real_extensions() {
    let folder = DirEntryInfo { name: "model.onnx".to_string(), is_dir: true, is_file: false };
    assert!(!is_present(&vec![folder, file("tags.csv")]));
    assert!(!is_present(&vec![file(".onnx"), file("tags.csv")]));
}

#[test]
fn catalog_presence_marks_only_prepared_variants_present() {
    let catalog = vec![variant("a"), variant("b"), variant("c")];
    let listings = vec![
        vec![file("model.onnx"), file("selected_tags.csv")],
        vec![file("model.onnx")],
        Vec::new(),
    ];
    let presences = catalog_presence(&catalog, &listings);
    let flags: Vec<bool> = presences.iter().map(|p| p.present).collect();
    assert_eq!(flags, vec![true, false, false]);
    assert_eq!(presences[0].variant, catalog[0]);
}

#[test]
fn catalog_presence_all_false_when_model_dir_missing() {
    let catalog = vec![variant("a"), variant("b"), variant("c")];
    let presences = catalog_presence(&catalog, &vec![Vec::new(), Vec::new(), Vec::new()]);
    assert_eq!(presences.len(), catalog.len());
    assert!(presences.iter().all(|p| !p.present));
}

#[test]
fn validate_catalog_keeps_order_and_fields_but_the_id() {
    let candidates = vec![
        candidate("dup", "First", ModelFamily::Wd14, "repo/a", "a.onnx"),
        candidate(" ", "Blank id", ModelFamily::Wd14, "repo/b", "b.onnx"),
        candidate("dup", "Second", ModelFamily::MlDanbooru, "repo/c", "c.onnx"),
        candidate("x", "", ModelFamily::Wd14, "repo/d", "d.onnx"),
    ];
    let (registered, excluded) = validate_catalog(candidates.clone());
    assert_eq!(registered.len(), 2);
    assert_eq!(registered[0], candidates[0]);
    assert_eq!(registered[1].id, "dup-2");
    assert_eq!(registered[1].display_name, "Second");
    assert_eq!(registered[1].family, ModelFamily::MlDanbooru);
    assert_eq!(registered[1].source, candidates[2].source);
    assert_eq!(excluded, vec![candidates[1].clone(), candidates[3].clone()]);
}
