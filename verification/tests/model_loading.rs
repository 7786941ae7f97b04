use tag_editor_core::error::AppErrorKind;
use tag_editor_core::logic::tag_definition::{
    category_from_token, labels_from_json, parse_tag_definition_csv, JsonList, JsonValue,
};
use tag_editor_core::models::{ChannelOrder, DirEntryInfo, TagCategory};
use tag_editor_core::services::model_service::{
    load_variant, locate_variant_files, parse_tag_definition, VariantFiles, DEFAULT_INPUT_SIZE,
};

fn file(name: &str) -> DirEntryInfo {
    DirEntryInfo { name: name.to_string(), is_dir: false, is_file: true }
}

fn read(text: &str) -> Result<String, String> {
    Ok(text.to_string())
}

#[test]
fn parses_wd14_style_csv_with_categories() {
    let labels = parse_tag_definition(
        "/m/selected_tags.csv",
        read("tag_id,name,category\n9,general,9\n1,solo,0\n2,hatsune_miku,4\n"),
    )
    .unwrap();
    assert_eq!(labels.len(), 3);
    assert_eq!(labels[0].name, "general");
    assert_eq!(labels[0].category, TagCategory::Rating);
    assert_eq!(labels[1].name, "solo");
    assert_eq!(labels[1].category, TagCategory::General);
    assert_eq!(labels[2].name, "hatsune_miku");
    assert_eq!(labels[2].category, TagCategory::Character);
}

#[test]
fn parses_csv_without_name_header_positionally() {
    let labels = parse_tag_definition("/m/tags.csv", read("solo,0\n1girl,0\ncharacter_x,4\n")).unwrap();
    assert_eq!(labels.len(), 3);
    assert_eq!(labels[0].name, "solo");
    assert_eq!(labels[0].category, TagCategory::General);
    assert_eq!(labels[2].name, "character_x");
    assert_eq!(labels[2].category, TagCategory::Character);
}

#[test]
fn parses_json_string_array_as_general() {
    let labels = parse_tag_definition("/m/tags.json", read(r#"["solo", "1girl", "smile"]"#)).unwrap();
    assert_eq!(labels.len(), 3);
    assert!(labels.iter().all(|l| l.category == TagCategory::General));
    assert_eq!(labels[0].name, "solo");
    assert_eq!(labels[2].name, "smile");
}

#[test]
fn parses_json_object_array_with_categories() {
    let text = r#"[
        {"name": "general", "category": "rating"},
        {"name": "solo", "category": 0},
        {"name": "miku", "category": 4}
    ]"#;
    let labels = parse_tag_definition("/m/tags.json", read(text)).unwrap();
    assert_eq!(labels.len(), 3);
    assert_eq!(labels[0].category, TagCategory::Rating);
    assert_eq!(labels[1].category, TagCategory::General);
    assert_eq!(labels[2].category, TagCategory::Character);
}

#[test]
fn empty_tag_definition_is_model_load_error() {
    let err = parse_tag_definition("/m/empty.csv", read("tag_id,name,category\n")).unwrap_err();
    assert_eq!(err.kind, AppErrorKind::ModelLoad);
    assert_eq!(err.message, "タグ定義に有効なラベルがありません");
    assert_eq!(err.path.as_deref(), Some("/m/empty.csv"));
}

#[test]
fn malformed_json_tag_definition_is_model_load_error() {
    let err = parse_tag_definition("/m/bad.json", read("{ not valid json ")).unwrap_err();
    assert_eq!(err.kind, AppErrorKind::ModelLoad);
    assert!(err.message.starts_with("JSON を解析できません: "));
}

#[test]
fn json_non_array_tag_definition_is_model_load_error() {
    let err = parse_tag_definition("/m/obj.json", read(r#"{"name": "solo"}"#)).unwrap_err();
    assert_eq!(err.kind, AppErrorKind::ModelLoad);
    assert_eq!(err.message, "JSON タグ定義は配列である必要があります");
}

#[test]
fn unreadable_tag_definition_is_model_load_error() {
    let err = parse_tag_definition("/m/tags.csv", Err("permission denied".to_string())).unwrap_err();
    assert_eq!(err.kind, AppErrorKind::ModelLoad);
    assert_eq!(err.message, "タグ定義を読み込めません: permission denied");
}

#[test]
fn blank_csv_is_refused_with_its_message() {
    let err = parse_tag_definition("/m/tags", read("\n  \n")).unwrap_err();
    assert_eq!(err.message, "CSV が空です");
    assert!(parse_tag_definition_csv("").is_err());
}

#[test]
fn csv_lines_are_trimmed_and_crlf_tolerated() {
    let labels = parse_tag_definition_csv("name , category\r\n  cat , character\r\n\r\n,9\ndog\n").unwrap();
    assert_eq!(labels.len(), 2);
    assert_eq!(labels[0].name, "cat");
    assert_eq!(labels[0].category, TagCategory::Character);
    assert_eq!(labels[1].name, "dog");
    assert_eq!(labels[1].category, TagCategory::General);
}

#[test]
fn category_tokens_read_numbers_and_words() {
    assert_eq!(category_from_token(" 9 "), TagCategory::Rating);
    assert_eq!(category_from_token("+009"), TagCategory::Rating);
    assert_eq!(category_from_token("-9"), TagCategory::General);
    assert_eq!(category_from_token("4"), TagCategory::Character);
    assert_eq!(category_from_token("CHARACTER"), TagCategory::Character);
    assert_eq!(category_from_token("Rating"), TagCategory::Rating);
    assert_eq!(category_from_token("99999999999999999999"), TagCategory::General);
    assert_eq!(category_from_token("4.0"), TagCategory::General);
    assert_eq!(category_from_token("general"), TagCategory::General);
}

#[test]
fn json_labels_skip_blank_and_odd_items() {
    let doc = Ok(JsonValue::Array(Box::new(JsonList::Cons(
        Box::new(JsonValue::Text("  ".to_string())),
        Box::new(JsonList::Cons(
            Box::new(JsonValue::Null),
            Box::new(JsonList::Cons(Box::new(JsonValue::Text(" cat ".to_string())), Box::new(JsonList::Nil))),
        )),
    ))));
    let labels = labels_from_json(&doc).unwrap();
    assert_eq!(labels.len(), 1);
    assert_eq!(labels[0].name, "cat");
}

#[test]
fn missing_tag_definition_yields_model_load_error() {
    let err = locate_variant_files("/m/v", &vec![file("model.onnx")]).unwrap_err();
    assert_eq!(err.kind, AppErrorKind::ModelLoad);
    assert_eq!(err.path.as_deref(), Some("/m/v"));
}

#[test]
fn missing_onnx_yields_model_load_error() {
    let err = locate_variant_files("/m/v", &vec![file("selected_tags.csv")]).unwrap_err();
    assert_eq!(err.kind, AppErrorKind::ModelLoad);
}

#[test]
fn empty_dir_yields_model_load_error() {
    let err = locate_variant_files("/m/v", &Vec::new()).unwrap_err();
    assert_eq!(err.kind, AppErrorKind::ModelLoad);
}

#[test]
fn locate_prefers_csv_over_json() {
    let sep = std::path::MAIN_SEPARATOR;
    let files = locate_variant_files(
        "/m/v",
        &vec![file("tags.json"), file("a.onnx"), file("b.onnx"), file("tags.CSV")],
    )
    .unwrap();
    assert_eq!(files.onnx_path, format!("/m/v{sep}a.onnx"));
    assert_eq!(files.tag_definition_path, format!("/m/v{sep}tags.CSV"));
}

#[test]
fn load_failure_tag_definition_missing_never_produces_loaded_model() {
    assert!(locate_variant_files("/m/v", &vec![file("model.onnx")]).is_err());
}

#[test]
fn load_variant_uses_the_disk_input_convention() {
    let files = VariantFiles {
        onnx_path: "/m/v/model.onnx".to_string(),
        tag_definition_path: "/m/v/selected_tags.csv".to_string(),
    };
    let assets = load_variant(&files, read("tag_id,name,category\n1,solo,0\n")).unwrap();
    assert_eq!(assets.onnx_path, "/m/v/model.onnx");
    assert_eq!(assets.input_size, DEFAULT_INPUT_SIZE);
    assert_eq!(assets.input_size, 448);
    assert_eq!(assets.channel_order, ChannelOrder::Bgr);
    assert_eq!(assets.labels.len(), 1);
    let err = load_variant(&files, read("tag_id,name\n")).unwrap_err();
    assert_eq!(err.kind, AppErrorKind::ModelLoad);
    assert_eq!(err.path.as_deref(), Some("/m/v/selected_tags.csv"));
}
