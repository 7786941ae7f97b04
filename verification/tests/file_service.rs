use std::collections::HashSet;
use tag_editor_core::logic::paths::join_path;
use tag_editor_core::models::DirEntryInfo;
use tag_editor_core::services::file_service::{
    clamp_thumbnail_size, fits_within, list_images, render_preview, render_thumbnail,
    tag_file_paths, ImageListing, PreviewData, ThumbnailData, MAX_LISTING, MAX_PREVIEW_SIZE,
    MAX_THUMBNAIL_SIZE, MIN_THUMBNAIL_SIZE,
};

/// Lists `folder` as the caller does: a tag file exists when an entry of
/// the folder is at its path.
fn list(folder: &str, entries: &Vec<DirEntryInfo>) -> ImageListing {
    let present: HashSet<String> = entries.iter().map(|e| join_path(folder, &e.name)).collect();
    let exist: Vec<bool> = tag_file_paths(folder, entries).iter().map(|p| present.contains(p)).collect();
    list_images(folder, entries, &exist)
}

fn file(name: &str) -> DirEntryInfo {
    DirEntryInfo { name: name.to_string(), is_dir: false, is_file: true }
}

fn dir(name: &str) -> DirEntryInfo {
    DirEntryInfo { name: name.to_string(), is_dir: true, is_file: false }
}

fn names(entries: &[DirEntryInfo]) -> Vec<String> {
    let listing = list("/data", &entries.to_vec());
    listing.items.iter().map(|e| e.file_name.clone()).collect()
}

#[test]
fn clamp_below_min_yields_min() {
    assert_eq!(clamp_thumbnail_size(0), MIN_THUMBNAIL_SIZE);
    assert_eq!(clamp_thumbnail_size(63), MIN_THUMBNAIL_SIZE);
}

#[test]
fn clamp_above_max_yields_max() {
    assert_eq!(clamp_thumbnail_size(513), MAX_THUMBNAIL_SIZE);
    assert_eq!(clamp_thumbnail_size(u32::MAX), MAX_THUMBNAIL_SIZE);
}

#[test]
fn clamp_in_range_is_unchanged() {
    assert_eq!(clamp_thumbnail_size(64), 64);
    assert_eq!(clamp_thumbnail_size(200), 200);
    assert_eq!(clamp_thumbnail_size(512), 512);
}

#[test]
fn boundary_sizes_clamp_as_expected() {
    assert_eq!(clamp_thumbnail_size(0), MIN_THUMBNAIL_SIZE);
    assert_eq!(clamp_thumbnail_size(63), MIN_THUMBNAIL_SIZE);
    assert_eq!(clamp_thumbnail_size(64), 64);
    assert_eq!(clamp_thumbnail_size(256), 256);
    assert_eq!(clamp_thumbnail_size(512), 512);
    assert_eq!(clamp_thumbnail_size(513), MAX_THUMBNAIL_SIZE);
    assert_eq!(clamp_thumbnail_size(u32::MAX), MAX_THUMBNAIL_SIZE);
}

#[test]
fn lists_only_supported_extensions() {
    let entries = vec![
        file("a.jpg"),
        file("b.jpeg"),
        file("c.png"),
        file("d.gif"),
        file("e.mp4"),
        file("f.txt"),
        file("g.bmp"),
        file("h.webp"),
        file("noext"),
    ];
    let listing = list("/data", &entries);
    let got: Vec<&str> = listing.items.iter().map(|e| e.file_name.as_str()).collect();
    assert_eq!(got, vec!["a.jpg", "b.jpeg", "c.png", "d.gif", "e.mp4"]);
    assert!(!listing.truncated);
    assert_eq!(listing.total, 5);
}

#[test]
fn extension_match_is_case_insensitive() {
    let entries = vec![file("A.JPG"), file("B.Png"), file("C.GiF"), file("D.MP4")];
    let listing = list("/data", &entries);
    assert_eq!(listing.items.len(), 4);
    assert_eq!(listing.total, 4);
}

#[test]
fn empty_folder_yields_empty_listing() {
    let listing = list("/data", &Vec::new());
    assert!(listing.items.is_empty());
    assert!(!listing.truncated);
    assert_eq!(listing.total, 0);
}

#[test]
fn subdirectories_are_not_listed() {
    let entries = vec![file("a.png"), dir("sub"), dir("folder.png")];
    assert_eq!(names(&entries), vec!["a.png"]);
}

#[test]
fn results_are_sorted_by_file_name() {
    let entries = vec![file("c.png"), file("a.png"), file("b.png")];
    assert_eq!(names(&entries), vec!["a.png", "b.png", "c.png"]);
}

#[test]
fn has_tag_file_reflects_sibling_txt() {
    let entries = vec![file("with.png"), file("with.txt"), file("without.png")];
    let listing = list("/data", &entries);
    let with = listing.items.iter().find(|e| e.file_name == "with.png").unwrap();
    let without = listing.items.iter().find(|e| e.file_name == "without.png").unwrap();
    assert!(with.has_tag_file);
    assert!(!without.has_tag_file);
}

#[test]
fn list_images_enumerates_corrupt_files_by_extension() {
    let entries = vec![file("good.png"), file("bad.jpg"), file("empty.gif"), file("ok.png")];
    let listing = list("/data", &entries);
    let got: Vec<&str> = listing.items.iter().map(|e| e.file_name.as_str()).collect();
    assert_eq!(got, vec!["bad.jpg", "empty.gif", "good.png", "ok.png"]);
    assert_eq!(listing.total, 4);
    assert!(!listing.truncated);
}

#[test]
fn listing_paths_join_folder_and_name() {
    let entries = vec![file("a.png")];
    let sep = std::path::MAIN_SEPARATOR;
    let listing = list("/data", &entries);
    assert_eq!(listing.items[0].path, format!("/data{sep}a.png"));
    let listing = list("/data/", &entries);
    assert_eq!(listing.items[0].path, "/data/a.png");
    assert!(listing.items[0].thumbnail_available);
}

#[test]
fn listing_is_truncated_past_the_limit() {
    let entries: Vec<DirEntryInfo> =
        (0..MAX_LISTING + 2).map(|i| file(&format!("img{i:05}.png"))).collect();
    let listing = list("/data", &entries);
    assert!(listing.truncated);
    assert_eq!(listing.total, MAX_LISTING + 2);
    assert_eq!(listing.items.len(), MAX_LISTING);
    assert_eq!(listing.items[0].file_name, "img00000.png");
}

#[test]
fn fits_within_compares_both_sides() {
    assert!(fits_within(32, 16, 256));
    assert!(fits_within(256, 256, 256));
    assert!(!fits_within(800, 400, 200));
    assert!(!fits_within(100, 300, 200));
}

#[test]
fn placeholders_are_empty_and_flagged() {
    let t = ThumbnailData::placeholder();
    assert!(t.placeholder && t.png.is_empty() && t.width == 0 && t.height == 0);
    let p = PreviewData::placeholder();
    assert!(p.placeholder && p.png.is_empty() && p.width == 0 && p.height == 0);
}

/// A PNG of `w` x `h` pixels of one colour.
fn png_bytes(w: u32, h: u32) -> Vec<u8> {
    let img = image::RgbaImage::from_pixel(w, h, image::Rgba([120, 60, 200, 255]));
    let mut out = std::io::Cursor::new(Vec::new());
    img.write_to(&mut out, image::ImageFormat::Png).unwrap();
    out.into_inner()
}

#[test]
fn thumbnail_fits_within_clamped_size_preserving_aspect() {
    let thumb = render_thumbnail("wide.png", &png_bytes(800, 400), 200);
    assert!(!thumb.placeholder);
    assert!(!thumb.png.is_empty());
    assert!(thumb.width <= 200 && thumb.height <= 200);
    assert_eq!(thumb.width, 200);
    assert_eq!(thumb.height, 100);
}

#[test]
fn thumbnail_uses_clamped_size_for_generation() {
    let thumb = render_thumbnail("big.png", &png_bytes(2000, 2000), 10);
    assert!(!thumb.placeholder);
    assert_eq!(thumb.width, MIN_THUMBNAIL_SIZE);
    assert_eq!(thumb.height, MIN_THUMBNAIL_SIZE);
}

#[test]
fn thumbnail_does_not_upscale_small_image() {
    let thumb = render_thumbnail("small.png", &png_bytes(32, 16), 256);
    assert!(!thumb.placeholder);
    assert_eq!(thumb.width, 32);
    assert_eq!(thumb.height, 16);
}

#[test]
fn corrupt_file_yields_placeholder() {
    let thumb = render_thumbnail("broken.png", b"this is not an image", 128);
    assert!(thumb.placeholder);
    assert!(thumb.png.is_empty());
    assert_eq!(thumb.width, 0);
    assert_eq!(thumb.height, 0);
}

#[test]
fn preview_returns_data_for_valid_image() {
    let preview = render_preview("p.png", &png_bytes(640, 480));
    assert!(!preview.placeholder);
    assert!(!preview.png.is_empty());
    assert_eq!(preview.width, 640);
    assert_eq!(preview.height, 480);
}

#[test]
fn preview_downscales_oversized_image() {
    let preview = render_preview("huge.png", &png_bytes(4096, 2048));
    assert!(!preview.placeholder);
    assert!(preview.width <= MAX_PREVIEW_SIZE && preview.height <= MAX_PREVIEW_SIZE);
    assert_eq!(preview.width, MAX_PREVIEW_SIZE);
    assert_eq!(preview.height, MAX_PREVIEW_SIZE / 2);
}

#[test]
fn preview_corrupt_file_yields_placeholder() {
    let preview = render_preview("broken.png", b"nope");
    assert!(preview.placeholder);
    assert!(preview.png.is_empty());
}

#[test]
fn rendered_png_decodes_back_to_the_shown_size() {
    let thumb = render_thumbnail("wide.png", &png_bytes(800, 400), 200);
    let back = image::load_from_memory(&thumb.png).unwrap();
    assert_eq!((back.width(), back.height()), (200, 100));
}

#[test]
fn format_follows_the_file_extension() {
    // PNG content under a name whose extension is not PNG is not decoded as PNG.
    let thumb = render_thumbnail("picture.gif", &png_bytes(10, 10), 128);
    assert!(thumb.placeholder);
    let thumb = render_thumbnail("noext", &png_bytes(10, 10), 128);
    assert!(thumb.placeholder);
}

#[test]
fn from_rendered_builds_or_falls_back() {
    let t = ThumbnailData::from_rendered(Some((3, 4, vec![1, 2, 3])));
    assert_eq!((t.width, t.height, t.png.clone(), t.placeholder), (3, 4, vec![1, 2, 3], false));
    let t = ThumbnailData::from_rendered(None);
    assert!(t.placeholder && t.png.is_empty());
    let p = PreviewData::from_rendered(Some((5, 6, vec![9])));
    assert_eq!((p.width, p.height, p.png.clone(), p.placeholder), (5, 6, vec![9], false));
    assert!(PreviewData::from_rendered(None).placeholder);
}

#[test]
fn tag_file_paths_replace_the_image_extension() {
    let sep = std::path::MAIN_SEPARATOR;
    let entries = vec![file("b.png"), file("a.JPG"), file("notes.txt")];
    assert_eq!(
        tag_file_paths("/data", &entries),
        vec![format!("/data{sep}a.txt"), format!("/data{sep}b.txt")]
    );
}

#[test]
fn has_tag_file_is_what_the_caller_found() {
    // On a case-insensitive file system IMG.TXT answers for IMG.txt.
    let entries = vec![file("IMG.png"), file("IMG.TXT")];
    let listing = list_images("/data", &entries, &vec![true]);
    assert!(listing.items[0].has_tag_file);
    let listing = list_images("/data", &entries, &vec![false]);
    assert!(!listing.items[0].has_tag_file);
}

#[test]
fn sixteen_bit_images_are_shrunk_at_their_own_depth() {
    let img = image::ImageBuffer::from_fn(130, 10, |x, y| {
        image::Rgb([(x * 503 + y * 7) as u16, (x * 97) as u16 ^ 0x5a5a, (y * 6007) as u16])
    });
    let mut bytes: Vec<u8> = Vec::new();
    image::DynamicImage::ImageRgb16(img)
        .write_to(&mut std::io::Cursor::new(&mut bytes), image::ImageFormat::Png)
        .unwrap();
    let thumb = render_thumbnail("deep.png", &bytes, 64);
    assert!(!thumb.placeholder);
    let expected = image::load_from_memory(&bytes).unwrap().thumbnail(64, 64).to_rgba8();
    assert_eq!((thumb.width, thumb.height), (expected.width(), expected.height()));
    let shown = image::load_from_memory(&thumb.png).unwrap().to_rgba8();
    assert_eq!(shown.into_raw(), expected.into_raw());
}
