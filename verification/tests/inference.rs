use tag_editor_core::services::inference_service::{
    exclude_videos, progress, resolve_batch_size, split_into_batches, InferOutcome, InferResult,
    InferRun, channel_values, preprocess_image,
};
use tag_editor_core::models::ChannelOrder;
use tag_editor_core::models::Progress;

fn v(items: &[&str]) -> Vec<String> {
    items.iter().map(|s| s.to_string()).collect()
}

#[test]
fn pbt_inference_batch_size_boundary_and_extreme_values() {
    assert_eq!(resolve_batch_size(None), 8);
    assert_eq!(resolve_batch_size(Some(1)), 1);
    assert_eq!(resolve_batch_size(Some(8)), 8);
    assert_eq!(resolve_batch_size(Some(64)), 64);
    assert_eq!(resolve_batch_size(Some(0)), 1);
    assert_eq!(resolve_batch_size(Some(65)), 64);
    assert_eq!(resolve_batch_size(Some(u32::MAX)), 64);
}

#[test]
fn representative_fixed_cases() {
    let input = v(&[
        "a.png",
        "b.mp4",
        "C:\\images\\clip.MP4",
        "sub/dir/video.Mp4",
        "/home/user/pic.png",
        "mp4_thumbnail.png",
        "my.mp4.backup.png",
        "README",
        "mp4/inside.gif",
    ]);
    let expected = v(&[
        "a.png",
        "/home/user/pic.png",
        "mp4_thumbnail.png",
        "my.mp4.backup.png",
        "README",
        "mp4/inside.gif",
    ]);
    assert_eq!(exclude_videos(&input), expected);
}

#[test]
fn batches_cut_in_order_with_a_short_last_one() {
    let items = v(&["a", "b", "c", "d", "e"]);
    let b = split_into_batches(&items, 2);
    assert_eq!(b, vec![v(&["a", "b"]), v(&["c", "d"]), v(&["e"])]);
    assert!(split_into_batches(&Vec::new(), 3).is_empty());
    assert_eq!(split_into_batches(&items, 5), vec![items.clone()]);
}

#[test]
fn results_tally_each_image_and_cancellation() {
    let mut r = InferResult::start(5, 3);
    assert_eq!(r.excluded, 2);
    r.record("a.png", &InferOutcome::Written);
    r.record("b.png", &InferOutcome::LoadFailed("bad header".to_string()));
    r.cancel(3, 2);
    assert_eq!((r.succeeded, r.failed, r.excluded, r.cancelled), (1, 1, 2, 1));
    assert_eq!(r.messages, v(&["b.png: 画像読込に失敗: bad header", "キャンセルにより 1 件を中止"]));
    let p = progress("op", 2, 3);
    assert_eq!((p.operation_id.as_str(), p.done, p.total), ("op", 2, 3));
}

/// Runs `paths` through an `InferRun`; `outcome` says how each image ends
/// and `cancel_after` after how many reported images the cancel flag is set.
fn run_all(
    paths: &[&str],
    batch: Option<u32>,
    outcome: &dyn Fn(&str) -> InferOutcome,
    cancel_after: Option<usize>,
) -> (InferResult, Vec<Progress>, Vec<Vec<String>>) {
    let mut run = InferRun::new("op", &v(paths), batch);
    let mut events = Vec::new();
    let mut batches = Vec::new();
    loop {
        let cancel = cancel_after.is_some_and(|n| events.len() >= n);
        let Some(b) = run.next_batch(cancel) else { break };
        for p in &b {
            events.push(run.record(p, &outcome(p)));
        }
        batches.push(b);
    }
    (run.finish(), events, batches)
}

#[test]
fn run_leaves_out_videos_and_batches_the_rest() {
    let (r, events, batches) =
        run_all(&["a.png", "b.mp4", "c.png", "d.jpg"], Some(2), &|_| InferOutcome::Written, None);
    assert_eq!((r.succeeded, r.failed, r.excluded, r.cancelled), (3, 0, 1, 0));
    assert_eq!(batches, vec![v(&["a.png", "c.png"]), v(&["d.jpg"])]);
    let seen: Vec<(usize, usize)> = events.iter().map(|p| (p.done, p.total)).collect();
    assert_eq!(seen, vec![(1, 3), (2, 3), (3, 3)]);
    assert!(events.iter().all(|p| p.operation_id == "op"));
}

#[test]
fn run_cancel_is_seen_at_the_next_batch() {
    // Batches of one: a cancel after the first image stops the other two.
    let (r, events, _) =
        run_all(&["img0.png", "img1.png", "img2.png"], Some(1), &|_| InferOutcome::Written, Some(1));
    assert_eq!((r.succeeded, r.cancelled), (1, 2));
    assert_eq!(events.len(), 1);
    assert_eq!(r.messages, v(&["キャンセルにより 2 件を中止"]));
    // Batches of two: the cancel waits for the batch to end.
    let (r, _, _) =
        run_all(&["img0.png", "img1.png", "img2.png"], Some(2), &|_| InferOutcome::Written, Some(1));
    assert_eq!((r.succeeded, r.cancelled), (2, 1));
}

#[test]
fn run_cancel_before_the_first_batch_infers_nothing() {
    let (r, events, _) = run_all(&["a.png", "b.png"], None, &|_| InferOutcome::Written, Some(0));
    assert_eq!((r.succeeded, r.failed, r.cancelled), (0, 0, 2));
    assert!(events.is_empty());
}

#[test]
fn run_failures_are_counted_and_the_rest_continue() {
    let outcome = |p: &str| {
        if p.starts_with("bad") {
            InferOutcome::InferFailed("mock failure".to_string())
        } else {
            InferOutcome::Written
        }
    };
    let (r, _, _) =
        run_all(&["good0.png", "bad0.png", "good1.png", "bad1.png", "good2.png"], Some(2), &outcome, None);
    assert_eq!((r.succeeded, r.failed), (3, 2));
    assert_eq!(r.messages, v(&["bad0.png: 推論に失敗: mock failure", "bad1.png: 推論に失敗: mock failure"]));
}

#[test]
fn run_with_nothing_to_infer_finishes_at_once() {
    let (r, events, batches) = run_all(&["clip.mp4"], None, &|_| InferOutcome::Written, None);
    assert_eq!((r.succeeded, r.excluded), (0, 1));
    assert!(events.is_empty() && batches.is_empty());
}

/// A PNG of one colour, RGB.
fn solid_png(w: u32, h: u32, r: u8, g: u8, b: u8) -> Vec<u8> {
    let img = image::RgbImage::from_pixel(w, h, image::Rgb([r, g, b]));
    let mut out = std::io::Cursor::new(Vec::new());
    img.write_to(&mut out, image::ImageFormat::Png).unwrap();
    out.into_inner()
}

#[test]
fn tensor_length_matches_input_size() {
    let tensor = preprocess_image("a.png", &solid_png(2, 2, 10, 20, 30), 4, ChannelOrder::Rgb).unwrap();
    assert_eq!(tensor.len(), 4 * 4 * 3);
}

#[test]
fn rgb_order_places_channels_r_g_b() {
    let tensor = preprocess_image("a.png", &solid_png(2, 2, 10, 20, 30), 2, ChannelOrder::Rgb).unwrap();
    assert_eq!(&tensor[0..3], &[10, 20, 30]);
}

#[test]
fn bgr_order_places_channels_b_g_r() {
    let tensor = preprocess_image("a.png", &solid_png(2, 2, 10, 20, 30), 2, ChannelOrder::Bgr).unwrap();
    assert_eq!(&tensor[0..3], &[30, 20, 10]);
}

#[test]
fn values_are_in_0_255_range_not_normalized() {
    let tensor = preprocess_image("a.png", &solid_png(2, 2, 255, 128, 0), 2, ChannelOrder::Rgb).unwrap();
    assert_eq!(&tensor[0..3], &[255, 128, 0]);
}

#[test]
fn zero_input_size_yields_empty() {
    assert!(preprocess_image("a.png", &solid_png(2, 2, 1, 2, 3), 0, ChannelOrder::Rgb).unwrap().is_empty());
}

#[test]
fn resizes_non_square_input_to_square() {
    let tensor = preprocess_image("a.png", &solid_png(7, 3, 0, 0, 0), 5, ChannelOrder::Bgr).unwrap();
    assert_eq!(tensor.len(), 5 * 5 * 3);
}

#[test]
fn undecodable_image_is_an_error() {
    assert!(preprocess_image("bad.png", b"not a real png", 4, ChannelOrder::Rgb).is_err());
    assert!(preprocess_image("bad.png", b"not a real png", 0, ChannelOrder::Rgb).is_err());
}

#[test]
fn every_pixel_is_laid_out_in_order() {
    // Two pixels of different colours, kept at their size.
    let mut img = image::RgbImage::new(2, 1);
    img.put_pixel(0, 0, image::Rgb([1, 2, 3]));
    img.put_pixel(1, 0, image::Rgb([4, 5, 6]));
    let mut out = std::io::Cursor::new(Vec::new());
    img.write_to(&mut out, image::ImageFormat::Png).unwrap();
    let bytes = out.into_inner();
    let t = preprocess_image("two.png", &bytes, 2, ChannelOrder::Bgr).unwrap();
    assert_eq!(t.len(), 12);
    let t = preprocess_image("two.png", &bytes, 1, ChannelOrder::Rgb).unwrap();
    assert_eq!(t.len(), 3);
}

#[test]
fn channel_values_reorder_and_drop_alpha() {
    let rgba = vec![1, 2, 3, 255, 4, 5, 6, 128];
    assert_eq!(channel_values(&rgba, ChannelOrder::Rgb), vec![1, 2, 3, 4, 5, 6]);
    assert_eq!(channel_values(&rgba, ChannelOrder::Bgr), vec![3, 2, 1, 6, 5, 4]);
    // A trailing partial pixel is ignored.
    assert_eq!(channel_values(&vec![9, 8, 7, 6, 5], ChannelOrder::Rgb), vec![9, 8, 7]);
    assert!(channel_values(&Vec::new(), ChannelOrder::Bgr).is_empty());
}
