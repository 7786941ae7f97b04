//! Listing the images of a folder, and rendering thumbnails and previews
//! from an image file's bytes. Reading the folder and the files, and
//! checking which tag files exist, is the caller's.
use vstd::prelude::*;
use image::ImageEncoder;
use crate::logic::file_names::{has_supported_extension, is_image_name};
use crate::logic::order::{sort_names, sorted_names};
use crate::logic::paths::{join_with, joined, main_separator, platform_sep};
use crate::logic::text::string_views;
use crate::models::{DirEntryInfo, ImageEntry};
use crate::services::tag_file::{tag_file_path, with_txt_extension};

verus! {

/// Most images a listing holds; the rest is counted but left out.
pub const MAX_LISTING: usize = 10000;

/// Smallest thumbnail side, in pixels.
pub const MIN_THUMBNAIL_SIZE: u32 = 64;

/// Largest thumbnail side, in pixels.
pub const MAX_THUMBNAIL_SIZE: u32 = 512;

/// Largest preview side, in pixels; larger images are scaled down to fit.
pub const MAX_PREVIEW_SIZE: u32 = 2048;

/// The images of a folder.
#[derive(Debug, Clone, PartialEq, Eq)]
pub struct ImageListing {
    /// The images by file name (ascending), at most [`MAX_LISTING`] of them.
    pub items: Vec<ImageEntry>,
    /// Whether images were left out because of [`MAX_LISTING`].
    pub truncated: bool,
    /// Number of images before the limit was applied.
    pub total: usize,
}

/// Names of the entries that are not folders and have an image extension,
/// in listing order.
pub open spec fn image_file_names(entries: Seq<DirEntryInfo>) -> Seq<Seq<char>>
    decreases entries.len(),
{
    if entries.len() == 0 {
        Seq::empty()
    } else {
        let r = image_file_names(entries.drop_last());
        let e = entries.last();
        if !e.is_dir && is_image_name(e.name@) {
            r.push(e.name@)
        } else {
            r
        }
    }
}

/// The listing entry of the image `name` of `folder`: its path, its name,
/// whether its tag file exists (as the caller found), and thumbnail
/// availability.
pub open spec fn listing_entry(folder: Seq<char>, name: Seq<char>, has_tag_file: bool, sep: char) -> (
    Seq<char>,
    Seq<char>,
    bool,
    bool,
) {
    (joined(folder, name, sep), name, has_tag_file, true)
}

/// The images of a listing, by name.
pub open spec fn listed_names(entries: Seq<DirEntryInfo>) -> Seq<Seq<char>> {
    sorted_names(image_file_names(entries))
}

/// How many of `n` images a listing shows: at most [`MAX_LISTING`].
pub open spec fn shown_count(n: nat) -> nat {
    if n > MAX_LISTING {
        MAX_LISTING as nat
    } else {
        n
    }
}

/// The image names of a listing, in listing order (see [`image_file_names`]).
pub fn image_names(entries: &Vec<DirEntryInfo>) -> (out: Vec<String>)
    ensures
        string_views(out@) == image_file_names(entries@),
{
    let mut out: Vec<String> = Vec::new();
    let mut i: usize = 0;
    proof {
        assert(entries@.take(0) =~= Seq::<DirEntryInfo>::empty());
    }
    while i < entries.len()
        invariant
            i <= entries.len(),
            string_views(out@) == image_file_names(entries@.take(i as int)),
        decreases entries.len() - i,
    {
        proof {
            assert(entries@.take(i + 1).drop_last() =~= entries@.take(i as int));
            assert(entries@.take(i + 1).last() == entries@[i as int]);
        }
        let e = &entries[i];
        if !e.is_dir && has_supported_extension(e.name.as_str()) {
            let ghost before = out@;
            out.push(e.name.clone());
            proof {
                assert(string_views(out@) =~= string_views(before).push(e.name@));
            }
        }
        i += 1;
    }
    proof {
        assert(entries@.take(entries.len() as int) =~= entries@);
    }
    out
}

/// Sorting keeps the number of images.
proof fn lemma_listed_len(entries: Seq<DirEntryInfo>)
    ensures
        listed_names(entries).len() == image_file_names(entries).len(),
{
    let all = image_file_names(entries);
    crate::logic::order::lemma_name_order_total();
    all.lemma_sort_by_ensures(crate::logic::order::name_order());
    vstd::seq_lib::to_multiset_len(all);
    vstd::seq_lib::to_multiset_len(listed_names(entries));
}

/// Some entry of `es` is a file with an image extension named `n`.
pub open spec fn image_named(es: Seq<DirEntryInfo>, n: Seq<char>) -> bool {
    exists|i: int| 0 <= i < es.len() && !(#[trigger] es[i]).is_dir && is_image_name(es[i].name@) && es[i].name@ == n
}

proof fn lemma_image_file_names(es: Seq<DirEntryInfo>)
    ensures
        forall|k: int|
            0 <= k < image_file_names(es).len() ==> image_named(es, #[trigger] image_file_names(es)[k]),
        forall|i: int|
            0 <= i < es.len() && !(#[trigger] es[i]).is_dir && is_image_name(es[i].name@)
                ==> image_file_names(es).contains(es[i].name@),
    decreases es.len(),
{
    if es.len() > 0 {
        let p = es.drop_last();
        let x = es.last();
        let r = image_file_names(p);
        lemma_image_file_names(p);
        let o = image_file_names(es);
        assert forall|k: int| 0 <= k < o.len() implies image_named(es, #[trigger] o[k]) by {
            if k < r.len() {
                assert(image_named(p, r[k]));
                let i = choose|i: int|
                    0 <= i < p.len() && !(#[trigger] p[i]).is_dir && is_image_name(p[i].name@) && p[i].name@ == r[k];
                assert(es[i] == p[i]);
                assert(o[k] == r[k]);
            } else {
                assert(es[es.len() - 1] == x);
            }
        }
        assert forall|i: int| 0 <= i < es.len() && !(#[trigger] es[i]).is_dir && is_image_name(es[i].name@)
            implies o.contains(es[i].name@) by {
            if i < es.len() - 1 {
                assert(es[i] == p[i]);
                let j = choose|j: int| 0 <= j < r.len() && r[j] == p[i].name@;
                assert(o[j] == r[j]);
            } else {
                assert(o[o.len() - 1] == x.name@);
            }
        }
    }
}

/// A listing names exactly the image files of the folder, in ascending
/// order: each name listed is that of a file (not a folder) with an image
/// extension, and every such file is listed.
pub proof fn law_listing_is_the_images(entries: Seq<DirEntryInfo>)
    ensures
        forall|k: int|
            0 <= k < listed_names(entries).len() ==> image_named(entries, #[trigger] listed_names(entries)[k]),
        forall|i: int|
            0 <= i < entries.len() && !(#[trigger] entries[i]).is_dir && is_image_name(entries[i].name@)
                ==> listed_names(entries).contains(entries[i].name@),
        vstd::relations::sorted_by(listed_names(entries), crate::logic::order::name_order()),
{
    broadcast use vstd::seq_lib::group_to_multiset_ensures;
    let all = image_file_names(entries);
    let l = listed_names(entries);
    lemma_image_file_names(entries);
    crate::logic::order::lemma_name_order_total();
    all.lemma_sort_by_ensures(crate::logic::order::name_order());
    assert forall|k: int| 0 <= k < l.len() implies image_named(entries, #[trigger] l[k]) by {
        assert(l.to_multiset().count(l[k]) > 0);
        assert(all.contains(l[k]));
        let j = choose|j: int| 0 <= j < all.len() && all[j] == l[k];
        assert(image_named(entries, all[j]));
    }
    assert forall|i: int|
        0 <= i < entries.len() && !(#[trigger] entries[i]).is_dir && is_image_name(entries[i].name@)
            implies l.contains(entries[i].name@) by {
        assert(all.contains(entries[i].name@));
        assert(all.to_multiset().count(entries[i].name@) > 0);
    }
}

/// The names a listing shows, by name, at most [`MAX_LISTING`] of them.
fn shown_names(entries: &Vec<DirEntryInfo>) -> (out: Vec<String>)
    ensures
        string_views(out@) == listed_names(entries@).take(
            shown_count(listed_names(entries@).len()) as int,
        ),
        out.len() == shown_count(listed_names(entries@).len()),
{
    let unsorted = image_names(entries);
    let mut names = sort_names(&unsorted);
    if names.len() > MAX_LISTING {
        names.truncate(MAX_LISTING);
    }
    proof {
        assert(string_views(names@) =~= listed_names(entries@).take(
            shown_count(listed_names(entries@).len()) as int,
        ));
        assert(string_views(names@).len() == names.len());
    }
    names
}

/// The paths of the tag files of the images a listing of `folder` shows,
/// in listing order: the image path with its extension replaced by `txt`
/// (see [`tag_file_path`]). The caller tells [`list_images`] which exist.
pub fn tag_file_paths(folder: &str, entries: &Vec<DirEntryInfo>) -> (out: Vec<String>)
    ensures
        ({
            let names = listed_names(entries@);
            &&& out.len() == shown_count(names.len())
            &&& exists|sep: char|
                #![trigger platform_sep(sep)]
                platform_sep(sep) && forall|i: int|
                    0 <= i < out.len() ==> (#[trigger] out@[i])@ == with_txt_extension(
                        joined(folder@, names[i], sep),
                    )
        }),
{
    let names = shown_names(entries);
    let ghost sn = listed_names(entries@);
    let sep = main_separator();
    let mut out: Vec<String> = Vec::new();
    let mut i: usize = 0;
    while i < names.len()
        invariant
            i <= names.len(),
            names.len() == shown_count(sn.len()),
            shown_count(sn.len()) <= sn.len(),
            string_views(names@) == sn.take(shown_count(sn.len()) as int),
            out.len() == i,
            forall|j: int|
                0 <= j < i ==> (#[trigger] out@[j])@ == with_txt_extension(joined(folder@, sn[j], sep)),
        decreases names.len() - i,
    {
        let path = join_with(folder, names[i].as_str(), sep);
        proof {
            assert(sn[i as int] == sn.take(shown_count(sn.len()) as int)[i as int]);
            assert(sn[i as int] == string_views(names@)[i as int]);
        }
        out.push(tag_file_path(path.as_str()));
        i += 1;
    }
    proof {
        assert(platform_sep(sep));
    }
    out
}

/// The images of `folder` given its entries: the non-folder entries with an
/// image extension, by name, at most [`MAX_LISTING`] of them; each with its
/// path and whether its tag file exists, as the caller found for the paths
/// of [`tag_file_paths`], in the same order.
pub fn list_images(folder: &str, entries: &Vec<DirEntryInfo>, tag_files_exist: &Vec<bool>) -> (r:
    ImageListing)
    requires
        tag_files_exist.len() == shown_count(listed_names(entries@).len()),
    ensures
        ({
            let names = listed_names(entries@);
            &&& r.total == names.len()
            &&& r.truncated == (names.len() > MAX_LISTING)
            &&& r.items.len() == shown_count(names.len())
            &&& exists|sep: char|
                #![trigger platform_sep(sep)]
                platform_sep(sep) && forall|i: int|
                    0 <= i < r.items.len() ==> (#[trigger] r.items[i])@ == listing_entry(
                        folder@,
                        names[i],
                        tag_files_exist[i],
                        sep,
                    )
        }),
{
    let unsorted = image_names(entries);
    let total = unsorted.len();
    proof {
        lemma_listed_len(entries@);
        assert(string_views(unsorted@).len() == unsorted.len());
    }
    let truncated = total > MAX_LISTING;
    let names = shown_names(entries);
    let ghost sn = listed_names(entries@);
    let sep = main_separator();
    let mut items: Vec<ImageEntry> = Vec::new();
    let mut i: usize = 0;
    while i < names.len()
        invariant
            i <= names.len(),
            names.len() == tag_files_exist.len(),
            names.len() == shown_count(sn.len()),
            shown_count(sn.len()) <= sn.len(),
            string_views(names@) == sn.take(shown_count(sn.len()) as int),
            items.len() == i,
            forall|j: int|
                0 <= j < i ==> (#[trigger] items@[j])@ == listing_entry(
                    folder@,
                    sn[j],
                    tag_files_exist[j],
                    sep,
                ),
        decreases names.len() - i,
    {
        let name = &names[i];
        let path = join_with(folder, name.as_str(), sep);
        proof {
            assert(sn[i as int] == sn.take(shown_count(sn.len()) as int)[i as int]);
            assert(sn[i as int] == string_views(names@)[i as int]);
        }
        items.push(
            ImageEntry {
                path,
                file_name: name.clone(),
                has_tag_file: tag_files_exist[i],
                thumbnail_available: true,
            },
        );
        i += 1;
    }
    proof {
        assert(platform_sep(sep));
    }
    ImageListing { items, truncated, total }
}

/// A thumbnail size limited to [`MIN_THUMBNAIL_SIZE`]..=[`MAX_THUMBNAIL_SIZE`].
pub fn clamp_thumbnail_size(size: u32) -> (r: u32)
    ensures
        r == if size < MIN_THUMBNAIL_SIZE {
            MIN_THUMBNAIL_SIZE
        } else if size > MAX_THUMBNAIL_SIZE {
            MAX_THUMBNAIL_SIZE
        } else {
            size
        },
{
    if size < MIN_THUMBNAIL_SIZE {
        MIN_THUMBNAIL_SIZE
    } else if size > MAX_THUMBNAIL_SIZE {
        MAX_THUMBNAIL_SIZE
    } else {
        size
    }
}

/// Whether an image of `width` x `height` fits in a square of side `limit`
/// as it is, so that it is shown without scaling.
pub fn fits_within(width: u32, height: u32, limit: u32) -> (r: bool)
    ensures
        r == (width <= limit && height <= limit),
{
    width <= limit && height <= limit
}

// ---------------------------------------------------------------------------
// Rendering images for display
// ---------------------------------------------------------------------------

/// What the `image` crate decodes from `bytes` in the format that the
/// extension of `name` names, as 8-bit RGBA: width, height and pixels.
pub uninterp spec fn decoded_rgba(name: Seq<char>, bytes: Seq<u8>) -> Option<(u32, u32, Seq<u8>)>;

/// What `DynamicImage::thumbnail` gives for the file `name` with content
/// `bytes`, decoded as [`decoded_rgba`] decodes it and shrunk to fit in a
/// square of side `limit` at its own colour type, then as 8-bit RGBA.
pub uninterp spec fn shrunk_rgba(name: Seq<char>, bytes: Seq<u8>, limit: u32) -> Option<(u32, u32, Seq<u8>)>;

/// The PNG encoding of an RGBA image by `image`'s `PngEncoder`.
pub uninterp spec fn png_encoding(width: u32, height: u32, pixels: Seq<u8>) -> Option<Seq<u8>>;

/// Decodes with `image::load_from_memory_with_format`, the format taken by
/// `ImageFormat::from_path` from the file name (as `image::open` does), and
/// converts with `DynamicImage::to_rgba8`. Claimed: success and the result
/// are [`decoded_rgba`] of the arguments; the error's text (its `Display`)
/// is not described.
#[verifier::external_body]
pub(crate) fn decode_rgba(name: &str, bytes: &[u8]) -> (r: Result<(u32, u32, Vec<u8>), String>)
    ensures
        match r {
            Ok((w, h, p)) => decoded_rgba(name@, bytes@) == Some((w, h, p@)),
            Err(_) => decoded_rgba(name@, bytes@) is None,
        },
{
    let format = image::ImageFormat::from_path(name).map_err(|e| e.to_string())?;
    let img = image::load_from_memory_with_format(bytes, format).map_err(|e| e.to_string())?;
    let rgba = img.to_rgba8();
    Ok((rgba.width(), rgba.height(), rgba.into_raw()))
}

/// Decodes as [`decode_rgba`] does (`None` where that fails), shrinks the
/// decoded image with `DynamicImage::thumbnail(limit, limit)` (aspect ratio
/// kept) and converts it with `DynamicImage::to_rgba8`. Claimed: the result
/// is [`shrunk_rgba`] of the arguments, and for a limit of at least 1 it
/// fits in the square of side `limit` (`thumbnail` scales both sides by the
/// smaller of `limit / width` and `limit / height`, rounded, at least 1).
#[verifier::external_body]
fn shrink_rgba(name: &str, bytes: &[u8], limit: u32) -> (r: Option<(u32, u32, Vec<u8>)>)
    ensures
        match r {
            Some((w, h, p)) => shrunk_rgba(name@, bytes@, limit) == Some((w, h, p@)) && (limit >= 1
                ==> w <= limit && h <= limit),
            None => shrunk_rgba(name@, bytes@, limit) is None,
        },
{
    let format = image::ImageFormat::from_path(name).ok()?;
    let img = image::load_from_memory_with_format(bytes, format).ok()?;
    let t = img.thumbnail(limit, limit).to_rgba8();
    Some((t.width(), t.height(), t.into_raw()))
}

/// Encodes with `PngEncoder::write_image` as `Rgba8`, which asserts that
/// the pixels are exactly four bytes per pixel (hence the `requires`).
/// Claimed: the result is [`png_encoding`] of the arguments.
#[verifier::external_body]
fn encode_png(width: u32, height: u32, pixels: &[u8]) -> (r: Option<Vec<u8>>)
    requires
        pixels@.len() == 4 * width * height,
    ensures
        match r {
            Some(png) => png_encoding(width, height, pixels@) == Some(png@),
            None => png_encoding(width, height, pixels@) is None,
        },
{
    let mut buf: Vec<u8> = Vec::new();
    let encoder = image::codecs::png::PngEncoder::new(&mut buf);
    encoder.write_image(pixels, width, height, image::ExtendedColorType::Rgba8).ok()?;
    Some(buf)
}

/// The PNG of RGBA pixels, when they are exactly four bytes per pixel and
/// encode.
pub open spec fn encoded(shown: Option<(u32, u32, Seq<u8>)>) -> Option<(u32, u32, Seq<u8>)> {
    match shown {
        Some((w, h, p)) => if p.len() == 4 * w * h {
            match png_encoding(w, h, p) {
                Some(png) => Some((w, h, png)),
                None => None,
            }
        } else {
            None
        },
        None => None,
    }
}

/// An image as shown: the file `name` with content `bytes` decoded, shrunk
/// to fit in a square of side `limit` when it does not fit as it is (never
/// enlarged), and PNG-encoded; `None` where any step fails.
pub open spec fn rendered_png(name: Seq<char>, bytes: Seq<u8>, limit: u32) -> Option<(u32, u32, Seq<u8>)> {
    match decoded_rgba(name, bytes) {
        Some((w, h, p)) => if w <= limit && h <= limit {
            encoded(Some((w, h, p)))
        } else {
            encoded(shrunk_rgba(name, bytes, limit))
        },
        None => None,
    }
}

/// A rendered image never exceeds its limit on either side, given that the
/// `image` crate's shrink of it fits (as [`shrink_rgba`] states of each
/// result): an image is shown as it is only when both its sides fit, and
/// shrunk otherwise.
pub proof fn law_rendered_fits(name: Seq<char>, bytes: Seq<u8>, limit: u32)
    requires
        shrunk_rgba(name, bytes, limit) matches Some((sw, sh, _)) ==> sw <= limit && sh <= limit,
    ensures
        rendered_png(name, bytes, limit) matches Some((w, h, _)) ==> w <= limit && h <= limit,
{
}

/// Encodes RGBA pixels as PNG (see [`encoded`]).
fn encode_shown(shown: Option<(u32, u32, Vec<u8>)>) -> (r: Option<(u32, u32, Vec<u8>)>)
    ensures
        match (shown, r) {
            (Some((w, h, p)), Some((w2, h2, png))) => encoded(Some((w, h, p@))) == Some((w2, h2, png@)),
            (Some((w, h, p)), None) => encoded(Some((w, h, p@))) is None,
            (None, r) => r is None,
        },
{
    match shown {
        Some((w, h, p)) => {
            let len: u128 = p.len() as u128;
            let wide: u128 = w as u128;
            let high: u128 = h as u128;
            assert(wide * high <= 0xffff_ffff * 0xffff_ffff) by (nonlinear_arith)
                requires
                    wide <= 0xffff_ffff,
                    high <= 0xffff_ffff,
            ;
            let need: u128 = 4 * (wide * high);
            assert(need == 4 * w * h) by (nonlinear_arith)
                requires
                    need == 4 * (wide * high),
                    wide == w,
                    high == h,
            ;
            if len != need {
                return None;
            }
            match encode_png(w, h, &p) {
                Some(png) => Some((w, h, png)),
                None => None,
            }
        },
        None => None,
    }
}

/// Renders the file `name` with content `bytes` to fit in a square of side
/// `limit` (see [`rendered_png`]).
fn render_png(name: &str, bytes: &[u8], limit: u32) -> (r: Option<(u32, u32, Vec<u8>)>)
    requires
        limit >= 1,
    ensures
        match r {
            Some((w, h, png)) => rendered_png(name@, bytes@, limit) == Some((w, h, png@)) && w
                <= limit && h <= limit,
            None => rendered_png(name@, bytes@, limit) is None,
        },
{
    match decode_rgba(name, bytes) {
        Ok((w, h, p)) => {
            if fits_within(w, h, limit) {
                encode_shown(Some((w, h, p)))
            } else {
                let shrunk = shrink_rgba(name, bytes, limit);
                encode_shown(shrunk)
            }
        },
        Err(_) => None,
    }
}

/// A thumbnail, PNG-encoded.
#[derive(Debug, Clone, PartialEq, Eq)]
pub struct ThumbnailData {
    /// Width in pixels; 0 for a placeholder.
    pub width: u32,
    /// Height in pixels; 0 for a placeholder.
    pub height: u32,
    /// The PNG bytes; empty for a placeholder.
    pub png: Vec<u8>,
    /// Set when the image could not be read or encoded.
    pub placeholder: bool,
}

impl ThumbnailData {
    /// The thumbnail of a rendered image; the placeholder where it could not
    /// be rendered.
    pub fn from_rendered(rendered: Option<(u32, u32, Vec<u8>)>) -> (r: ThumbnailData)
        ensures
            match rendered {
                Some((w, h, png)) => r.width == w && r.height == h && r.png@ == png@
                    && !r.placeholder,
                None => r.width == 0 && r.height == 0 && r.png@.len() == 0 && r.placeholder,
            },
    {
        match rendered {
            Some((width, height, png)) => ThumbnailData { width, height, png, placeholder: false },
            None => ThumbnailData::placeholder(),
        }
    }

    /// The stand-in shown for an image that could not be read.
    pub fn placeholder() -> (r: ThumbnailData)
        ensures
            r.width == 0,
            r.height == 0,
            r.png@.len() == 0,
            r.placeholder,
    {
        ThumbnailData { width: 0, height: 0, png: Vec::new(), placeholder: true }
    }
}

/// An enlarged preview, PNG-encoded.
#[derive(Debug, Clone, PartialEq, Eq)]
pub struct PreviewData {
    /// Width in pixels; 0 for a placeholder.
    pub width: u32,
    /// Height in pixels; 0 for a placeholder.
    pub height: u32,
    /// The PNG bytes; empty for a placeholder.
    pub png: Vec<u8>,
    /// Set when the image could not be read or encoded.
    pub placeholder: bool,
}

impl PreviewData {
    /// The preview of a rendered image; the placeholder where it could not
    /// be rendered.
    pub fn from_rendered(rendered: Option<(u32, u32, Vec<u8>)>) -> (r: PreviewData)
        ensures
            match rendered {
                Some((w, h, png)) => r.width == w && r.height == h && r.png@ == png@
                    && !r.placeholder,
                None => r.width == 0 && r.height == 0 && r.png@.len() == 0 && r.placeholder,
            },
    {
        match rendered {
            Some((width, height, png)) => PreviewData { width, height, png, placeholder: false },
            None => PreviewData::placeholder(),
        }
    }

    /// The stand-in shown for an image that could not be read.
    pub fn placeholder() -> (r: PreviewData)
        ensures
            r.width == 0,
            r.height == 0,
            r.png@.len() == 0,
            r.placeholder,
    {
        PreviewData { width: 0, height: 0, png: Vec::new(), placeholder: true }
    }
}

/// The thumbnail of the image file `name` whose content is `bytes`: its
/// side limit clamped (see [`clamp_thumbnail_size`]), shrunk to fit when it
/// is larger, never enlarged; the placeholder where it cannot be decoded or
/// encoded.
pub fn render_thumbnail(name: &str, bytes: &[u8], size: u32) -> (r: ThumbnailData)
    ensures
        match rendered_png(name@, bytes@, clamp(size)) {
            Some((w, h, png)) => r.width == w && r.height == h && r.png@ == png && !r.placeholder,
            None => r.width == 0 && r.height == 0 && r.png@.len() == 0 && r.placeholder,
        },
        !r.placeholder ==> r.width <= clamp(size) && r.height <= clamp(size),
{
    let limit = clamp_thumbnail_size(size);
    ThumbnailData::from_rendered(render_png(name, bytes, limit))
}

/// The preview of the image file `name` whose content is `bytes`: shrunk
/// to fit in [`MAX_PREVIEW_SIZE`] when it is larger, as it is otherwise; the
/// placeholder where it cannot be decoded or encoded.
pub fn render_preview(name: &str, bytes: &[u8]) -> (r: PreviewData)
    ensures
        match rendered_png(name@, bytes@, MAX_PREVIEW_SIZE) {
            Some((w, h, png)) => r.width == w && r.height == h && r.png@ == png && !r.placeholder,
            None => r.width == 0 && r.height == 0 && r.png@.len() == 0 && r.placeholder,
        },
        !r.placeholder ==> r.width <= MAX_PREVIEW_SIZE && r.height <= MAX_PREVIEW_SIZE,
{
    PreviewData::from_rendered(render_png(name, bytes, MAX_PREVIEW_SIZE))
}

/// A thumbnail side limit clamped to [`MIN_THUMBNAIL_SIZE`]..=[`MAX_THUMBNAIL_SIZE`].
pub open spec fn clamp(size: u32) -> u32 {
    if size < MIN_THUMBNAIL_SIZE {
        MIN_THUMBNAIL_SIZE
    } else if size > MAX_THUMBNAIL_SIZE {
        MAX_THUMBNAIL_SIZE
    } else {
        size
    }
}

} // verus!
