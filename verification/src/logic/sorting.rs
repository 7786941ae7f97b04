//! Where sorting sends an image: by its size (orientation and long side
//! against a threshold) or by whether it carries one of the judge tags.
use vstd::prelude::*;
use crate::logic::text::{chars_of, chars_eq, trim, trim_chars, string_views};

verus! {

/// Orientation of an image; a square counts as landscape.
#[derive(Debug, Clone, Copy, PartialEq, Eq, Structural)]
pub enum Orientation {
    Landscape,
    Portrait,
}

/// Whether the long side reaches the threshold.
#[derive(Debug, Clone, Copy, PartialEq, Eq, Structural)]
pub enum LongSideBand {
    AtOrAbove,
    Below,
}

/// The destination of an image when sorting by size.
#[derive(Debug, Clone, Copy, PartialEq, Eq, Structural)]
pub struct SizeDestination {
    pub orientation: Orientation,
    pub band: LongSideBand,
}

/// Smallest valid long-side threshold, in pixels.
pub const MIN_LONG_SIDE_THRESHOLD: i64 = 1;

/// Largest valid long-side threshold, in pixels.
pub const MAX_LONG_SIDE_THRESHOLD: i64 = 100000;

/// The orientation of a `width` x `height` image: landscape when it is at
/// least as wide as it is high.
pub fn orientation_of(width: u32, height: u32) -> (r: Orientation)
    ensures
        r == if width >= height {
            Orientation::Landscape
        } else {
            Orientation::Portrait
        },
{
    if width >= height {
        Orientation::Landscape
    } else {
        Orientation::Portrait
    }
}

/// The destination of a `width` x `height` image: its orientation, and
/// whether its long side is at or above `threshold`.
pub fn decide_size_destination(width: u32, height: u32, threshold: u32) -> (r: SizeDestination)
    ensures
        r.orientation == if width >= height {
            Orientation::Landscape
        } else {
            Orientation::Portrait
        },
        r.band == if (if width >= height {
            width
        } else {
            height
        }) >= threshold {
            LongSideBand::AtOrAbove
        } else {
            LongSideBand::Below
        },
{
    let orientation = orientation_of(width, height);
    let long_side = if width >= height {
        width
    } else {
        height
    };
    let band = if long_side >= threshold {
        LongSideBand::AtOrAbove
    } else {
        LongSideBand::Below
    };
    SizeDestination { orientation, band }
}

/// Whether a long-side threshold is valid: from 1 to 100000 pixels.
pub fn is_valid_long_side_threshold(threshold: i64) -> (r: bool)
    ensures
        r == (MIN_LONG_SIDE_THRESHOLD <= threshold && threshold <= MAX_LONG_SIDE_THRESHOLD),
{
    MIN_LONG_SIDE_THRESHOLD <= threshold && threshold <= MAX_LONG_SIDE_THRESHOLD
}

/// The subfolder a size destination maps to.
pub open spec fn size_subfolder(d: SizeDestination) -> Seq<char> {
    match (d.orientation, d.band) {
        (Orientation::Landscape, LongSideBand::AtOrAbove) => "landscape_large"@,
        (Orientation::Landscape, LongSideBand::Below) => "landscape_small"@,
        (Orientation::Portrait, LongSideBand::AtOrAbove) => "portrait_large"@,
        (Orientation::Portrait, LongSideBand::Below) => "portrait_small"@,
    }
}

/// The name of the subfolder of the destination root for a size
/// destination (see [`size_subfolder`]).
pub fn size_subfolder_name(orientation: Orientation, band: LongSideBand) -> (r: String)
    ensures
        r@ == size_subfolder(SizeDestination { orientation, band }),
{
    match (orientation, band) {
        (Orientation::Landscape, LongSideBand::AtOrAbove) => crate::logic::text::owned(
            "landscape_large",
        ),
        (Orientation::Landscape, LongSideBand::Below) => crate::logic::text::owned(
            "landscape_small",
        ),
        (Orientation::Portrait, LongSideBand::AtOrAbove) => crate::logic::text::owned(
            "portrait_large",
        ),
        (Orientation::Portrait, LongSideBand::Below) => crate::logic::text::owned(
            "portrait_small",
        ),
    }
}

/// The two destinations of sorting by tag.
#[derive(Debug, Clone, Copy, PartialEq, Eq, Structural)]
pub enum TagDestination {
    /// The image carries one of the judge tags.
    Contains,
    /// It carries none of them.
    NotContains,
}

/// Some tag of the image equals some judge tag once both are trimmed, case
/// kept; blank tags match nothing.
pub open spec fn carries_judge_tag(image_tags: Seq<Seq<char>>, judge_tags: Seq<Seq<char>>) -> bool {
    exists|i: int, j: int|
        0 <= i < image_tags.len() && 0 <= j < judge_tags.len() && trim(#[trigger] image_tags[i]).len()
            > 0 && trim(image_tags[i]) == trim(#[trigger] judge_tags[j])
}

/// Where sorting by tag sends an image with these tags (see
/// [`carries_judge_tag`]).
pub fn decide_tag_destination(image_tags: &[String], judge_tags: &[String]) -> (r: TagDestination)
    ensures
        r == if carries_judge_tag(string_views(image_tags@), string_views(judge_tags@)) {
            TagDestination::Contains
        } else {
            TagDestination::NotContains
        },
{
    let ghost it = string_views(image_tags@);
    let ghost jt = string_views(judge_tags@);
    let mut i: usize = 0;
    while i < image_tags.len()
        invariant
            i <= image_tags.len(),
            it == string_views(image_tags@),
            jt == string_views(judge_tags@),
            forall|a: int, b: int|
                0 <= a < i && 0 <= b < jt.len() ==> !(trim(#[trigger] it[a]).len() > 0 && trim(it[a])
                    == trim(#[trigger] jt[b])),
        decreases image_tags.len() - i,
    {
        let cs = chars_of(image_tags[i].as_str());
        let t = trim_chars(&cs);
        if t.len() > 0 {
            let mut j: usize = 0;
            while j < judge_tags.len()
                invariant
                    i < image_tags.len(),
                    j <= judge_tags.len(),
                    it == string_views(image_tags@),
                    jt == string_views(judge_tags@),
                    t@ == trim(it[i as int]),
                    t@.len() > 0,
                    forall|b: int| 0 <= b < j ==> trim(it[i as int]) != trim(#[trigger] jt[b]),
                decreases judge_tags.len() - j,
            {
                let jc = chars_of(judge_tags[j].as_str());
                let jtrim = trim_chars(&jc);
                if chars_eq(&t, &jtrim) {
                    proof {
                        assert(trim(it[i as int]).len() > 0 && trim(it[i as int]) == trim(
                            jt[j as int],
                        ));
                    }
                    return TagDestination::Contains;
                }
                j += 1;
            }
        }
        i += 1;
    }
    TagDestination::NotContains
}


/// An image carries the judge tags exactly when one of its tags equals one
/// of them once both are trimmed (and is not blank), whatever their
/// positions in the two lists.
pub proof fn law_shared_tag_anywhere(image_tags: Seq<Seq<char>>, judge_tags: Seq<Seq<char>>, i: int, j: int)
    ensures
        (0 <= i < image_tags.len() && 0 <= j < judge_tags.len() && trim(image_tags[i]).len() > 0
            && trim(image_tags[i]) == trim(judge_tags[j])) ==> carries_judge_tag(image_tags, judge_tags),
        (forall|a: int, b: int|
            0 <= a < image_tags.len() && 0 <= b < judge_tags.len() ==> !(trim(#[trigger] image_tags[a]).len() > 0
                && trim(image_tags[a]) == trim(#[trigger] judge_tags[b]))) ==> !carries_judge_tag(
            image_tags,
            judge_tags,
        ),
{
    if 0 <= i < image_tags.len() && 0 <= j < judge_tags.len() && trim(image_tags[i]).len() > 0
        && trim(image_tags[i]) == trim(judge_tags[j]) {
        assert(trim(image_tags[i]).len() > 0 && trim(image_tags[i]) == trim(judge_tags[j]));
    }
}

/// Which list holds a judge tag does not depend on the order of either
/// list: reversing the image tags or the judge tags decides the same.
pub proof fn law_tag_destination_ignores_order(image_tags: Seq<Seq<char>>, judge_tags: Seq<Seq<char>>)
    ensures
        carries_judge_tag(image_tags.reverse(), judge_tags) == carries_judge_tag(image_tags, judge_tags),
        carries_judge_tag(image_tags, judge_tags.reverse()) == carries_judge_tag(image_tags, judge_tags),
{
    let n = image_tags.len() as int;
    let m = judge_tags.len() as int;
    if carries_judge_tag(image_tags, judge_tags) {
        let (i, j) = choose|i: int, j: int|
            0 <= i < image_tags.len() && 0 <= j < judge_tags.len() && trim(#[trigger] image_tags[i]).len()
                > 0 && trim(image_tags[i]) == trim(#[trigger] judge_tags[j]);
        assert(image_tags.reverse()[n - 1 - i] == image_tags[i]);
        assert(judge_tags.reverse()[m - 1 - j] == judge_tags[j]);
        law_shared_tag_anywhere(image_tags.reverse(), judge_tags, n - 1 - i, j);
        law_shared_tag_anywhere(image_tags, judge_tags.reverse(), i, m - 1 - j);
    }
    if carries_judge_tag(image_tags.reverse(), judge_tags) {
        let (i, j) = choose|i: int, j: int|
            0 <= i < image_tags.reverse().len() && 0 <= j < judge_tags.len() && trim(
                #[trigger] image_tags.reverse()[i],
            ).len() > 0 && trim(image_tags.reverse()[i]) == trim(#[trigger] judge_tags[j]);
        assert(image_tags.reverse()[i] == image_tags[n - 1 - i]);
        law_shared_tag_anywhere(image_tags, judge_tags, n - 1 - i, j);
    }
    if carries_judge_tag(image_tags, judge_tags.reverse()) {
        let (i, j) = choose|i: int, j: int|
            0 <= i < image_tags.len() && 0 <= j < judge_tags.reverse().len() && trim(
                #[trigger] image_tags[i],
            ).len() > 0 && trim(image_tags[i]) == trim(#[trigger] judge_tags.reverse()[j]);
        assert(judge_tags.reverse()[j] == judge_tags[m - 1 - j]);
        law_shared_tag_anywhere(image_tags, judge_tags, i, m - 1 - j);
    }
}

} // verus!
