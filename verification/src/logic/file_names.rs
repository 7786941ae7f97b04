//! Rules on file names: which names are images or tag files, the stem of a
//! name, and the name of the tag file that pairs with an image.
use vstd::prelude::*;
use crate::logic::text::{
    ascii_lower, chars_eq_str, chars_of, extend_chars, lower_chars, rsplit_once,
    rsplit_once_chars, string_of,
};

verus! {

/// An image extension: jpg, jpeg, png, gif or mp4, in any ASCII case.
pub open spec fn is_image_ext(ext: Seq<char>) -> bool {
    let l = ascii_lower(ext);
    l == "jpg"@ || l == "jpeg"@ || l == "png"@ || l == "gif"@ || l == "mp4"@
}

/// A name whose extension (the text after its last `.`) is an image extension.
pub open spec fn is_image_name(name: Seq<char>) -> bool {
    match rsplit_once(name, '.') {
        Some((_, ext)) => is_image_ext(ext),
        None => false,
    }
}

/// `txt`.
pub open spec fn txt_ext() -> Seq<char> {
    seq!['t', 'x', 't']
}

/// A name whose extension is `txt` in any ASCII case.
pub open spec fn is_txt_name(name: Seq<char>) -> bool {
    match rsplit_once(name, '.') {
        Some((_, ext)) => ascii_lower(ext) == txt_ext(),
        None => false,
    }
}

/// The part of a name before its last `.`; the whole name when it has none.
pub open spec fn stem(name: Seq<char>) -> Seq<char> {
    match rsplit_once(name, '.') {
        Some((s, _)) => s,
        None => name,
    }
}

/// The name of the tag file that pairs with an image: its stem and `.txt`.
pub open spec fn paired_tag_name(name: Seq<char>) -> Seq<char> {
    stem(name) + seq!['.'] + txt_ext()
}

/// Whether an extension is an image extension.
pub fn is_image_extension(ext: &[char]) -> (r: bool)
    ensures
        r == is_image_ext(ext@),
{
    let l = lower_chars(ext);
    chars_eq_str(&l, "jpg") || chars_eq_str(&l, "jpeg") || chars_eq_str(&l, "png")
        || chars_eq_str(&l, "gif") || chars_eq_str(&l, "mp4")
}

/// Whether a file name has an image extension (jpg, jpeg, png, gif, mp4; any
/// case).
pub fn has_supported_extension(file_name: &str) -> (r: bool)
    ensures
        r == is_image_name(file_name@),
{
    let cs = chars_of(file_name);
    match rsplit_once_chars(&cs, '.') {
        Some((_, ext)) => is_image_extension(&ext),
        None => false,
    }
}

/// Whether a file name has the extension `txt` (any case).
pub fn has_txt_extension(file_name: &str) -> (r: bool)
    ensures
        r == is_txt_name(file_name@),
{
    let cs = chars_of(file_name);
    match rsplit_once_chars(&cs, '.') {
        Some((_, ext)) => {
            let l = lower_chars(&ext);
            let t: Vec<char> = vec!['t', 'x', 't'];
            proof {
                assert(t@ =~= txt_ext());
            }
            crate::logic::text::chars_eq(&l, &t)
        },
        None => false,
    }
}

/// The stem of a file name (see [`stem`]).
pub fn basename_of(file_name: &str) -> (out: String)
    ensures
        out@ == stem(file_name@),
{
    let cs = chars_of(file_name);
    match rsplit_once_chars(&cs, '.') {
        Some((s, _)) => string_of(&s),
        None => string_of(&cs),
    }
}

/// The name of the tag file that pairs with an image (see [`paired_tag_name`]).
pub fn paired_tag_file_name(file_name: &str) -> (out: String)
    ensures
        out@ == paired_tag_name(file_name@),
{
    let s = basename_of(file_name);
    let mut cs = chars_of(s.as_str());
    let t: Vec<char> = vec!['.', 't', 'x', 't'];
    proof {
        assert(t@ =~= seq!['.'] + txt_ext());
    }
    extend_chars(&mut cs, &t);
    proof {
        assert(cs@ =~= paired_tag_name(file_name@));
    }
    string_of(&cs)
}

} // verus!
