//! Joining a folder path and a file name the way `Path::join` does.
use vstd::prelude::*;
use crate::logic::text::{chars_of, string_of};

verus! {

/// A character that can be a platform's main path separator.
pub open spec fn platform_sep(c: char) -> bool {
    c == '/' || c == '\\'
}

/// A separator on a platform whose main separator is `sep` (`/` is one on
/// every platform).
pub open spec fn is_separator(c: char, sep: char) -> bool {
    c == '/' || c == sep
}

/// `Path::join` of a relative component `name` onto the folder path `base`, on
/// a platform whose main separator is `sep`: no separator is added after an
/// empty base or after one that already ends in a separator.
pub open spec fn joined(base: Seq<char>, name: Seq<char>, sep: char) -> Seq<char> {
    if base.len() == 0 {
        name
    } else if is_separator(base.last(), sep) {
        base + name
    } else {
        base.push(sep) + name
    }
}

/// `std::path::MAIN_SEPARATOR`, which std documents as `/` on Unix and `\` on
/// Windows; the contract claims only that it is one of the two.
#[verifier::external_body]
pub(crate) fn main_separator() -> (c: char)
    ensures
        platform_sep(c),
{
    std::path::MAIN_SEPARATOR
}

/// Joins `name` onto `base` with the separator `sep` (see [`joined`]).
pub fn join_with(base: &str, name: &str, sep: char) -> (out: String)
    ensures
        out@ == joined(base@, name@, sep),
{
    let mut cs = chars_of(base);
    let ns = chars_of(name);
    if cs.len() > 0 && !(cs[cs.len() - 1] == '/' || cs[cs.len() - 1] == sep) {
        cs.push(sep);
    }
    crate::logic::text::extend_chars(&mut cs, &ns);
    proof {
        assert(cs@ =~= joined(base@, name@, sep));
    }
    string_of(&cs)
}

/// Joins `name` onto `base` with this platform's separator.
pub fn join_path(base: &str, name: &str) -> (out: String)
    ensures
        exists|sep: char| platform_sep(sep) && out@ == joined(base@, name@, sep),
{
    let sep = main_separator();
    join_with(base, name, sep)
}

} // verus!
