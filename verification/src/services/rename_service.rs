//! Renaming the images of a folder with a regular expression (optionally
//! numbering them), keeping each image's tag file paired, and normalising
//! double-extension tag-file names. The caller lists the folder, probes and
//! renames; this module compiles the pattern and decides each rename.
use vstd::prelude::*;
use crate::error::{AppError, AppErrorKind, AppResult};
use crate::logic::file_names::{is_txt_name, paired_tag_name};
use crate::logic::naming::{apply_numbering, normalize_caption_name, normalized_caption, num_placeholder, padded, replace_all};
use crate::logic::order::{sort_names, sorted_names};
use crate::logic::text::{chars_of, concat2, concat3, owned, push_str, str_eq, string_views};
use crate::models::DirEntryInfo;
use crate::services::file_service::{image_file_names, image_names};
use crate::logic::paths::platform_sep;
use crate::services::sort_service::{pair_paths, plan_pair, PairPlan};

verus! {

/// Numbering of renamed files: the first file (by name) gets `start`, the
/// next `start + 1`, and so on, zero-padded to `width` digits.
#[derive(Debug, Clone, Copy, PartialEq, Eq, Structural)]
pub struct Numbering {
    pub start: u64,
    pub width: usize,
}

#[verifier::external_type_specification]
#[verifier::external_body]
pub struct ExRegex(regex::Regex);

#[verifier::external_type_specification]
#[verifier::external_body]
pub struct ExRegexError(regex::Error);

/// Whether `regex::Regex::new` accepts a pattern.
pub uninterp spec fn regex_accepts(pattern: Seq<char>) -> bool;

/// What `regex::Regex::replace_all` gives for the regex of `pattern`, a text
/// and a replacement (in which `$name` and `${name}` refer to groups).
pub uninterp spec fn regex_replaced(pattern: Seq<char>, text: Seq<char>, replacement: Seq<char>) -> Seq<char>;

/// Calls `regex::Regex::new`; whether it succeeds is named, as it depends on
/// the pattern alone.
#[verifier::external_body]
fn regex_new(pattern: &str) -> (r: Result<regex::Regex, regex::Error>)
    ensures
        r is Ok == regex_accepts(pattern@),
{
    regex::Regex::new(pattern)
}

/// The text of a `regex::Error` (its `Display`); nothing is claimed of it.
#[verifier::external_body]
fn regex_error_text(e: &regex::Error) -> String {
    e.to_string()
}

/// A compiled rename pattern and the text it was compiled from.
pub struct RenamePattern {
    regex: regex::Regex,
    source: String,
}

impl RenamePattern {
    /// The text the pattern was compiled from.
    pub closed spec fn source(&self) -> Seq<char> {
        self.source@
    }

    /// Compiles a pattern; a pattern the regex crate refuses is invalid
    /// input.
    pub fn compile(pattern: &str) -> (r: AppResult<RenamePattern>)
        ensures
            match r {
                Ok(p) => regex_accepts(pattern@) && p.source() == pattern@,
                Err(e) => !regex_accepts(pattern@) && e.kind == AppErrorKind::InvalidInput,
            },
    {
        match regex_new(pattern) {
            Ok(regex) => Ok(RenamePattern { regex, source: owned(pattern) }),
            Err(e) => {
                let text = regex_error_text(&e);
                Err(AppError::new(AppErrorKind::InvalidInput, concat2("正規表現が不正です: ", text.as_str())))
            },
        }
    }

    /// Calls `regex::Regex::replace_all` with this pattern on `text`; the
    /// result is named as it depends on the pattern, text and replacement.
    #[verifier::external_body]
    pub(crate) fn replace_all(&self, text: &str, replacement: &str) -> (r: String)
        ensures
            r@ == regex_replaced(self.source(), text@, replacement@),
    {
        self.regex.replace_all(text, replacement).into_owned()
    }
}

/// The replacement used for the file at `index` (by name): `NUM` expanded
/// to its sequence number when numbering.
pub open spec fn replacement_at(replacement: Seq<char>, numbering: Option<Numbering>, index: nat) -> Seq<char> {
    match numbering {
        Some(n) => replace_all(replacement, num_placeholder(), padded((n.start + index) as nat, n.width as nat)),
        None => replacement,
    }
}

/// The replacement for the file at `index` (see [`replacement_at`]).
pub fn replacement_for(replacement: &str, numbering: Option<Numbering>, index: u64) -> (r: String)
    requires
        numbering matches Some(n) ==> n.start + index <= u64::MAX,
    ensures
        r@ == replacement_at(replacement@, numbering, index as nat),
{
    match numbering {
        Some(n) => apply_numbering(replacement, n.start, index, n.width),
        None => owned(replacement),
    }
}

/// The new name of the image at `index`: the pattern replaced in its name.
pub fn proposed_name(
    pattern: &RenamePattern,
    old_name: &str,
    replacement: &str,
    numbering: Option<Numbering>,
    index: u64,
) -> (r: String)
    requires
        numbering matches Some(n) ==> n.start + index <= u64::MAX,
    ensures
        r@ == regex_replaced(pattern.source(), old_name@, replacement_at(replacement@, numbering, index as nat)),
{
    let rep = replacement_for(replacement, numbering, index);
    pattern.replace_all(old_name, rep.as_str())
}

/// A character no file name may hold: `< > : " / \ | ? *` or a control
/// character.
pub open spec fn forbidden_char(c: char) -> bool {
    ||| c == '<' || c == '>' || c == ':' || c == '"' || c == '/' || c == '\\' || c == '|' || c == '?' || c == '*'
    ||| (c as u32) <= 0x1F
    ||| (0x7F <= (c as u32) && (c as u32) <= 0x9F)
}

/// A name that cannot be used: empty, or holding a forbidden character.
pub open spec fn forbidden_name(name: Seq<char>) -> bool {
    name.len() == 0 || exists|i: int| 0 <= i < name.len() && forbidden_char(#[trigger] name[i])
}

/// Whether a new name cannot be used (see [`forbidden_name`]).
pub fn has_forbidden_chars(name: &str) -> (r: bool)
    ensures
        r == forbidden_name(name@),
{
    let cs = chars_of(name);
    if cs.len() == 0 {
        return true;
    }
    let mut i: usize = 0;
    while i < cs.len()
        invariant
            i <= cs.len(),
            cs@ == name@,
            forall|j: int| 0 <= j < i ==> !forbidden_char(#[trigger] cs@[j]),
        decreases cs.len() - i,
    {
        let c = cs[i];
        let code: u32 = c as u32;
        if c == '<' || c == '>' || c == ':' || c == '"' || c == '/' || c == '\\' || c == '|' || c == '?' || c == '*' || code <= 0x1F || (0x7F <= code && code <= 0x9F) {
            proof {
                assert(forbidden_char(cs@[i as int]));
            }
            return true;
        }
        i += 1;
    }
    false
}

/// A name holding any of `< > : " / \ | ? *`, anywhere in it, cannot be
/// used.
pub proof fn law_reserved_chars_forbid(name: Seq<char>, i: int)
    requires
        0 <= i < name.len(),
        name[i] == '<' || name[i] == '>' || name[i] == ':' || name[i] == '"' || name[i] == '/'
            || name[i] == '\\' || name[i] == '|' || name[i] == '?' || name[i] == '*',
    ensures
        forbidden_name(name),
{
    assert(forbidden_char(name[i]));
}

/// A name holding a control character (U+0000 to U+001F, U+007F to
/// U+009F), anywhere in it, cannot be used; neither can the empty name.
pub proof fn law_control_chars_forbid(name: Seq<char>, i: int)
    requires
        name.len() == 0 || (0 <= i < name.len() && ((name[i] as u32) <= 0x1F || (0x7F <= (name[i] as u32)
            && (name[i] as u32) <= 0x9F))),
    ensures
        forbidden_name(name),
{
    if name.len() > 0 {
        assert(forbidden_char(name[i]));
    }
}

/// A non-empty name of printable characters other than
/// `< > : " / \ | ? *` can be used.
pub proof fn law_plain_names_allowed(name: Seq<char>)
    requires
        name.len() > 0,
        forall|i: int|
            0 <= i < name.len() ==> {
                let c = #[trigger] name[i];
                &&& c != '<' && c != '>' && c != ':' && c != '"' && c != '/' && c != '\\' && c != '|'
                    && c != '?' && c != '*'
                &&& (c as u32) > 0x1F
                &&& !(0x7F <= (c as u32) && (c as u32) <= 0x9F)
            },
    ensures
        !forbidden_name(name),
{
}

/// The decision for one image once its new name is known.
#[derive(Debug, Clone, PartialEq, Eq)]
pub enum RenameDecision {
    /// The name does not change: nothing to do, nothing recorded.
    Unchanged,
    /// The new name cannot be used: skipped with this message.
    Forbidden(String),
    /// Rename the pair along these paths; the tag file takes part when it
    /// exists and `tag_moves` (its new name differs from the old one).
    Rename { plan: PairPlan, tag_moves: bool },
}

/// The message of a new name that cannot be used.
pub open spec fn forbidden_message(old: Seq<char>, new: Seq<char>) -> Seq<char> {
    old + " は改名後の名前 \""@ + new + "\" が無効な文字を含むため改名しませんでした"@
}

/// Decides the rename of the image `old` of `folder` to `new`.
pub fn rename_decision(folder: &str, old: &str, new: &str) -> (d: RenameDecision)
    ensures
        old@ == new@ ==> d is Unchanged,
        old@ != new@ && forbidden_name(new@) ==> (d matches RenameDecision::Forbidden(m) && m@ == forbidden_message(old@, new@)),
        old@ != new@ && !forbidden_name(new@) ==> (d matches RenameDecision::Rename { plan, tag_moves } && tag_moves == (paired_tag_name(old@) != paired_tag_name(new@)) && exists|sep: char|
            #![trigger platform_sep(sep)]
            platform_sep(sep) && pair_paths(plan, folder@, old@, folder@, new@, sep)),
{
    if str_eq(old, new) {
        return RenameDecision::Unchanged;
    }
    if has_forbidden_chars(new) {
        let mut m = concat3(old, " は改名後の名前 \"", new);
        push_str(&mut m, "\" が無効な文字を含むため改名しませんでした");
        return RenameDecision::Forbidden(m);
    }
    let plan = plan_pair(folder, old, folder, new);
    let a = crate::logic::file_names::paired_tag_file_name(old);
    let b = crate::logic::file_names::paired_tag_file_name(new);
    let tag_moves = !str_eq(a.as_str(), b.as_str());
    RenameDecision::Rename { plan, tag_moves }
}

/// A name ending in `.txt` in any ASCII case.
pub open spec fn ends_with_txt(name: Seq<char>) -> bool {
    name.len() >= 4 && crate::logic::text::eq_ignore_case(name.skip(name.len() - 4), crate::logic::naming::txt_suffix())
}

/// Names of the files of a listing that end in `.txt`, in listing order.
pub open spec fn caption_file_names(entries: Seq<DirEntryInfo>) -> Seq<Seq<char>>
    decreases entries.len(),
{
    if entries.len() == 0 {
        Seq::empty()
    } else {
        let r = caption_file_names(entries.drop_last());
        let e = entries.last();
        if !e.is_dir && ends_with_txt(e.name@) {
            r.push(e.name@)
        } else {
            r
        }
    }
}

fn is_caption_name(name: &str) -> (r: bool)
    ensures
        r == ends_with_txt(name@),
{
    let cs = chars_of(name);
    if cs.len() < 4 {
        return false;
    }
    let tail = crate::logic::text::slice_chars(&cs, cs.len() - 4, cs.len());
    let txt: Vec<char> = vec!['.', 't', 'x', 't'];
    proof {
        assert(tail@ =~= cs@.skip(cs.len() - 4));
        assert(txt@ =~= crate::logic::naming::txt_suffix());
    }
    crate::logic::text::eq_ignore_case_chars(&tail, &txt)
}

/// The tag files of a folder that normalisation looks at: files ending in
/// `.txt` (any case), in ascending order.
pub fn caption_names(entries: &Vec<DirEntryInfo>) -> (out: Vec<String>)
    ensures
        string_views(out@) == sorted_names(caption_file_names(entries@)),
{
    let mut names: Vec<String> = Vec::new();
    let mut i: usize = 0;
    proof {
        assert(entries@.take(0) =~= Seq::<DirEntryInfo>::empty());
    }
    while i < entries.len()
        invariant
            i <= entries.len(),
            string_views(names@) == caption_file_names(entries@.take(i as int)),
        decreases entries.len() - i,
    {
        proof {
            assert(entries@.take(i + 1).drop_last() =~= entries@.take(i as int));
            assert(entries@.take(i + 1).last() == entries@[i as int]);
        }
        if !entries[i].is_dir && is_caption_name(entries[i].name.as_str()) {
            let ghost before = names@;
            names.push(entries[i].name.clone());
            proof {
                assert(string_views(names@) =~= string_views(before).push(entries@[i as int].name@));
            }
        }
        i += 1;
    }
    proof {
        assert(entries@.take(entries.len() as int) =~= entries@);
    }
    sort_names(&names)
}

/// The normalised name of a tag file, when normalisation changes it
/// (`image.png.txt` to `image.txt`); `None` when there is nothing to do.
pub fn normalized_target(name: &str) -> (r: Option<String>)
    ensures
        match r {
            Some(n) => normalized_caption(name@) == Some(n@) && n@ != name@,
            None => normalized_caption(name@) is None || normalized_caption(name@) == Some(name@),
        },
{
    match normalize_caption_name(name) {
        Some(n) => if str_eq(n.as_str(), name) {
            None
        } else {
            Some(n)
        },
        None => None,
    }
}

/// The names of the images a rename goes through, in ascending order (the
/// order numbering follows).
pub fn rename_targets(entries: &Vec<DirEntryInfo>) -> (out: Vec<String>)
    ensures
        string_views(out@) == sorted_names(image_file_names(entries@)),
{
    let names = image_names(entries);
    sort_names(&names)
}

} // verus!
