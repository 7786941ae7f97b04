//! Tag files: the `.txt` next to an image that holds its comma-separated tags.
//! Reading and writing the file is the caller's; the library derives the
//! tag-file path and describes what was read.
use vstd::prelude::*;
use crate::error::{AppError, AppResult, IoErrorKind, IoFailure, io_error_kind};
use crate::logic::text::{chars_of, extend_chars, find_last, last_index_of, slice_chars, string_of};

verus! {

/// What reading an image's tag file gave.
#[derive(Debug, Clone, PartialEq, Eq)]
pub struct TagFileContent {
    /// Whether the tag file exists.
    pub exists: bool,
    /// Its text (empty when it does not exist).
    pub content: String,
}

/// Index just past the last path separator (`/` or `\`), 0 when there is none.
pub open spec fn file_name_start(p: Seq<char>) -> int {
    let a = last_index_of(p, '/');
    let b = last_index_of(p, '\\');
    (if a > b { a } else { b }) + 1
}

/// `.txt`.
pub open spec fn dot_txt() -> Seq<char> {
    seq!['.', 't', 'x', 't']
}

/// `Path::with_extension("txt")`: the extension of the file name replaced by
/// `txt`, or `.txt` appended when the file name has none (a single leading dot
/// does not start an extension).
pub open spec fn with_txt_extension(p: Seq<char>) -> Seq<char> {
    let start = file_name_start(p);
    let name = p.skip(start);
    let d = last_index_of(name, '.');
    if name.len() == 0 {
        p
    } else if d <= 0 {
        p + dot_txt()
    } else {
        p.take(start + d) + dot_txt()
    }
}

/// Path of the tag file of an image (see [`with_txt_extension`]).
pub fn tag_file_path(image_path: &str) -> (out: String)
    ensures
        out@ == with_txt_extension(image_path@),
{
    let p = chars_of(image_path);
    let a = find_last(&p, '/');
    let b = find_last(&p, '\\');
    let start: usize = match (a, b) {
        (Some(x), Some(y)) => if x > y { x + 1 } else { y + 1 },
        (Some(x), None) => x + 1,
        (None, Some(y)) => y + 1,
        (None, None) => 0,
    };
    proof {
        crate::logic::text::lemma_last_index_bound(p@, '/');
        crate::logic::text::lemma_last_index_bound(p@, '\\');
        assert(start as int == file_name_start(p@));
    }
    let name = slice_chars(&p, start, p.len());
    proof {
        assert(name@ =~= p@.skip(start as int));
    }
    let txt: Vec<char> = vec!['.', 't', 'x', 't'];
    proof {
        assert(txt@ =~= dot_txt());
    }
    if name.len() == 0 {
        return string_of(&p);
    }
    match find_last(&name, '.') {
        Some(d) => {
            if d == 0 {
                let mut out = p;
                extend_chars(&mut out, &txt);
                string_of(&out)
            } else {
                let mut out = slice_chars(&p, 0, start + d);
                proof {
                    assert(out@ =~= p@.take(start + d));
                }
                extend_chars(&mut out, &txt);
                string_of(&out)
            }
        },
        None => {
            let mut out = p;
            extend_chars(&mut out, &txt);
            string_of(&out)
        },
    }
}

/// What reading an image's tag file gives, from what reading the file at
/// [`tag_file_path`] gave: its text when it was read, an empty text when it
/// does not exist, otherwise the error about the tag file's path.
pub fn read_tag_file(image_path: &str, read: Result<String, IoFailure>) -> (r: AppResult<TagFileContent>)
    ensures
        match read {
            Ok(text) => r matches Ok(c) && c.exists && c.content == text,
            Err(f) => if f.kind == IoErrorKind::NotFound {
                r matches Ok(c) && !c.exists && c.content@.len() == 0
            } else {
                r matches Err(e) && e.kind == io_error_kind(f.kind) && e.message@ == f.text@
                    && e.path_view() == Some(with_txt_extension(image_path@))
            },
        },
{
    match read {
        Ok(text) => Ok(TagFileContent { exists: true, content: text }),
        Err(f) => {
            if f.kind == IoErrorKind::NotFound {
                Ok(TagFileContent { exists: false, content: String::new() })
            } else {
                let path = tag_file_path(image_path);
                Err(AppError::from_io(&f).with_path(path))
            }
        },
    }
}

} // verus!
