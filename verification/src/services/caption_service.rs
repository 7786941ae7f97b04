//! Orphan captions: tag files (`.txt`) of a folder with no image of the same
//! stem beside them. Finding them is decided here from the folder's entries;
//! deleting them, after the user agreed, is the caller's.
use vstd::prelude::*;
use crate::logic::file_names::{
    basename_of, has_supported_extension, has_txt_extension, is_image_name, is_txt_name, stem,
};
use crate::logic::order::{sort_names, sorted_names};
use crate::logic::paths::{join_with, joined, main_separator, platform_sep};
use crate::logic::text::{ascii_lower, chars_eq, chars_of, lower_chars, string_views};
use crate::models::DirEntryInfo;

verus! {

/// How many orphan captions were deleted.
#[derive(Debug, Clone, PartialEq, Eq)]
pub struct DeleteOrphanResult {
    /// Files actually deleted.
    pub deleted: usize,
}

/// The lower-cased stem of a name.
pub open spec fn folded_stem(name: Seq<char>) -> Seq<char> {
    ascii_lower(stem(name))
}

/// Some non-folder entry with an image extension has this folded stem.
pub open spec fn has_image_with_stem(entries: Seq<DirEntryInfo>, s: Seq<char>) -> bool {
    exists|i: int|
        0 <= i < entries.len() && !(#[trigger] entries[i]).is_dir && is_image_name(entries[i].name@)
            && folded_stem(entries[i].name@) == s
}

/// An entry of `all` that is an orphan caption: a file with extension `txt`
/// whose stem, ignoring ASCII case, is the stem of no image of `all`.
pub open spec fn is_orphan(all: Seq<DirEntryInfo>, e: DirEntryInfo) -> bool {
    &&& !e.is_dir
    &&& !is_image_name(e.name@)
    &&& is_txt_name(e.name@)
    &&& !has_image_with_stem(all, folded_stem(e.name@))
}

/// The names of the orphan captions among `entries` (judged against `all`),
/// in listing order.
pub open spec fn orphan_names(all: Seq<DirEntryInfo>, entries: Seq<DirEntryInfo>) -> Seq<
    Seq<char>,
>
    decreases entries.len(),
{
    if entries.len() == 0 {
        Seq::empty()
    } else {
        let r = orphan_names(all, entries.drop_last());
        if is_orphan(all, entries.last()) {
            r.push(entries.last().name@)
        } else {
            r
        }
    }
}

/// The paths of the orphan captions of `folder`, in ascending order.
pub open spec fn orphan_paths(folder: Seq<char>, entries: Seq<DirEntryInfo>, sep: char) -> Seq<
    Seq<char>,
> {
    sorted_names(orphan_names(entries, entries).map_values(|n: Seq<char>| joined(folder, n, sep)))
}

/// Some entry of `es` is an orphan caption of `all` named `n`.
pub open spec fn orphan_named(all: Seq<DirEntryInfo>, es: Seq<DirEntryInfo>, n: Seq<char>) -> bool {
    exists|i: int| 0 <= i < es.len() && is_orphan(all, #[trigger] es[i]) && es[i].name@ == n
}

proof fn lemma_orphan_names(all: Seq<DirEntryInfo>, es: Seq<DirEntryInfo>)
    ensures
        forall|k: int|
            0 <= k < orphan_names(all, es).len() ==> orphan_named(all, es, #[trigger] orphan_names(all, es)[k]),
        forall|i: int|
            0 <= i < es.len() && is_orphan(all, #[trigger] es[i]) ==> orphan_names(all, es).contains(
                es[i].name@,
            ),
    decreases es.len(),
{
    if es.len() > 0 {
        let p = es.drop_last();
        let x = es.last();
        let r = orphan_names(all, p);
        lemma_orphan_names(all, p);
        let o = orphan_names(all, es);
        assert forall|k: int| 0 <= k < o.len() implies orphan_named(all, es, #[trigger] o[k]) by {
            if k < r.len() {
                assert(orphan_named(all, p, r[k]));
                let i = choose|i: int| 0 <= i < p.len() && is_orphan(all, #[trigger] p[i]) && p[i].name@ == r[k];
                assert(es[i] == p[i]);
                assert(o[k] == r[k]);
            } else {
                assert(es[es.len() - 1] == x);
            }
        }
        assert forall|i: int| 0 <= i < es.len() && is_orphan(all, #[trigger] es[i]) implies o.contains(
            es[i].name@,
        ) by {
            if i < es.len() - 1 {
                assert(es[i] == p[i]);
                let j = choose|j: int| 0 <= j < r.len() && r[j] == p[i].name@;
                assert(o[j] == r[j]);
            } else {
                assert(o[o.len() - 1] == x.name@);
            }
        }
    }
}

/// The orphan captions found are exactly the `.txt` files with no image of
/// the same stem beside them: each name found is that of such a file of the
/// folder, and every such file is found.
pub proof fn law_orphans_exactly(entries: Seq<DirEntryInfo>)
    ensures
        forall|k: int|
            0 <= k < orphan_names(entries, entries).len() ==> orphan_named(
                entries,
                entries,
                #[trigger] orphan_names(entries, entries)[k],
            ),
        forall|i: int|
            0 <= i < entries.len() && is_orphan(entries, #[trigger] entries[i]) ==> orphan_names(
                entries,
                entries,
            ).contains(entries[i].name@),
{
    lemma_orphan_names(entries, entries);
}

/// For each entry, its folded stem when it is an image file.
fn image_stems(entries: &Vec<DirEntryInfo>) -> (out: Vec<Option<Vec<char>>>)
    ensures
        out.len() == entries.len(),
        forall|i: int|
            0 <= i < entries.len() ==> match #[trigger] out@[i] {
                Some(s) => !entries@[i].is_dir && is_image_name(entries@[i].name@) && s@
                    == folded_stem(entries@[i].name@),
                None => !(!entries@[i].is_dir && is_image_name(entries@[i].name@)),
            },
{
    let mut out: Vec<Option<Vec<char>>> = Vec::new();
    let mut i: usize = 0;
    while i < entries.len()
        invariant
            i <= entries.len(),
            out.len() == i,
            forall|j: int|
                0 <= j < i ==> match #[trigger] out@[j] {
                    Some(s) => !entries@[j].is_dir && is_image_name(entries@[j].name@) && s@
                        == folded_stem(entries@[j].name@),
                    None => !(!entries@[j].is_dir && is_image_name(entries@[j].name@)),
                },
        decreases entries.len() - i,
    {
        let e = &entries[i];
        if !e.is_dir && has_supported_extension(e.name.as_str()) {
            let b = basename_of(e.name.as_str());
            let cs = chars_of(b.as_str());
            out.push(Some(lower_chars(&cs)));
        } else {
            out.push(None);
        }
        i += 1;
    }
    out
}

/// Whether one of the image stems equals `s`.
fn stem_taken(stems: &Vec<Option<Vec<char>>>, s: &Vec<char>) -> (r: bool)
    ensures
        r == exists|i: int|
            0 <= i < stems.len() && ((#[trigger] stems@[i]) matches Some(t) && t@ == s@),
{
    let mut i: usize = 0;
    while i < stems.len()
        invariant
            i <= stems.len(),
            forall|j: int| 0 <= j < i ==> !((#[trigger] stems@[j]) matches Some(t) && t@ == s@),
        decreases stems.len() - i,
    {
        match &stems[i] {
            Some(t) => {
                if chars_eq(t, s) {
                    return true;
                }
            },
            None => {},
        }
        i += 1;
    }
    false
}

/// The orphan captions of `folder` given its entries: the paths of the files
/// with extension `txt` (any case) whose stem, ignoring ASCII case, is the
/// stem of no image file of the folder, in ascending order.
pub fn find_orphan_captions(folder: &str, entries: &Vec<DirEntryInfo>) -> (out: Vec<String>)
    ensures
        exists|sep: char|
            #![trigger platform_sep(sep)]
            platform_sep(sep) && string_views(out@) == orphan_paths(folder@, entries@, sep),
{
    let stems = image_stems(entries);
    let sep = main_separator();
    let ghost all = entries@;
    let ghost names = orphan_names(all, all);
    let mut found: Vec<String> = Vec::new();
    let mut i: usize = 0;
    proof {
        assert(all.take(0) =~= Seq::<DirEntryInfo>::empty());
    }
    while i < entries.len()
        invariant
            i <= entries.len(),
            all == entries@,
            stems.len() == entries.len(),
            forall|j: int|
                0 <= j < entries.len() ==> match #[trigger] stems@[j] {
                    Some(s) => !entries@[j].is_dir && is_image_name(entries@[j].name@) && s@
                        == folded_stem(entries@[j].name@),
                    None => !(!entries@[j].is_dir && is_image_name(entries@[j].name@)),
                },
            string_views(found@) == orphan_names(all, all.take(i as int)).map_values(
                |n: Seq<char>| joined(folder@, n, sep),
            ),
        decreases entries.len() - i,
    {
        proof {
            assert(all.take(i + 1).drop_last() =~= all.take(i as int));
            assert(all.take(i + 1).last() == all[i as int]);
        }
        let e = &entries[i];
        if !e.is_dir && !has_supported_extension(e.name.as_str()) && has_txt_extension(
            e.name.as_str(),
        ) {
            let b = basename_of(e.name.as_str());
            let cs = chars_of(b.as_str());
            let folded = lower_chars(&cs);
            let taken = stem_taken(&stems, &folded);
            proof {
                if taken {
                    let k = choose|k: int|
                        0 <= k < stems.len() && ((#[trigger] stems@[k]) matches Some(t) && t@
                            == folded@);
                    assert(!all[k].is_dir && is_image_name(all[k].name@) && folded_stem(
                        all[k].name@,
                    ) == folded@);
                    assert(has_image_with_stem(all, folded@));
                } else {
                    assert forall|k: int|
                        0 <= k < all.len() && !(#[trigger] all[k]).is_dir && is_image_name(
                            all[k].name@,
                        ) implies folded_stem(all[k].name@) != folded@ by {
                        assert(stems@[k] is Some);
                    }
                }
            }
            if !taken {
                let p = join_with(folder, e.name.as_str(), sep);
                let ghost before = found@;
                found.push(p);
                proof {
                    assert(string_views(found@) =~= string_views(before).push(p@));
                }
            }
        }
        proof {
            assert(string_views(found@) =~= orphan_names(all, all.take(i + 1)).map_values(
                |n: Seq<char>| joined(folder@, n, sep),
            ));
        }
        i += 1;
    }
    proof {
        assert(all.take(entries.len() as int) =~= all);
        assert(platform_sep(sep));
    }
    sort_names(&found)
}

/// Number of `true` in `results`.
pub open spec fn count_true(results: Seq<bool>) -> nat
    decreases results.len(),
{
    if results.len() == 0 {
        0
    } else {
        count_true(results.drop_last()) + if results.last() {
            1nat
        } else {
            0nat
        }
    }
}

/// The result of deleting orphan captions, one entry per path asked for:
/// whether that deletion succeeded. Failed deletions are skipped, not errors.
pub fn deletion_result(results: &Vec<bool>) -> (r: DeleteOrphanResult)
    ensures
        r.deleted == count_true(results@),
{
    let mut deleted: usize = 0;
    let mut i: usize = 0;
    proof {
        assert(results@.take(0) =~= Seq::<bool>::empty());
    }
    while i < results.len()
        invariant
            i <= results.len(),
            deleted == count_true(results@.take(i as int)),
            deleted <= i,
        decreases results.len() - i,
    {
        proof {
            assert(results@.take(i + 1).drop_last() =~= results@.take(i as int));
        }
        if results[i] {
            deleted += 1;
        }
        i += 1;
    }
    proof {
        assert(results@.take(results.len() as int) =~= results@);
    }
    DeleteOrphanResult { deleted }
}

} // verus!
