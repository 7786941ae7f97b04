//! Tag statistics and filtering over the tag files of a folder, and the
//! per-file edits of the bulk operations (add, remove, de-duplicate) with the
//! report they produce.
use vstd::prelude::*;
use crate::error::{describe_spec, AppError, AppResult};
use crate::logic::tag_ops::{
    added, comma_space, contains_key, deduped, has_key, join, key, normalize_key,
    remove_tags, removed, render_tags, split_tokens, tokens, add_tags,
};
use crate::logic::order::{lemma_lex_asym, lemma_lex_irreflexive, lemma_lex_total, lemma_lex_trans, lex_less, lex_lt};
use crate::logic::text::{concat3, is_blank, lemma_trim_shape, push_str, string_views, trim};
use crate::models::{seq_views, ImageEntry, OperationReport, TagCount};
use crate::services::tag_file::TagFileContent;

verus! {

/// What reading one image's tag file gave: its content, or the error.
pub type TagFileRead = AppResult<TagFileContent>;

/// Tag counts of a folder and how many tag files could not be read.
#[derive(Debug, Clone, PartialEq, Eq)]
pub struct TagAggregation {
    /// Tags by count (descending), ties by tag (ascending).
    pub tags: Vec<TagCount>,
    /// Tag files that could not be read and were left out.
    pub unreadable: usize,
}

// ---------------------------------------------------------------------------
// Aggregation
// ---------------------------------------------------------------------------

/// `x` comes before `y`: higher count first, then the smaller tag.
pub open spec fn ranks_before(x: (Seq<char>, usize), y: (Seq<char>, usize)) -> bool {
    x.1 > y.1 || (x.1 == y.1 && lex_lt(x.0, y.0))
}

/// All tags of all files, file after file.
pub open spec fn flatten(files: Seq<Seq<Seq<char>>>) -> Seq<Seq<char>>
    decreases files.len(),
{
    if files.len() == 0 {
        Seq::empty()
    } else {
        flatten(files.drop_last()) + files.last()
    }
}

/// How often `t` occurs in `ts`.
pub open spec fn occurrences(ts: Seq<Seq<char>>, t: Seq<char>) -> nat
    decreases ts.len(),
{
    if ts.len() == 0 {
        0
    } else {
        occurrences(ts.drop_last(), t) + if ts.last() == t {
            1nat
        } else {
            0nat
        }
    }
}

/// `res` lists every tag of `all` exactly once with its number of
/// occurrences, ordered by [`ranks_before`].
pub open spec fn is_aggregation(all: Seq<Seq<char>>, res: Seq<(Seq<char>, usize)>) -> bool {
    &&& forall|i: int|
        0 <= i < res.len() ==> (#[trigger] res[i]).1 == occurrences(all, res[i].0) && res[i].1 >= 1
    &&& forall|t: Seq<char>|
        occurrences(all, t) > 0 ==> exists|i: int| 0 <= i < res.len() && (#[trigger] res[i]).0 == t
    &&& forall|i: int, j: int| 0 <= i < j < res.len() ==> ranks_before(#[trigger] res[i], #[trigger] res[j])
}

/// The tag lists of the readable tag files, in order.
pub open spec fn readable_tokens(reads: Seq<TagFileRead>) -> Seq<Seq<Seq<char>>>
    decreases reads.len(),
{
    if reads.len() == 0 {
        Seq::empty()
    } else {
        let r = readable_tokens(reads.drop_last());
        match reads.last() {
            Ok(c) => r.push(tokens(c.content@)),
            Err(_) => r,
        }
    }
}

/// Number of reads that failed.
pub open spec fn failed_reads(reads: Seq<TagFileRead>) -> nat
    decreases reads.len(),
{
    if reads.len() == 0 {
        0
    } else {
        failed_reads(reads.drop_last()) + if reads.last() is Err {
            1nat
        } else {
            0nat
        }
    }
}

proof fn lemma_occurrences_bound(ts: Seq<Seq<char>>, t: Seq<char>)
    ensures
        occurrences(ts, t) <= ts.len(),
        occurrences(ts, t) > 0 ==> exists|i: int| 0 <= i < ts.len() && ts[i] == t,
    decreases ts.len(),
{
    if ts.len() > 0 {
        lemma_occurrences_bound(ts.drop_last(), t);
        if occurrences(ts.drop_last(), t) > 0 {
            let i = choose|i: int| 0 <= i < ts.drop_last().len() && ts.drop_last()[i] == t;
            assert(ts[i] == t);
        }
    }
}

proof fn lemma_rank_trans(x: (Seq<char>, usize), y: (Seq<char>, usize), z: (Seq<char>, usize))
    requires
        ranks_before(x, y),
        ranks_before(y, z),
    ensures
        ranks_before(x, z),
{
    if x.1 == y.1 && y.1 == z.1 {
        lemma_lex_trans(x.0, y.0, z.0);
    }
}

fn ranks_before_exec(x: &TagCount, y: &TagCount) -> (r: bool)
    ensures
        r == ranks_before(x@, y@),
{
    if x.count != y.count {
        x.count > y.count
    } else {
        let a = crate::logic::text::chars_of(x.tag.as_str());
        let b = crate::logic::text::chars_of(y.tag.as_str());
        lex_less(&a, &b)
    }
}

/// Views of a list of tag lists.
pub open spec fn list_views(files: Seq<Vec<String>>) -> Seq<Seq<Seq<char>>> {
    files.map_values(|f: Vec<String>| string_views(f@))
}

/// All tags of all files in one list, file after file.
fn flatten_tokens(files: &Vec<Vec<String>>) -> (all: Vec<String>)
    ensures
        string_views(all@) == flatten(list_views(files@)),
{
    let ghost fv = list_views(files@);
    let mut all: Vec<String> = Vec::new();
    let mut i: usize = 0;
    proof {
        assert(fv.take(0) =~= Seq::<Seq<Seq<char>>>::empty());
    }
    while i < files.len()
        invariant
            i <= files.len(),
            fv == list_views(files@),
            string_views(all@) == flatten(fv.take(i as int)),
        decreases files.len() - i,
    {
        let ghost before = string_views(all@);
        let f = &files[i];
        let mut j: usize = 0;
        proof {
            assert(before + string_views(f@).take(0) =~= before);
        }
        while j < f.len()
            invariant
                j <= f.len(),
                string_views(all@) == before + string_views(f@).take(j as int),
            decreases f.len() - j,
        {
            let ghost prev = all@;
            all.push(f[j].clone());
            j += 1;
            proof {
                assert(string_views(all@) =~= string_views(prev).push(f@[j - 1]@));
                assert(string_views(f@).take(j as int) =~= string_views(f@).take(j - 1).push(
                    f@[j - 1]@,
                ));
                assert(string_views(all@) =~= before + string_views(f@).take(j as int));
            }
        }
        proof {
            assert(string_views(f@).take(f.len() as int) =~= string_views(f@));
            assert(fv.take(i + 1).drop_last() =~= fv.take(i as int));
            assert(fv.take(i + 1).last() == string_views(f@));
        }
        i += 1;
    }
    proof {
        assert(fv.take(files.len() as int) =~= fv);
    }
    all
}

/// The tags and counts of `counts` describe the occurrences in `ts`.
pub open spec fn counts_describe(counts: Seq<(Seq<char>, usize)>, ts: Seq<Seq<char>>) -> bool {
    &&& forall|i: int|
        0 <= i < counts.len() ==> (#[trigger] counts[i]).1 == occurrences(ts, counts[i].0)
            && counts[i].1 >= 1
    &&& forall|t: Seq<char>|
        occurrences(ts, t) > 0 ==> exists|i: int| 0 <= i < counts.len() && (#[trigger] counts[i]).0 == t
    &&& forall|i: int, j: int|
        0 <= i < j < counts.len() ==> (#[trigger] counts[i]).0 != (#[trigger] counts[j]).0
}

fn find_tag(counts: &Vec<TagCount>, x: &String) -> (r: Option<usize>)
    ensures
        match r {
            Some(p) => p < counts.len() && counts@[p as int].tag@ == x@,
            None => forall|q: int| 0 <= q < counts.len() ==> (#[trigger] counts@[q]).tag@ != x@,
        },
{
    let mut p: usize = 0;
    while p < counts.len()
        invariant
            p <= counts.len(),
            forall|q: int| 0 <= q < p ==> (#[trigger] counts@[q]).tag@ != x@,
        decreases counts.len() - p,
    {
        if counts[p].tag == *x {
            return Some(p);
        }
        p += 1;
    }
    None
}

proof fn lemma_occurrences_push(ts: Seq<Seq<char>>, x: Seq<char>, t: Seq<char>)
    ensures
        occurrences(ts.push(x), t) == occurrences(ts, t) + if x == t {
            1nat
        } else {
            0nat
        },
{
    assert(ts.push(x).drop_last() =~= ts);
}

/// Counts each distinct tag, in order of first occurrence.
fn count_tags(all: &Vec<String>) -> (counts: Vec<TagCount>)
    ensures
        counts_describe(seq_views(counts@), string_views(all@)),
{
    let ghost av = string_views(all@);
    let mut counts: Vec<TagCount> = Vec::new();
    let mut k: usize = 0;
    proof {
        assert forall|t: Seq<char>| occurrences(av.take(0), t) == 0 by {
            assert(av.take(0) =~= Seq::<Seq<char>>::empty());
        }
    }
    while k < all.len()
        invariant
            k <= all.len(),
            av == string_views(all@),
            counts_describe(seq_views(counts@), av.take(k as int)),
        decreases all.len() - k,
    {
        let x = &all[k];
        let ghost pre = av.take(k as int);
        let ghost now = av.take(k + 1);
        let ghost old_counts = seq_views(counts@);
        proof {
            assert(now =~= pre.push(x@));
            lemma_occurrences_bound(pre, x@);
            assert forall|t: Seq<char>| #[trigger] occurrences(now, t) == occurrences(pre, t) + if x@ == t {
                1nat
            } else {
                0nat
            } by {
                lemma_occurrences_push(pre, x@, t);
            }
        }
        match find_tag(&counts, x) {
            Some(p) => {
                proof {
                    assert(old_counts[p as int].1 == occurrences(pre, old_counts[p as int].0));
                    assert(old_counts[p as int].1 == counts@[p as int].count);
                }
                let c = counts[p].count + 1;
                let tag = counts[p].tag.clone();
                counts.set(p, TagCount { tag, count: c });
                proof {
                    let cv = seq_views(counts@);
                    assert(cv =~= old_counts.update(p as int, (x@, c)));
                    assert forall|t: Seq<char>| occurrences(now, t) > 0 implies exists|i: int|
                        0 <= i < cv.len() && (#[trigger] cv[i]).0 == t by {
                        if t != x@ {
                            assert(occurrences(pre, t) > 0);
                            let i = choose|i: int|
                                0 <= i < old_counts.len() && (#[trigger] old_counts[i]).0 == t;
                            assert(cv[i].0 == t);
                        } else {
                            assert(cv[p as int].0 == t);
                        }
                    }
                    assert forall|i: int| 0 <= i < cv.len() implies (#[trigger] cv[i]).1
                        == occurrences(now, cv[i].0) && cv[i].1 >= 1 by {
                        if i != p {
                            assert(old_counts[i].0 != old_counts[p as int].0);
                        }
                    }
                    assert forall|i: int, j: int| 0 <= i < j < cv.len() implies (#[trigger] cv[i]).0
                        != (#[trigger] cv[j]).0 by {
                        assert(old_counts[i].0 != old_counts[j].0);
                    }
                }
            },
            None => {
                counts.push(TagCount { tag: x.clone(), count: 1 });
                proof {
                    let cv = seq_views(counts@);
                    assert(cv =~= old_counts.push((x@, 1usize)));
                    if occurrences(pre, x@) > 0 {
                        let i = choose|i: int|
                            0 <= i < old_counts.len() && (#[trigger] old_counts[i]).0 == x@;
                        assert(counts@[i].tag@ == x@);
                    }
                    assert forall|t: Seq<char>| occurrences(now, t) > 0 implies exists|i: int|
                        0 <= i < cv.len() && (#[trigger] cv[i]).0 == t by {
                        if t != x@ {
                            assert(occurrences(pre, t) > 0);
                            let i = choose|i: int|
                                0 <= i < old_counts.len() && (#[trigger] old_counts[i]).0 == t;
                            assert(cv[i].0 == t);
                        } else {
                            assert(cv[cv.len() - 1].0 == t);
                        }
                    }
                    assert forall|i: int| 0 <= i < cv.len() implies (#[trigger] cv[i]).1
                        == occurrences(now, cv[i].0) && cv[i].1 >= 1 by {
                        if i < old_counts.len() {
                            assert(old_counts[i].0 == counts@[i].tag@);
                            assert(cv[i] == old_counts[i]);
                        }
                    }
                    assert forall|i: int, j: int| 0 <= i < j < cv.len() implies (#[trigger] cv[i]).0
                        != (#[trigger] cv[j]).0 by {
                        if j < old_counts.len() {
                            assert(old_counts[i].0 != old_counts[j].0);
                        } else {
                            assert(counts@[i].tag@ != x@);
                        }
                    }
                }
            },
        }
        k += 1;
    }
    proof {
        assert(av.take(all.len() as int) =~= av);
    }
    counts
}

/// All pairs of `s` are in [`ranks_before`] order.
pub open spec fn ranked(s: Seq<(Seq<char>, usize)>) -> bool {
    forall|i: int, j: int| 0 <= i < j < s.len() ==> ranks_before(#[trigger] s[i], #[trigger] s[j])
}

proof fn lemma_insert_ranked(s: Seq<(Seq<char>, usize)>, p: int, x: (Seq<char>, usize))
    requires
        ranked(s),
        0 <= p <= s.len(),
        forall|q: int| 0 <= q < p ==> ranks_before(#[trigger] s[q], x),
        forall|q: int| p <= q < s.len() ==> ranks_before(x, #[trigger] s[q]),
    ensures
        ranked(s.insert(p, x)),
        forall|e: (Seq<char>, usize)| s.insert(p, x).contains(e) <==> (s.contains(e) || e == x),
{
    let t = s.insert(p, x);
    assert forall|i: int, j: int| 0 <= i < j < t.len() implies ranks_before(
        #[trigger] t[i],
        #[trigger] t[j],
    ) by {
        if j < p {
            assert(t[i] == s[i] && t[j] == s[j]);
        } else if j == p {
            assert(t[i] == s[i]);
        } else if i < p {
            assert(t[i] == s[i] && t[j] == s[j - 1]);
            lemma_rank_trans(s[i], x, s[j - 1]);
        } else if i == p {
            assert(t[j] == s[j - 1]);
        } else {
            assert(t[i] == s[i - 1] && t[j] == s[j - 1]);
        }
    }
    assert forall|e: (Seq<char>, usize)| t.contains(e) <==> (s.contains(e) || e == x) by {
        if t.contains(e) {
            let i = choose|i: int| 0 <= i < t.len() && t[i] == e;
            if i < p {
                assert(s[i] == e);
            } else if i > p {
                assert(s[i - 1] == e);
            }
        }
        if s.contains(e) {
            let i = choose|i: int| 0 <= i < s.len() && s[i] == e;
            if i < p {
                assert(t[i] == e);
            } else {
                assert(t[i + 1] == e);
            }
        }
        if e == x {
            assert(t[p] == e);
        }
    }
}

/// Counts the tags of the given files (see [`is_aggregation`]).
pub fn aggregate_tag_lists(files: &Vec<Vec<String>>) -> (res: Vec<TagCount>)
    ensures
        is_aggregation(flatten(list_views(files@)), seq_views(res@)),
{
    let all = flatten_tokens(files);
    let counts = count_tags(&all);
    let ghost av = string_views(all@);
    let ghost cv = seq_views(counts@);
    let mut sorted: Vec<TagCount> = Vec::new();
    let mut k: usize = 0;
    proof {
        assert forall|e: (Seq<char>, usize)| !seq_views(sorted@).contains(e) && !cv.take(0).contains(e) by {
            assert(cv.take(0) =~= Seq::<(Seq<char>, usize)>::empty());
        }
    }
    while k < counts.len()
        invariant
            k <= counts.len(),
            cv == seq_views(counts@),
            counts_describe(cv, av),
            ranked(seq_views(sorted@)),
            forall|e: (Seq<char>, usize)|
                seq_views(sorted@).contains(e) <==> #[trigger] cv.take(k as int).contains(e),
        decreases counts.len() - k,
    {
        let x = TagCount { tag: counts[k].tag.clone(), count: counts[k].count };
        let ghost sv = seq_views(sorted@);
        let mut p: usize = 0;
        while p < sorted.len() && ranks_before_exec(&sorted[p], &x)
            invariant
                p <= sorted.len(),
                sv == seq_views(sorted@),
                forall|q: int| 0 <= q < p ==> ranks_before(#[trigger] sv[q], x@),
            decreases sorted.len() - p,
        {
            p += 1;
        }
        proof {
            assert(x@ == cv[k as int]);
            assert forall|q: int| 0 <= q < sv.len() implies (#[trigger] sv[q]).0 != x@.0 by {
                assert(sv.contains(sv[q]));
                assert(cv.take(k as int).contains(sv[q]));
                let j = choose|j: int| 0 <= j < k && cv.take(k as int)[j] == sv[q];
                assert(cv[j] == sv[q]);
            }
            if p < sorted.len() {
                let y = sv[p as int];
                assert(!ranks_before(y, x@));
                if y.1 == x@.1 {
                    lemma_lex_total(y.0, x@.0);
                }
                assert(ranks_before(x@, y));
                assert forall|q: int| p <= q < sv.len() implies ranks_before(x@, #[trigger] sv[q]) by {
                    if q > p {
                        lemma_rank_trans(x@, y, sv[q]);
                    }
                }
            }
            lemma_insert_ranked(sv, p as int, x@);
        }
        let ghost raw = sorted@;
        let ghost xv = x@;
        sorted.insert(p, x);
        k += 1;
        proof {
            assert(sorted@ == raw.insert(p as int, x));
            assert(xv == cv[k - 1]);
            assert(seq_views(sorted@) =~= sv.insert(p as int, cv[k - 1]));
            assert(cv.take(k as int) =~= cv.take(k - 1).push(cv[k - 1]));
            assert forall|e: (Seq<char>, usize)| seq_views(sorted@).contains(e) <==> #[trigger] cv.take(
                k as int,
            ).contains(e) by {
                if cv.take(k as int).contains(e) {
                    let j = choose|j: int| 0 <= j < k && cv.take(k as int)[j] == e;
                    if j < k - 1 {
                        assert(cv.take(k - 1)[j] == e);
                    }
                }
                let prevc = cv.take(k - 1);
                if seq_views(sorted@).contains(e) {
                    if e == cv[k - 1] {
                        assert(cv.take(k as int)[k - 1] == e);
                    } else {
                        assert(sv.contains(e));
                        assert(prevc.contains(e));
                    }
                }
                if prevc.contains(e) {
                    let j = choose|j: int| 0 <= j < prevc.len() && prevc[j] == e;
                    assert(cv.take(k as int)[j] == e);
                }
            }
        }
    }
    proof {
        let res = seq_views(sorted@);
        assert(cv.take(counts.len() as int) =~= cv);
        assert forall|i: int| 0 <= i < res.len() implies (#[trigger] res[i]).1 == occurrences(
            av,
            res[i].0,
        ) && res[i].1 >= 1 by {
            assert(res.contains(res[i]));
            assert(cv.take(k as int).contains(res[i]));
            let j = choose|j: int| 0 <= j < k && cv.take(k as int)[j] == res[i];
            assert(cv[j] == res[i]);
        }
        assert forall|t: Seq<char>| occurrences(av, t) > 0 implies exists|i: int|
            0 <= i < res.len() && (#[trigger] res[i]).0 == t by {
            let j = choose|j: int| 0 <= j < cv.len() && (#[trigger] cv[j]).0 == t;
            assert(cv.take(k as int)[j] == cv[j]);
            assert(cv.take(k as int).contains(cv[j]));
            assert(res.contains(cv[j]));
            let i = choose|i: int| 0 <= i < res.len() && res[i] == cv[j];
            assert(res[i].0 == t);
        }
    }
    sorted
}

/// Tag counts over what reading the tag files of a folder gave: readable
/// files contribute their tags, unreadable ones are counted and left out.
pub fn aggregate_tags(reads: &Vec<TagFileRead>) -> (res: TagAggregation)
    ensures
        is_aggregation(flatten(readable_tokens(reads@)), seq_views(res.tags@)),
        res.unreadable == failed_reads(reads@),
{
    let mut files: Vec<Vec<String>> = Vec::new();
    let mut unreadable: usize = 0;
    let mut i: usize = 0;
    proof {
        assert(reads@.take(0) =~= Seq::<TagFileRead>::empty());
    }
    while i < reads.len()
        invariant
            i <= reads.len(),
            list_views(files@) == readable_tokens(
                reads@.take(i as int),
            ),
            unreadable == failed_reads(reads@.take(i as int)),
            unreadable <= i,
        decreases reads.len() - i,
    {
        proof {
            assert(reads@.take(i + 1).drop_last() =~= reads@.take(i as int));
            assert(reads@.take(i + 1).last() == reads@[i as int]);
        }
        match &reads[i] {
            Ok(c) => {
                let ts = split_tokens(c.content.as_str());
                let ghost before = files@;
                files.push(ts);
                proof {
                    assert(list_views(files@) =~= list_views(before).push(string_views(ts@)));
                }
            },
            Err(_) => {
                unreadable += 1;
            },
        }
        i += 1;
    }
    proof {
        assert(reads@.take(reads.len() as int) =~= reads@);
    }
    let tags = aggregate_tag_lists(&files);
    TagAggregation { tags, unreadable }
}

// ---------------------------------------------------------------------------
// Filtering
// ---------------------------------------------------------------------------

/// Tags `ts` satisfy the filter: every non-blank `wanted` key is present and
/// no non-blank `unwanted` key is.
pub open spec fn matches_filter_spec(
    ts: Seq<Seq<char>>,
    wanted: Seq<Seq<char>>,
    unwanted: Seq<Seq<char>>,
) -> bool {
    &&& forall|i: int|
        0 <= i < wanted.len() && !is_blank(#[trigger] wanted[i]) ==> has_key(ts, key(wanted[i]))
    &&& forall|i: int|
        0 <= i < unwanted.len() && !is_blank(#[trigger] unwanted[i]) ==> !has_key(ts, key(unwanted[i]))
}

/// Whether tags `ts` satisfy the wanted/unwanted filter.
pub fn matches_filter(ts: &[String], wanted: &[String], unwanted: &[String]) -> (r: bool)
    ensures
        r == matches_filter_spec(string_views(ts@), string_views(wanted@), string_views(unwanted@)),
{
    let mut i: usize = 0;
    while i < wanted.len()
        invariant
            i <= wanted.len(),
            forall|j: int|
                0 <= j < i && !is_blank(#[trigger] string_views(wanted@)[j]) ==> has_key(
                    string_views(ts@),
                    key(string_views(wanted@)[j]),
                ),
        decreases wanted.len() - i,
    {
        let k = normalize_key(wanted[i].as_str());
        proof {
            lemma_blank_key(wanted@[i as int]@);
        }
        if k.len() > 0 && !contains_key(ts, &k) {
            proof {
                assert(!is_blank(string_views(wanted@)[i as int]));
            }
            return false;
        }
        i += 1;
    }
    let mut e: usize = 0;
    while e < unwanted.len()
        invariant
            e <= unwanted.len(),
            forall|j: int|
                0 <= j < e && !is_blank(#[trigger] string_views(unwanted@)[j]) ==> !has_key(
                    string_views(ts@),
                    key(string_views(unwanted@)[j]),
                ),
        decreases unwanted.len() - e,
    {
        let k = normalize_key(unwanted[e].as_str());
        proof {
            lemma_blank_key(unwanted@[e as int]@);
        }
        if k.len() > 0 && contains_key(ts, &k) {
            proof {
                assert(!is_blank(string_views(unwanted@)[e as int]));
            }
            return false;
        }
        e += 1;
    }
    true
}

proof fn lemma_blank_key(t: Seq<char>)
    ensures
        is_blank(t) <==> key(t).len() == 0,
{
}

/// The images kept by the filter, in listing order.
pub open spec fn filtered(
    items: Seq<ImageEntry>,
    reads: Seq<TagFileRead>,
    wanted: Seq<Seq<char>>,
    unwanted: Seq<Seq<char>>,
) -> Seq<ImageEntry>
    decreases items.len(),
{
    if items.len() == 0 || reads.len() != items.len() {
        Seq::empty()
    } else {
        let r = filtered(items.drop_last(), reads.drop_last(), wanted, unwanted);
        match reads.last() {
            Ok(c) => if matches_filter_spec(tokens(c.content@), wanted, unwanted) {
                r.push(items.last())
            } else {
                r
            },
            Err(_) => r,
        }
    }
}

/// Two reads of the same tag files that differ at most in whether each file
/// existed: each read failed in both or succeeded in both with the same text.
pub open spec fn same_texts(a: Seq<TagFileRead>, b: Seq<TagFileRead>) -> bool {
    &&& a.len() == b.len()
    &&& forall|i: int|
        0 <= i < a.len() ==> match (#[trigger] a[i], b[i]) {
            (Ok(x), Ok(y)) => x.content@ == y.content@,
            (Err(_), Err(_)) => true,
            _ => false,
        }
}

/// Whether an image's tag file existed does not matter to the filter: a
/// missing tag file counts as a file with no tags, so two reads that differ
/// only in that keep the same images.
pub proof fn law_filter_ignores_existence(
    items: Seq<ImageEntry>,
    a: Seq<TagFileRead>,
    b: Seq<TagFileRead>,
    wanted: Seq<Seq<char>>,
    unwanted: Seq<Seq<char>>,
)
    requires
        same_texts(a, b),
    ensures
        filtered(items, a, wanted, unwanted) == filtered(items, b, wanted, unwanted),
    decreases items.len(),
{
    if items.len() > 0 && a.len() == items.len() {
        assert(same_texts(a.drop_last(), b.drop_last())) by {
            assert forall|i: int| 0 <= i < a.drop_last().len() implies match (#[trigger] a.drop_last()[i], b.drop_last()[i]) {
                (Ok(x), Ok(y)) => x.content@ == y.content@,
                (Err(_), Err(_)) => true,
                _ => false,
            } by {
                assert(a.drop_last()[i] == a[i] && b.drop_last()[i] == b[i]);
            }
        }
        law_filter_ignores_existence(items.drop_last(), a.drop_last(), b.drop_last(), wanted, unwanted);
        let last = a.len() - 1;
        assert(a.last() == a[last] && b.last() == b[last]);
    }
}

/// The reads of images that all have tag files without tags, or none.
pub open spec fn all_untagged(reads: Seq<TagFileRead>) -> bool {
    forall|i: int| 0 <= i < reads.len() ==> (#[trigger] reads[i] matches Ok(c) && tokens(c.content@).len() == 0)
}

/// An image without tags (its tag file missing or empty) is kept when no
/// include tag is given, whatever the exclude tags; and dropped as soon as a
/// non-blank include tag is given.
pub proof fn law_untagged_images(
    items: Seq<ImageEntry>,
    reads: Seq<TagFileRead>,
    wanted: Seq<Seq<char>>,
    unwanted: Seq<Seq<char>>,
)
    requires
        items.len() == reads.len(),
        all_untagged(reads),
    ensures
        wanted.len() == 0 ==> filtered(items, reads, wanted, unwanted) == items,
        (exists|j: int| 0 <= j < wanted.len() && !is_blank(#[trigger] wanted[j])) ==> filtered(
            items,
            reads,
            wanted,
            unwanted,
        ).len() == 0,
    decreases items.len(),
{
    if items.len() > 0 {
        assert(all_untagged(reads.drop_last())) by {
            assert forall|i: int| 0 <= i < reads.drop_last().len() implies (#[trigger] reads.drop_last()[i] matches Ok(c)
                && tokens(c.content@).len() == 0) by {
                assert(reads.drop_last()[i] == reads[i]);
            }
        }
        law_untagged_images(items.drop_last(), reads.drop_last(), wanted, unwanted);
        let n = reads.len() - 1;
        assert(reads.last() == reads[n]);
        let c = reads[n]->Ok_0;
        let ts = tokens(c.content@);
        assert(ts.len() == 0);
        assert forall|i: int| 0 <= i < unwanted.len() && !is_blank(#[trigger] unwanted[i]) implies !has_key(
            ts,
            key(unwanted[i]),
        ) by {}
        if exists|j: int| 0 <= j < wanted.len() && !is_blank(#[trigger] wanted[j]) {
            let j = choose|j: int| 0 <= j < wanted.len() && !is_blank(#[trigger] wanted[j]);
            assert(!has_key(ts, key(wanted[j])));
            assert(!matches_filter_spec(ts, wanted, unwanted));
        }
        if wanted.len() == 0 {
            assert(matches_filter_spec(ts, wanted, unwanted));
            assert(items.drop_last().push(items.last()) =~= items);
        }
    }
}

/// Adding one more image to the filter's input: it is dropped when one of
/// its tags has the key of a non-blank exclude tag, or when a non-blank
/// include tag's key is none of its tags'; it is appended, after the images
/// kept before it, when every non-blank include tag's key is among its tags
/// and no non-blank exclude tag's key is; an unreadable tag file drops it.
pub proof fn law_filter_one_more(
    items: Seq<ImageEntry>,
    reads: Seq<TagFileRead>,
    x: ImageEntry,
    read: TagFileRead,
    wanted: Seq<Seq<char>>,
    unwanted: Seq<Seq<char>>,
)
    requires
        items.len() == reads.len(),
    ensures
        ({
            let before = filtered(items, reads, wanted, unwanted);
            let after = filtered(items.push(x), reads.push(read), wanted, unwanted);
            &&& read is Err ==> after == before
            &&& (read matches Ok(c) && exists|j: int|
                0 <= j < unwanted.len() && !is_blank(#[trigger] unwanted[j]) && has_key(
                    tokens(c.content@),
                    key(unwanted[j]),
                )) ==> after == before
            &&& (read matches Ok(c) && exists|j: int|
                0 <= j < wanted.len() && !is_blank(#[trigger] wanted[j]) && !has_key(
                    tokens(c.content@),
                    key(wanted[j]),
                )) ==> after == before
            &&& (read matches Ok(c) && (forall|j: int|
                0 <= j < wanted.len() && !is_blank(#[trigger] wanted[j]) ==> has_key(
                    tokens(c.content@),
                    key(wanted[j]),
                )) && (forall|j: int|
                0 <= j < unwanted.len() && !is_blank(#[trigger] unwanted[j]) ==> !has_key(
                    tokens(c.content@),
                    key(unwanted[j]),
                ))) ==> after == before.push(x)
        }),
{
    assert(items.push(x).drop_last() =~= items);
    assert(reads.push(read).drop_last() =~= reads);
}

fn copy_entry(e: &ImageEntry) -> (r: ImageEntry)
    ensures
        r == *e,
{
    ImageEntry {
        path: e.path.clone(),
        file_name: e.file_name.clone(),
        has_tag_file: e.has_tag_file,
        thumbnail_available: e.thumbnail_available,
    }
}

/// The listed images whose tag file was read and whose tags satisfy the
/// filter; images whose tag file could not be read are left out.
pub fn filter_images(
    items: &Vec<ImageEntry>,
    reads: &Vec<TagFileRead>,
    wanted: &[String],
    unwanted: &[String],
) -> (out: Vec<ImageEntry>)
    requires
        items.len() == reads.len(),
    ensures
        out@ == filtered(items@, reads@, string_views(wanted@), string_views(unwanted@)),
{
    let mut out: Vec<ImageEntry> = Vec::new();
    let mut i: usize = 0;
    proof {
        assert(items@.take(0) =~= Seq::<ImageEntry>::empty());
    }
    while i < items.len()
        invariant
            i <= items.len(),
            items.len() == reads.len(),
            out@ == filtered(
                items@.take(i as int),
                reads@.take(i as int),
                string_views(wanted@),
                string_views(unwanted@),
            ),
        decreases items.len() - i,
    {
        proof {
            assert(items@.take(i + 1).drop_last() =~= items@.take(i as int));
            assert(reads@.take(i + 1).drop_last() =~= reads@.take(i as int));
            assert(items@.take(i + 1).last() == items@[i as int]);
            assert(reads@.take(i + 1).last() == reads@[i as int]);
        }
        match &reads[i] {
            Ok(c) => {
                let ts = split_tokens(c.content.as_str());
                if matches_filter(&ts, wanted, unwanted) {
                    out.push(copy_entry(&items[i]));
                }
            },
            Err(_) => {},
        }
        i += 1;
    }
    proof {
        assert(items@.take(items.len() as int) =~= items@);
        assert(reads@.take(reads.len() as int) =~= reads@);
    }
    out
}

// ---------------------------------------------------------------------------
// Bulk edits
// ---------------------------------------------------------------------------

/// An edit applied to the tags of each target image.
#[derive(Debug, Clone, PartialEq, Eq)]
pub enum BulkEdit {
    /// Add these tags (inclusive, no duplicates by key).
    Add(Vec<String>),
    /// Remove every tag whose key is one of these.
    Remove(Vec<String>),
    /// Keep the first tag of each key.
    Dedup,
}

/// The tags after applying `edit`.
pub open spec fn edited(edit: BulkEdit, ts: Seq<Seq<char>>) -> Seq<Seq<char>> {
    match edit {
        BulkEdit::Add(tags) => added(ts, string_views(tags@)),
        BulkEdit::Remove(tags) => removed(ts, string_views(tags@)),
        BulkEdit::Dedup => deduped(ts),
    }
}

/// The new text of a tag file: its tags edited, rendered with `", "`.
pub fn edited_content(edit: &BulkEdit, existing: &str) -> (out: String)
    ensures
        out@ == join(edited(*edit, tokens(existing@)), comma_space()),
{
    let ts = split_tokens(existing);
    let next = match edit {
        BulkEdit::Add(tags) => add_tags(&ts, tags),
        BulkEdit::Remove(tags) => remove_tags(&ts, tags),
        BulkEdit::Dedup => crate::logic::tag_ops::dedup_tags(&ts),
    };
    render_tags(&next)
}

/// `t` is one of the requested `tags`, trimmed and not blank.
pub open spec fn requested_tag(tags: Seq<Seq<char>>, t: Seq<char>) -> bool {
    exists|j: int| 0 <= j < tags.len() && trim(#[trigger] tags[j]).len() > 0 && trim(tags[j]) == t
}

/// Each tag `added` puts after the existing ones is a requested tag.
proof fn lemma_added_tail(existing: Seq<Seq<char>>, tags: Seq<Seq<char>>)
    ensures
        forall|k: int|
            existing.len() <= k < added(existing, tags).len() ==> requested_tag(
                tags,
                #[trigger] added(existing, tags)[k],
            ),
    decreases tags.len(),
{
    if tags.len() > 0 {
        let p = tags.drop_last();
        lemma_added_tail(existing, p);
        let a = added(existing, p);
        let r = added(existing, tags);
        crate::logic::tag_ops::law_add_covers(existing, p);
        assert forall|k: int| existing.len() <= k < r.len() implies requested_tag(tags, #[trigger] r[k]) by {
            if k < a.len() {
                assert(requested_tag(p, a[k]));
                let j = choose|j: int| 0 <= j < p.len() && trim(#[trigger] p[j]).len() > 0 && trim(p[j]) == a[k];
                assert(tags[j] == p[j]);
                assert(r[k] == a[k]);
            } else {
                assert(r[k] == trim(tags[tags.len() - 1]));
            }
        }
    }
}

/// Adding tags to a tag file never touches its existing tags: they stay
/// first, all of them, in their order; after them come only requested tags,
/// trimmed and not blank; and every non-blank requested tag is then present
/// by key.
pub proof fn law_bulk_add_appends(tags: Vec<String>, ts: Seq<Seq<char>>)
    ensures
        edited(BulkEdit::Add(tags), ts).len() >= ts.len(),
        edited(BulkEdit::Add(tags), ts).take(ts.len() as int) == ts,
        forall|k: int|
            ts.len() <= k < edited(BulkEdit::Add(tags), ts).len() ==> requested_tag(
                string_views(tags@),
                #[trigger] edited(BulkEdit::Add(tags), ts)[k],
            ),
        forall|j: int|
            0 <= j < tags@.len() && trim(#[trigger] string_views(tags@)[j]).len() > 0 ==> has_key(
                edited(BulkEdit::Add(tags), ts),
                key(string_views(tags@)[j]),
            ),
{
    let t = string_views(tags@);
    crate::logic::tag_ops::law_add_covers(ts, t);
    lemma_added_tail(ts, t);
}

/// What happened to one target of a bulk edit.
#[derive(Debug, Clone, PartialEq, Eq)]
pub enum BulkOutcome {
    /// The tag file could not be read; the text says why.
    ReadFailed(String),
    /// The edited tags were written.
    Written,
    /// The edited tags could not be written; the text says why.
    WriteFailed(String),
}

/// Notice reported when no target was given.
pub open spec fn no_targets_notice() -> Seq<char> {
    "対象の画像が1件も選択されていないため、操作を実行しませんでした"@
}

/// Message for a target whose tag file could not be read.
pub open spec fn read_failed_message(path: Seq<char>, reason: Seq<char>) -> Seq<char> {
    path + " の読み込みに失敗したためスキップしました: "@ + reason
}

/// Message for a target whose tag file could not be written.
pub open spec fn write_failed_message(path: Seq<char>, reason: Seq<char>) -> Seq<char> {
    path + " の書き込みに失敗したためスキップしました: "@ + reason
}

/// Report of a bulk edit over the outcomes so far.
pub open spec fn bulk_tally(paths: Seq<Seq<char>>, outcomes: Seq<BulkOutcome>) -> (
    usize,
    usize,
    usize,
    Seq<Seq<char>>,
)
    decreases outcomes.len(),
{
    if outcomes.len() == 0 || paths.len() != outcomes.len() {
        (0, 0, 0, Seq::empty())
    } else {
        let r = bulk_tally(paths.drop_last(), outcomes.drop_last());
        let p = paths.last();
        match outcomes.last() {
            BulkOutcome::Written => ((r.0 + 1) as usize, r.1, r.2, r.3),
            BulkOutcome::ReadFailed(e) => (r.0, r.1, (r.2 + 1) as usize, r.3.push(
                read_failed_message(p, e@),
            )),
            BulkOutcome::WriteFailed(e) => (r.0, r.1, (r.2 + 1) as usize, r.3.push(
                write_failed_message(p, e@),
            )),
        }
    }
}

/// The report of a bulk edit: a notice alone when there was no target,
/// otherwise one success per written file and one skip (with its message) per
/// failed read or write.
pub open spec fn bulk_report_spec(paths: Seq<Seq<char>>, outcomes: Seq<BulkOutcome>) -> (
    usize,
    usize,
    usize,
    Seq<Seq<char>>,
) {
    if paths.len() == 0 {
        (0, 0, 0, seq![no_targets_notice()])
    } else {
        bulk_tally(paths, outcomes)
    }
}

proof fn lemma_tally_bound(paths: Seq<Seq<char>>, outcomes: Seq<BulkOutcome>)
    ensures
        bulk_tally(paths, outcomes).0 + bulk_tally(paths, outcomes).2 <= outcomes.len(),
    decreases outcomes.len(),
{
    if outcomes.len() > 0 && paths.len() == outcomes.len() {
        lemma_tally_bound(paths.drop_last(), outcomes.drop_last());
    }
}

/// Builds the report of a bulk edit from the displayed path and outcome of
/// each target, in order.
pub fn bulk_report(paths: &Vec<String>, outcomes: &Vec<BulkOutcome>) -> (report: OperationReport)
    requires
        paths.len() == outcomes.len(),
    ensures
        report@ == bulk_report_spec(string_views(paths@), outcomes@),
{
    let mut report = OperationReport::empty();
    if paths.len() == 0 {
        report.messages.push(crate::logic::text::owned(
            "対象の画像が1件も選択されていないため、操作を実行しませんでした",
        ));
        proof {
            assert(report@.3 =~= seq![no_targets_notice()]);
        }
        return report;
    }
    let mut i: usize = 0;
    proof {
        assert(string_views(paths@).take(0) =~= Seq::<Seq<char>>::empty());
        assert(outcomes@.take(0) =~= Seq::<BulkOutcome>::empty());
        assert(report@ == bulk_tally(Seq::empty(), Seq::empty()));
    }
    while i < outcomes.len()
        invariant
            i <= outcomes.len(),
            paths.len() == outcomes.len(),
            report@ == bulk_tally(string_views(paths@).take(i as int), outcomes@.take(i as int)),
        decreases outcomes.len() - i,
    {
        let ghost pv = string_views(paths@).take(i + 1);
        let ghost ov = outcomes@.take(i + 1);
        proof {
            assert(pv.drop_last() =~= string_views(paths@).take(i as int));
            assert(ov.drop_last() =~= outcomes@.take(i as int));
            assert(pv.last() == paths@[i as int]@);
            assert(ov.last() == outcomes@[i as int]);
            lemma_tally_bound(string_views(paths@).take(i as int), outcomes@.take(i as int));
        }
        let ghost before = report@;
        match &outcomes[i] {
            BulkOutcome::Written => {
                report.succeeded += 1;
            },
            BulkOutcome::ReadFailed(e) => {
                report.skipped += 1;
                let m = concat3(
                    paths[i].as_str(),
                    " の読み込みに失敗したためスキップしました: ",
                    e.as_str(),
                );
                report.messages.push(m);
            },
            BulkOutcome::WriteFailed(e) => {
                report.skipped += 1;
                let m = concat3(
                    paths[i].as_str(),
                    " の書き込みに失敗したためスキップしました: ",
                    e.as_str(),
                );
                report.messages.push(m);
            },
        }
        i += 1;
        proof {
            assert(report@.3 =~= bulk_tally(pv, ov).3);
        }
    }
    proof {
        assert(string_views(paths@).take(outcomes.len() as int) =~= string_views(paths@));
        assert(outcomes@.take(outcomes.len() as int) =~= outcomes@);
    }
    report
}

/// Counts of a finished bulk edit over at least one target: every target is
/// either a success or a skip with one message, and nothing conflicts.
pub proof fn law_bulk_report_counts(paths: Seq<Seq<char>>, outcomes: Seq<BulkOutcome>)
    requires
        paths.len() == outcomes.len(),
        paths.len() > 0,
        outcomes.len() <= usize::MAX,
    ensures
        bulk_report_spec(paths, outcomes).0 + bulk_report_spec(paths, outcomes).2 == paths.len(),
        bulk_report_spec(paths, outcomes).1 == 0,
        bulk_report_spec(paths, outcomes).3.len() == bulk_report_spec(paths, outcomes).2,
{
    lemma_tally_counts(paths, outcomes);
}

proof fn lemma_tally_counts(paths: Seq<Seq<char>>, outcomes: Seq<BulkOutcome>)
    requires
        paths.len() == outcomes.len(),
        outcomes.len() <= usize::MAX,
    ensures
        bulk_tally(paths, outcomes).0 + bulk_tally(paths, outcomes).2 == outcomes.len(),
        bulk_tally(paths, outcomes).1 == 0,
        bulk_tally(paths, outcomes).3.len() == bulk_tally(paths, outcomes).2,
    decreases outcomes.len(),
{
    if outcomes.len() > 0 {
        lemma_tally_counts(paths.drop_last(), outcomes.drop_last());
    }
}

/// A bulk edit in progress: the edit, its targets (image paths) and how each
/// target handled so far ended.
pub struct BulkRun {
    edit: BulkEdit,
    targets: Vec<String>,
    outcomes: Vec<BulkOutcome>,
    awaiting_write: bool,
}

/// What the caller does next for a bulk edit.
#[derive(Debug, Clone)]
pub enum BulkStep {
    /// Read the tag file of this image, then hand the result to
    /// [`BulkRun::on_read`].
    ReadTagFile(String),
    /// The edit is over; this is its report.
    Finished(OperationReport),
}

impl BulkRun {
    /// The edit applied to every target.
    pub closed spec fn edit(&self) -> BulkEdit {
        self.edit
    }

    /// The targets, as paths.
    pub closed spec fn targets(&self) -> Seq<Seq<char>> {
        string_views(self.targets@)
    }

    /// How each target handled so far ended.
    pub closed spec fn outcomes(&self) -> Seq<BulkOutcome> {
        self.outcomes@
    }

    /// Whether the edited tags of the current target wait to be written.
    pub closed spec fn awaiting_write(&self) -> bool {
        self.awaiting_write
    }

    /// The run is consistent: no more outcomes than targets, and a pending
    /// write belongs to a target still without outcome.
    pub closed spec fn well_formed(&self) -> bool {
        &&& self.outcomes@.len() <= self.targets@.len()
        &&& self.awaiting_write ==> self.outcomes@.len() < self.targets@.len()
    }

    /// A run of `edit` over `targets`, nothing done yet.
    pub fn new(edit: BulkEdit, targets: &Vec<String>) -> (r: BulkRun)
        ensures
            r.well_formed(),
            r.edit() == edit,
            r.targets() == string_views(targets@),
            r.outcomes() == Seq::<BulkOutcome>::empty(),
            !r.awaiting_write(),
    {
        BulkRun {
            edit,
            targets: crate::models::clone_strings(targets),
            outcomes: Vec::new(),
            awaiting_write: false,
        }
    }

    /// The next step: read the tag file of the first target without an
    /// outcome; once all have one, the report (see [`bulk_report_spec`]; a
    /// run without target reports the notice alone).
    pub fn next_step(&self) -> (s: BulkStep)
        requires
            self.well_formed(),
            !self.awaiting_write(),
        ensures
            self.outcomes().len() < self.targets().len() ==> (s matches BulkStep::ReadTagFile(p) && p@
                == self.targets()[self.outcomes().len() as int]),
            self.outcomes().len() == self.targets().len() ==> (s matches BulkStep::Finished(r) && r@
                == bulk_report_spec(self.targets(), self.outcomes())),
    {
        let k = self.outcomes.len();
        if k < self.targets.len() {
            BulkStep::ReadTagFile(self.targets[k].clone())
        } else {
            BulkStep::Finished(bulk_report(&self.targets, &self.outcomes))
        }
    }

    /// Takes what reading the current target's tag file gave. A failed read
    /// ends that target as skipped; otherwise the edited text to write is
    /// returned and the run waits for [`BulkRun::on_write`].
    pub fn on_read(&mut self, read: &TagFileRead) -> (content: Option<String>)
        requires
            old(self).well_formed(),
            !old(self).awaiting_write(),
            old(self).outcomes().len() < old(self).targets().len(),
        ensures
            final(self).well_formed(),
            final(self).edit() == old(self).edit(),
            final(self).targets() == old(self).targets(),
            match read {
                Err(e) => content is None && !final(self).awaiting_write() && final(self).outcomes().len()
                    == old(self).outcomes().len() + 1
                    && final(self).outcomes().drop_last() == old(self).outcomes()
                    && (final(self).outcomes().last() matches BulkOutcome::ReadFailed(t)
                    && t@ == describe_spec(e.message@, e.path_view())),
                Ok(c) => content matches Some(t) && t@ == join(edited(old(self).edit(), tokens(c.content@)), comma_space())
                    && final(self).awaiting_write() && final(self).outcomes() == old(self).outcomes(),
            },
    {
        match read {
            Err(e) => {
                let text = e.describe();
                let ghost before = self.outcomes@;
                self.outcomes.push(BulkOutcome::ReadFailed(text));
                assert(self.outcomes@.drop_last() =~= before);
                None
            },
            Ok(c) => {
                let t = edited_content(&self.edit, c.content.as_str());
                self.awaiting_write = true;
                Some(t)
            },
        }
    }

    /// Takes what writing the current target's edited tags gave, ending
    /// that target as written or skipped.
    pub fn on_write(&mut self, written: &AppResult<()>)
        requires
            old(self).well_formed(),
            old(self).awaiting_write(),
        ensures
            final(self).well_formed(),
            !final(self).awaiting_write(),
            final(self).edit() == old(self).edit(),
            final(self).targets() == old(self).targets(),
            match written {
                Ok(_) => final(self).outcomes() == old(self).outcomes().push(BulkOutcome::Written),
                Err(e) => final(self).outcomes().len() == old(self).outcomes().len() + 1
                    && final(self).outcomes().drop_last() == old(self).outcomes()
                    && (final(self).outcomes().last() matches BulkOutcome::WriteFailed(t)
                    && t@ == describe_spec(e.message@, e.path_view())),
            },
    {
        match written {
            Ok(_) => self.outcomes.push(BulkOutcome::Written),
            Err(e) => {
                let text = e.describe();
                let ghost before = self.outcomes@;
                self.outcomes.push(BulkOutcome::WriteFailed(text));
                assert(self.outcomes@.drop_last() =~= before);
            },
        }
        self.awaiting_write = false;
    }
}

/// A bulk run adding `tags` to the tag files of `targets` (inclusive, no
/// duplicate by key; a missing tag file starts empty).
pub fn bulk_add_tags(targets: &Vec<String>, tags: &Vec<String>) -> (r: BulkRun)
    ensures
        r.well_formed(),
        r.edit() matches BulkEdit::Add(t) && t@ == tags@,
        r.targets() == string_views(targets@),
        r.outcomes() == Seq::<BulkOutcome>::empty(),
        !r.awaiting_write(),
{
    BulkRun::new(BulkEdit::Add(crate::models::clone_strings(tags)), targets)
}

/// A bulk run removing every tag whose key is one of `tags`.
pub fn bulk_remove_tags(targets: &Vec<String>, tags: &Vec<String>) -> (r: BulkRun)
    ensures
        r.well_formed(),
        r.edit() matches BulkEdit::Remove(t) && t@ == tags@,
        r.targets() == string_views(targets@),
        r.outcomes() == Seq::<BulkOutcome>::empty(),
        !r.awaiting_write(),
{
    BulkRun::new(BulkEdit::Remove(crate::models::clone_strings(tags)), targets)
}

/// A bulk run keeping the first tag of each key in every tag file.
pub fn dedup_tags(targets: &Vec<String>) -> (r: BulkRun)
    ensures
        r.well_formed(),
        r.edit() == BulkEdit::Dedup,
        r.targets() == string_views(targets@),
        r.outcomes() == Seq::<BulkOutcome>::empty(),
        !r.awaiting_write(),
{
    BulkRun::new(BulkEdit::Dedup, targets)
}

} // verus!
