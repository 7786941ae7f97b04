//! Operations on the tags of one tag file: tokenising the comma-separated
//! text, normalised keys, adding, removing and de-duplicating tags, and
//! rendering tags back to text.
use vstd::prelude::*;
use crate::logic::text::{
    ascii_lower, chars_eq, chars_of, is_ws, lemma_split_nonempty, lemma_split_pieces_free,
    lemma_trim_idempotent, lemma_trim_noop, lemma_trim_shape, lower_chars, push_str, split_chars,
    split_on, string_of, string_views, trim, trim_chars, views,
};

verus! {

// ---------------------------------------------------------------------------
// Specifications
// ---------------------------------------------------------------------------

/// The trimmed, non-empty pieces, in order.
pub open spec fn trimmed_nonblank(pieces: Seq<Seq<char>>) -> Seq<Seq<char>>
    decreases pieces.len(),
{
    if pieces.len() == 0 {
        Seq::empty()
    } else {
        let r = trimmed_nonblank(pieces.drop_last());
        let t = trim(pieces.last());
        if t.len() > 0 {
            r.push(t)
        } else {
            r
        }
    }
}

/// The tags of a tag file's text: comma-separated, trimmed, blanks dropped.
pub open spec fn tokens(content: Seq<char>) -> Seq<Seq<char>> {
    trimmed_nonblank(split_on(content, ','))
}

/// Normalised key of a tag: trimmed and ASCII lower-cased.
pub open spec fn key(t: Seq<char>) -> Seq<char> {
    ascii_lower(trim(t))
}

/// Some tag of `ts` has the key `k`.
pub open spec fn has_key(ts: Seq<Seq<char>>, k: Seq<char>) -> bool {
    exists|i: int| 0 <= i < ts.len() && #[trigger] key(ts[i]) == k
}

/// `existing` with each tag of `tags` appended (trimmed) unless blank or
/// already present by key.
pub open spec fn added(existing: Seq<Seq<char>>, tags: Seq<Seq<char>>) -> Seq<Seq<char>>
    decreases tags.len(),
{
    if tags.len() == 0 {
        existing
    } else {
        let a = added(existing, tags.drop_last());
        let t = tags.last();
        if trim(t).len() > 0 && !has_key(a, key(t)) {
            a.push(trim(t))
        } else {
            a
        }
    }
}

/// `existing` without the tags whose key is the key of one of `tags`.
pub open spec fn removed(existing: Seq<Seq<char>>, tags: Seq<Seq<char>>) -> Seq<Seq<char>>
    decreases existing.len(),
{
    if existing.len() == 0 {
        existing
    } else {
        let r = removed(existing.drop_last(), tags);
        if has_key(tags, key(existing.last())) {
            r
        } else {
            r.push(existing.last())
        }
    }
}

/// The first tag of each key, in order.
pub open spec fn deduped(ts: Seq<Seq<char>>) -> Seq<Seq<char>>
    decreases ts.len(),
{
    if ts.len() == 0 {
        ts
    } else {
        let r = deduped(ts.drop_last());
        if has_key(r, key(ts.last())) {
            r
        } else {
            r.push(ts.last())
        }
    }
}

/// `sep`-joined concatenation.
pub open spec fn join(ts: Seq<Seq<char>>, sep: Seq<char>) -> Seq<char>
    decreases ts.len(),
{
    if ts.len() == 0 {
        Seq::empty()
    } else if ts.len() == 1 {
        ts[0]
    } else {
        join(ts.drop_last(), sep) + sep + ts.last()
    }
}

/// The separator of rendered tags.
pub open spec fn comma_space() -> Seq<char> {
    seq![',', ' ']
}

/// A tag that renders and reads back unchanged: non-empty, trimmed, no comma.
pub open spec fn clean_tag(t: Seq<char>) -> bool {
    &&& t.len() > 0
    &&& trim(t) == t
    &&& forall|j: int| 0 <= j < t.len() ==> t[j] != ','
}

// ---------------------------------------------------------------------------
// Exec
// ---------------------------------------------------------------------------

/// The tags of a tag file's text (see [`tokens`]).
pub fn split_tokens(content: &str) -> (out: Vec<String>)
    ensures
        string_views(out@) == tokens(content@),
{
    let cs = chars_of(content);
    let pieces = split_chars(&cs, ',');
    let mut out: Vec<String> = Vec::new();
    let mut i: usize = 0;
    while i < pieces.len()
        invariant
            i <= pieces.len(),
            views(pieces@) == split_on(cs@, ','),
            string_views(out@) == trimmed_nonblank(views(pieces@).take(i as int)),
        decreases pieces.len() - i,
    {
        let t = trim_chars(&pieces[i]);
        proof {
            assert(views(pieces@).take(i + 1).drop_last() =~= views(pieces@).take(i as int));
            assert(views(pieces@).take(i + 1).last() == pieces@[i as int]@);
        }
        if t.len() > 0 {
            out.push(string_of(&t));
        }
        i += 1;
        proof {
            assert(string_views(out@) =~= trimmed_nonblank(views(pieces@).take(i as int)));
        }
    }
    proof {
        assert(views(pieces@).take(pieces.len() as int) =~= views(pieces@));
    }
    out
}

/// Normalised key of a tag (see [`key`]).
pub fn normalize_key(tag: &str) -> (k: Vec<char>)
    ensures
        k@ == key(tag@),
{
    let cs = chars_of(tag);
    let t = trim_chars(&cs);
    lower_chars(&t)
}

/// Whether some tag of `ts` has the key `k`.
pub fn contains_key(ts: &[String], k: &[char]) -> (r: bool)
    ensures
        r == has_key(string_views(ts@), k@),
{
    let mut i: usize = 0;
    while i < ts.len()
        invariant
            i <= ts.len(),
            forall|j: int| 0 <= j < i ==> key(#[trigger] string_views(ts@)[j]) != k@,
        decreases ts.len() - i,
    {
        let ki = normalize_key(ts[i].as_str());
        if chars_eq(&ki, k) {
            proof {
                assert(key(string_views(ts@)[i as int]) == k@);
            }
            return true;
        }
        i += 1;
    }
    false
}

/// Appends each of `tags` (trimmed) that is not blank and not already present
/// by key.
pub fn add_tags(existing: &[String], tags: &[String]) -> (out: Vec<String>)
    ensures
        string_views(out@) == added(string_views(existing@), string_views(tags@)),
{
    let mut out: Vec<String> = Vec::new();
    let mut i: usize = 0;
    while i < existing.len()
        invariant
            i <= existing.len(),
            out@ == existing@.take(i as int),
        decreases existing.len() - i,
    {
        out.push(existing[i].clone());
        i += 1;
        proof {
            assert(existing@.take(i as int) =~= existing@.take(i - 1).push(existing@[i - 1]));
        }
    }
    proof {
        assert(existing@.take(existing.len() as int) =~= existing@);
        assert(string_views(tags@).take(0) =~= Seq::<Seq<char>>::empty());
    }
    let mut j: usize = 0;
    while j < tags.len()
        invariant
            j <= tags.len(),
            string_views(out@) == added(string_views(existing@), string_views(tags@).take(j as int)),
        decreases tags.len() - j,
    {
        let cs = chars_of(tags[j].as_str());
        let t = trim_chars(&cs);
        let k = lower_chars(&t);
        proof {
            assert(string_views(tags@).take(j + 1).drop_last() =~= string_views(tags@).take(
                j as int,
            ));
            assert(string_views(tags@).take(j + 1).last() == tags@[j as int]@);
        }
        if t.len() > 0 && !contains_key(&out, &k) {
            out.push(string_of(&t));
            proof {
                assert(string_views(out@) =~= string_views(out@).drop_last().push(t@));
            }
        }
        j += 1;
        proof {
            assert(string_views(out@) =~= added(
                string_views(existing@),
                string_views(tags@).take(j as int),
            ));
        }
    }
    proof {
        assert(string_views(tags@).take(tags.len() as int) =~= string_views(tags@));
    }
    out
}

/// Drops every tag whose key is the key of one of `tags`.
pub fn remove_tags(existing: &[String], tags: &[String]) -> (out: Vec<String>)
    ensures
        string_views(out@) == removed(string_views(existing@), string_views(tags@)),
{
    let mut out: Vec<String> = Vec::new();
    let mut i: usize = 0;
    proof {
        assert(string_views(existing@).take(0) =~= Seq::<Seq<char>>::empty());
    }
    while i < existing.len()
        invariant
            i <= existing.len(),
            string_views(out@) == removed(string_views(existing@).take(i as int), string_views(tags@)),
        decreases existing.len() - i,
    {
        let k = normalize_key(existing[i].as_str());
        proof {
            assert(string_views(existing@).take(i + 1).drop_last() =~= string_views(
                existing@,
            ).take(i as int));
            assert(string_views(existing@).take(i + 1).last() == existing@[i as int]@);
        }
        if !contains_key(tags, &k) {
            out.push(existing[i].clone());
        }
        i += 1;
        proof {
            assert(string_views(out@) =~= removed(
                string_views(existing@).take(i as int),
                string_views(tags@),
            ));
        }
    }
    proof {
        assert(string_views(existing@).take(existing.len() as int) =~= string_views(existing@));
    }
    out
}

/// Keeps the first tag of each key, in order.
pub fn dedup_tags(ts: &[String]) -> (out: Vec<String>)
    ensures
        string_views(out@) == deduped(string_views(ts@)),
{
    let mut out: Vec<String> = Vec::new();
    let mut i: usize = 0;
    proof {
        assert(string_views(ts@).take(0) =~= Seq::<Seq<char>>::empty());
    }
    while i < ts.len()
        invariant
            i <= ts.len(),
            string_views(out@) == deduped(string_views(ts@).take(i as int)),
        decreases ts.len() - i,
    {
        let k = normalize_key(ts[i].as_str());
        proof {
            assert(string_views(ts@).take(i + 1).drop_last() =~= string_views(ts@).take(i as int));
            assert(string_views(ts@).take(i + 1).last() == ts@[i as int]@);
        }
        if !contains_key(&out, &k) {
            out.push(ts[i].clone());
        }
        i += 1;
        proof {
            assert(string_views(out@) =~= deduped(string_views(ts@).take(i as int)));
        }
    }
    proof {
        assert(string_views(ts@).take(ts.len() as int) =~= string_views(ts@));
    }
    out
}

/// Joins tags with `", "` (the text written to a tag file).
pub fn render_tags(ts: &[String]) -> (out: String)
    ensures
        out@ == join(string_views(ts@), comma_space()),
{
    let mut out = String::new();
    let mut i: usize = 0;
    proof {
        assert(string_views(ts@).take(0) =~= Seq::<Seq<char>>::empty());
    }
    while i < ts.len()
        invariant
            i <= ts.len(),
            out@ == join(string_views(ts@).take(i as int), comma_space()),
        decreases ts.len() - i,
    {
        proof {
            assert(string_views(ts@).take(i + 1).drop_last() =~= string_views(ts@).take(i as int));
            assert(string_views(ts@).take(i + 1).last() == ts@[i as int]@);
        }
        if i > 0 {
            push_str(&mut out, ", ");
            proof {
                reveal_strlit(", ");
                assert(", "@ =~= comma_space());
            }
        } else {
            proof {
                assert(out@ =~= Seq::<char>::empty());
            }
        }
        push_str(&mut out, ts[i].as_str());
        i += 1;
        proof {
            if i == 1 {
                assert(out@ =~= join(string_views(ts@).take(i as int), comma_space()));
            }
        }
    }
    proof {
        assert(string_views(ts@).take(ts.len() as int) =~= string_views(ts@));
    }
    out
}

// ---------------------------------------------------------------------------
// Laws
// ---------------------------------------------------------------------------

proof fn lemma_key_trim(t: Seq<char>)
    ensures
        key(trim(t)) == key(t),
{
    lemma_trim_idempotent(t);
}

proof fn lemma_has_key_push(ts: Seq<Seq<char>>, x: Seq<char>, k: Seq<char>)
    ensures
        has_key(ts.push(x), k) == (has_key(ts, k) || key(x) == k),
{
    if has_key(ts, k) {
        let i = choose|i: int| 0 <= i < ts.len() && #[trigger] key(ts[i]) == k;
        assert(ts.push(x)[i] == ts[i]);
    }
    if key(x) == k {
        assert(ts.push(x)[ts.len() as int] == x);
    }
    if has_key(ts.push(x), k) {
        let i = choose|i: int| 0 <= i < ts.push(x).len() && #[trigger] key(ts.push(x)[i]) == k;
        if i < ts.len() {
            assert(ts.push(x)[i] == ts[i]);
        }
    }
}

/// Adding keeps what was there and leaves every non-blank tag present by key.
proof fn lemma_added_covers(existing: Seq<Seq<char>>, tags: Seq<Seq<char>>)
    ensures
        forall|k: Seq<char>| has_key(existing, k) ==> has_key(added(existing, tags), k),
        forall|j: int|
            0 <= j < tags.len() && trim(#[trigger] tags[j]).len() > 0 ==> has_key(
                added(existing, tags),
                key(tags[j]),
            ),
    decreases tags.len(),
{
    if tags.len() > 0 {
        let prev = tags.drop_last();
        lemma_added_covers(existing, prev);
        let a = added(existing, prev);
        let t = tags.last();
        lemma_key_trim(t);
        assert forall|k: Seq<char>| has_key(a, k) implies has_key(added(existing, tags), k) by {
            lemma_has_key_push(a, trim(t), k);
        }
        assert forall|k: Seq<char>| has_key(existing, k) implies has_key(
            added(existing, tags),
            k,
        ) by {
            lemma_has_key_push(a, trim(t), k);
        }
        assert forall|j: int|
            0 <= j < tags.len() && trim(#[trigger] tags[j]).len() > 0 implies has_key(
            added(existing, tags),
            key(tags[j]),
        ) by {
            lemma_has_key_push(a, trim(t), key(tags[j]));
            if j < tags.len() - 1 {
                assert(tags[j] == prev[j]);
            }
        }
    }
}

/// Adding tags whose keys are all present already changes nothing.
proof fn lemma_added_noop(existing: Seq<Seq<char>>, tags: Seq<Seq<char>>)
    requires
        forall|j: int|
            0 <= j < tags.len() && trim(#[trigger] tags[j]).len() > 0 ==> has_key(existing, key(tags[j])),
    ensures
        added(existing, tags) == existing,
    decreases tags.len(),
{
    if tags.len() > 0 {
        let prev = tags.drop_last();
        assert forall|j: int|
            0 <= j < prev.len() && trim(#[trigger] prev[j]).len() > 0 implies has_key(
            existing,
            key(prev[j]),
        ) by {
            assert(prev[j] == tags[j]);
        }
        lemma_added_noop(existing, prev);
        assert(trim(tags.last()).len() > 0 ==> has_key(existing, key(tags[tags.len() - 1])));
    }
}

/// Adding the same tags twice is the same as adding them once.
pub proof fn law_add_idempotent(existing: Seq<Seq<char>>, tags: Seq<Seq<char>>)
    ensures
        added(added(existing, tags), tags) == added(existing, tags),
{
    lemma_added_covers(existing, tags);
    lemma_added_noop(added(existing, tags), tags);
}

/// After adding, every non-blank requested tag is present by key, and every
/// tag that was there is still there, in front.
pub proof fn law_add_covers(existing: Seq<Seq<char>>, tags: Seq<Seq<char>>)
    ensures
        forall|j: int|
            0 <= j < tags.len() && trim(#[trigger] tags[j]).len() > 0 ==> has_key(
                added(existing, tags),
                key(tags[j]),
            ),
        added(existing, tags).len() >= existing.len(),
        added(existing, tags).take(existing.len() as int) == existing,
    decreases tags.len(),
{
    lemma_added_covers(existing, tags);
    if tags.len() > 0 {
        law_add_covers(existing, tags.drop_last());
        let a = added(existing, tags.drop_last());
        assert(a.push(trim(tags.last())).take(existing.len() as int) =~= a.take(
            existing.len() as int,
        ));
    }
}

/// No remaining tag has a removed key.
pub proof fn law_remove_excludes(existing: Seq<Seq<char>>, tags: Seq<Seq<char>>)
    ensures
        forall|i: int|
            0 <= i < removed(existing, tags).len() ==> !has_key(
                tags,
                key(#[trigger] removed(existing, tags)[i]),
            ),
    decreases existing.len(),
{
    if existing.len() > 0 {
        law_remove_excludes(existing.drop_last(), tags);
        let r = removed(existing.drop_last(), tags);
        if !has_key(tags, key(existing.last())) {
            let d = r.push(existing.last());
            assert forall|i: int| 0 <= i < d.len() implies !has_key(tags, key(#[trigger] d[i])) by {
                if i < r.len() {
                    assert(d[i] == r[i]);
                }
            }
        }
    }
}

/// Removing keeps every tag whose key is not removed, so removing twice is the
/// same as removing once.
pub proof fn law_remove_idempotent(existing: Seq<Seq<char>>, tags: Seq<Seq<char>>)
    ensures
        removed(removed(existing, tags), tags) == removed(existing, tags),
{
    law_remove_excludes(existing, tags);
    lemma_removed_noop(removed(existing, tags), tags);
}

proof fn lemma_removed_noop(ts: Seq<Seq<char>>, tags: Seq<Seq<char>>)
    requires
        forall|i: int| 0 <= i < ts.len() ==> !has_key(tags, key(#[trigger] ts[i])),
    ensures
        removed(ts, tags) == ts,
    decreases ts.len(),
{
    if ts.len() > 0 {
        let p = ts.drop_last();
        assert forall|i: int| 0 <= i < p.len() implies !has_key(tags, key(#[trigger] p[i])) by {
            assert(p[i] == ts[i]);
        }
        lemma_removed_noop(p, tags);
        assert(!has_key(tags, key(ts[ts.len() - 1])));
        assert(p.push(ts.last()) =~= ts);
    }
}

/// After de-duplication no two tags share a key.
pub proof fn law_dedup_unique(ts: Seq<Seq<char>>)
    ensures
        forall|i: int, j: int|
            0 <= i < j < deduped(ts).len() ==> key(#[trigger] deduped(ts)[i]) != key(
                #[trigger] deduped(ts)[j],
            ),
    decreases ts.len(),
{
    if ts.len() > 0 {
        law_dedup_unique(ts.drop_last());
        let r = deduped(ts.drop_last());
        if !has_key(r, key(ts.last())) {
            let d = r.push(ts.last());
            assert forall|i: int, j: int|
                0 <= i < j < d.len() implies key(#[trigger] d[i]) != key(#[trigger] d[j]) by {
                if j == r.len() {
                    assert(d[i] == r[i]);
                    if key(r[i]) == key(ts.last()) {
                        assert(has_key(r, key(ts.last())));
                    }
                } else {
                    assert(d[i] == r[i] && d[j] == r[j]);
                }
            }
        }
    }
}

proof fn lemma_dedup_noop(ts: Seq<Seq<char>>)
    requires
        forall|i: int, j: int| 0 <= i < j < ts.len() ==> key(#[trigger] ts[i]) != key(#[trigger] ts[j]),
    ensures
        deduped(ts) == ts,
    decreases ts.len(),
{
    if ts.len() > 0 {
        let p = ts.drop_last();
        assert forall|i: int, j: int| 0 <= i < j < p.len() implies key(#[trigger] p[i]) != key(
            #[trigger] p[j],
        ) by {
            assert(p[i] == ts[i] && p[j] == ts[j]);
        }
        lemma_dedup_noop(p);
        if has_key(p, key(ts.last())) {
            let i = choose|i: int| 0 <= i < p.len() && #[trigger] key(p[i]) == key(ts.last());
            assert(ts[i] == p[i]);
            assert(key(ts[i]) != key(ts[ts.len() - 1]));
        }
        assert(p.push(ts.last()) =~= ts);
    }
}

/// De-duplicating twice is the same as de-duplicating once.
pub proof fn law_dedup_idempotent(ts: Seq<Seq<char>>)
    ensures
        deduped(deduped(ts)) == deduped(ts),
{
    law_dedup_unique(ts);
    lemma_dedup_noop(deduped(ts));
}

proof fn lemma_split_concat(a: Seq<char>, b: Seq<char>, c: char)
    ensures
        split_on(a + seq![c] + b, c) == split_on(a, c) + split_on(b, c),
    decreases b.len(),
{
    lemma_split_nonempty(a, c);
    if b.len() == 0 {
        assert(a + seq![c] + b =~= a.push(c));
        assert((a + seq![c] + b).drop_last() =~= a);
        assert(split_on(b, c) =~= seq![Seq::<char>::empty()]);
        assert(split_on(a, c).push(Seq::<char>::empty()) =~= split_on(a, c) + split_on(b, c));
    } else {
        lemma_split_concat(a, b.drop_last(), c);
        lemma_split_nonempty(b.drop_last(), c);
        assert((a + seq![c] + b).drop_last() =~= a + seq![c] + b.drop_last());
        let l = split_on(a, c);
        let r = split_on(b.drop_last(), c);
        if b.last() == c {
            assert((l + r).push(Seq::<char>::empty()) =~= l + r.push(Seq::<char>::empty()));
        } else {
            assert((l + r).update((l + r).len() - 1, (l + r).last().push(b.last())) =~= l
                + r.update(r.len() - 1, r.last().push(b.last())));
        }
    }
}

proof fn lemma_split_single(t: Seq<char>, c: char)
    requires
        forall|j: int| 0 <= j < t.len() ==> t[j] != c,
    ensures
        split_on(t, c) == seq![t],
    decreases t.len(),
{
    if t.len() > 0 {
        lemma_split_single(t.drop_last(), c);
        assert(t.drop_last().push(t.last()) =~= t);
        assert(seq![t.drop_last()].update(0, t.drop_last().push(t.last())) =~= seq![t]);
    } else {
        assert(t =~= Seq::<char>::empty());
    }
}

proof fn lemma_trimmed_nonblank_concat(a: Seq<Seq<char>>, b: Seq<Seq<char>>)
    ensures
        trimmed_nonblank(a + b) == trimmed_nonblank(a) + trimmed_nonblank(b),
    decreases b.len(),
{
    if b.len() == 0 {
        assert(a + b =~= a);
        assert(trimmed_nonblank(a) + trimmed_nonblank(b) =~= trimmed_nonblank(a));
    } else {
        lemma_trimmed_nonblank_concat(a, b.drop_last());
        assert((a + b).drop_last() =~= a + b.drop_last());
        let t = trim(b.last());
        if t.len() > 0 {
            assert((trimmed_nonblank(a) + trimmed_nonblank(b.drop_last())).push(t)
                =~= trimmed_nonblank(a) + trimmed_nonblank(b.drop_last()).push(t));
        }
    }
}

proof fn lemma_trim_space_prefix(t: Seq<char>)
    requires
        clean_tag(t),
    ensures
        trim(seq![' '] + t) == t,
{
    let s = seq![' '] + t;
    assert(s.drop_first() =~= t);
    lemma_trim_shape(t);
    assert(!is_ws(t[0]));
    assert(crate::logic::text::lead_ws(t) == 0);
    assert(crate::logic::text::lead_ws(s) == 1);
    assert(s.skip(1) =~= t);
}

/// Rendering clean tags and reading the text back gives the same tags.
pub proof fn law_render_split_roundtrip(ts: Seq<Seq<char>>)
    requires
        forall|i: int| 0 <= i < ts.len() ==> clean_tag(#[trigger] ts[i]),
    ensures
        tokens(join(ts, comma_space())) == ts,
    decreases ts.len(),
{
    if ts.len() == 0 {
        assert(split_on(Seq::<char>::empty(), ',') =~= seq![Seq::<char>::empty()]);
        assert(seq![Seq::<char>::empty()].drop_last() =~= Seq::<Seq<char>>::empty());
        assert(trim(Seq::<char>::empty()) =~= Seq::<char>::empty());
        assert(trimmed_nonblank(Seq::<Seq<char>>::empty()) =~= Seq::<Seq<char>>::empty());
        assert(trimmed_nonblank(seq![Seq::<char>::empty()]) =~= Seq::<Seq<char>>::empty());
        assert(ts =~= Seq::<Seq<char>>::empty());
    } else if ts.len() == 1 {
        let t = ts[0];
        assert(clean_tag(t));
        lemma_split_single(t, ',');
        assert(seq![t].drop_last() =~= Seq::<Seq<char>>::empty());
        assert(seq![t].last() == t);
        assert(Seq::<Seq<char>>::empty().push(t) =~= ts);
        assert(trimmed_nonblank(Seq::<Seq<char>>::empty()) =~= Seq::<Seq<char>>::empty());
        assert(trimmed_nonblank(seq![t]) =~= seq![t]);
        assert(join(ts, comma_space()) == t);
    } else {
        let p = ts.drop_last();
        assert forall|i: int| 0 <= i < p.len() implies clean_tag(#[trigger] p[i]) by {
            assert(p[i] == ts[i]);
        }
        law_render_split_roundtrip(p);
        let a = join(p, comma_space());
        let t = ts.last();
        assert(clean_tag(ts[ts.len() - 1]));
        let b = seq![' '] + t;
        assert(a + comma_space() + t =~= a + seq![','] + b);
        lemma_split_concat(a, b, ',');
        assert forall|j: int| 0 <= j < b.len() implies b[j] != ',' by {
            if j > 0 {
                assert(b[j] == t[j - 1]);
            }
        }
        lemma_split_single(b, ',');
        lemma_trimmed_nonblank_concat(split_on(a, ','), seq![b]);
        lemma_trim_space_prefix(t);
        assert(seq![b].drop_last() =~= Seq::<Seq<char>>::empty());
        assert(seq![b].last() == b);
        assert(trimmed_nonblank(Seq::<Seq<char>>::empty()) =~= Seq::<Seq<char>>::empty());
        assert(trimmed_nonblank(seq![b]) =~= seq![t]);
        assert(p + seq![t] =~= ts);
        assert(join(ts, comma_space()) == a + comma_space() + t);
        assert(tokens(join(ts, comma_space())) == trimmed_nonblank(split_on(a, ',') + seq![b]));
    }
}

} // verus!
