//! The order of names: strings compared character by character, which is
//! the order `String` sorts by, and sorting a list of names by it.
use vstd::prelude::*;
use vstd::relations::{sorted_by, total_ordering};
use vstd::seq_lib::{lemma_sorted_unique, to_multiset_build, to_multiset_insert};
use crate::logic::text::{chars_of, string_of, string_views, views};

verus! {

/// Lexicographic order of strings by character code (the order of `String`).
pub open spec fn lex_lt(a: Seq<char>, b: Seq<char>) -> bool
    decreases a.len(),
{
    if a.len() == 0 {
        b.len() > 0
    } else if b.len() == 0 {
        false
    } else if a[0] != b[0] {
        a[0] < b[0]
    } else {
        lex_lt(a.drop_first(), b.drop_first())
    }
}


pub proof fn lemma_lex_irreflexive(a: Seq<char>)
    ensures
        !lex_lt(a, a),
    decreases a.len(),
{
    if a.len() > 0 {
        lemma_lex_irreflexive(a.drop_first());
    }
}

pub proof fn lemma_lex_total(a: Seq<char>, b: Seq<char>)
    requires
        a != b,
    ensures
        lex_lt(a, b) || lex_lt(b, a),
    decreases a.len(),
{
    if a.len() > 0 && b.len() > 0 && a[0] == b[0] {
        if a.drop_first() == b.drop_first() {
            assert(a =~= seq![a[0]] + a.drop_first());
            assert(b =~= seq![b[0]] + b.drop_first());
        }
        lemma_lex_total(a.drop_first(), b.drop_first());
    } else if a.len() == 0 && b.len() == 0 {
        assert(a =~= b);
    }
}

pub proof fn lemma_lex_asym(a: Seq<char>, b: Seq<char>)
    requires
        lex_lt(a, b),
    ensures
        !lex_lt(b, a),
    decreases a.len(),
{
    if a.len() > 0 && b.len() > 0 && a[0] == b[0] {
        lemma_lex_asym(a.drop_first(), b.drop_first());
    }
}

pub proof fn lemma_lex_trans(a: Seq<char>, b: Seq<char>, c: Seq<char>)
    requires
        lex_lt(a, b),
        lex_lt(b, c),
    ensures
        lex_lt(a, c),
    decreases a.len(),
{
    if a.len() > 0 && b.len() > 0 && c.len() > 0 && a[0] == b[0] && b[0] == c[0] {
        lemma_lex_trans(a.drop_first(), b.drop_first(), c.drop_first());
    }
}


/// `a < b` in the order of [`lex_lt`].
pub fn lex_less(a: &[char], b: &[char]) -> (r: bool)
    ensures
        r == lex_lt(a@, b@),
{
    let mut i: usize = 0;
    proof {
        assert(a@.skip(0) =~= a@);
        assert(b@.skip(0) =~= b@);
    }
    while i < a.len() && i < b.len()
        invariant
            i <= a.len(),
            i <= b.len(),
            lex_lt(a@, b@) == lex_lt(a@.skip(i as int), b@.skip(i as int)),
        decreases a.len() - i,
    {
        if a[i] != b[i] {
            proof {
                assert(a@.skip(i as int)[0] == a@[i as int]);
                assert(b@.skip(i as int)[0] == b@[i as int]);
            }
            return a[i] < b[i];
        }
        proof {
            assert(a@.skip(i as int).drop_first() =~= a@.skip(i + 1));
            assert(b@.skip(i as int).drop_first() =~= b@.skip(i + 1));
        }
        i += 1;
    }
    i == a.len() && i < b.len()
}


/// `a <= b` in the order of [`lex_lt`].
pub open spec fn lex_le(a: Seq<char>, b: Seq<char>) -> bool {
    !lex_lt(b, a)
}

/// The order of names as a relation.
pub open spec fn name_order() -> spec_fn(Seq<char>, Seq<char>) -> bool {
    |a: Seq<char>, b: Seq<char>| lex_le(a, b)
}

/// `names` in ascending order, equal names kept together.
pub open spec fn sorted_names(names: Seq<Seq<char>>) -> Seq<Seq<char>> {
    names.sort_by(name_order())
}


/// The order of names is a total order.
pub proof fn lemma_name_order_total()
    ensures
        total_ordering(name_order()),
{
    assert forall|x: Seq<char>| #[trigger] name_order()(x, x) by {
        lemma_lex_irreflexive(x);
    }
    assert forall|x: Seq<char>, y: Seq<char>|
        #[trigger] name_order()(x, y) && #[trigger] name_order()(y, x) implies x == y by {
        if x != y {
            lemma_lex_total(x, y);
        }
    }
    assert forall|x: Seq<char>, y: Seq<char>, z: Seq<char>|
        #[trigger] name_order()(x, y) && #[trigger] name_order()(y, z) implies name_order()(x, z) by {
        if lex_lt(z, x) {
            if x != y {
                lemma_lex_total(x, y);
                if lex_lt(x, y) {
                    lemma_lex_trans(z, x, y);
                }
            }
        }
    }
    assert forall|x: Seq<char>, y: Seq<char>|
        #[trigger] name_order()(x, y) || #[trigger] name_order()(y, x) by {
        if lex_lt(y, x) {
            lemma_lex_asym(y, x);
        }
    }
}

/// `a < b` and `b <= c` give `a < c`.
proof fn lemma_lt_le(a: Seq<char>, b: Seq<char>, c: Seq<char>)
    requires
        lex_lt(a, b),
        lex_le(b, c),
    ensures
        lex_lt(a, c),
{
    if a == c {
        lemma_lex_asym(a, b);
    } else {
        lemma_lex_total(a, c);
        if lex_lt(c, a) {
            lemma_lex_trans(c, a, b);
        }
    }
}

/// The position where `x` goes into the sorted `s` after the elements equal
/// to it: every element before it is at most `x`, every one from it on is
/// greater.
fn upper_bound(s: &Vec<Vec<char>>, x: &[char]) -> (p: usize)
    requires
        sorted_by(views(s@), name_order()),
    ensures
        p <= s.len(),
        forall|j: int| 0 <= j < p ==> lex_le(#[trigger] views(s@)[j], x@),
        forall|j: int| p <= j < s.len() ==> lex_lt(x@, #[trigger] views(s@)[j]),
{
    let ghost v = views(s@);
    let mut lo: usize = 0;
    let mut hi: usize = s.len();
    while lo < hi
        invariant
            lo <= hi <= s.len(),
            v == views(s@),
            sorted_by(v, name_order()),
            forall|j: int| 0 <= j < lo ==> lex_le(#[trigger] v[j], x@),
            forall|j: int| hi <= j < s.len() ==> lex_lt(x@, #[trigger] v[j]),
        decreases hi - lo,
    {
        let mid = lo + (hi - lo) / 2;
        proof {
            assert(v[mid as int] == s@[mid as int]@);
        }
        if lex_less(x, &s[mid]) {
            proof {
                assert forall|j: int| mid <= j < s.len() implies lex_lt(x@, #[trigger] v[j]) by {
                    if j != mid {
                        assert(name_order()(v[mid as int], v[j]));
                        lemma_lt_le(x@, v[mid as int], v[j]);
                    }
                }
            }
            hi = mid;
        } else {
            proof {
                lemma_name_order_total();
                assert forall|j: int| 0 <= j < mid + 1 implies lex_le(#[trigger] v[j], x@) by {
                    if j != mid {
                        assert(name_order()(v[j], v[mid as int]));
                        assert(name_order()(v[mid as int], x@));
                    }
                }
            }
            lo = mid + 1;
        }
    }
    lo
}

fn insert_sorted(sorted: &mut Vec<Vec<char>>, x: Vec<char>)
    requires
        sorted_by(views(old(sorted)@), name_order()),
    ensures
        sorted_by(views(final(sorted)@), name_order()),
        views(final(sorted)@).to_multiset() == views(old(sorted)@).to_multiset().insert(x@),
{
    let ghost s = views(sorted@);
    let p = upper_bound(sorted, &x);
    let ghost xv = x@;
    sorted.insert(p, x);
    proof {
        let t = s.insert(p as int, xv);
        assert(views(sorted@) =~= t);
        lemma_name_order_total();
        assert forall|i: int, j: int| 0 <= i < j < t.len() implies #[trigger] name_order()(
            t[i],
            t[j],
        ) by {
            if j < p {
                assert(name_order()(s[i], s[j]));
            } else if j == p {
                assert(lex_le(s[i], xv));
            } else if i < p {
                assert(name_order()(s[i], s[j - 1]));
            } else if i == p {
                assert(lex_lt(xv, s[j - 1]));
                lemma_lex_asym(xv, s[j - 1]);
            } else {
                assert(name_order()(s[i - 1], s[j - 1]));
            }
        }
        to_multiset_insert(s, p as int, xv);
    }
}

/// Sorts character sequences by the order of names.
pub fn sort_keys(keys: Vec<Vec<char>>) -> (out: Vec<Vec<char>>)
    ensures
        sorted_by(views(out@), name_order()),
        views(out@).to_multiset() == views(keys@).to_multiset(),
        views(out@).len() == keys@.len(),
{
    let ghost all = views(keys@);
    let mut out: Vec<Vec<char>> = Vec::new();
    let mut keys = keys;
    let mut i: usize = 0;
    proof {
        assert(views(out@) =~= Seq::<Seq<char>>::empty());
        assert(all.take(0) =~= Seq::<Seq<char>>::empty());
    }
    while i < keys.len()
        invariant
            i <= keys.len(),
            keys.len() == all.len(),
            forall|j: int| i <= j < all.len() ==> #[trigger] keys@[j]@ == all[j],
            sorted_by(views(out@), name_order()),
            views(out@).to_multiset() == all.take(i as int).to_multiset(),
        decreases keys.len() - i,
    {
        let mut k: Vec<char> = Vec::new();
        let ghost before = keys@;
        std::mem::swap(&mut k, &mut keys[i]);
        proof {
            assert(k@ == all[i as int]);
        }
        insert_sorted(&mut out, k);
        proof {
            assert(all.take(i + 1) =~= all.take(i as int).push(all[i as int]));
            to_multiset_build(all.take(i as int), all[i as int]);
        }
        i += 1;
    }
    proof {
        assert(all.take(keys.len() as int) =~= all);
        vstd::seq_lib::to_multiset_len(views(out@));
        vstd::seq_lib::to_multiset_len(all);
    }
    out
}

/// The names in ascending order (what `Vec<String>::sort` gives).
pub fn sort_names(names: &Vec<String>) -> (out: Vec<String>)
    ensures
        string_views(out@) == sorted_names(string_views(names@)),
{
    let ghost all = string_views(names@);
    let mut keys: Vec<Vec<char>> = Vec::new();
    let mut i: usize = 0;
    while i < names.len()
        invariant
            i <= names.len(),
            all == string_views(names@),
            views(keys@) == all.take(i as int),
        decreases names.len() - i,
    {
        let k = chars_of(names[i].as_str());
        let ghost before = keys@;
        keys.push(k);
        i += 1;
        proof {
            assert(keys@ =~= before.push(k));
            assert(views(keys@) =~= views(before).push(k@));
            assert(all[i - 1] == names@[i - 1]@);
            assert(views(keys@) =~= all.take(i as int));
        }
    }
    proof {
        assert(all.take(names.len() as int) =~= all);
    }
    let keys = sort_keys(keys);
    let mut out: Vec<String> = Vec::new();
    let mut j: usize = 0;
    while j < keys.len()
        invariant
            j <= keys.len(),
            string_views(out@) == views(keys@).take(j as int),
        decreases keys.len() - j,
    {
        let s = string_of(&keys[j]);
        let ghost before = out@;
        out.push(s);
        j += 1;
        proof {
            assert(out@ =~= before.push(s));
            assert(views(keys@)[j - 1] == keys@[j - 1]@);
            assert(views(keys@).take(j as int) =~= views(keys@).take(j - 1).push(keys@[j - 1]@));
            assert(string_views(out@) =~= string_views(before).push(s@));
        }
    }
    proof {
        assert(views(keys@).take(j as int) =~= views(keys@));
        lemma_name_order_total();
        all.lemma_sort_by_ensures(name_order());
        lemma_sorted_unique(views(keys@), sorted_names(all), name_order());
    }
    out
}

} // verus!
