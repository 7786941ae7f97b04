//! The model catalog and the rules around a model's files: validating the
//! catalog, where a variant's files live, whether they are present, reading
//! a tag definition, and the decisions of a download.
use vstd::prelude::*;
use vstd::seq_lib::*;
use vstd::set_lib::lemma_len_subset;
use crate::logic::naming::{dec, dec_chars, lemma_dec_digits};
use crate::logic::text::{
    chars_of, extend_chars, is_blank, is_ws, lead_ws, lemma_lead_ws_bound, lemma_trail_ws_bound,
    owned, str_eq, string_of, string_views, trail_ws, trim, trim_chars, trim_start,
};
use crate::error::{AppError, AppErrorKind, AppResult};
use crate::logic::paths::{join_with, joined, main_separator, platform_sep};
use crate::logic::tag_definition::{
    csv_definition, json_definition, parse_tag_definition_csv, parse_tag_definition_json,
    parsed_json, LabelView,
};
use crate::logic::text::{ascii_lower, concat2, last_index_of, lower_chars, rsplit_once};
use crate::models::{
    seq_views, ChannelOrder, DirEntryInfo, LabelDef, ModelFamily, ModelSource, ModelVariant,
    VariantPresence,
};
use crate::services::tag_file::file_name_start;

verus! {

// ---------------------------------------------------------------------------
// Catalog
// ---------------------------------------------------------------------------

/// The view of a variant: id, display name, family and source.
pub type VariantView = (Seq<char>, Seq<char>, ModelFamily, (Seq<char>, Seq<char>, Seq<Seq<char>>));

/// `id-n`.
pub open spec fn suffixed(id: Seq<char>, n: nat) -> Seq<char> {
    id + seq!['-'] + dec(n)
}

/// The first `m >= n` for which `id-m` is not among `used`, looking no
/// further than `used.len() + 2` (a free one always comes by then).
pub open spec fn first_free(used: Seq<Seq<char>>, id: Seq<char>, n: nat) -> nat
    decreases used.len() + 2 - n,
{
    if n >= used.len() + 2 || !used.contains(suffixed(id, n)) {
        n
    } else {
        first_free(used, id, n + 1)
    }
}

/// `id` itself when unused, otherwise `id-n` for the first free `n >= 2`.
pub open spec fn unique_id(used: Seq<Seq<char>>, id: Seq<char>) -> Seq<char> {
    if used.contains(id) {
        suffixed(id, first_free(used, id, 2))
    } else {
        id
    }
}

/// The ids of variants.
pub open spec fn ids_of(vs: Seq<VariantView>) -> Seq<Seq<char>> {
    vs.map_values(|v: VariantView| v.0)
}

/// A candidate is excluded when its id or its display name is blank.
pub open spec fn lacks_required(v: VariantView) -> bool {
    is_blank(v.0) || is_blank(v.1)
}

/// The catalog made of `cands`: candidates lacking a required field go to
/// the second list; the others are registered in order, each under the id
/// [`unique_id`] gives against the ids registered before it.
pub open spec fn validated(cands: Seq<VariantView>) -> (Seq<VariantView>, Seq<VariantView>)
    decreases cands.len(),
{
    if cands.len() == 0 {
        (Seq::empty(), Seq::empty())
    } else {
        let r = validated(cands.drop_last());
        let x = cands.last();
        if lacks_required(x) {
            (r.0, r.1.push(x))
        } else {
            (r.0.push((unique_id(ids_of(r.0), x.0), x.1, x.2, x.3)), r.1)
        }
    }
}

proof fn lemma_suffixed_injective(id: Seq<char>, a: nat, b: nat)
    requires
        suffixed(id, a) == suffixed(id, b),
    ensures
        a == b,
{
    lemma_dec_digits(a);
    lemma_dec_digits(b);
    let k = id.len() + 1int;
    assert(suffixed(id, a).skip(k) =~= dec(a));
    assert(suffixed(id, b).skip(k) =~= dec(b));
}

proof fn lemma_first_free(used: Seq<Seq<char>>, id: Seq<char>, n: nat)
    requires
        n <= used.len() + 2,
    ensures
        n <= first_free(used, id, n) <= used.len() + 2,
        forall|m: nat| n <= m < first_free(used, id, n) ==> used.contains(#[trigger] suffixed(id, m)),
        first_free(used, id, n) < used.len() + 2 ==> !used.contains(
            suffixed(id, first_free(used, id, n)),
        ),
    decreases used.len() + 2 - n,
{
    if n < used.len() + 2 && used.contains(suffixed(id, n)) {
        lemma_first_free(used, id, n + 1);
    }
}

/// Pigeonhole: `used` cannot hold `id` and all of `id-2` to `id-(len+1)`.
proof fn lemma_full_run_too_long(used: Seq<Seq<char>>, id: Seq<char>)
    requires
        used.contains(id),
        forall|m: nat| 2 <= m < used.len() + 2 ==> used.contains(#[trigger] suffixed(id, m)),
    ensures
        used.len() + 1 <= used.len(),
{
    let n = used.len();
    let w = Seq::new(n + 1, |i: int| if i == 0 { id } else { suffixed(id, (i + 1) as nat) });
    assert forall|i: int, j: int| 0 <= i < j < w.len() implies w[i] != w[j] by {
        if i == 0 {
            lemma_dec_digits((j + 1) as nat);
            assert(w[j].len() > id.len());
        } else if w[i] == w[j] {
            lemma_suffixed_injective(id, (i + 1) as nat, (j + 1) as nat);
        }
    }
    assert(w.no_duplicates());
    w.unique_seq_to_set();
    used.lemma_cardinality_of_set();
    assert(w.to_set().subset_of(used.to_set())) by {
        assert forall|x: Seq<char>| w.to_set().contains(x) implies used.to_set().contains(x) by {
            let i = choose|i: int| 0 <= i < w.len() && w[i] == x;
            if i > 0 {
                assert(used.contains(suffixed(id, (i + 1) as nat)));
            }
        }
    }
    lemma_len_subset(w.to_set(), used.to_set());
}

/// The id [`unique_id`] picks is not among `used`.
proof fn lemma_unique_id_fresh(used: Seq<Seq<char>>, id: Seq<char>)
    ensures
        !used.contains(unique_id(used, id)),
{
    if used.contains(id) {
        lemma_first_free(used, id, 2);
        if first_free(used, id, 2) == used.len() + 2 {
            lemma_full_run_too_long(used, id);
        }
    }
}

proof fn lemma_nonblank_end(s: Seq<char>)
    requires
        s.len() > 0,
        !is_ws(s.last()),
    ensures
        !is_blank(s),
{
    lemma_lead_ws_bound(s);
    if lead_ws(s) == s.len() {
        lemma_all_ws_prefix(s, s.len() as int);
        assert(is_ws(s[s.len() - 1]));
    }
    let t = trim_start(s);
    assert(t.len() > 0);
    assert(t.last() == s.last());
    assert(trail_ws(t) == 0);
    assert(t.take(t.len() as int) =~= t);
}

proof fn lemma_all_ws_prefix(s: Seq<char>, k: int)
    requires
        0 <= k <= lead_ws(s),
        lead_ws(s) <= s.len(),
    ensures
        forall|i: int| 0 <= i < k ==> is_ws(#[trigger] s[i]),
    decreases s.len(),
{
    if k > 0 {
        lemma_lead_ws_bound(s.drop_first());
        lemma_all_ws_prefix(s.drop_first(), k - 1);
        assert forall|i: int| 0 <= i < k implies is_ws(#[trigger] s[i]) by {
            if i > 0 {
                assert(s[i] == s.drop_first()[i - 1]);
            }
        }
    }
}

/// Registered and excluded variants together are as many as the
/// candidates.
pub proof fn law_catalog_partition(cands: Seq<VariantView>)
    ensures
        validated(cands).0.len() + validated(cands).1.len() == cands.len(),
    decreases cands.len(),
{
    if cands.len() > 0 {
        law_catalog_partition(cands.drop_last());
    }
}

/// Every registered variant has a non-blank id and display name; every
/// excluded one lacks one of them.
pub proof fn law_catalog_required_fields(cands: Seq<VariantView>)
    ensures
        forall|i: int|
            0 <= i < validated(cands).0.len() ==> !lacks_required(#[trigger] validated(cands).0[i]),
        forall|i: int|
            0 <= i < validated(cands).1.len() ==> lacks_required(#[trigger] validated(cands).1[i]),
    decreases cands.len(),
{
    if cands.len() > 0 {
        law_catalog_required_fields(cands.drop_last());
        let r = validated(cands.drop_last());
        let x = cands.last();
        if !lacks_required(x) {
            let id = unique_id(ids_of(r.0), x.0);
            if id != x.0 {
                let n = first_free(ids_of(r.0), x.0, 2);
                lemma_dec_digits(n);
                let d = dec(n);
                assert(id.last() == d.last());
                assert('0' <= d.last() && d.last() <= '9');
                lemma_nonblank_end(id);
            }
            let v = validated(cands);
            assert(v.0 == r.0.push((id, x.1, x.2, x.3)));
        }
    }
}

/// What a variant is apart from its id.
pub open spec fn without_id(v: VariantView) -> (Seq<char>, ModelFamily, (Seq<char>, Seq<char>, Seq<Seq<char>>)) {
    (v.1, v.2, v.3)
}

/// The catalog keeps the candidates' order: the excluded variants are the
/// candidates lacking a required field, as they were; the registered ones
/// are the others, in their order, each with every field but its id as it
/// was.
pub proof fn law_catalog_keeps_order(cands: Seq<VariantView>)
    ensures
        validated(cands).1 == cands.filter(|v: VariantView| lacks_required(v)),
        validated(cands).0.map_values(|v: VariantView| without_id(v)) == cands.filter(
            |v: VariantView| !lacks_required(v),
        ).map_values(|v: VariantView| without_id(v)),
    decreases cands.len(),
{
    reveal_with_fuel(Seq::filter, 2);
    if cands.len() > 0 {
        law_catalog_keeps_order(cands.drop_last());
        let r = validated(cands.drop_last());
        let x = cands.last();
        let keep = |v: VariantView| !lacks_required(v);
        let f = cands.drop_last().filter(keep);
        if !lacks_required(x) {
            let y = (unique_id(ids_of(r.0), x.0), x.1, x.2, x.3);
            assert(validated(cands).0 == r.0.push(y));
            assert(cands.filter(keep) == f.push(x));
            assert(r.0.push(y).map_values(|v: VariantView| without_id(v)) =~= r.0.map_values(
                |v: VariantView| without_id(v),
            ).push(without_id(y)));
            assert(f.push(x).map_values(|v: VariantView| without_id(v)) =~= f.map_values(
                |v: VariantView| without_id(v),
            ).push(without_id(x)));
        } else {
            assert(cands.filter(keep) == f);
        }
    }
}

/// No two registered variants share an id.
pub proof fn law_catalog_ids_unique(cands: Seq<VariantView>)
    ensures
        ids_of(validated(cands).0).no_duplicates(),
    decreases cands.len(),
{
    if cands.len() > 0 {
        law_catalog_ids_unique(cands.drop_last());
        let r = validated(cands.drop_last());
        let x = cands.last();
        if !lacks_required(x) {
            let used = ids_of(r.0);
            let id = unique_id(used, x.0);
            lemma_unique_id_fresh(used, id);
            lemma_unique_id_fresh(used, x.0);
            let ids = ids_of(validated(cands).0);
            assert(ids =~= used.push(id));
            assert forall|i: int, j: int| 0 <= i < ids.len() && 0 <= j < ids.len() && i != j implies ids[i]
                != ids[j] by {
                if j == ids.len() - 1 {
                    assert(used.contains(ids[i]));
                } else if i == ids.len() - 1 {
                    assert(used.contains(ids[j]));
                }
            }
        }
    }
}

fn contains_str(v: &Vec<String>, s: &String) -> (r: bool)
    ensures
        r == string_views(v@).contains(s@),
{
    let mut i: usize = 0;
    while i < v.len()
        invariant
            i <= v.len(),
            forall|j: int| 0 <= j < i ==> string_views(v@)[j] != s@,
        decreases v.len() - i,
    {
        if str_eq(v[i].as_str(), s.as_str()) {
            proof {
                assert(string_views(v@)[i as int] == s@);
            }
            return true;
        }
        i += 1;
    }
    false
}

fn suffixed_id(base: &String, n: u64) -> (out: String)
    ensures
        out@ == suffixed(base@, n as nat),
{
    let mut cs = chars_of(base.as_str());
    cs.push('-');
    let d = dec_chars(n);
    extend_chars(&mut cs, &d);
    proof {
        assert(cs@ =~= suffixed(base@, n as nat));
    }
    string_of(&cs)
}

fn blank(s: &String) -> (r: bool)
    ensures
        r == is_blank(s@),
{
    let cs = chars_of(s.as_str());
    let t = trim_chars(&cs);
    t.len() == 0
}

/// Splits the candidates into the registered catalog and the excluded
/// ones (see [`validated`]).
pub fn validate_catalog(candidates: Vec<ModelVariant>) -> (r: (Vec<ModelVariant>, Vec<ModelVariant>))
    requires
        candidates.len() + 2 <= u64::MAX,
    ensures
        (crate::models::seq_views(r.0@), crate::models::seq_views(r.1@)) == validated(
            crate::models::seq_views(candidates@),
        ),
{
    let ghost cv = crate::models::seq_views(candidates@);
    let mut registered: Vec<ModelVariant> = Vec::new();
    let mut excluded: Vec<ModelVariant> = Vec::new();
    let mut used: Vec<String> = Vec::new();
    let mut i: usize = 0;
    proof {
        assert(cv.take(0) =~= Seq::<VariantView>::empty());
    }
    while i < candidates.len()
        invariant
            i <= candidates.len(),
            candidates.len() + 2 <= u64::MAX,
            cv == crate::models::seq_views(candidates@),
            (crate::models::seq_views(registered@), crate::models::seq_views(excluded@))
                == validated(cv.take(i as int)),
            string_views(used@) == ids_of(crate::models::seq_views(registered@)),
            registered.len() <= i,
        decreases candidates.len() - i,
    {
        proof {
            assert(cv.take(i + 1).drop_last() =~= cv.take(i as int));
            assert(cv.take(i + 1).last() == candidates@[i as int]@);
        }
        let c = candidates[i].duplicate();
        if blank(&c.id) || blank(&c.display_name) {
            let ghost before = excluded@;
            excluded.push(c);
            proof {
                assert(crate::models::seq_views(excluded@) =~= crate::models::seq_views(before).push(
                    candidates@[i as int]@,
                ));
            }
        } else {
            let ghost usedv = string_views(used@);
            let mut id = c.id.clone();
            if contains_str(&used, &c.id) {
                let mut suffix: u64 = 2;
                let mut unique = suffixed_id(&c.id, suffix);
                proof {
                    lemma_first_free(usedv, c.id@, 2);
                }
                while contains_str(&used, &unique)
                    invariant
                        2 <= suffix <= usedv.len() + 2,
                        usedv == string_views(used@),
                        usedv.len() == registered.len(),
                        registered.len() <= candidates.len(),
                        candidates.len() + 2 <= u64::MAX,
                        usedv.contains(c.id@),
                        unique@ == suffixed(c.id@, suffix as nat),
                        first_free(usedv, c.id@, 2) == first_free(usedv, c.id@, suffix as nat),
                        forall|m: nat| 2 <= m < suffix ==> usedv.contains(#[trigger] suffixed(c.id@, m)),
                    decreases usedv.len() + 2 - suffix,
                {
                    proof {
                        if suffix == usedv.len() + 2 {
                            lemma_full_run_too_long(usedv, c.id@);
                        }
                    }
                    suffix += 1;
                    unique = suffixed_id(&c.id, suffix);
                }
                id = unique;
            }
            let ghost before = registered@;
            let ghost used_before = used@;
            let ghost idv = id@;
            let v = ModelVariant {
                id: id.clone(),
                display_name: c.display_name,
                family: c.family,
                source: c.source,
            };
            registered.push(v);
            used.push(id);
            proof {
                assert(crate::models::seq_views(registered@) =~= crate::models::seq_views(
                    before,
                ).push((unique_id(usedv, c.id@), c.display_name@, c.family, c.source@)));
                assert(string_views(used@) =~= string_views(used_before).push(idv));
                assert(ids_of(crate::models::seq_views(registered@)) =~= ids_of(
                    crate::models::seq_views(before),
                ).push(idv));
            }
        }
        i += 1;
    }
    proof {
        assert(cv.take(candidates.len() as int) =~= cv);
    }
    (registered, excluded)
}

/// A WD14 variant: `model.onnx` and `selected_tags.csv` in its repository.
pub open spec fn wd14_view(id: Seq<char>, display: Seq<char>, repo: Seq<char>) -> VariantView {
    (id, display, ModelFamily::Wd14, (repo, "model.onnx"@, seq!["selected_tags.csv"@]))
}

/// An ML-Danbooru variant: one `.onnx` of the shared repository, with
/// `tags.csv` or else `tags.json`.
pub open spec fn ml_danbooru_view(id: Seq<char>, display: Seq<char>, onnx: Seq<char>) -> VariantView {
    (
        id,
        display,
        ModelFamily::MlDanbooru,
        ("deepghs/ml-danbooru-onnx"@, onnx, seq!["tags.csv"@, "tags.json"@]),
    )
}

/// The built-in candidates: five WD14 v3 variants and two ML-Danbooru
/// variants of one repository.
pub open spec fn builtin_candidate_views() -> Seq<VariantView> {
    seq![
        wd14_view("wd14-vit-v3"@, "WD14 ViT v3"@, "SmilingWolf/wd-vit-tagger-v3"@),
        wd14_view("wd14-convnext-v3"@, "WD14 ConvNeXT v3"@, "SmilingWolf/wd-convnext-tagger-v3"@),
        wd14_view("wd14-swinv2-v3"@, "WD14 SwinV2 v3"@, "SmilingWolf/wd-swinv2-tagger-v3"@),
        wd14_view(
            "wd14-vit-large-v3"@,
            "WD14 ViT Large v3"@,
            "SmilingWolf/wd-vit-large-tagger-v3"@,
        ),
        wd14_view(
            "wd14-eva02-large-v3"@,
            "WD14 EVA02 Large v3"@,
            "SmilingWolf/wd-eva02-large-tagger-v3"@,
        ),
        ml_danbooru_view(
            "ml-danbooru-caformer-dec-5-97527"@,
            "ML-Danbooru CAFormer"@,
            "ml_caformer_m36_dec-5-97527.onnx"@,
        ),
        ml_danbooru_view(
            "ml-danbooru-tresnet-d-6-30000"@,
            "ML-Danbooru TResNet-D"@,
            "TResnet-D-FLq_ema_6-30000.onnx"@,
        ),
    ]
}

/// A valid candidate whose id is not yet taken is registered as it is.
proof fn lemma_register_fresh(cands: Seq<VariantView>, x: VariantView)
    requires
        validated(cands) == (cands, Seq::<VariantView>::empty()),
        !lacks_required(x),
        !ids_of(cands).contains(x.0),
    ensures
        validated(cands.push(x)) == (cands.push(x), Seq::<VariantView>::empty()),
{
    assert(cands.push(x).drop_last() =~= cands);
    assert(unique_id(ids_of(cands), x.0) == x.0);
}

/// A candidate with a non-blank id and display name of its own length among
/// the ids before it is registered unchanged.
proof fn lemma_builtin_step(c: Seq<VariantView>, i: int)
    requires
        0 <= i < c.len(),
        validated(c.take(i)) == (c.take(i), Seq::<VariantView>::empty()),
        c[i].0.len() > 0,
        !is_ws(c[i].0.last()),
        c[i].1.len() > 0,
        !is_ws(c[i].1.last()),
        forall|j: int| 0 <= j < i ==> (#[trigger] c[j]).0.len() != c[i].0.len(),
    ensures
        validated(c.take(i + 1)) == (c.take(i + 1), Seq::<VariantView>::empty()),
{
    lemma_nonblank_end(c[i].0);
    lemma_nonblank_end(c[i].1);
    let p = c.take(i);
    assert(c.take(i + 1) =~= p.push(c[i]));
    assert forall|j: int| 0 <= j < ids_of(p).len() implies ids_of(p)[j] != c[i].0 by {
        assert(ids_of(p)[j] == c[j].0);
    }
    lemma_register_fresh(p, c[i]);
}

/// Validation leaves the built-in candidates as they are: none is excluded
/// and each keeps its id, so the built-in catalog is the candidates as
/// written.
pub proof fn law_builtin_catalog_unchanged()
    ensures
        validated(builtin_candidate_views()) == (builtin_candidate_views(), Seq::<VariantView>::empty()),
{
    reveal_strlit("wd14-vit-v3");
    reveal_strlit("wd14-convnext-v3");
    reveal_strlit("wd14-swinv2-v3");
    reveal_strlit("wd14-vit-large-v3");
    reveal_strlit("wd14-eva02-large-v3");
    reveal_strlit("ml-danbooru-caformer-dec-5-97527");
    reveal_strlit("ml-danbooru-tresnet-d-6-30000");
    reveal_strlit("WD14 ViT v3");
    reveal_strlit("WD14 ConvNeXT v3");
    reveal_strlit("WD14 SwinV2 v3");
    reveal_strlit("WD14 ViT Large v3");
    reveal_strlit("WD14 EVA02 Large v3");
    reveal_strlit("ML-Danbooru CAFormer");
    reveal_strlit("ML-Danbooru TResNet-D");
    let c = builtin_candidate_views();
    assert(c.take(0) =~= Seq::<VariantView>::empty());
    assert(validated(c.take(0)) == (c.take(0), Seq::<VariantView>::empty()));
    lemma_builtin_step(c, 0);
    lemma_builtin_step(c, 1);
    lemma_builtin_step(c, 2);
    lemma_builtin_step(c, 3);
    lemma_builtin_step(c, 4);
    lemma_builtin_step(c, 5);
    lemma_builtin_step(c, 6);
    assert(c.take(7) =~= c);
}

fn wd14(id: &str, display: &str, repo: &str) -> (v: ModelVariant)
    ensures
        v@ == wd14_view(id@, display@, repo@),
{
    let mut tag_files: Vec<String> = Vec::new();
    tag_files.push(owned("selected_tags.csv"));
    proof {
        assert(string_views(tag_files@) =~= seq!["selected_tags.csv"@]);
    }
    ModelVariant {
        id: owned(id),
        display_name: owned(display),
        family: ModelFamily::Wd14,
        source: ModelSource { repo: owned(repo), onnx_file: owned("model.onnx"), tag_files },
    }
}

fn ml_danbooru(id: &str, display: &str, onnx: &str) -> (v: ModelVariant)
    ensures
        v@ == ml_danbooru_view(id@, display@, onnx@),
{
    let mut tag_files: Vec<String> = Vec::new();
    tag_files.push(owned("tags.csv"));
    tag_files.push(owned("tags.json"));
    proof {
        assert(string_views(tag_files@) =~= seq!["tags.csv"@, "tags.json"@]);
    }
    ModelVariant {
        id: owned(id),
        display_name: owned(display),
        family: ModelFamily::MlDanbooru,
        source: ModelSource {
            repo: owned("deepghs/ml-danbooru-onnx"),
            onnx_file: owned(onnx),
            tag_files,
        },
    }
}

/// The built-in candidates (see [`builtin_candidate_views`]), before
/// validation.
pub fn builtin_candidates() -> (r: Vec<ModelVariant>)
    ensures
        crate::models::seq_views(r@) == builtin_candidate_views(),
{
    let mut r: Vec<ModelVariant> = Vec::new();
    r.push(wd14("wd14-vit-v3", "WD14 ViT v3", "SmilingWolf/wd-vit-tagger-v3"));
    r.push(wd14("wd14-convnext-v3", "WD14 ConvNeXT v3", "SmilingWolf/wd-convnext-tagger-v3"));
    r.push(wd14("wd14-swinv2-v3", "WD14 SwinV2 v3", "SmilingWolf/wd-swinv2-tagger-v3"));
    r.push(wd14("wd14-vit-large-v3", "WD14 ViT Large v3", "SmilingWolf/wd-vit-large-tagger-v3"));
    r.push(
        wd14("wd14-eva02-large-v3", "WD14 EVA02 Large v3", "SmilingWolf/wd-eva02-large-tagger-v3"),
    );
    r.push(
        ml_danbooru(
            "ml-danbooru-caformer-dec-5-97527",
            "ML-Danbooru CAFormer",
            "ml_caformer_m36_dec-5-97527.onnx",
        ),
    );
    r.push(
        ml_danbooru(
            "ml-danbooru-tresnet-d-6-30000",
            "ML-Danbooru TResNet-D",
            "TResnet-D-FLq_ema_6-30000.onnx",
        ),
    );
    proof {
        assert(crate::models::seq_views(r@) =~= builtin_candidate_views());
    }
    r
}

/// The built-in catalog: the built-in candidates, validated.
pub fn builtin_catalog() -> (r: Vec<ModelVariant>)
    ensures
        crate::models::seq_views(r@) == validated(builtin_candidate_views()).0,
{
    let c = builtin_candidates();
    proof {
        assert(c@.len() == builtin_candidate_views().len());
    }
    let (registered, _excluded) = validate_catalog(c);
    registered
}

// ---------------------------------------------------------------------------
// Model folders
// ---------------------------------------------------------------------------

/// `models`, the folder of all variants under the base folder.
pub open spec fn models_dir_name() -> Seq<char> {
    seq!['m', 'o', 'd', 'e', 'l', 's']
}

/// The folder holding every variant: `models` under `base_dir`.
pub fn resolve_model_dir(base_dir: &str) -> (out: String)
    ensures
        exists|sep: char|
            #![trigger platform_sep(sep)]
            platform_sep(sep) && out@ == joined(base_dir@, models_dir_name(), sep),
{
    let sep = main_separator();
    let out = join_with(base_dir, "models", sep);
    proof {
        reveal_strlit("models");
        assert("models"@ =~= models_dir_name());
        assert(platform_sep(sep));
    }
    out
}

/// The folder of one variant: its id under the model folder.
pub fn variant_dir(base_dir: &str, variant: &ModelVariant) -> (out: String)
    ensures
        exists|sep: char|
            #![trigger platform_sep(sep)]
            platform_sep(sep) && out@ == joined(
                joined(base_dir@, models_dir_name(), sep),
                variant.id@,
                sep,
            ),
{
    let sep = main_separator();
    let models = join_with(base_dir, "models", sep);
    let out = join_with(models.as_str(), variant.id.as_str(), sep);
    proof {
        reveal_strlit("models");
        assert("models"@ =~= models_dir_name());
        assert(platform_sep(sep));
    }
    out
}

/// A joined path starts with the folder it was joined onto.
pub proof fn law_joined_under_base(base: Seq<char>, name: Seq<char>, sep: char)
    ensures
        joined(base, name, sep).len() >= base.len(),
        joined(base, name, sep).take(base.len() as int) == base,
{
    assert(joined(base, name, sep).take(base.len() as int) =~= base);
}

/// Distinct names give distinct joined paths under one folder; in
/// particular distinct variant ids give distinct variant folders.
pub proof fn law_distinct_names_distinct_paths(base: Seq<char>, a: Seq<char>, b: Seq<char>, sep: char)
    requires
        a != b,
    ensures
        joined(base, a, sep) != joined(base, b, sep),
{
    let pa = joined(base, a, sep);
    let pb = joined(base, b, sep);
    let k: int = if base.len() == 0 {
        0
    } else if crate::logic::paths::is_separator(base.last(), sep) {
        base.len() as int
    } else {
        base.len() + 1int
    };
    if pa == pb {
        assert(pa.skip(k) =~= a);
        assert(pb.skip(k) =~= b);
    }
}

// ---------------------------------------------------------------------------
// Presence of a variant's files
// ---------------------------------------------------------------------------

/// `Path::extension` of a file name: the text after its last `.`, none when
/// there is no `.` or the only one starts the name.
pub open spec fn path_ext(name: Seq<char>) -> Option<Seq<char>> {
    let d = last_index_of(name, '.');
    if d <= 0 {
        None
    } else {
        Some(name.skip(d + 1))
    }
}

/// A regular file whose extension, lower-cased, is `ext`.
pub open spec fn has_ext(e: DirEntryInfo, ext: Seq<char>) -> bool {
    e.is_file && (path_ext(e.name@) matches Some(x) && ascii_lower(x) == ext)
}

/// Index of the first entry that is a file with extension `ext`.
pub open spec fn first_with_ext(entries: Seq<DirEntryInfo>, ext: Seq<char>) -> Option<int>
    decreases entries.len(),
{
    if entries.len() == 0 {
        None
    } else {
        match first_with_ext(entries.drop_last(), ext) {
            Some(i) => Some(i),
            None => if has_ext(entries.last(), ext) {
                Some(entries.len() - 1)
            } else {
                None
            },
        }
    }
}

/// `onnx`.
pub open spec fn onnx_ext() -> Seq<char> {
    seq!['o', 'n', 'n', 'x']
}

/// `csv`.
pub open spec fn csv_ext() -> Seq<char> {
    seq!['c', 's', 'v']
}

/// `json`.
pub open spec fn json_ext() -> Seq<char> {
    seq!['j', 's', 'o', 'n']
}

/// A variant folder is ready when it holds an `.onnx` file and a tag
/// definition (`.csv` or `.json`), extensions in any case.
pub open spec fn variant_files_present(entries: Seq<DirEntryInfo>) -> bool {
    &&& first_with_ext(entries, onnx_ext()) is Some
    &&& (first_with_ext(entries, csv_ext()) is Some || first_with_ext(entries, json_ext()) is Some)
}

/// The extension of a file name, lower-cased (see [`path_ext`]).
fn lower_ext(name: &str) -> (r: Option<Vec<char>>)
    ensures
        match r {
            Some(x) => path_ext(name@) matches Some(e) && x@ == ascii_lower(e),
            None => path_ext(name@) is None,
        },
{
    let cs = chars_of(name);
    match crate::logic::text::find_last(&cs, '.') {
        Some(d) => {
            if d == 0 {
                None
            } else {
                let e = crate::logic::text::slice_chars(&cs, d + 1, cs.len());
                proof {
                    assert(e@ =~= cs@.skip(d + 1));
                }
                Some(lower_chars(&e))
            }
        },
        None => None,
    }
}

fn entry_has_ext(e: &DirEntryInfo, ext: &str) -> (r: bool)
    ensures
        r == has_ext(*e, ext@),
{
    if !e.is_file {
        return false;
    }
    match lower_ext(e.name.as_str()) {
        Some(x) => crate::logic::text::chars_eq_str(&x, ext),
        None => false,
    }
}

/// The index of the first file with extension `ext` (see [`first_with_ext`]).
fn find_with_ext(entries: &Vec<DirEntryInfo>, ext: &str) -> (r: Option<usize>)
    ensures
        match r {
            Some(i) => first_with_ext(entries@, ext@) == Some(i as int) && i < entries.len(),
            None => first_with_ext(entries@, ext@) is None,
        },
{
    let mut i: usize = 0;
    proof {
        assert(entries@.take(0) =~= Seq::<DirEntryInfo>::empty());
    }
    while i < entries.len()
        invariant
            i <= entries.len(),
            first_with_ext(entries@.take(i as int), ext@) is None,
        decreases entries.len() - i,
    {
        proof {
            assert(entries@.take(i + 1).drop_last() =~= entries@.take(i as int));
            assert(entries@.take(i + 1).last() == entries@[i as int]);
        }
        if entry_has_ext(&entries[i], ext) {
            proof {
                lemma_first_with_ext_prefix(entries@, ext@, i + 1);
            }
            return Some(i);
        }
        i += 1;
    }
    proof {
        assert(entries@.take(entries.len() as int) =~= entries@);
    }
    None
}

proof fn lemma_first_with_ext_prefix(entries: Seq<DirEntryInfo>, ext: Seq<char>, k: int)
    requires
        0 <= k <= entries.len(),
        first_with_ext(entries.take(k), ext) is Some,
    ensures
        first_with_ext(entries, ext) == first_with_ext(entries.take(k), ext),
    decreases entries.len() - k,
{
    if k < entries.len() {
        assert(entries.take(k + 1).drop_last() =~= entries.take(k));
        lemma_first_with_ext_prefix(entries, ext, k + 1);
    } else {
        assert(entries.take(k) =~= entries);
    }
}

/// Some entry of `entries` is a file with extension `ext` (in any case).
pub open spec fn holds_ext(entries: Seq<DirEntryInfo>, ext: Seq<char>) -> bool {
    exists|i: int| 0 <= i < entries.len() && has_ext(#[trigger] entries[i], ext)
}

proof fn lemma_first_with_ext(entries: Seq<DirEntryInfo>, ext: Seq<char>)
    ensures
        first_with_ext(entries, ext) is Some <==> holds_ext(entries, ext),
    decreases entries.len(),
{
    if entries.len() > 0 {
        let p = entries.drop_last();
        lemma_first_with_ext(p, ext);
        if holds_ext(p, ext) {
            let i = choose|i: int| 0 <= i < p.len() && has_ext(#[trigger] p[i], ext);
            assert(entries[i] == p[i]);
        }
        if holds_ext(entries, ext) && !holds_ext(p, ext) {
            let i = choose|i: int| 0 <= i < entries.len() && has_ext(#[trigger] entries[i], ext);
            if i < p.len() {
                assert(entries[i] == p[i]);
            }
        }
        if has_ext(entries.last(), ext) {
            assert(has_ext(entries[entries.len() - 1], ext));
        }
    }
}

/// A variant folder counts as present exactly when it holds a file with
/// extension `onnx` and a file with extension `csv` or `json`, extensions
/// in any case.
pub proof fn law_presence_exactly(entries: Seq<DirEntryInfo>)
    ensures
        variant_files_present(entries) <==> (holds_ext(entries, onnx_ext()) && (holds_ext(
            entries,
            csv_ext(),
        ) || holds_ext(entries, json_ext()))),
{
    lemma_first_with_ext(entries, onnx_ext());
    lemma_first_with_ext(entries, csv_ext());
    lemma_first_with_ext(entries, json_ext());
}

/// Whether a variant folder, given its entries, holds an `.onnx` file and a
/// tag definition (see [`variant_files_present`]). An unreadable folder is
/// given as no entries.
pub fn is_present(entries: &Vec<DirEntryInfo>) -> (r: bool)
    ensures
        r == variant_files_present(entries@),
{
    proof {
        reveal_strlit("onnx");
        reveal_strlit("csv");
        reveal_strlit("json");
        assert("onnx"@ =~= onnx_ext());
        assert("csv"@ =~= csv_ext());
        assert("json"@ =~= json_ext());
    }
    find_with_ext(entries, "onnx").is_some() && (find_with_ext(entries, "csv").is_some()
        || find_with_ext(entries, "json").is_some())
}

/// The presence of every catalog variant, given the entries of each one's
/// folder (in catalog order).
pub fn catalog_presence(catalog: &Vec<ModelVariant>, listings: &Vec<Vec<DirEntryInfo>>) -> (r: Vec<
    VariantPresence,
>)
    requires
        catalog.len() == listings.len(),
    ensures
        r.len() == catalog.len(),
        forall|i: int|
            0 <= i < r.len() ==> (#[trigger] r@[i])@ == (
                catalog@[i]@,
                variant_files_present(listings@[i]@),
            ),
{
    let mut r: Vec<VariantPresence> = Vec::new();
    let mut i: usize = 0;
    while i < catalog.len()
        invariant
            i <= catalog.len(),
            catalog.len() == listings.len(),
            r.len() == i,
            forall|j: int|
                0 <= j < i ==> (#[trigger] r@[j])@ == (
                    catalog@[j]@,
                    variant_files_present(listings@[j]@),
                ),
        decreases catalog.len() - i,
    {
        let present = is_present(&listings[i]);
        r.push(VariantPresence { variant: catalog[i].duplicate(), present });
        i += 1;
    }
    r
}

// ---------------------------------------------------------------------------
// Loading a variant
// ---------------------------------------------------------------------------

/// The files of a variant: its `.onnx` and its tag definition.
#[derive(Debug, Clone, PartialEq, Eq)]
pub struct VariantFiles {
    pub onnx_path: String,
    pub tag_definition_path: String,
}

/// Everything of a variant but the inference session: the `.onnx` path, the
/// input convention and the labels.
#[derive(Debug, Clone, PartialEq, Eq)]
pub struct ModelAssets {
    pub onnx_path: String,
    /// Side of the square input image, in pixels.
    pub input_size: u32,
    pub channel_order: ChannelOrder,
    pub labels: Vec<LabelDef>,
}

/// Input side used for a variant read from disk.
pub const DEFAULT_INPUT_SIZE: u32 = 448;

/// The entry holding the tag definition: the first `.csv`, else the first
/// `.json`.
pub open spec fn tag_definition_index(entries: Seq<DirEntryInfo>) -> Option<int> {
    match first_with_ext(entries, csv_ext()) {
        Some(i) => Some(i),
        None => first_with_ext(entries, json_ext()),
    }
}

/// Finds a variant's files among the entries of its folder: the first
/// `.onnx` file and the tag definition (see [`tag_definition_index`]). A
/// folder without both is a model-load error about the folder.
pub fn locate_variant_files(variant_dir: &str, entries: &Vec<DirEntryInfo>) -> (r: AppResult<
    VariantFiles,
>)
    ensures
        match r {
            Ok(f) => variant_files_present(entries@) && exists|sep: char|
                #![trigger platform_sep(sep)]
                platform_sep(sep) && f.onnx_path@ == joined(
                    variant_dir@,
                    entries@[first_with_ext(entries@, onnx_ext())->0].name@,
                    sep,
                ) && f.tag_definition_path@ == joined(
                    variant_dir@,
                    entries@[tag_definition_index(entries@)->0].name@,
                    sep,
                ),
            Err(e) => !variant_files_present(entries@) && e.kind == AppErrorKind::ModelLoad
                && e.path_view() == Some(variant_dir@),
        },
{
    proof {
        reveal_strlit("onnx");
        reveal_strlit("csv");
        reveal_strlit("json");
        assert("onnx"@ =~= onnx_ext());
        assert("csv"@ =~= csv_ext());
        assert("json"@ =~= json_ext());
    }
    let onnx = find_with_ext(entries, "onnx");
    let tagdef = match find_with_ext(entries, "csv") {
        Some(i) => Some(i),
        None => find_with_ext(entries, "json"),
    };
    match (onnx, tagdef) {
        (Some(o), Some(t)) => {
            let sep = main_separator();
            let onnx_path = join_with(variant_dir, entries[o].name.as_str(), sep);
            let tag_definition_path = join_with(variant_dir, entries[t].name.as_str(), sep);
            proof {
                assert(platform_sep(sep));
            }
            Ok(VariantFiles { onnx_path, tag_definition_path })
        },
        _ => {
            let e = AppError::new(
                AppErrorKind::ModelLoad,
                owned("モデルディレクトリに .onnx とタグ定義（.csv/.json）の対がありません"),
            );
            Err(e.with_path(owned(variant_dir)))
        },
    }
}

/// The extension of the file name of a path, lower-cased.
pub open spec fn path_file_ext(p: Seq<char>) -> Option<Seq<char>> {
    match path_ext(p.skip(file_name_start(p))) {
        Some(x) => Some(ascii_lower(x)),
        None => None,
    }
}

/// The labels a tag definition file gives, or the message of why it gives
/// none: a `.json` file is read as JSON, any other as CSV.
pub open spec fn tag_definition_labels(path: Seq<char>, content: Seq<char>) -> Result<
    Seq<LabelView>,
    Seq<char>,
> {
    if path_file_ext(path) == Some(json_ext()) {
        json_definition(parsed_json(content))
    } else {
        match csv_definition(content) {
            Some(ls) => Ok(ls),
            None => Err("CSV が空です"@),
        }
    }
}

/// What reading a tag definition gives: its labels when there is at least
/// one, otherwise the message of the error.
pub open spec fn tag_definition_outcome(path: Seq<char>, read: Result<Seq<char>, Seq<char>>) -> Result<
    Seq<LabelView>,
    Seq<char>,
> {
    match read {
        Err(t) => Err("タグ定義を読み込めません: "@ + t),
        Ok(c) => match tag_definition_labels(path, c) {
            Err(m) => Err(m),
            Ok(ls) => if ls.len() == 0 {
                Err("タグ定義に有効なラベルがありません"@)
            } else {
                Ok(ls)
            },
        },
    }
}

/// The view of what reading a file gave: its text, or the error's text.
pub open spec fn read_view(read: Result<String, String>) -> Result<Seq<char>, Seq<char>> {
    match read {
        Ok(c) => Ok(c@),
        Err(e) => Err(e@),
    }
}

fn path_is_json(path: &str) -> (r: bool)
    ensures
        r == (path_file_ext(path@) == Some(json_ext())),
{
    let cs = chars_of(path);
    let a = crate::logic::text::find_last(&cs, '/');
    let b = crate::logic::text::find_last(&cs, '\\');
    let start: usize = match (a, b) {
        (Some(x), Some(y)) => if x > y {
            x + 1
        } else {
            y + 1
        },
        (Some(x), None) => x + 1,
        (None, Some(y)) => y + 1,
        (None, None) => 0,
    };
    proof {
        crate::logic::text::lemma_last_index_bound(cs@, '/');
        crate::logic::text::lemma_last_index_bound(cs@, '\\');
        assert(start as int == file_name_start(cs@));
    }
    let name = crate::logic::text::slice_chars(&cs, start, cs.len());
    let name_s = string_of(&name);
    proof {
        assert(name_s@ =~= path@.skip(file_name_start(path@)));
        reveal_strlit("json");
        assert("json"@ =~= json_ext());
    }
    match lower_ext(name_s.as_str()) {
        Some(x) => crate::logic::text::chars_eq_str(&x, "json"),
        None => false,
    }
}

/// Reads the labels of a tag definition from what reading `path` gave: an
/// unreadable file, a text that does not parse, and a definition with no
/// label are each a model-load error about `path` (see
/// [`tag_definition_outcome`]).
pub fn parse_tag_definition(path: &str, read: Result<String, String>) -> (r: AppResult<Vec<LabelDef>>)
    ensures
        match r {
            Ok(ls) => tag_definition_outcome(path@, read_view(read)) == Ok::<
                Seq<LabelView>,
                Seq<char>,
            >(seq_views(ls@)),
            Err(e) => e.kind == AppErrorKind::ModelLoad && e.path_view() == Some(path@)
                && tag_definition_outcome(path@, read_view(read)) == Err::<Seq<LabelView>, Seq<char>>(
                e.message@,
            ),
        },
{
    let content = match read {
        Ok(c) => c,
        Err(t) => {
            let e = AppError::new(AppErrorKind::ModelLoad, concat2("タグ定義を読み込めません: ", t.as_str()));
            return Err(e.with_path(owned(path)));
        },
    };
    let parsed = if path_is_json(path) {
        parse_tag_definition_json(content.as_str())
    } else {
        parse_tag_definition_csv(content.as_str())
    };
    proof {
        reveal_strlit("CSV が空です");
    }
    match parsed {
        Err(m) => {
            let e = AppError::new(AppErrorKind::ModelLoad, m);
            Err(e.with_path(owned(path)))
        },
        Ok(labels) => {
            if labels.len() == 0 {
                let e = AppError::new(
                    AppErrorKind::ModelLoad,
                    owned("タグ定義に有効なラベルがありません"),
                );
                Err(e.with_path(owned(path)))
            } else {
                Ok(labels)
            }
        },
    }
}

/// The assets of a variant from its files and what reading its tag
/// definition gave: the labels (see [`parse_tag_definition`]) with the input
/// convention of a variant read from disk (448 pixels, BGR).
pub fn load_variant(files: &VariantFiles, tag_definition: Result<String, String>) -> (r: AppResult<
    ModelAssets,
>)
    ensures
        match r {
            Ok(m) => m.onnx_path@ == files.onnx_path@ && m.input_size == DEFAULT_INPUT_SIZE
                && m.channel_order == ChannelOrder::Bgr && tag_definition_outcome(
                files.tag_definition_path@,
                read_view(tag_definition),
            ) == Ok::<Seq<LabelView>, Seq<char>>(seq_views(m.labels@)),
            Err(e) => e.kind == AppErrorKind::ModelLoad && e.path_view() == Some(
                files.tag_definition_path@,
            ) && tag_definition_outcome(files.tag_definition_path@, read_view(tag_definition))
                == Err::<Seq<LabelView>, Seq<char>>(e.message@),
        },
{
    let labels = parse_tag_definition(files.tag_definition_path.as_str(), tag_definition)?;
    Ok(
        ModelAssets {
            onnx_path: files.onnx_path.clone(),
            input_size: DEFAULT_INPUT_SIZE,
            channel_order: ChannelOrder::Bgr,
            labels,
        },
    )
}

} // verus!
