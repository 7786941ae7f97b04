//! Tag definitions of a model: the label list read from a `.csv` file (WD14
//! `selected_tags.csv` and the like) or a `.json` file, and the category
//! codes they use.
use vstd::prelude::*;
use crate::logic::naming::{all_digits, dec_val, digit_val, is_digit};
use crate::logic::text::{
    ascii_lower, chars_eq_str, chars_of, is_blank, lower_chars, split_chars, split_on, string_of,
    trim, trim_chars, views,
};
use crate::models::{LabelDef, TagCategory};

verus! {

// ---------------------------------------------------------------------------
// Category codes
// ---------------------------------------------------------------------------

/// The integer a text denotes the way `str::parse::<i64>` reads it (an
/// optional sign, then one or more ASCII digits), ignoring the range.
pub open spec fn int_text_value(t: Seq<char>) -> Option<int> {
    if t.len() > 0 && (t[0] == '+' || t[0] == '-') {
        let d = t.skip(1);
        if d.len() > 0 && all_digits(d) {
            Some(
                if t[0] == '-' {
                    -dec_val(d)
                } else {
                    dec_val(d)
                },
            )
        } else {
            None
        }
    } else if t.len() > 0 && all_digits(t) {
        Some(dec_val(t))
    } else {
        None
    }
}

/// The category a token names: as an integer, 9 is rating, 4 is character
/// and any other is general; as text, `rating` and `character` (any ASCII
/// case) name theirs and anything else is general. The token is trimmed.
pub open spec fn category_of(token: Seq<char>) -> TagCategory {
    let t = trim(token);
    match int_text_value(t) {
        Some(v) => if v == 9 {
            TagCategory::Rating
        } else if v == 4 {
            TagCategory::Character
        } else {
            TagCategory::General
        },
        None => if ascii_lower(t) == "rating"@ {
            TagCategory::Rating
        } else if ascii_lower(t) == "character"@ {
            TagCategory::Character
        } else {
            TagCategory::General
        },
    }
}

fn is_digit_char(c: char) -> (r: bool)
    ensures
        r == is_digit(c),
{
    '0' <= c && c <= '9'
}

/// The value of a digit string, saturated at 10.
fn small_value(d: &[char]) -> (v: u64)
    requires
        all_digits(d@),
    ensures
        v == if dec_val(d@) >= 10 {
            10
        } else {
            dec_val(d@)
        },
{
    let mut v: u64 = 0;
    let mut i: usize = 0;
    proof {
        assert(d@.take(0) =~= Seq::<char>::empty());
    }
    while i < d.len()
        invariant
            i <= d.len(),
            all_digits(d@),
            v == if dec_val(d@.take(i as int)) >= 10 {
                10
            } else {
                dec_val(d@.take(i as int))
            },
            dec_val(d@.take(i as int)) >= 0,
        decreases d.len() - i,
    {
        let c = d[i];
        proof {
            assert(d@.take(i + 1).drop_last() =~= d@.take(i as int));
            assert(d@.take(i + 1).last() == c);
            assert(is_digit(d@[i as int]));
            assert(all_digits(d@.take(i + 1))) by {
                assert forall|j: int| 0 <= j < i + 1 implies is_digit(#[trigger] d@.take(i + 1)[j]) by {
                    assert(d@.take(i + 1)[j] == d@[j]);
                }
            }
            crate::logic::naming::lemma_dec_val_nonneg(d@.take(i + 1));
        }
        let dv: u64 = ((c as u32) - ('0' as u32)) as u64;
        proof {
            assert(dv == digit_val(c));
        }
        if v < 10 {
            let n = v * 10 + dv;
            v = if n >= 10 {
                10
            } else {
                n
            };
        }
        i += 1;
    }
    proof {
        assert(d@.take(d.len() as int) =~= d@);
    }
    v
}

/// The category a token names (see [`category_of`]).
pub fn category_from_token(token: &str) -> (c: TagCategory)
    ensures
        c == category_of(token@),
{
    let cs = chars_of(token);
    let t = trim_chars(&cs);
    let signed = t.len() > 0 && (t[0] == '+' || t[0] == '-');
    let start: usize = if signed {
        1
    } else {
        0
    };
    let mut digits = t.len() > start;
    let mut i: usize = start;
    while i < t.len()
        invariant
            start <= i <= t.len(),
            digits == (t.len() > start && forall|j: int| start <= j < i ==> is_digit(#[trigger] t@[j])),
        decreases t.len() - i,
    {
        if !is_digit_char(t[i]) {
            digits = false;
        }
        i += 1;
    }
    let ghost tv = t@;
    if digits {
        let d = crate::logic::text::slice_chars(&t, start, t.len());
        proof {
            assert(d@ =~= tv.skip(start as int));
            assert(all_digits(d@)) by {
                assert forall|j: int| 0 <= j < d@.len() implies is_digit(#[trigger] d@[j]) by {
                    assert(d@[j] == tv[j + start]);
                }
            }
            if !signed {
                assert(tv.skip(0) =~= tv);
            }
        }
        let v = small_value(&d);
        let negative = signed && t[0] == '-';
        proof {
            crate::logic::naming::lemma_dec_val_nonneg(d@);
        }
        if !negative && v == 9 {
            TagCategory::Rating
        } else if !negative && v == 4 {
            TagCategory::Character
        } else {
            TagCategory::General
        }
    } else {
        proof {
            if int_text_value(tv) is Some {
                if signed {
                    assert forall|j: int| 1 <= j < tv.len() implies is_digit(#[trigger] tv[j]) by {
                        assert(tv[j] == tv.skip(1)[j - 1]);
                    }
                } else {
                    assert forall|j: int| 0 <= j < tv.len() implies is_digit(#[trigger] tv[j]) by {
                        assert(all_digits(tv));
                    }
                }
            }
        }
        let l = lower_chars(&t);
        if chars_eq_str(&l, "rating") {
            TagCategory::Rating
        } else if chars_eq_str(&l, "character") {
            TagCategory::Character
        } else {
            TagCategory::General
        }
    }
}

// ---------------------------------------------------------------------------
// CSV
// ---------------------------------------------------------------------------

/// A label as a name and a category.
pub type LabelView = (Seq<char>, TagCategory);

/// `l` without its trailing carriage returns.
pub open spec fn strip_cr(l: Seq<char>) -> Seq<char>
    decreases l.len(),
{
    if l.len() > 0 && l.last() == '\r' {
        strip_cr(l.drop_last())
    } else {
        l
    }
}

/// The lines of `ls` that are not blank, in order.
pub open spec fn nonblank(ls: Seq<Seq<char>>) -> Seq<Seq<char>>
    decreases ls.len(),
{
    if ls.len() == 0 {
        Seq::empty()
    } else {
        let r = nonblank(ls.drop_last());
        if is_blank(ls.last()) {
            r
        } else {
            r.push(ls.last())
        }
    }
}

/// The non-blank lines of a text, without their line endings (`\n`, and any
/// `\r` before it).
pub open spec fn text_lines(content: Seq<char>) -> Seq<Seq<char>> {
    nonblank(split_on(content, '\n').map_values(|l: Seq<char>| strip_cr(l)))
}

/// The cells of a header line, trimmed and lower-cased.
pub open spec fn header_cells(h: Seq<char>) -> Seq<Seq<char>> {
    split_on(h, ',').map_values(|c: Seq<char>| ascii_lower(trim(c)))
}

/// The first index of `x` in `s`.
pub open spec fn index_of(s: Seq<Seq<char>>, x: Seq<char>) -> Option<int>
    decreases s.len(),
{
    if s.len() == 0 {
        None
    } else {
        match index_of(s.drop_last(), x) {
            Some(i) => Some(i),
            None => if s.last() == x {
                Some(s.len() - 1)
            } else {
                None
            },
        }
    }
}

/// The label of one CSV line: the trimmed cell at `name_col`, none when that
/// cell is missing or empty, with the category of the cell at `cat_col`
/// (general when there is no such cell).
pub open spec fn csv_label(line: Seq<char>, name_col: int, cat_col: Option<int>) -> Option<LabelView> {
    let cells = split_on(line, ',');
    if name_col < 0 || name_col >= cells.len() {
        None
    } else {
        let name = trim(cells[name_col]);
        if name.len() == 0 {
            None
        } else {
            Some(
                (
                    name,
                    match cat_col {
                        Some(c) => if 0 <= c < cells.len() {
                            category_of(cells[c])
                        } else {
                            TagCategory::General
                        },
                        None => TagCategory::General,
                    },
                ),
            )
        }
    }
}

/// The labels of CSV lines, in order.
pub open spec fn csv_labels(lines: Seq<Seq<char>>, name_col: int, cat_col: Option<int>) -> Seq<
    LabelView,
>
    decreases lines.len(),
{
    if lines.len() == 0 {
        Seq::empty()
    } else {
        let r = csv_labels(lines.drop_last(), name_col, cat_col);
        match csv_label(lines.last(), name_col, cat_col) {
            Some(l) => r.push(l),
            None => r,
        }
    }
}

/// The labels of a CSV tag definition, or `None` when it has no non-blank
/// line. When the first line has a `name` cell, it is a header naming the
/// name and (optionally) `category` columns; otherwise every line is data,
/// the name in the first cell and the category in the second.
pub open spec fn csv_definition(content: Seq<char>) -> Option<Seq<LabelView>> {
    let lines = text_lines(content);
    if lines.len() == 0 {
        None
    } else {
        let cells = header_cells(lines[0]);
        match index_of(cells, "name"@) {
            Some(n) => Some(csv_labels(lines.skip(1), n, index_of(cells, "category"@))),
            None => Some(csv_labels(lines, 0, Some(1))),
        }
    }
}

fn strip_cr_chars(l: &Vec<char>) -> (out: Vec<char>)
    ensures
        out@ == strip_cr(l@),
{
    let mut k: usize = l.len();
    proof {
        assert(l@.take(k as int) =~= l@);
    }
    while k > 0 && l[k - 1] == '\r'
        invariant
            k <= l.len(),
            strip_cr(l@) == strip_cr(l@.take(k as int)),
        decreases k,
    {
        proof {
            assert(l@.take(k as int).drop_last() =~= l@.take(k - 1));
        }
        k -= 1;
    }
    let out = crate::logic::text::slice_chars(l, 0, k);
    proof {
        assert(out@ =~= l@.take(k as int));
    }
    out
}

/// The non-blank lines of a text (see [`text_lines`]).
fn lines_of(content: &str) -> (out: Vec<Vec<char>>)
    ensures
        views(out@) == text_lines(content@),
{
    let cs = chars_of(content);
    let pieces = split_chars(&cs, '\n');
    let ghost stripped = split_on(content@, '\n').map_values(|l: Seq<char>| strip_cr(l));
    let mut out: Vec<Vec<char>> = Vec::new();
    let mut i: usize = 0;
    proof {
        assert(stripped.take(0) =~= Seq::<Seq<char>>::empty());
    }
    while i < pieces.len()
        invariant
            i <= pieces.len(),
            views(pieces@) == split_on(content@, '\n'),
            stripped == split_on(content@, '\n').map_values(|l: Seq<char>| strip_cr(l)),
            views(out@) == nonblank(stripped.take(i as int)),
        decreases pieces.len() - i,
    {
        let l = strip_cr_chars(&pieces[i]);
        proof {
            assert(stripped.take(i + 1).drop_last() =~= stripped.take(i as int));
            assert(stripped.take(i + 1).last() == l@);
        }
        let t = trim_chars(&l);
        if t.len() > 0 {
            let ghost before = out@;
            out.push(l);
            proof {
                assert(views(out@) =~= views(before).push(stripped[i as int]));
            }
        }
        i += 1;
    }
    proof {
        assert(stripped.take(pieces.len() as int) =~= stripped);
    }
    out
}

/// The first index of the string `x` among the cells.
fn find_cell(cells: &Vec<Vec<char>>, x: &str) -> (r: Option<usize>)
    ensures
        match r {
            Some(i) => index_of(views(cells@), x@) == Some(i as int),
            None => index_of(views(cells@), x@) is None,
        },
{
    let mut i: usize = 0;
    proof {
        assert(views(cells@).take(0) =~= Seq::<Seq<char>>::empty());
    }
    while i < cells.len()
        invariant
            i <= cells.len(),
            index_of(views(cells@).take(i as int), x@) is None,
        decreases cells.len() - i,
    {
        proof {
            assert(views(cells@).take(i + 1).drop_last() =~= views(cells@).take(i as int));
        }
        if chars_eq_str(&cells[i], x) {
            proof {
                lemma_index_of_prefix(views(cells@), x@, i + 1);
            }
            return Some(i);
        }
        i += 1;
    }
    proof {
        assert(views(cells@).take(cells.len() as int) =~= views(cells@));
    }
    None
}

/// The first index found in a prefix is the first index of the whole.
proof fn lemma_index_of_prefix(s: Seq<Seq<char>>, x: Seq<char>, k: int)
    requires
        0 <= k <= s.len(),
        index_of(s.take(k), x) is Some,
    ensures
        index_of(s, x) == index_of(s.take(k), x),
    decreases s.len() - k,
{
    if k < s.len() {
        assert(s.take(k + 1).drop_last() =~= s.take(k));
        lemma_index_of_prefix(s, x, k + 1);
    } else {
        assert(s.take(k) =~= s);
    }
}

/// The label of one CSV line (see [`csv_label`]).
fn label_of_line(line: &Vec<char>, name_col: usize, cat_col: Option<usize>) -> (r: Option<LabelDef>)
    ensures
        match r {
            Some(l) => csv_label(line@, name_col as int, match cat_col {
                Some(c) => Some(c as int),
                None => None,
            }) == Some(l@),
            None => csv_label(line@, name_col as int, match cat_col {
                Some(c) => Some(c as int),
                None => None,
            }) is None,
        },
{
    let cells = split_chars(line, ',');
    proof {
        assert(views(cells@) == split_on(line@, ','));
    }
    if name_col >= cells.len() {
        return None;
    }
    let name = trim_chars(&cells[name_col]);
    proof {
        assert(cells@[name_col as int]@ == split_on(line@, ',')[name_col as int]);
    }
    if name.len() == 0 {
        return None;
    }
    let category = match cat_col {
        Some(c) => if c < cells.len() {
            let cell = string_of(&cells[c]);
            proof {
                assert(cells@[c as int]@ == split_on(line@, ',')[c as int]);
            }
            category_from_token(cell.as_str())
        } else {
            TagCategory::General
        },
        None => TagCategory::General,
    };
    Some(LabelDef { name: string_of(&name), category })
}

/// Reads a CSV tag definition (see [`csv_definition`]); a text with no
/// non-blank line is refused with a message.
pub fn parse_tag_definition_csv(content: &str) -> (r: Result<Vec<LabelDef>, String>)
    ensures
        match r {
            Ok(ls) => csv_definition(content@) == Some(crate::models::seq_views(ls@)),
            Err(m) => csv_definition(content@) is None && m@ == "CSV が空です"@,
        },
{
    let lines = lines_of(content);
    if lines.len() == 0 {
        return Err(crate::logic::text::owned("CSV が空です"));
    }
    let raw = split_chars(&lines[0], ',');
    let mut cells: Vec<Vec<char>> = Vec::new();
    let mut j: usize = 0;
    while j < raw.len()
        invariant
            j <= raw.len(),
            views(raw@) == split_on(lines@[0]@, ','),
            views(cells@) == views(raw@).take(j as int).map_values(
                |c: Seq<char>| ascii_lower(trim(c)),
            ),
        decreases raw.len() - j,
    {
        let t = trim_chars(&raw[j]);
        let l = lower_chars(&t);
        let ghost before = cells@;
        cells.push(l);
        j += 1;
        proof {
            assert(views(raw@)[j - 1] == raw@[j - 1]@);
            assert(views(cells@) =~= views(before).push(l@));
            assert(views(raw@).take(j as int) =~= views(raw@).take(j - 1).push(views(raw@)[j - 1]));
            assert(views(cells@) =~= views(raw@).take(j as int).map_values(
                |c: Seq<char>| ascii_lower(trim(c)),
            ));
        }
    }
    proof {
        assert(views(raw@).take(j as int) =~= views(raw@));
        assert(views(cells@) == header_cells(views(lines@)[0]));
    }
    let (name_col, cat_col, first) = match find_cell(&cells, "name") {
        Some(n) => (n, find_cell(&cells, "category"), 1usize),
        None => (0usize, Some(1usize), 0usize),
    };
    let ghost data = views(lines@).skip(first as int);
    let ghost cat = match cat_col {
        Some(c) => Some(c as int),
        None => None,
    };
    let mut labels: Vec<LabelDef> = Vec::new();
    let mut i: usize = first;
    proof {
        assert(data.take(0) =~= Seq::<Seq<char>>::empty());
    }
    while i < lines.len()
        invariant
            first <= i <= lines.len(),
            first <= 1,
            cat == match cat_col {
                Some(c) => Some(c as int),
                None => None,
            },
            data == views(lines@).skip(first as int),
            crate::models::seq_views(labels@) == csv_labels(
                data.take(i - first),
                name_col as int,
                cat,
            ),
        decreases lines.len() - i,
    {
        proof {
            assert(data.take(i - first + 1).drop_last() =~= data.take(i - first));
            assert(data[i - first] == views(lines@)[i as int]);
            assert(data.take(i - first + 1).last() == lines@[i as int]@);
        }
        let lab = label_of_line(&lines[i], name_col, cat_col);
        let ghost prev = crate::models::seq_views(labels@);
        let ghost step = data.take(i - first + 1);
        proof {
            assert(step.drop_last() =~= data.take(i - first));
            assert(step.last() == lines@[i as int]@);
            assert(csv_labels(step, name_col as int, cat) == match csv_label(
                lines@[i as int]@,
                name_col as int,
                cat,
            ) {
                Some(l) => prev.push(l),
                None => prev,
            });
        }
        match lab {
            Some(l) => {
                let ghost before = labels@;
                labels.push(l);
                proof {
                    assert(crate::models::seq_views(labels@) =~= crate::models::seq_views(
                        before,
                    ).push(l@));
                }
            },
            None => {},
        }
        i += 1;
        proof {
            assert(data.take(i - first) == step);
        }
    }
    proof {
        assert(data.take(lines.len() - first) =~= data);
        if first == 0 {
            assert(data =~= views(lines@));
        }
    }
    Ok(labels)
}

} // verus!
verus! {

// ---------------------------------------------------------------------------
// JSON
// ---------------------------------------------------------------------------

/// A JSON value as parsed, arrays and objects held as lists.
#[derive(Debug)]
pub enum JsonValue {
    Null,
    Bool(bool),
    /// A number, in the text serde_json writes for it.
    Number(String),
    Text(String),
    Array(Box<JsonList>),
    Object(Box<JsonMembers>),
}

/// The elements of a JSON array, in order.
#[derive(Debug)]
pub enum JsonList {
    Nil,
    Cons(Box<JsonValue>, Box<JsonList>),
}

/// The members of a JSON object, in serde_json's order.
#[derive(Debug)]
pub enum JsonMembers {
    Nil,
    Cons(String, Box<JsonValue>, Box<JsonMembers>),
}

#[verifier::external_type_specification]
#[verifier::external_body]
pub struct ExJsonValue(serde_json::Value);

/// What `serde_json::from_str::<serde_json::Value>` gives for a text: the
/// value, or serde_json's error message.
pub uninterp spec fn parsed_json(content: Seq<char>) -> Result<JsonValue, String>;

/// Calls `serde_json::from_str::<serde_json::Value>` on `content`. The
/// contract only names the result: it depends on the text alone.
#[verifier::external_body]
fn parse_json(content: &str) -> (r: Result<JsonValue, String>)
    ensures
        r == parsed_json(content@),
{
    match serde_json::from_str::<serde_json::Value>(content) {
        Ok(v) => Ok(json_value(&v)),
        Err(e) => Err(e.to_string()),
    }
}

/// Converts a `serde_json::Value` variant by variant; a number becomes the
/// text its `Display` writes, arrays and objects keep their order.
#[verifier::external_body]
fn json_value(v: &serde_json::Value) -> JsonValue {
    match v {
        serde_json::Value::Null => JsonValue::Null,
        serde_json::Value::Bool(b) => JsonValue::Bool(*b),
        serde_json::Value::Number(n) => JsonValue::Number(n.to_string()),
        serde_json::Value::String(s) => JsonValue::Text(s.clone()),
        serde_json::Value::Array(a) => JsonValue::Array(Box::new(a.iter().rev().fold(JsonList::Nil, |t, x| cons(json_value(x), t)))),
        serde_json::Value::Object(m) => JsonValue::Object(Box::new(m.iter().rev().fold(JsonMembers::Nil, |t, (k, x)| cons_member(k.clone(), json_value(x), t)))),
    }
}

/// `v` in front of `rest`.
pub fn cons(v: JsonValue, rest: JsonList) -> (l: JsonList)
    ensures
        l == JsonList::Cons(Box::new(v), Box::new(rest)),
{
    JsonList::Cons(Box::new(v), Box::new(rest))
}

/// The member `k: v` in front of `rest`.
pub fn cons_member(k: String, v: JsonValue, rest: JsonMembers) -> (m: JsonMembers)
    ensures
        m == JsonMembers::Cons(k, Box::new(v), Box::new(rest)),
{
    JsonMembers::Cons(k, Box::new(v), Box::new(rest))
}

/// The value of the first member named `key`.
pub open spec fn member(m: JsonMembers, key: Seq<char>) -> Option<JsonValue>
    decreases m,
{
    match m {
        JsonMembers::Nil => None,
        JsonMembers::Cons(k, v, rest) => if k@ == key {
            Some(*v)
        } else {
            member(*rest, key)
        },
    }
}

/// The label of one element of a JSON tag definition: a non-blank string is
/// a general label; an object with a non-blank string `name` is a label whose
/// category is read from its `category` string or number (general
/// otherwise); anything else gives none. Names are trimmed.
pub open spec fn json_label(v: JsonValue) -> Option<LabelView> {
    match v {
        JsonValue::Text(s) => if trim(s@).len() > 0 {
            Some((trim(s@), TagCategory::General))
        } else {
            None
        },
        JsonValue::Object(m) => match member(*m, "name"@) {
            Some(JsonValue::Text(n)) => if trim(n@).len() > 0 {
                Some(
                    (
                        trim(n@),
                        match member(*m, "category"@) {
                            Some(JsonValue::Text(c)) => category_of(c@),
                            Some(JsonValue::Number(c)) => category_of(c@),
                            _ => TagCategory::General,
                        },
                    ),
                )
            } else {
                None
            },
            _ => None,
        },
        _ => None,
    }
}

/// The labels of the elements of a JSON array, in order.
pub open spec fn json_list_labels(l: JsonList) -> Seq<LabelView>
    decreases l,
{
    match l {
        JsonList::Nil => Seq::empty(),
        JsonList::Cons(v, rest) => match json_label(*v) {
            Some(x) => seq![x] + json_list_labels(*rest),
            None => json_list_labels(*rest),
        },
    }
}

/// The labels of a parsed JSON tag definition, which must be an array; the
/// error texts otherwise.
pub open spec fn json_definition(doc: Result<JsonValue, String>) -> Result<Seq<LabelView>, Seq<char>> {
    match doc {
        Err(e) => Err("JSON を解析できません: "@ + e@),
        Ok(JsonValue::Array(l)) => Ok(json_list_labels(*l)),
        Ok(_) => Err("JSON タグ定義は配列である必要があります"@),
    }
}

fn member_of<'a>(m: &'a JsonMembers, key: &str) -> (r: Option<&'a JsonValue>)
    ensures
        match r {
            Some(v) => member(*m, key@) == Some(*v),
            None => member(*m, key@) is None,
        },
    decreases m,
{
    match m {
        JsonMembers::Nil => None,
        JsonMembers::Cons(k, v, rest) => {
            if crate::logic::text::str_eq(k.as_str(), key) {
                Some(&**v)
            } else {
                member_of(&**rest, key)
            }
        },
    }
}

fn trimmed_string(s: &String) -> (out: Vec<char>)
    ensures
        out@ == trim(s@),
{
    let cs = chars_of(s.as_str());
    trim_chars(&cs)
}

fn label_of_json(v: &JsonValue) -> (r: Option<LabelDef>)
    ensures
        match r {
            Some(l) => json_label(*v) == Some(l@),
            None => json_label(*v) is None,
        },
{
    match v {
        JsonValue::Text(s) => {
            let t = trimmed_string(s);
            if t.len() > 0 {
                Some(LabelDef { name: string_of(&t), category: TagCategory::General })
            } else {
                None
            }
        },
        JsonValue::Object(m) => match member_of(&**m, "name") {
            Some(JsonValue::Text(n)) => {
                let t = trimmed_string(n);
                if t.len() == 0 {
                    return None;
                }
                let category = match member_of(&**m, "category") {
                    Some(JsonValue::Text(c)) => category_from_token(c.as_str()),
                    Some(JsonValue::Number(c)) => category_from_token(c.as_str()),
                    _ => TagCategory::General,
                };
                Some(LabelDef { name: string_of(&t), category })
            },
            _ => None,
        },
        _ => None,
    }
}

fn push_list_labels(l: &JsonList, out: &mut Vec<LabelDef>)
    ensures
        crate::models::seq_views(final(out)@) == crate::models::seq_views(old(out)@)
            + json_list_labels(*l),
    decreases l,
{
    match l {
        JsonList::Nil => {
            assert(crate::models::seq_views(out@) =~= crate::models::seq_views(out@)
                + Seq::<LabelView>::empty());
        },
        JsonList::Cons(v, rest) => {
            let ghost start = crate::models::seq_views(out@);
            match label_of_json(&**v) {
                Some(x) => {
                    out.push(x);
                    assert(crate::models::seq_views(out@) =~= start + seq![x@]);
                },
                None => {},
            }
            push_list_labels(&**rest, out);
            proof {
                match json_label(**v) {
                    Some(x) => {
                        assert(start + seq![x] + json_list_labels(**rest) =~= start + (seq![x]
                            + json_list_labels(**rest)));
                    },
                    None => {},
                }
            }
        },
    }
}

/// The labels of a parsed JSON tag definition (see [`json_definition`]).
pub fn labels_from_json(doc: &Result<JsonValue, String>) -> (r: Result<Vec<LabelDef>, String>)
    ensures
        match r {
            Ok(ls) => json_definition(*doc) == Ok::<Seq<LabelView>, Seq<char>>(
                crate::models::seq_views(ls@),
            ),
            Err(m) => json_definition(*doc) == Err::<Seq<LabelView>, Seq<char>>(m@),
        },
{
    match doc {
        Err(e) => Err(crate::logic::text::concat2("JSON を解析できません: ", e.as_str())),
        Ok(JsonValue::Array(l)) => {
            let mut out: Vec<LabelDef> = Vec::new();
            push_list_labels(&**l, &mut out);
            assert(crate::models::seq_views(out@) =~= json_list_labels(**l));
            Ok(out)
        },
        Ok(_) => Err(crate::logic::text::owned("JSON タグ定義は配列である必要があります")),
    }
}

/// Reads a JSON tag definition: the text is parsed by serde_json, then its
/// labels are taken (see [`labels_from_json`]).
pub fn parse_tag_definition_json(content: &str) -> (r: Result<Vec<LabelDef>, String>)
    ensures
        match r {
            Ok(ls) => json_definition(parsed_json(content@)) == Ok::<Seq<LabelView>, Seq<char>>(
                crate::models::seq_views(ls@),
            ),
            Err(m) => json_definition(parsed_json(content@)) == Err::<Seq<LabelView>, Seq<char>>(
                m@,
            ),
        },
{
    let doc = parse_json(content);
    labels_from_json(&doc)
}

} // verus!
