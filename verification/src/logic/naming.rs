//! File-naming rules: sequence numbers and the `NUM` placeholder, the
//! `<subfolder>__<file>` names of gather/distribute, and the normalisation of
//! double-extension caption names (`image.png.txt` to `image.txt`).
use vstd::prelude::*;
use crate::logic::text::{
    chars_of, concat3, eq_ignore_case, eq_ignore_case_chars, extend_chars, find_last, last_index_of,
    rsplit_once, slice_chars, string_of,
};

verus! {

// ---------------------------------------------------------------------------
// Decimal numbers
// ---------------------------------------------------------------------------

/// The ASCII digit for `d` (`d < 10`).
pub open spec fn digit_char(d: nat) -> char {
    (('0' as u32) + d) as char
}

/// The numeric value of an ASCII digit.
pub open spec fn digit_val(c: char) -> int {
    (c as u32) - ('0' as u32)
}

/// `c` is one of `'0'..='9'`.
pub open spec fn is_digit(c: char) -> bool {
    '0' <= c && c <= '9'
}

/// Decimal representation of `n` without leading zeros (`0` is `"0"`).
pub open spec fn dec(n: nat) -> Seq<char>
    decreases n,
{
    if n < 10 {
        seq![digit_char(n)]
    } else {
        dec(n / 10).push(digit_char(n % 10))
    }
}

proof fn lemma_digit_char(d: nat)
    requires
        d < 10,
    ensures
        is_digit(digit_char(d)),
        digit_val(digit_char(d)) == d,
{
    assert(((('0' as u32) + d) as char) as u32 == ('0' as u32) + d);
}

/// Value of a string of decimal digits.
pub open spec fn dec_val(s: Seq<char>) -> int
    decreases s.len(),
{
    if s.len() == 0 {
        0
    } else {
        dec_val(s.drop_last()) * 10 + digit_val(s.last())
    }
}

/// `n` padded on the left with `'0'` up to `width` characters (`{:0width$}`).
pub open spec fn padded(n: nat, width: nat) -> Seq<char> {
    let d = dec(n);
    if d.len() >= width {
        d
    } else {
        Seq::new((width - d.len()) as nat, |i: int| '0') + d
    }
}

/// Every character of `s` is a decimal digit.
pub open spec fn all_digits(s: Seq<char>) -> bool {
    forall|i: int| 0 <= i < s.len() ==> is_digit(#[trigger] s[i])
}

pub proof fn lemma_dec_digits(n: nat)
    ensures
        all_digits(dec(n)),
        dec(n).len() >= 1,
        dec_val(dec(n)) == n,
    decreases n,
{
    lemma_digit_char(n % 10);
    let d = dec(n);
    if n >= 10 {
        lemma_dec_digits(n / 10);
        assert(d.drop_last() =~= dec(n / 10));
        assert(d.last() == digit_char(n % 10));
        assert(n == (n / 10) * 10 + n % 10);
        assert(dec_val(d) == dec_val(d.drop_last()) * 10 + digit_val(d.last()));
    } else {
        assert(d.drop_last() =~= Seq::<char>::empty());
        assert(dec_val(d) == dec_val(d.drop_last()) * 10 + digit_val(d.last()));
    }
}

/// A digit string has a non-negative value.
pub proof fn lemma_dec_val_nonneg(s: Seq<char>)
    requires
        all_digits(s),
    ensures
        dec_val(s) >= 0,
    decreases s.len(),
{
    if s.len() > 0 {
        assert(all_digits(s.drop_last())) by {
            assert forall|i: int| 0 <= i < s.drop_last().len() implies is_digit(
                #[trigger] s.drop_last()[i],
            ) by {
                assert(s.drop_last()[i] == s[i]);
            }
        }
        lemma_dec_val_nonneg(s.drop_last());
        assert(is_digit(s[s.len() - 1]));
    }
}

/// Leading zeros do not change the value of a digit string.
pub proof fn lemma_dec_val_leading_zeros(k: nat, s: Seq<char>)
    ensures
        dec_val(Seq::new(k, |i: int| '0') + s) == dec_val(s) + dec_val(Seq::new(k, |i: int| '0'))
            * pow10(s.len()),
        dec_val(Seq::new(k, |i: int| '0')) == 0,
    decreases s.len(), k,
{
    let z = Seq::new(k, |i: int| '0');
    if s.len() == 0 {
        assert(z + s =~= z);
        lemma_zeros_val(k);
    } else {
        lemma_dec_val_leading_zeros(k, s.drop_last());
        assert((z + s).drop_last() =~= z + s.drop_last());
        lemma_zeros_val(k);
    }
}

/// Powers of ten.
pub open spec fn pow10(n: nat) -> int
    decreases n,
{
    if n == 0 {
        1
    } else {
        10 * pow10((n - 1) as nat)
    }
}

proof fn lemma_zeros_val(k: nat)
    ensures
        dec_val(Seq::new(k, |i: int| '0')) == 0,
    decreases k,
{
    if k > 0 {
        lemma_zeros_val((k - 1) as nat);
        assert(Seq::new(k, |i: int| '0').drop_last() =~= Seq::new((k - 1) as nat, |i: int| '0'));
    }
}

/// The padded representation is made of digits, is at least `width` long and
/// denotes `n`.
pub proof fn lemma_padded(n: nat, width: nat)
    ensures
        all_digits(padded(n, width)),
        padded(n, width).len() >= width,
        padded(n, width).len() >= 1,
        dec_val(padded(n, width)) == n,
{
    lemma_dec_digits(n);
    let d = dec(n);
    if d.len() < width {
        let k = (width - d.len()) as nat;
        lemma_dec_val_leading_zeros(k, d);
        let z = Seq::new(k, |i: int| '0') + d;
        assert(all_digits(z)) by {
            assert forall|i: int| 0 <= i < z.len() implies is_digit(#[trigger] z[i]) by {
                if i >= k {
                    assert(z[i] == d[i - k]);
                }
            }
        }
        assert(z == padded(n, width));
    }
}

/// Decimal representation of `n`.
pub fn dec_chars(n: u64) -> (out: Vec<char>)
    ensures
        out@ == dec(n as nat),
{
    let mut m: u64 = n;
    let mut tail: Vec<char> = Vec::new();
    while m >= 10
        invariant
            dec(n as nat) == dec(m as nat) + tail@,
        decreases m,
    {
        let d: u64 = m % 10;
        let c: char = ((d as u8) + 48) as char;
        proof {
            assert(c == digit_char((m % 10) as nat));
            assert(dec(m as nat) == dec((m / 10) as nat).push(digit_char((m % 10) as nat)));
            assert(dec((m / 10) as nat).push(c) + tail@ =~= dec((m / 10) as nat) + seq![c].add(
                tail@,
            ));
        }
        tail.insert(0, c);
        m = m / 10;
    }
    let c: char = ((m as u8) + 48) as char;
    tail.insert(0, c);
    proof {
        assert(dec(m as nat) == seq![digit_char(m as nat)]);
    }
    tail
}

/// `format!("{:0width$}", n)`.
pub fn format_number(n: u64, width: usize) -> (out: String)
    ensures
        out@ == padded(n as nat, width as nat),
{
    let d = dec_chars(n);
    let mut cs: Vec<char> = Vec::new();
    if d.len() < width {
        let k: usize = width - d.len();
        let mut i: usize = 0;
        while i < k
            invariant
                i <= k,
                cs@ == Seq::new(i as nat, |j: int| '0'),
            decreases k - i,
        {
            cs.push('0');
            i += 1;
            proof {
                assert(cs@ =~= Seq::new(i as nat, |j: int| '0'));
            }
        }
    }
    extend_chars(&mut cs, &d);
    proof {
        if d@.len() >= width {
            assert(cs@ =~= d@);
        }
    }
    string_of(&cs)
}

/// The `i`-th number of a sequence starting at `start`.
pub fn sequence_number(start: u64, i: u64) -> (n: u64)
    requires
        start + i <= u64::MAX,
    ensures
        n == start + i,
{
    start + i
}

/// The numbers given to files in name order are `start`, `start + 1`, ...:
/// each written with at least `width` digits, and two files never get the
/// same text.
pub proof fn law_numbers_distinct(start: nat, i: nat, j: nat, width: nat)
    requires
        i != j,
    ensures
        padded(start + i, width) != padded(start + j, width),
        padded(start + i, width).len() >= width,
        all_digits(padded(start + i, width)),
{
    lemma_padded(start + i, width);
    lemma_padded(start + j, width);
}

// ---------------------------------------------------------------------------
// Placeholder expansion
// ---------------------------------------------------------------------------

/// `pat` occurs in `s` at position `i`.
pub open spec fn occurs_at(s: Seq<char>, i: int, pat: Seq<char>) -> bool {
    0 <= i && i + pat.len() <= s.len() && s.subrange(i, i + pat.len()) == pat
}

/// `str::replace(pat, rep)`: every non-overlapping occurrence, left to right.
pub open spec fn replace_all(s: Seq<char>, pat: Seq<char>, rep: Seq<char>) -> Seq<char>
    recommends
        pat.len() > 0,
    decreases s.len(),
{
    if s.len() == 0 || pat.len() == 0 {
        s
    } else if occurs_at(s, 0, pat) {
        rep + replace_all(s.skip(pat.len() as int), pat, rep)
    } else {
        seq![s[0]] + replace_all(s.drop_first(), pat, rep)
    }
}

/// The placeholder that numbering replaces.
pub open spec fn num_placeholder() -> Seq<char> {
    seq!['N', 'U', 'M']
}

fn occurs_at_exec(s: &[char], i: usize, pat: &[char]) -> (r: bool)
    requires
        i <= s.len(),
    ensures
        r == occurs_at(s@, i as int, pat@),
{
    if pat.len() > s.len() - i {
        return false;
    }
    let mut k: usize = 0;
    while k < pat.len()
        invariant
            i + pat.len() <= s.len(),
            k <= pat.len(),
            forall|j: int| 0 <= j < k ==> s@[i + j] == pat@[j],
        decreases pat.len() - k,
    {
        if s[i + k] != pat[k] {
            return false;
        }
        k += 1;
    }
    proof {
        assert(s@.subrange(i as int, i + pat.len()) =~= pat@);
    }
    true
}

/// `str::replace` on character sequences (`pat` non-empty).
pub fn replace_all_chars(s: &[char], pat: &[char], rep: &[char]) -> (out: Vec<char>)
    requires
        pat.len() > 0,
    ensures
        out@ == replace_all(s@, pat@, rep@),
{
    let mut out: Vec<char> = Vec::new();
    let mut i: usize = 0;
    proof {
        assert(s@.skip(0) =~= s@);
    }
    while i < s.len()
        invariant
            i <= s.len(),
            pat.len() > 0,
            replace_all(s@, pat@, rep@) == out@ + replace_all(s@.skip(i as int), pat@, rep@),
        decreases s.len() - i,
    {
        let ghost rest = s@.skip(i as int);
        if occurs_at_exec(s, i, pat) {
            proof {
                assert(rest.subrange(0, pat.len() as int) =~= s@.subrange(
                    i as int,
                    i + pat.len(),
                ));
                assert(rest.skip(pat.len() as int) =~= s@.skip(i + pat.len()));
                assert(out@ + (rep@ + replace_all(rest.skip(pat.len() as int), pat@, rep@))
                    =~= (out@ + rep@) + replace_all(s@.skip(i + pat.len()), pat@, rep@));
            }
            extend_chars(&mut out, rep);
            i += pat.len();
        } else {
            proof {
                assert(!occurs_at(rest, 0, pat@)) by {
                    if i + pat.len() <= s.len() {
                        assert(rest.subrange(0, pat.len() as int) =~= s@.subrange(
                            i as int,
                            i + pat.len(),
                        ));
                    }
                }
                assert(rest.drop_first() =~= s@.skip(i + 1));
                assert(out@ + (seq![s@[i as int]] + replace_all(rest.drop_first(), pat@, rep@))
                    =~= out@.push(s@[i as int]) + replace_all(s@.skip(i + 1), pat@, rep@));
            }
            out.push(s[i]);
            i += 1;
        }
    }
    proof {
        assert(out@ + replace_all(s@.skip(i as int), pat@, rep@) =~= out@);
    }
    out
}

/// Replaces every `NUM` in `template` with `n` zero-padded to `width`.
pub fn expand_num_placeholder(template: &str, n: u64, width: usize) -> (out: String)
    ensures
        out@ == replace_all(template@, num_placeholder(), padded(n as nat, width as nat)),
{
    let t = chars_of(template);
    let num = format_number(n, width);
    let rep = chars_of(num.as_str());
    let pat: Vec<char> = vec!['N', 'U', 'M'];
    proof {
        assert(pat@ =~= num_placeholder());
    }
    let out = replace_all_chars(&t, &pat, &rep);
    string_of(&out)
}

/// Expands `NUM` in `template` with the sequence number `start + index`.
pub fn apply_numbering(template: &str, start: u64, index: u64, width: usize) -> (out: String)
    requires
        start + index <= u64::MAX,
    ensures
        out@ == replace_all(template@, num_placeholder(), padded((start + index) as nat, width as nat)),
{
    let n = sequence_number(start, index);
    expand_num_placeholder(template, n, width)
}

// ---------------------------------------------------------------------------
// Gather / distribute names
// ---------------------------------------------------------------------------

/// The delimiter between a subfolder prefix and the original file name.
pub open spec fn delim() -> Seq<char> {
    seq!['_', '_']
}

/// `<subfolder>__<file_name>`.
pub open spec fn gathered(subfolder: Seq<char>, file_name: Seq<char>) -> Seq<char> {
    subfolder + delim() + file_name
}

/// A `__` starts at position `j` of `s`.
pub open spec fn delim_at(s: Seq<char>, j: int) -> bool {
    s[j] == '_' && s[j + 1] == '_'
}

/// Position of the first `__` at or after `i`, or -1.
pub open spec fn first_delim_from(s: Seq<char>, i: int) -> int
    decreases s.len() - i,
{
    if i < 0 || i + 1 >= s.len() {
        -1
    } else if delim_at(s, i) {
        i
    } else {
        first_delim_from(s, i + 1)
    }
}

/// Splitting a gathered name at its first `__`; `None` when there is no
/// delimiter or either side is empty.
pub open spec fn split_gathered(s: Seq<char>) -> Option<(Seq<char>, Seq<char>)> {
    let i = first_delim_from(s, 0);
    if i <= 0 || i + 2 >= s.len() {
        None
    } else {
        Some((s.take(i), s.skip(i + 2)))
    }
}

/// `<subfolder>__<file_name>`.
pub fn gather_name(subfolder: &str, file_name: &str) -> (out: String)
    ensures
        out@ == gathered(subfolder@, file_name@),
{
    let out = concat3(subfolder, "__", file_name);
    proof {
        reveal_strlit("__");
        assert("__"@ =~= delim());
    }
    out
}

fn find_first_delim(s: &[char]) -> (r: Option<usize>)
    ensures
        match r {
            Some(i) => i as int == first_delim_from(s@, 0) && i + 1 < s.len(),
            None => first_delim_from(s@, 0) == -1,
        },
{
    let mut i: usize = 0;
    while i < s.len() && i + 1 < s.len()
        invariant
            i <= s.len(),
            first_delim_from(s@, 0) == first_delim_from(s@, i as int),
        decreases s.len() - i,
    {
        if s[i] == '_' && s[i + 1] == '_' {
            return Some(i);
        }
        i += 1;
    }
    None
}

/// Splits `<prefix>__<original>` at the first `__` (see [`split_gathered`]).
pub fn split_gathered_name(name: &str) -> (r: Option<(String, String)>)
    ensures
        match r {
            Some((p, f)) => split_gathered(name@) == Some((p@, f@)),
            None => split_gathered(name@) is None,
        },
{
    let cs = chars_of(name);
    match find_first_delim(&cs) {
        None => None,
        Some(i) => {
            if i == 0 || i + 2 >= cs.len() {
                None
            } else {
                let p = slice_chars(&cs, 0, i);
                let f = slice_chars(&cs, i + 2, cs.len());
                proof {
                    assert(p@ =~= cs@.take(i as int));
                    assert(f@ =~= cs@.skip(i + 2));
                }
                Some((string_of(&p), string_of(&f)))
            }
        }
    }
}

proof fn lemma_no_delim_before(s: Seq<char>, i: int, k: int)
    requires
        0 <= i <= k,
        forall|j: int| i <= j < k ==> !#[trigger] delim_at(s, j),
        k + 1 < s.len(),
        s[k] == '_' && s[k + 1] == '_',
    ensures
        first_delim_from(s, i) == k,
    decreases k - i,
{
    if i < k {
        lemma_no_delim_before(s, i + 1, k);
    }
}

/// Gathering then splitting gives back the subfolder and the file name, for a
/// non-empty subfolder with no `__` inside and no trailing `_`, and a
/// non-empty file name.
pub proof fn law_gather_split_roundtrip(subfolder: Seq<char>, file_name: Seq<char>)
    requires
        subfolder.len() > 0,
        file_name.len() > 0,
        forall|j: int| 0 <= j < subfolder.len() - 1 ==> !#[trigger] delim_at(subfolder, j),
        subfolder.last() != '_',
    ensures
        split_gathered(gathered(subfolder, file_name)) == Some((subfolder, file_name)),
{
    let g = gathered(subfolder, file_name);
    let n = subfolder.len() as int;
    assert(g[n] == '_' && g[n + 1] == '_');
    assert forall|j: int| 0 <= j < n implies !#[trigger] delim_at(g, j) by {
        if j < n - 1 {
            assert(!delim_at(subfolder, j));
            assert(g[j] == subfolder[j] && g[j + 1] == subfolder[j + 1]);
        } else {
            assert(g[j] == subfolder.last());
        }
    }
    lemma_no_delim_before(g, 0, n);
    assert(g.take(n) =~= subfolder);
    assert(g.skip(n + 2) =~= file_name);
}

// ---------------------------------------------------------------------------
// Caption name normalisation
// ---------------------------------------------------------------------------

/// `.txt` in lower case.
pub open spec fn txt_suffix() -> Seq<char> {
    seq!['.', 't', 'x', 't']
}

/// `image.<ext>.txt` (suffix case-insensitive) normalised to `image.txt`;
/// `None` when the name is not of that shape.
pub open spec fn normalized_caption(name: Seq<char>) -> Option<Seq<char>> {
    if name.len() < 4 || !eq_ignore_case(name.skip(name.len() - 4), txt_suffix()) {
        None
    } else {
        let stem = name.take(name.len() - 4);
        match rsplit_once(stem, '.') {
            None => None,
            Some((base, ext)) => if base.len() == 0 || ext.len() == 0 {
                None
            } else {
                Some(base + txt_suffix())
            },
        }
    }
}

/// Normalises a double-extension caption name (see [`normalized_caption`]).
pub fn normalize_caption_name(name: &str) -> (r: Option<String>)
    ensures
        match r {
            Some(s) => normalized_caption(name@) == Some(s@),
            None => normalized_caption(name@) is None,
        },
{
    let cs = chars_of(name);
    if cs.len() < 4 {
        return None;
    }
    let tail = slice_chars(&cs, cs.len() - 4, cs.len());
    let txt: Vec<char> = vec!['.', 't', 'x', 't'];
    proof {
        assert(tail@ =~= cs@.skip(cs.len() - 4));
        assert(txt@ =~= txt_suffix());
    }
    if !eq_ignore_case_chars(&tail, &txt) {
        return None;
    }
    let stem = slice_chars(&cs, 0, cs.len() - 4);
    proof {
        assert(stem@ =~= cs@.take(cs.len() - 4));
    }
    match find_last(&stem, '.') {
        None => None,
        Some(i) => {
            if i == 0 || i + 1 == stem.len() {
                None
            } else {
                let mut base = slice_chars(&stem, 0, i);
                proof {
                    assert(base@ =~= stem@.take(i as int));
                }
                extend_chars(&mut base, &txt);
                Some(string_of(&base))
            }
        }
    }
}

/// A name `<base>.<ext>` followed by `.txt` in any letter case normalises to
/// `<base>.txt`, for a non-empty base and extension without dots.
pub proof fn law_normalize_double_extension(base: Seq<char>, ext: Seq<char>, suffix: Seq<char>)
    requires
        base.len() > 0,
        ext.len() > 0,
        forall|i: int| 0 <= i < base.len() ==> base[i] != '.',
        forall|i: int| 0 <= i < ext.len() ==> ext[i] != '.',
        suffix.len() == 4,
        eq_ignore_case(suffix, txt_suffix()),
    ensures
        normalized_caption(base + seq!['.'] + ext + suffix) == Some(base + txt_suffix()),
{
    let name = base + seq!['.'] + ext + suffix;
    let stem = base + seq!['.'] + ext;
    assert(name.skip(name.len() - 4) =~= suffix);
    assert(name.take(name.len() - 4) =~= stem);
    lemma_last_dot(base, ext);
    assert(stem.take(base.len() as int) =~= base);
    assert(stem.skip(base.len() as int + 1) =~= ext);
}

proof fn lemma_last_dot(base: Seq<char>, ext: Seq<char>)
    requires
        forall|i: int| 0 <= i < ext.len() ==> ext[i] != '.',
    ensures
        last_index_of(base + seq!['.'] + ext, '.') == base.len(),
    decreases ext.len(),
{
    let s = base + seq!['.'] + ext;
    if ext.len() == 0 {
        assert(s.last() == '.');
    } else {
        lemma_last_dot(base, ext.drop_last());
        assert(s.drop_last() =~= base + seq!['.'] + ext.drop_last());
    }
}

} // verus!
