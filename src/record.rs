//! Extraction of the display name and the identifier list from record text.

use vstd::prelude::*;
use crate::text::{
    chars_of, copy_range, find_char, find_char_exec, is_ws, is_ws_char, lemma_find_char_ge, lemma_skip_ws_ge,
    lit_at, lit_at_exec, skip_ws, skip_ws_exec, string_of,
};

verus! {

/// A data file: where it lies and what it holds.
pub struct Record {
    pub path: String,
    pub text: String,
}

pub open spec fn name_lit() -> Seq<char> {
    seq!['n', 'a', 'm', 'e', ':']
}

pub open spec fn en_lit() -> Seq<char> {
    seq!['e', 'n', ':']
}

pub open spec fn dex_lit() -> Seq<char> {
    seq!['d', 'e', 'x', 'I', 'd', ':']
}

/// `en: "<value>"` at position `k`: the bounds of the non-empty value.
pub open spec fn en_value_at(s: Seq<char>, k: int) -> Option<(int, int)> {
    if lit_at(s, k, en_lit()) {
        let q = skip_ws(s, k + 3);
        if q < s.len() && s[q] == '"' {
            let e = find_char(s, q + 1, '"');
            if e < s.len() && e > q + 1 {
                Some((q + 1, e))
            } else {
                None
            }
        } else {
            None
        }
    } else {
        None
    }
}

/// The `en:` value that starts last among positions in `lo .. hi`.
pub open spec fn last_en_below(s: Seq<char>, lo: int, hi: int) -> Option<(int, int)>
    decreases hi - lo,
{
    if hi <= lo {
        None
    } else {
        match en_value_at(s, hi - 1) {
            Some(r) => Some(r),
            None => last_en_below(s, lo, hi - 1),
        }
    }
}

/// `name: { ... en: "<value>"` at position `i`, where the braces' content
/// before `en:` holds no `}`. The run of non-`}` characters is taken as long
/// as possible, so the last `en:` before the first `}` is the one that counts
/// (a `}` at the end of the run cannot start `en:`).
pub open spec fn name_match_at(s: Seq<char>, i: int) -> Option<(int, int)> {
    if lit_at(s, i, name_lit()) {
        let b = skip_ws(s, i + 5);
        if b < s.len() && s[b] == '{' {
            last_en_below(s, b + 1, find_char(s, b + 1, '}'))
        } else {
            None
        }
    } else {
        None
    }
}

/// The display-name match that starts first at or after `i`.
pub open spec fn first_name_from(s: Seq<char>, i: int) -> Option<(int, int)>
    decreases s.len() - i,
{
    if i < 0 || i >= s.len() {
        None
    } else {
        match name_match_at(s, i) {
            Some(r) => Some(r),
            None => first_name_from(s, i + 1),
        }
    }
}

/// The English display name of a record, if its text has one.
pub open spec fn spec_name_en(s: Seq<char>) -> Option<Seq<char>> {
    match first_name_from(s, 0) {
        Some((a, b)) => Some(s.subrange(a, b)),
        None => None,
    }
}

/// `dexId: [<tokens>]` at position `i`: the bounds of the non-empty tokens.
pub open spec fn dex_match_at(s: Seq<char>, i: int) -> Option<(int, int)> {
    if lit_at(s, i, dex_lit()) {
        let b = skip_ws(s, i + 6);
        if b < s.len() && s[b] == '[' {
            let e = find_char(s, b + 1, ']');
            if e < s.len() && e > b + 1 {
                Some((b + 1, e))
            } else {
                None
            }
        } else {
            None
        }
    } else {
        None
    }
}

/// The identifier-list match that starts first at or after `i`.
pub open spec fn first_dex_from(s: Seq<char>, i: int) -> Option<(int, int)>
    decreases s.len() - i,
{
    if i < 0 || i >= s.len() {
        None
    } else {
        match dex_match_at(s, i) {
            Some(r) => Some(r),
            None => first_dex_from(s, i + 1),
        }
    }
}

pub open spec fn is_digit(c: char) -> bool {
    '0' <= c && c <= '9'
}

pub open spec fn digit_value(c: char) -> int {
    (c as u32) as int - ('0' as u32) as int
}

/// The number that a run of decimal digits spells.
pub open spec fn digits_value(t: Seq<char>) -> int
    decreases t.len(),
{
    if t.len() == 0 {
        0
    } else {
        digits_value(t.drop_last()) * 10 + digit_value(t.last())
    }
}

/// `t` without its leading sign, if it has one.
pub open spec fn unsigned_part(t: Seq<char>) -> Seq<char> {
    if t.len() > 0 && (t[0] == '-' || t[0] == '+') {
        t.subrange(1, t.len() as int)
    } else {
        t
    }
}

pub open spec fn all_digits(t: Seq<char>) -> bool {
    forall|j: int| 0 <= j < t.len() ==> is_digit(#[trigger] t[j])
}

/// What `i32::from_str` accepts: an optional sign, then one or more decimal
/// digits whose value fits.
pub open spec fn parse_i32(t: Seq<char>) -> Option<i32> {
    let body = unsigned_part(t);
    let v = if t.len() > 0 && t[0] == '-' {
        -digits_value(body)
    } else {
        digits_value(body)
    };
    if body.len() > 0 && all_digits(body) && i32::MIN <= v <= i32::MAX {
        Some(v as i32)
    } else {
        None
    }
}

/// Start of `s[a..b]` with leading whitespace removed.
pub open spec fn trim_start(s: Seq<char>, a: int, b: int) -> int
    decreases b - a,
{
    if a < b && is_ws(s[a]) {
        trim_start(s, a + 1, b)
    } else {
        a
    }
}

/// End of `s[a..b]` with trailing whitespace removed.
pub open spec fn trim_end(s: Seq<char>, a: int, b: int) -> int
    decreases b - a,
{
    if a < b && is_ws(s[b - 1]) {
        trim_end(s, a, b - 1)
    } else {
        b
    }
}

/// The integer that the token `s[a..b]` holds once trimmed, if any.
pub open spec fn parse_token(s: Seq<char>, a: int, b: int) -> Seq<i32> {
    let lo = trim_start(s, a, b);
    let hi = trim_end(s, lo, b);
    match parse_i32(s.subrange(lo, hi)) {
        Some(v) => seq![v],
        None => Seq::empty(),
    }
}

/// The integers of the comma-separated tokens in `s[a..b]`, in order, with
/// the tokens that are no integer left out.
pub open spec fn parse_list(s: Seq<char>, a: int, b: int) -> Seq<i32>
    decreases b - a,
{
    let c = find_char(s, a, ',');
    if a <= c && c < b {
        parse_token(s, a, c) + parse_list(s, c + 1, b)
    } else {
        parse_token(s, a, b)
    }
}

/// The identifier list of a record, if its text has the field.
pub open spec fn spec_dex_ids(s: Seq<char>) -> Option<Seq<i32>> {
    match first_dex_from(s, 0) {
        Some((a, b)) => Some(parse_list(s, a, b)),
        None => None,
    }
}

fn name_lit_vec() -> (r: Vec<char>)
    ensures
        r@ == name_lit(),
{
    vec!['n', 'a', 'm', 'e', ':']
}

fn en_lit_vec() -> (r: Vec<char>)
    ensures
        r@ == en_lit(),
{
    vec!['e', 'n', ':']
}

fn dex_lit_vec() -> (r: Vec<char>)
    ensures
        r@ == dex_lit(),
{
    vec!['d', 'e', 'x', 'I', 'd', ':']
}

fn en_value_at_exec(s: &Vec<char>, k: usize, en: &Vec<char>) -> (r: Option<(usize, usize)>)
    requires
        en@ == en_lit(),
    ensures
        r matches Some((a, b)) ==> en_value_at(s@, k as int) == Some((a as int, b as int)),
        r is None ==> en_value_at(s@, k as int) is None,
{
    if !lit_at_exec(s, k, en) {
        return None;
    }
    let n: usize = s.len();
    assert(en_lit().len() == 3);
    let q = skip_ws_exec(s, k + 3);
    if q < s.len() && s[q] == '"' {
        let e = find_char_exec(s, q + 1, '"');
        if e < s.len() && e > q + 1 {
            return Some((q + 1, e));
        }
    }
    None
}

fn name_match_at_exec(s: &Vec<char>, i: usize, name: &Vec<char>, en: &Vec<char>) -> (r: Option<(usize, usize)>)
    requires
        name@ == name_lit(),
        en@ == en_lit(),
    ensures
        r matches Some((a, b)) ==> name_match_at(s@, i as int) == Some((a as int, b as int)),
        r is None ==> name_match_at(s@, i as int) is None,
{
    if !lit_at_exec(s, i, name) {
        return None;
    }
    let n: usize = s.len();
    assert(name_lit().len() == 5);
    let b = skip_ws_exec(s, i + 5);
    if !(b < s.len() && s[b] == '{') {
        return None;
    }
    let p = find_char_exec(s, b + 1, '}');
    let mut k = p;
    while k > b + 1
        invariant
            b + 1 <= k <= p <= s.len(),
            en@ == en_lit(),
            last_en_below(s@, b + 1, p as int) == last_en_below(s@, b + 1, k as int),
            name_match_at(s@, i as int) == last_en_below(s@, b + 1, p as int),
        decreases k,
    {
        let r = en_value_at_exec(s, k - 1, en);
        if r.is_some() {
            return r;
        }
        k = k - 1;
    }
    None
}

pub(crate) fn first_name_exec(s: &Vec<char>) -> (r: Option<(usize, usize)>)
    ensures
        r matches Some((a, b)) ==> first_name_from(s@, 0) == Some((a as int, b as int)),
        r is None ==> first_name_from(s@, 0) is None,
{
    let name = name_lit_vec();
    let en = en_lit_vec();
    let mut i: usize = 0;
    while i < s.len()
        invariant
            i <= s.len(),
            name@ == name_lit(),
            en@ == en_lit(),
            first_name_from(s@, 0) == first_name_from(s@, i as int),
        decreases s.len() - i,
    {
        let r = name_match_at_exec(s, i, &name, &en);
        if r.is_some() {
            return r;
        }
        i = i + 1;
    }
    None
}

fn dex_match_at_exec(s: &Vec<char>, i: usize, dex: &Vec<char>) -> (r: Option<(usize, usize)>)
    requires
        dex@ == dex_lit(),
    ensures
        r matches Some((a, b)) ==> dex_match_at(s@, i as int) == Some((a as int, b as int)),
        r is None ==> dex_match_at(s@, i as int) is None,
{
    if !lit_at_exec(s, i, dex) {
        return None;
    }
    let n: usize = s.len();
    assert(dex_lit().len() == 6);
    let b = skip_ws_exec(s, i + 6);
    if b < n && s[b] == '[' {
        let e = find_char_exec(s, b + 1, ']');
        if e < n && e > b + 1 {
            return Some((b + 1, e));
        }
    }
    None
}

pub(crate) fn first_dex_exec(s: &Vec<char>) -> (r: Option<(usize, usize)>)
    ensures
        r matches Some((a, b)) ==> first_dex_from(s@, 0) == Some((a as int, b as int)),
        r is None ==> first_dex_from(s@, 0) is None,
{
    let dex = dex_lit_vec();
    let mut i: usize = 0;
    while i < s.len()
        invariant
            i <= s.len(),
            dex@ == dex_lit(),
            first_dex_from(s@, 0) == first_dex_from(s@, i as int),
        decreases s.len() - i,
    {
        let r = dex_match_at_exec(s, i, &dex);
        if r.is_some() {
            return r;
        }
        i = i + 1;
    }
    None
}

/// Parses `s[lo..hi]` as `i32::from_str` does.
fn parse_i32_range(s: &Vec<char>, lo: usize, hi: usize) -> (r: Option<i32>)
    requires
        lo <= hi <= s.len(),
    ensures
        r == parse_i32(s@.subrange(lo as int, hi as int)),
{
    let ghost t = s@.subrange(lo as int, hi as int);
    if lo == hi {
        return None;
    }
    let neg = s[lo] == '-';
    let start: usize = if s[lo] == '-' || s[lo] == '+' {
        lo + 1
    } else {
        lo
    };
    let ghost body = s@.subrange(start as int, hi as int);
    assert(t.len() > 0 && t[0] == s@[lo as int]);
    assert(body =~= unsigned_part(t));
    if start == hi {
        return None;
    }
    let mut acc: u64 = 0;
    let mut big = false;
    let mut k: usize = start;
    while k < hi
        invariant
            lo <= start < hi <= s.len(),
            start <= k <= hi,
            body == s@.subrange(start as int, hi as int),
            body == unsigned_part(s@.subrange(lo as int, hi as int)),
            forall|j: int| start <= j < k ==> is_digit(#[trigger] s@[j]),
            !big ==> acc as int == digits_value(s@.subrange(start as int, k as int)),
            !big ==> acc <= 2147483648,
            big ==> digits_value(s@.subrange(start as int, k as int)) > 2147483648,
        decreases hi - k,
    {
        let c = s[k];
        if !('0' <= c && c <= '9') {
            assert(body[k - start] == c);
            return None;
        }
        let d = (c as u32 - '0' as u32) as u64;
        assert(s@.subrange(start as int, k + 1).drop_last() =~= s@.subrange(start as int, k as int));
        if !big {
            let next = acc * 10 + d;
            if next > 2147483648 {
                big = true;
            } else {
                acc = next;
            }
        }
        k = k + 1;
    }
    assert(s@.subrange(start as int, k as int) =~= body);
    assert(all_digits(body)) by {
        assert(forall|j: int| 0 <= j < body.len() ==> body[j] == s@[start + j]);
    }
    if big {
        None
    } else if neg {
        Some((0 - acc as i64) as i32)
    } else if acc <= 2147483647 {
        Some(acc as i32)
    } else {
        None
    }
}

fn trim_start_exec(s: &Vec<char>, a: usize, b: usize) -> (r: usize)
    requires
        a <= b <= s.len(),
    ensures
        r == trim_start(s@, a as int, b as int),
        a <= r <= b,
{
    let mut k = a;
    while k < b && is_ws_char(s[k])
        invariant
            a <= k <= b <= s.len(),
            trim_start(s@, a as int, b as int) == trim_start(s@, k as int, b as int),
        decreases b - k,
    {
        k = k + 1;
    }
    k
}

fn trim_end_exec(s: &Vec<char>, a: usize, b: usize) -> (r: usize)
    requires
        a <= b <= s.len(),
    ensures
        r == trim_end(s@, a as int, b as int),
        a <= r <= b,
{
    let mut k = b;
    while k > a && is_ws_char(s[k - 1])
        invariant
            a <= k <= b <= s.len(),
            trim_end(s@, a as int, b as int) == trim_end(s@, a as int, k as int),
        decreases k - a,
    {
        k = k - 1;
    }
    k
}

fn parse_list_exec(s: &Vec<char>, a: usize, b: usize) -> (r: Vec<i32>)
    requires
        a <= b <= s.len(),
    ensures
        r@ == parse_list(s@, a as int, b as int),
{
    let mut out: Vec<i32> = Vec::new();
    let mut pos = a;
    loop
        invariant
            a <= pos <= b <= s.len(),
            out@ + parse_list(s@, pos as int, b as int) == parse_list(s@, a as int, b as int),
        decreases b - pos,
    {
        let c = find_char_exec(s, pos, ',');
        let end = if c < b {
            c
        } else {
            b
        };
        let lo = trim_start_exec(s, pos, end);
        let hi = trim_end_exec(s, lo, end);
        let v = parse_i32_range(s, lo, hi);
        let ghost before = out@;
        match v {
            Some(x) => out.push(x),
            None => {},
        }
        assert(out@ == before + parse_token(s@, pos as int, end as int));
        if c < b {
            assert(parse_list(s@, pos as int, b as int) == parse_token(s@, pos as int, c as int)
                + parse_list(s@, c + 1, b as int));
            assert(before + parse_list(s@, pos as int, b as int) =~= out@ + parse_list(s@, c + 1, b as int));
            pos = c + 1;
        } else {
            assert(out@ =~= out@ + Seq::<i32>::empty());
            return out;
        }
    }
}

/// Returns the English display name: the value of the first
/// `name: { ... en: "<value>"` field of the text.
pub fn extract_name_en(content: &str) -> (r: Option<String>)
    ensures
        r matches Some(n) ==> spec_name_en(content@) == Some(n@),
        r is None ==> spec_name_en(content@) is None,
{
    let s = chars_of(content);
    match first_name_exec(&s) {
        Some((a, b)) => {
            proof {
                lemma_first_name_bounds(s@, 0);
            }
            let v = copy_range(&s, a, b);
            Some(string_of(&v))
        },
        None => None,
    }
}

/// Returns the identifiers of the first `dexId: [ ... ]` field of the text:
/// its comma-separated tokens, trimmed, that parse as `i32`, in order.
/// A field whose tokens all fail to parse gives an empty list.
pub fn extract_dex_id(content: &str) -> (r: Option<Vec<i32>>)
    ensures
        r matches Some(v) ==> spec_dex_ids(content@) == Some(v@),
        r is None ==> spec_dex_ids(content@) is None,
{
    let s = chars_of(content);
    match first_dex_exec(&s) {
        Some((a, b)) => {
            proof {
                lemma_first_dex_bounds(s@, 0);
            }
            Some(parse_list_exec(&s, a, b))
        },
        None => None,
    }
}

/// A name match lies inside the text.
pub proof fn lemma_first_name_bounds(s: Seq<char>, i: int)
    ensures
        first_name_from(s, i) matches Some((a, b)) ==> 0 <= a <= b <= s.len(),
    decreases s.len() - i,
{
    if 0 <= i < s.len() && name_match_at(s, i) is None {
        lemma_first_name_bounds(s, i + 1);
    }
    if 0 <= i < s.len() && name_match_at(s, i) is Some {
        lemma_name_match_bounds(s, i);
    }
}

proof fn lemma_name_match_bounds(s: Seq<char>, i: int)
    ensures
        name_match_at(s, i) matches Some((a, b)) ==> 0 <= a <= b <= s.len(),
{
    if lit_at(s, i, name_lit()) {
        let b = skip_ws(s, i + 5);
        if b < s.len() && s[b] == '{' {
            lemma_last_en_bounds(s, b + 1, find_char(s, b + 1, '}'));
        }
    }
}

proof fn lemma_last_en_bounds(s: Seq<char>, lo: int, hi: int)
    ensures
        last_en_below(s, lo, hi) matches Some((a, b)) ==> 0 <= a <= b <= s.len(),
    decreases hi - lo,
{
    if hi > lo {
        lemma_en_bounds(s, hi - 1);
        lemma_last_en_bounds(s, lo, hi - 1);
    }
}

proof fn lemma_en_bounds(s: Seq<char>, k: int)
    ensures
        en_value_at(s, k) matches Some((a, b)) ==> 0 <= a <= b <= s.len(),
{
    if lit_at(s, k, en_lit()) {
        let q = skip_ws(s, k + 3);
        lemma_skip_ws_ge(s, k + 3);
        if q < s.len() && s[q] == '"' {
            lemma_find_char_ge(s, q + 1, '"');
        }
    }
}

proof fn lemma_first_dex_bounds(s: Seq<char>, i: int)
    ensures
        first_dex_from(s, i) matches Some((a, b)) ==> 0 <= a <= b <= s.len(),
    decreases s.len() - i,
{
    if 0 <= i < s.len() {
        if dex_match_at(s, i) is None {
            lemma_first_dex_bounds(s, i + 1);
        } else if lit_at(s, i, dex_lit()) {
            lemma_skip_ws_ge(s, i + 6);
            let b = skip_ws(s, i + 6);
            lemma_find_char_ge(s, b + 1, ']');
        }
    }
}

} // verus!
