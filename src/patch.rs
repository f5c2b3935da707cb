//! Insertion of the identifier field into records that lack it.

use vstd::prelude::*;
use crate::index::DexIndex;
use crate::normalize::{normalize_chars, spec_normalize};
use crate::record::{
    first_dex_exec, first_name_exec, lemma_first_name_bounds, spec_dex_ids, spec_name_en,
};
use crate::text::{
    chars_of, contains_lit, copy_range, find_char, find_char_exec, find_lit, find_lit_exec, lit_at,
    lit_at_exec, skip_ws, skip_ws_exec, string_of,
};

verus! {

/// The path fragment of the product line that is never patched.
pub open spec fn excluded_marker() -> Seq<char> {
    seq!['P', 'o', 'k', '\u{e9}', 'm', 'o', 'n', ' ', 'T', 'C', 'G', ' ', 'P', 'o', 'c', 'k', 'e', 't']
}

pub open spec fn stage_lit() -> Seq<char> {
    seq!['s', 't', 'a', 'g', 'e', ':']
}

pub open spec fn attacks_lit() -> Seq<char> {
    seq!['\t', 'a', 't', 't', 'a', 'c', 'k', 's', ':']
}

pub open spec fn spec_is_excluded(path: Seq<char>) -> bool {
    contains_lit(path, excluded_marker())
}

/// A line `stage: "<value>",` at position `i`: the position after its
/// line break.
pub open spec fn stage_match_at(s: Seq<char>, i: int) -> Option<int> {
    if lit_at(s, i, stage_lit()) {
        let q = skip_ws(s, i + 6);
        if q < s.len() && s[q] == '"' {
            let e = find_char(s, q + 1, '"');
            if e > q + 1 && e + 2 < s.len() && s[e + 1] == ',' && s[e + 2] == '\n' {
                Some(e + 3)
            } else {
                None
            }
        } else {
            None
        }
    } else {
        None
    }
}

/// The stage match that starts first at or after `i`.
pub open spec fn first_stage_from(s: Seq<char>, i: int) -> Option<int>
    decreases s.len() - i,
{
    if i < 0 || i >= s.len() {
        None
    } else {
        match stage_match_at(s, i) {
            Some(e) => Some(e),
            None => first_stage_from(s, i + 1),
        }
    }
}

/// Where the identifier line goes: after the first `stage` line, else
/// before the first tab-indented `attacks:`.
pub open spec fn insertion_point(s: Seq<char>) -> Option<int> {
    match first_stage_from(s, 0) {
        Some(e) => Some(e),
        None => find_lit(s, 0, attacks_lit()),
    }
}

pub open spec fn digit_chars() -> Seq<char> {
    seq!['0', '1', '2', '3', '4', '5', '6', '7', '8', '9']
}

/// Decimal digits of `n`, without leading zeros.
pub open spec fn dec_nat(n: nat) -> Seq<char>
    decreases n,
{
    if n < 10 {
        seq![digit_chars()[n as int]]
    } else {
        dec_nat(n / 10) + seq![digit_chars()[(n % 10) as int]]
    }
}

/// Decimal rendering of an integer, with `-` before a negative one.
pub open spec fn dec_int(v: int) -> Seq<char> {
    if v < 0 {
        seq!['-'] + dec_nat((-v) as nat)
    } else {
        dec_nat(v as nat)
    }
}

/// The identifiers in decimal, separated by `, `.
pub open spec fn join_ids(ids: Seq<i32>) -> Seq<char>
    decreases ids.len(),
{
    if ids.len() == 0 {
        Seq::empty()
    } else if ids.len() == 1 {
        dec_int(ids[0] as int)
    } else {
        join_ids(ids.drop_last()) + seq![',', ' '] + dec_int(ids.last() as int)
    }
}

/// The inserted line, without its line break: `\tdexId: [<ids>],`.
pub open spec fn dex_line(ids: Seq<i32>) -> Seq<char> {
    seq!['\t', 'd', 'e', 'x', 'I', 'd', ':', ' ', '['] + join_ids(ids) + seq![']', ',']
}

/// `s` with `line` and a line break inserted at position `p`.
pub open spec fn insert_line(s: Seq<char>, p: int, line: Seq<char>) -> Seq<char> {
    s.subrange(0, p) + line + seq!['\n'] + s.subrange(p, s.len() as int)
}

/// The text with the identifier line at its insertion point, or the text
/// as it is where it has none.
pub open spec fn spec_add_dex_id(s: Seq<char>, ids: Seq<i32>) -> Seq<char> {
    match insertion_point(s) {
        Some(p) => insert_line(s, p, dex_line(ids)),
        None => s,
    }
}

/// What the patch pass makes of one record: the new text, or `None` where
/// the file stays as it is.
pub open spec fn spec_patch(path: Seq<char>, text: Seq<char>, idx: Map<Seq<char>, Seq<i32>>) -> Option<Seq<char>> {
    if spec_is_excluded(path) || spec_dex_ids(text) is Some {
        None
    } else {
        match spec_name_en(text) {
            None => None,
            Some(n) => {
                let k = spec_normalize(n);
                if idx.dom().contains(k) {
                    match insertion_point(text) {
                        Some(p) => Some(insert_line(text, p, dex_line(idx[k]))),
                        None => None,
                    }
                } else {
                    None
                }
            },
        }
    }
}

fn stage_match_at_exec(s: &Vec<char>, i: usize, stage: &Vec<char>) -> (r: Option<usize>)
    requires
        stage@ == stage_lit(),
    ensures
        r matches Some(e) ==> stage_match_at(s@, i as int) == Some(e as int),
        r is None ==> stage_match_at(s@, i as int) is None,
{
    if !lit_at_exec(s, i, stage) {
        return None;
    }
    let n: usize = s.len();
    assert(stage_lit().len() == 6);
    let q = skip_ws_exec(s, i + 6);
    if q < n && s[q] == '"' {
        let e = find_char_exec(s, q + 1, '"');
        if e > q + 1 && e < n && n - e > 2 && s[e + 1] == ',' && s[e + 2] == '\n' {
            return Some(e + 3);
        }
    }
    None
}

fn insertion_point_exec(s: &Vec<char>) -> (r: Option<usize>)
    ensures
        r matches Some(p) ==> insertion_point(s@) == Some(p as int) && p <= s.len(),
        r is None ==> insertion_point(s@) is None,
{
    let stage = vec!['s', 't', 'a', 'g', 'e', ':'];
    let mut i: usize = 0;
    while i < s.len()
        invariant
            i <= s.len(),
            stage@ == stage_lit(),
            first_stage_from(s@, 0) == first_stage_from(s@, i as int),
        decreases s.len() - i,
    {
        let r = stage_match_at_exec(s, i, &stage);
        if let Some(e) = r {
            proof {
                lemma_stage_end_le(s@, i as int);
            }
            return r;
        }
        i = i + 1;
    }
    let attacks = vec!['\t', 'a', 't', 't', 'a', 'c', 'k', 's', ':'];
    let a = find_lit_exec(s, 0, &attacks);
    proof {
        lemma_find_lit_le(s@, 0, attacks_lit());
    }
    a
}

proof fn lemma_stage_end_le(s: Seq<char>, i: int)
    ensures
        stage_match_at(s, i) matches Some(e) ==> e <= s.len(),
{
}

/// A literal found at or after `i` starts inside the text.
pub proof fn lemma_find_lit_le(s: Seq<char>, i: int, lit: Seq<char>)
    ensures
        find_lit(s, i, lit) matches Some(p) ==> i <= p < s.len(),
    decreases s.len() - i,
{
    if 0 <= i < s.len() && !lit_at(s, i, lit) {
        lemma_find_lit_le(s, i + 1, lit);
    }
}

/// Appends the decimal digits of `n`.
fn push_dec_nat(out: &mut Vec<char>, n: u32)
    ensures
        final(out)@ == old(out)@ + dec_nat(n as nat),
    decreases n,
{
    let digits = vec!['0', '1', '2', '3', '4', '5', '6', '7', '8', '9'];
    if n >= 10 {
        push_dec_nat(out, n / 10);
    }
    let d = (n % 10) as usize;
    out.push(digits[d]);
    proof {
        if n < 10 {
            assert(n % 10 == n);
        }
    }
    assert(final(out)@ =~= old(out)@ + dec_nat(n as nat));
}

/// Appends the decimal rendering of `v`.
fn push_dec_int(out: &mut Vec<char>, v: i32)
    ensures
        final(out)@ == old(out)@ + dec_int(v as int),
{
    if v < 0 {
        out.push('-');
        let m = (0 - (v as i64)) as u32;
        push_dec_nat(out, m);
        assert(final(out)@ =~= old(out)@ + dec_int(v as int));
    } else {
        push_dec_nat(out, v as u32);
    }
}

fn dex_line_exec(ids: &[i32]) -> (r: Vec<char>)
    ensures
        r@ == dex_line(ids@),
{
    let mut out = vec!['\t', 'd', 'e', 'x', 'I', 'd', ':', ' ', '['];
    let ghost head = out@;
    let mut k: usize = 0;
    while k < ids.len()
        invariant
            k <= ids.len(),
            head == seq!['\t', 'd', 'e', 'x', 'I', 'd', ':', ' ', '['],
            out@ == head + join_ids(ids@.subrange(0, k as int)),
        decreases ids.len() - k,
    {
        if k > 0 {
            out.push(',');
            out.push(' ');
        }
        push_dec_int(&mut out, ids[k]);
        assert(ids@.subrange(0, k + 1).drop_last() =~= ids@.subrange(0, k as int));
        if k == 0 {
            assert(join_ids(ids@.subrange(0, 0)) =~= Seq::<char>::empty());
            assert(out@ =~= head + join_ids(ids@.subrange(0, k + 1)));
        } else {
            assert(out@ =~= head + join_ids(ids@.subrange(0, k + 1)));
        }
        k = k + 1;
    }
    out.push(']');
    out.push(',');
    assert(ids@.subrange(0, ids@.len() as int) =~= ids@);
    assert(out@ =~= dex_line(ids@));
    out
}

fn insert_line_exec(s: &Vec<char>, p: usize, line: &Vec<char>) -> (r: Vec<char>)
    requires
        p <= s.len(),
    ensures
        r@ == insert_line(s@, p as int, line@),
{
    let mut out = copy_range(s, 0, p);
    let mut k: usize = 0;
    while k < line.len()
        invariant
            k <= line.len(),
            p <= s.len(),
            out@ == s@.subrange(0, p as int) + line@.subrange(0, k as int),
        decreases line.len() - k,
    {
        out.push(line[k]);
        assert(out@ =~= s@.subrange(0, p as int) + line@.subrange(0, k + 1));
        k = k + 1;
    }
    out.push('\n');
    let mut j: usize = p;
    let ghost head = s@.subrange(0, p as int) + line@ + seq!['\n'];
    assert(out@ =~= head + s@.subrange(p as int, p as int));
    while j < s.len()
        invariant
            p <= j <= s.len(),
            out@ == head + s@.subrange(p as int, j as int),
        decreases s.len() - j,
    {
        out.push(s[j]);
        assert(out@ =~= head + s@.subrange(p as int, j + 1));
        j = j + 1;
    }
    out
}

/// Returns the text with the line `\tdexId: [<ids>],` inserted directly
/// after the first `stage: "<value>",` line, or else directly before the
/// first tab-indented `attacks:`; where the text has neither, it comes
/// back as it is.
pub fn add_dex_id(content: &str, dex_id: &[i32]) -> (r: String)
    ensures
        r@ == spec_add_dex_id(content@, dex_id@),
{
    let s = chars_of(content);
    match insertion_point_exec(&s) {
        Some(p) => {
            let line = dex_line_exec(dex_id);
            let out = insert_line_exec(&s, p, &line);
            string_of(&out)
        },
        None => string_of(&s),
    }
}

/// Whether a path lies under the product line that is never patched.
pub fn is_excluded(path: &str) -> (r: bool)
    ensures
        r == spec_is_excluded(path@),
{
    let p = chars_of(path);
    let marker = vec!['P', 'o', 'k', '\u{e9}', 'm', 'o', 'n', ' ', 'T', 'C', 'G', ' ', 'P', 'o', 'c', 'k', 'e', 't'];
    find_lit_exec(&p, 0, &marker).is_some()
}

/// Returns the new text of a record that lacks identifiers, where its
/// normalized name is in the index and its text has an insertion point;
/// `None` where the record stays as it is.
pub fn patch_record(path: &str, content: &str, index: &DexIndex) -> (r: Option<String>)
    requires
        index.wf(),
    ensures
        r matches Some(t) ==> spec_patch(path@, content@, index@) == Some(t@),
        r is None ==> spec_patch(path@, content@, index@) is None,
{
    if is_excluded(path) {
        return None;
    }
    let s = chars_of(content);
    if first_dex_exec(&s).is_some() {
        return None;
    }
    let (a, b) = match first_name_exec(&s) {
        Some(ab) => ab,
        None => {
            return None;
        },
    };
    proof {
        lemma_first_name_bounds(s@, 0);
    }
    let name = copy_range(&s, a, b);
    let key = string_of(&normalize_chars(name));
    let ids = match index.get(&key) {
        Some(v) => v,
        None => {
            return None;
        },
    };
    match insertion_point_exec(&s) {
        Some(p) => {
            let line = dex_line_exec(ids.as_slice());
            let out = insert_line_exec(&s, p, &line);
            Some(string_of(&out))
        },
        None => None,
    }
}

} // verus!
