//! Properties that relate the parser, the index and the patch pass.

use vstd::prelude::*;
use crate::corpus::index_of;
use crate::index::DexIndex;
use crate::patch::{
    attacks_lit, dec_nat, dex_line, first_stage_from, insert_line,
    insertion_point, join_ids, lemma_find_lit_le, spec_add_dex_id, spec_is_excluded, spec_patch,
};
use crate::record::{dex_lit, dex_match_at, first_dex_from, spec_dex_ids, spec_name_en};
use crate::text::{find_char, find_lit, is_ws, lemma_skip_ws_ge, lit_at, skip_ws};

verus! {

/// The record's text has a display name and a non-empty identifier list.
pub open spec fn gives_entry(t: Seq<char>) -> bool {
    spec_name_en(t) is Some && spec_dex_ids(t) is Some && spec_dex_ids(t)->0.len() > 0
}

/// A record with a display name and a non-empty identifier list has that
/// list, in its order, under its name in the index, unless a later record
/// of the same name with a non-empty list overwrites it.
pub proof fn lemma_index_keeps_record(texts: Seq<Seq<char>>, i: int)
    requires
        0 <= i < texts.len(),
        gives_entry(texts[i]),
        forall|j: int|
            i < j < texts.len() ==> !(gives_entry(#[trigger] texts[j]) && spec_name_en(texts[j])
                == spec_name_en(texts[i])),
    ensures
        index_of(texts).dom().contains(spec_name_en(texts[i])->0),
        index_of(texts)[spec_name_en(texts[i])->0] == spec_dex_ids(texts[i])->0,
    decreases texts.len(),
{
    if i < texts.len() - 1 {
        let d = texts.drop_last();
        assert(d[i] == texts[i]);
        assert forall|j: int| i < j < d.len() implies !(gives_entry(#[trigger] d[j]) && spec_name_en(d[j])
            == spec_name_en(d[i])) by {
            assert(d[j] == texts[j]);
        }
        lemma_index_keeps_record(d, i);
        assert(texts.last() == texts[texts.len() - 1]);
    }
}

proof fn lemma_dec_nat_shape(n: nat)
    ensures
        dec_nat(n).len() > 0,
        forall|m: int| 0 <= m < dec_nat(n).len() ==> dec_nat(n)[m] != ']',
    decreases n,
{
    if n >= 10 {
        lemma_dec_nat_shape(n / 10);
    }
}

proof fn lemma_join_shape(ids: Seq<i32>)
    ensures
        ids.len() > 0 ==> join_ids(ids).len() > 0,
        forall|m: int| 0 <= m < join_ids(ids).len() ==> join_ids(ids)[m] != ']',
    decreases ids.len(),
{
    if ids.len() > 0 {
        let v = ids.last() as int;
        if v < 0 {
            lemma_dec_nat_shape((-v) as nat);
        } else {
            lemma_dec_nat_shape(v as nat);
        }
        if ids.len() == 1 {
            assert(ids.last() == ids[0]);
        } else {
            lemma_join_shape(ids.drop_last());
        }
    }
}

proof fn lemma_find_char_at(s: Seq<char>, i: int, e: int, c: char)
    requires
        0 <= i <= e < s.len(),
        s[e] == c,
        forall|m: int| i <= m < e ==> s[m] != c,
    ensures
        find_char(s, i, c) == e,
    decreases e - i,
{
    if i < e {
        lemma_find_char_at(s, i + 1, e, c);
    }
}

proof fn lemma_first_dex_found(s: Seq<char>, i: int, j: int)
    requires
        0 <= i <= j < s.len(),
        dex_match_at(s, j) is Some,
    ensures
        first_dex_from(s, i) is Some,
    decreases j - i,
{
    if i < j && dex_match_at(s, i) is None {
        lemma_first_dex_found(s, i + 1, j);
    }
}

/// Inserting an identifier line of a non-empty list gives the text an
/// identifier field.
pub proof fn lemma_inserted_line_is_found(s: Seq<char>, p: int, ids: Seq<i32>)
    requires
        0 <= p <= s.len(),
        ids.len() > 0,
    ensures
        spec_dex_ids(insert_line(s, p, dex_line(ids))) is Some,
{
    let t = insert_line(s, p, dex_line(ids));
    let j = join_ids(ids);
    lemma_join_shape(ids);
    let line = dex_line(ids);
    assert(line.len() == 11 + j.len());
    assert forall|m: int| 0 <= m < line.len() implies t[p + m] == line[m] by {}
    assert(t.subrange(p + 1, p + 7) =~= dex_lit());
    assert(lit_at(t, p + 1, dex_lit()));
    assert(t[p + 7] == ' ' && is_ws(t[p + 7]));
    assert(t[p + 8] == '[' && !is_ws(t[p + 8]));
    assert(skip_ws(t, p + 8) == p + 8);
    assert(skip_ws(t, p + 7) == p + 8);
    assert forall|m: int| p + 9 <= m < p + 9 + j.len() implies t[m] != ']' by {
        assert(t[m] == line[m - p]);
        assert(line[m - p] == j[m - p - 9]);
    }
    assert(t[p + 9 + j.len()] == line[9 + j.len() as int]);
    lemma_find_char_at(t, p + 9, p + 9 + j.len(), ']');
    assert(dex_match_at(t, p + 1) is Some);
    lemma_first_dex_found(t, 0, p + 1);
}

proof fn lemma_first_stage_le(s: Seq<char>, i: int)
    ensures
        first_stage_from(s, i) matches Some(e) ==> 0 <= e <= s.len(),
    decreases s.len() - i,
{
    if 0 <= i < s.len() {
        if crate::patch::stage_match_at(s, i) is None {
            lemma_first_stage_le(s, i + 1);
        } else {
            lemma_skip_ws_ge(s, i + 6);
        }
    }
}

/// Running the patch pass a second time changes nothing: a record that the
/// first run rewrote now has an identifier field, and one that it left
/// alone is left alone again.
pub proof fn lemma_patch_twice(path: Seq<char>, text: Seq<char>, idx: Map<Seq<char>, Seq<i32>>)
    requires
        forall|k: Seq<char>| idx.dom().contains(k) ==> #[trigger] idx[k].len() > 0,
    ensures
        ({
            let after = match spec_patch(path, text, idx) {
                Some(t) => t,
                None => text,
            };
            spec_patch(path, after, idx) is None
        }),
{
    if let Some(t) = spec_patch(path, text, idx) {
        let k = crate::normalize::spec_normalize(spec_name_en(text)->0);
        let p = insertion_point(text)->0;
        lemma_first_stage_le(text, 0);
        lemma_find_lit_le(text, 0, attacks_lit());
        lemma_inserted_line_is_found(text, p, idx[k]);
    }
}

/// The same for a well-formed index, such as the one that
/// `build_name_to_dexid_map` returns.
pub proof fn lemma_patch_twice_with_index(path: Seq<char>, text: Seq<char>, index: &DexIndex)
    requires
        index.wf(),
    ensures
        ({
            let after = match spec_patch(path, text, index@) {
                Some(t) => t,
                None => text,
            };
            spec_patch(path, after, index@) is None
        }),
{
    assert forall|k: Seq<char>| index@.dom().contains(k) implies #[trigger] index@[k].len() > 0 by {
        index.lemma_values_nonempty(k);
    }
    lemma_patch_twice(path, text, index@);
}

/// Where the text has a `stage` line, the identifier line goes directly
/// after it, whatever `attacks:` field the text also has.
pub proof fn lemma_stage_comes_first(s: Seq<char>, ids: Seq<i32>)
    requires
        first_stage_from(s, 0) is Some,
    ensures
        spec_add_dex_id(s, ids) == insert_line(s, first_stage_from(s, 0)->0, dex_line(ids)),
{
}

/// A record under the excluded product line is never rewritten.
pub proof fn lemma_excluded_never_patched(path: Seq<char>, text: Seq<char>, idx: Map<Seq<char>, Seq<i32>>)
    requires
        spec_is_excluded(path),
    ensures
        spec_patch(path, text, idx) is None,
{
}

/// A record with neither a `stage` line nor an `attacks:` field is left as
/// it is, even where its name is in the index.
pub proof fn lemma_no_anchor_no_patch(path: Seq<char>, text: Seq<char>, idx: Map<Seq<char>, Seq<i32>>)
    requires
        first_stage_from(text, 0) is None,
        find_lit(text, 0, attacks_lit()) is None,
    ensures
        spec_patch(path, text, idx) is None,
{
}

} // verus!
