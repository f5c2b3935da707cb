//! The two passes over a corpus of records: building the index, then
//! patching the records that lack identifiers.

use vstd::prelude::*;
use crate::index::DexIndex;
use crate::patch::{patch_record, spec_patch};
use crate::record::{extract_dex_id, extract_name_en, spec_dex_ids, spec_name_en, Record};

verus! {

pub open spec fn texts_of(records: Seq<Record>) -> Seq<Seq<char>> {
    records.map_values(|r: Record| r.text@)
}

/// The index that the records' texts give, in order, later records
/// overwriting earlier ones of the same name.
pub open spec fn index_of(texts: Seq<Seq<char>>) -> Map<Seq<char>, Seq<i32>>
    decreases texts.len(),
{
    if texts.len() == 0 {
        Map::empty()
    } else {
        let m = index_of(texts.drop_last());
        let t = texts.last();
        match (spec_name_en(t), spec_dex_ids(t)) {
            (Some(n), Some(d)) => if d.len() > 0 {
                m.insert(n, d)
            } else {
                m
            },
            _ => m,
        }
    }
}

pub open spec fn opt_view(o: Option<String>) -> Option<Seq<char>> {
    match o {
        Some(s) => Some(s@),
        None => None,
    }
}

/// How many records the patch pass rewrites.
pub open spec fn patched_count(records: Seq<Record>, idx: Map<Seq<char>, Seq<i32>>) -> nat
    decreases records.len(),
{
    if records.len() == 0 {
        0
    } else {
        patched_count(records.drop_last(), idx) + if spec_patch(
            records.last().path@,
            records.last().text@,
            idx,
        ) is Some {
            1nat
        } else {
            0nat
        }
    }
}

/// What the patch pass hands back: per record, its new text or `None`
/// where it stays as it is, and how many records were rewritten.
pub struct PatchReport {
    pub rewrites: Vec<Option<String>>,
    pub updated: usize,
}

/// Builds the index from every record that has both a display name and a
/// non-empty identifier list, in order: a later record overwrites an
/// earlier one of the same name.
pub fn build_name_to_dexid_map(records: &Vec<Record>) -> (r: DexIndex)
    ensures
        r.wf(),
        r@ == index_of(texts_of(records@)),
{
    let mut idx = DexIndex::new();
    let mut i: usize = 0;
    while i < records.len()
        invariant
            i <= records.len(),
            idx.wf(),
            idx@ == index_of(texts_of(records@).subrange(0, i as int)),
        decreases records.len() - i,
    {
        let text = &records[i].text;
        assert(texts_of(records@).subrange(0, i + 1).drop_last() =~= texts_of(records@).subrange(0, i as int));
        assert(texts_of(records@).subrange(0, i + 1).last() == text@);
        match extract_name_en(text.as_str()) {
            Some(name) => match extract_dex_id(text.as_str()) {
                Some(ids) => if ids.len() > 0 {
                    idx.insert(name, ids);
                },
                None => {},
            },
            None => {},
        }
        i = i + 1;
    }
    assert(texts_of(records@).subrange(0, i as int) =~= texts_of(records@));
    idx
}

/// Runs the patch pass over the records with a built index.
pub fn update_files_without_dexid(records: &Vec<Record>, index: &DexIndex) -> (r: PatchReport)
    requires
        index.wf(),
    ensures
        r.rewrites@.len() == records@.len(),
        forall|i: int| 0 <= i < records@.len() ==> opt_view(#[trigger] r.rewrites@[i]) == spec_patch(
            records@[i].path@,
            records@[i].text@,
            index@,
        ),
        r.updated == patched_count(records@, index@),
{
    let mut rewrites: Vec<Option<String>> = Vec::new();
    let mut updated: usize = 0;
    let mut i: usize = 0;
    while i < records.len()
        invariant
            i <= records.len(),
            index.wf(),
            rewrites@.len() == i,
            updated <= i,
            forall|j: int| 0 <= j < i ==> opt_view(#[trigger] rewrites@[j]) == spec_patch(
                records@[j].path@,
                records@[j].text@,
                index@,
            ),
            updated == patched_count(records@.subrange(0, i as int), index@),
        decreases records.len() - i,
    {
        let rec = &records[i];
        let r = patch_record(rec.path.as_str(), rec.text.as_str(), index);
        assert(records@.subrange(0, i + 1).drop_last() =~= records@.subrange(0, i as int));
        if r.is_some() {
            updated = updated + 1;
        }
        rewrites.push(r);
        i = i + 1;
    }
    assert(records@.subrange(0, i as int) =~= records@);
    PatchReport { rewrites, updated }
}

} // verus!
