use dexid_backfill::corpus::{build_name_to_dexid_map, update_files_without_dexid};
use dexid_backfill::index::DexIndex;
use dexid_backfill::normalize::normalize_name;
use dexid_backfill::patch::{add_dex_id, is_excluded, patch_record};
use dexid_backfill::record::{extract_dex_id, extract_name_en, Record};

fn rec(path: &str, text: &str) -> Record {
    Record { path: path.to_string(), text: text.to_string() }
}

fn index_of(pairs: &[(&str, Vec<i32>)]) -> DexIndex {
    let mut idx = DexIndex::new();
    for (k, v) in pairs {
        idx.insert(k.to_string(), v.clone());
    }
    idx
}

#[test]
fn normalize_mega_takes_second_word() {
    assert_eq!(normalize_name("Mega Charizard X"), "Charizard");
}

#[test]
fn normalize_ex_takes_first_word() {
    assert_eq!(normalize_name("Pikachu ex"), "Pikachu");
}

#[test]
fn normalize_mega_ex_applies_rules_in_order() {
    assert_eq!(normalize_name("Mega Mewtwo ex"), "Mewtwo");
}

#[test]
fn normalize_leaves_plain_and_short_names() {
    assert_eq!(normalize_name("Bulbasaur"), "Bulbasaur");
    assert_eq!(normalize_name("Mega"), "Mega");
    assert_eq!(normalize_name("Alakazam  ex"), "Alakazam");
}

#[test]
fn name_is_read_from_en_field() {
    let text = "export default {\n\tname: {\n\t\tfr: \"Dracaufeu\",\n\t\ten: \"Charizard\",\n\t},\n}";
    assert_eq!(extract_name_en(text), Some("Charizard".to_string()));
}

#[test]
fn name_absent_without_en_in_braces() {
    assert_eq!(extract_name_en("name: { fr: \"Salameche\" }, en: \"X\""), None);
    assert_eq!(extract_name_en("no fields here"), None);
    assert_eq!(extract_name_en("name: { en: \"\" }"), None);
}

#[test]
fn name_takes_last_en_before_closing_brace() {
    let text = "name: { en: \"First\", den: \"Second\" }";
    assert_eq!(extract_name_en(text), Some("Second".to_string()));
}

#[test]
fn dex_ids_in_order() {
    assert_eq!(extract_dex_id("\tdexId: [6, 25, 150],\n"), Some(vec![6, 25, 150]));
    assert_eq!(extract_dex_id("dexId:[6],"), Some(vec![6]));
}

#[test]
fn dex_ids_drop_malformed_tokens() {
    assert_eq!(extract_dex_id("dexId: [a, 3, , +4, -7, 2147483648]"), Some(vec![3, 4, -7]));
}

#[test]
fn dex_ids_all_malformed_is_present_but_empty() {
    assert_eq!(extract_dex_id("dexId: [x, y]"), Some(vec![]));
}

#[test]
fn dex_ids_absent() {
    assert_eq!(extract_dex_id("name: { en: \"Pikachu\" }"), None);
    assert_eq!(extract_dex_id("dexId: []"), None);
}

#[test]
fn add_after_stage_line() {
    let text = "\tstage: \"Basic\",\n\thp: 60,\n";
    assert_eq!(add_dex_id(text, &[25]), "\tstage: \"Basic\",\n\tdexId: [25],\n\thp: 60,\n");
}

#[test]
fn add_before_attacks() {
    let text = "\thp: 60,\n\tattacks: [],\n";
    assert_eq!(add_dex_id(text, &[6, -1]), "\thp: 60,\n\tdexId: [6, -1],\n\tattacks: [],\n");
}

#[test]
fn add_prefers_stage_over_attacks() {
    let text = "\tattacks: [],\n\tstage: \"Stage 2\",\n";
    assert_eq!(
        add_dex_id(text, &[3]),
        "\tattacks: [],\n\tstage: \"Stage 2\",\n\tdexId: [3],\n"
    );
}

#[test]
fn add_without_anchor_is_unchanged() {
    let text = "\thp: 60,\n";
    assert_eq!(add_dex_id(text, &[1]), text);
}

#[test]
fn exclusion_marker() {
    assert!(is_excluded("data/Pok\u{e9}mon TCG Pocket/A1/001.ts"));
    assert!(!is_excluded("data/Scarlet & Violet/001.ts"));
}

#[test]
fn index_last_write_wins() {
    let idx = build_name_to_dexid_map(&vec![
        rec("a.ts", "name: { en: \"Eevee\" },\ndexId: [133],"),
        rec("b.ts", "name: { en: \"Eevee\" },\ndexId: [134],"),
        rec("c.ts", "name: { en: \"Ditto\" },\ndexId: [x],"),
        rec("d.ts", "name: { en: \"Mew\" },\n"),
    ]);
    assert_eq!(idx.len(), 1);
    assert_eq!(idx.get(&"Eevee".to_string()), Some(&vec![134]));
    assert_eq!(idx.get(&"Ditto".to_string()), None);
}

#[test]
fn index_holds_each_record_list() {
    let idx = build_name_to_dexid_map(&vec![
        rec("a.ts", "name: { en: \"Nidoran\" },\ndexId: [29, 32],"),
        rec("b.ts", "name: { en: \"Pikachu\" },\ndexId: [25],"),
    ]);
    assert_eq!(idx.len(), 2);
    assert_eq!(idx.get(&"Nidoran".to_string()), Some(&vec![29, 32]));
    assert_eq!(idx.get(&"Pikachu".to_string()), Some(&vec![25]));
}

#[test]
fn patch_skips_excluded_path() {
    let idx = index_of(&[("Pikachu", vec![25])]);
    let text = "name: { en: \"Pikachu ex\" },\n\tstage: \"Basic\",\n";
    assert_eq!(patch_record("x/Pok\u{e9}mon TCG Pocket/a.ts", text, &idx), None);
    assert!(patch_record("x/Base/a.ts", text, &idx).is_some());
}

#[test]
fn patch_skips_record_with_ids() {
    let idx = index_of(&[("Pikachu", vec![25])]);
    let text = "name: { en: \"Pikachu\" },\n\tstage: \"Basic\",\n\tdexId: [x],\n";
    assert_eq!(patch_record("a.ts", text, &idx), None);
}

#[test]
fn patch_skips_unknown_name() {
    let idx = index_of(&[("Pikachu", vec![25])]);
    let text = "name: { en: \"Raichu\" },\n\tstage: \"Stage 1\",\n";
    assert_eq!(patch_record("a.ts", text, &idx), None);
}

#[test]
fn patch_without_anchor_is_not_counted() {
    let records = vec![
        rec("a.ts", "name: { en: \"Pikachu\" },\ndexId: [25],"),
        rec("b.ts", "name: { en: \"Pikachu ex\" },\n\thp: 120,\n"),
    ];
    let idx = build_name_to_dexid_map(&records);
    let report = update_files_without_dexid(&records, &idx);
    assert_eq!(report.updated, 0);
    assert_eq!(report.rewrites, vec![None, None]);
}

#[test]
fn end_to_end_mega_record_gets_ids() {
    let records = vec![
        rec("A.ts", "name:{en:\"Charizard\"}, dexId:[6],"),
        rec("B.ts", "name:{en:\"Mega Charizard X\"},\nstage:\"Stage 1\",\nattacks: [],\n"),
    ];
    let idx = build_name_to_dexid_map(&records);
    let report = update_files_without_dexid(&records, &idx);
    assert_eq!(report.updated, 1);
    assert_eq!(report.rewrites[0], None);
    assert_eq!(
        report.rewrites[1],
        Some("name:{en:\"Mega Charizard X\"},\nstage:\"Stage 1\",\n\tdexId: [6],\nattacks: [],\n".to_string())
    );
}

#[test]
fn second_pass_changes_nothing() {
    let records = vec![
        rec("A.ts", "name: { en: \"Gengar\" },\n\tdexId: [94],\n"),
        rec("B.ts", "name: { en: \"Mega Gengar ex\" },\n\tstage: \"Basic\",\n"),
        rec("C.ts", "name: { en: \"Gengar ex\" },\n\tattacks: [],\n"),
        rec("D.ts", "name: { en: \"Gengar\" },\n\thp: 1,\n"),
    ];
    let idx = build_name_to_dexid_map(&records);
    let first = update_files_without_dexid(&records, &idx);
    assert_eq!(first.updated, 2);
    let after: Vec<Record> = records
        .iter()
        .zip(first.rewrites.iter())
        .map(|(r, w)| rec(&r.path, w.as_deref().unwrap_or(&r.text)))
        .collect();
    let second = update_files_without_dexid(&after, &idx);
    assert_eq!(second.updated, 0);
    assert!(second.rewrites.iter().all(|w| w.is_none()));
}
