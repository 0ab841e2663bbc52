//! Rebuilding verses from the normalized tables.

use kalima::model::{Segment, SegmentView};
use kalima::storage::Storage;

fn tok(verse_ref: &str, index: usize, text: &str, seg_id: &str, root: &str) -> SegmentView {
    SegmentView {
        id: format!("{}:{}", verse_ref, index),
        verse_ref: verse_ref.to_string(),
        token_index: index,
        text: text.to_string(),
        segments: vec![Segment {
            id: seg_id.to_string(),
            type_: "stem".to_string(),
            form: text.to_string(),
            root: Some(root.to_string()),
            lemma: None,
            pattern: None,
            pos: None,
            verb_form: None,
            voice: None,
            mood: None,
            tense: None,
            aspect: None,
            person: None,
            number: None,
            gender: None,
            case_: None,
            dependency_rel: None,
            role: None,
            derived_noun_type: None,
            state: None,
        }],
        annotations: vec![],
    }
}

#[test]
fn get_verse_rebuilds_the_nested_tree() {
    let mut storage = Storage::new();
    storage.upsert_segment(&tok("1:1", 0, "alpha", "g1", "r1")).unwrap();
    storage.upsert_segment(&tok("1:1", 1, "beta", "g2", "r2")).unwrap();
    storage.set_verse_text(1, 1, "alpha beta").unwrap();

    let verse = storage.get_verse(1, 1).unwrap().expect("verse should exist");
    assert_eq!(verse.surah_number, 1);
    assert_eq!(verse.ayah, 1);
    assert_eq!(verse.surah_name, "", "the ingested surah has an empty stored name");
    assert_eq!(verse.text, "alpha beta");
    assert_eq!(verse.tokens.len(), 2);
    assert_eq!(verse.tokens[0].index, 0);
    assert_eq!(verse.tokens[0].text, "alpha");
    assert_eq!(verse.tokens[0].segments.len(), 1);
    assert_eq!(verse.tokens[0].segments[0].root.as_deref(), Some("r1"));
    assert_eq!(verse.tokens[1].index, 1);
    assert_eq!(verse.tokens[1].segments[0].root.as_deref(), Some("r2"));
}

#[test]
fn get_verse_needs_a_text_row() {
    let mut storage = Storage::new();
    storage.upsert_segment(&tok("1:1", 0, "alpha", "g1", "r1")).unwrap();
    assert!(storage.get_verse(1, 1).unwrap().is_none());
}

#[test]
fn get_verse_falls_back_to_the_longest_token_text() {
    let mut storage = Storage::new();
    storage.upsert_segment(&tok("1:1", 0, "ab", "g1", "r1")).unwrap();
    storage.upsert_segment(&tok("1:1", 1, "abcdef", "g2", "r2")).unwrap();
    storage.set_verse_text(1, 1, "").unwrap();
    let verse = storage.get_verse(1, 1).unwrap().unwrap();
    assert_eq!(verse.text, "abcdef");
}

#[test]
fn get_verse_by_index_follows_table_order() {
    let mut storage = Storage::new();
    storage.upsert_segment(&tok("3:7", 0, "x", "g1", "r")).unwrap();
    storage.set_verse_text(3, 7, "x").unwrap();
    let verse = storage.get_verse_by_index(0).unwrap().unwrap();
    assert_eq!((verse.surah_number, verse.ayah), (3, 7));
    assert!(storage.get_verse_by_index(1).unwrap().is_none());
}

#[test]
fn list_surahs_counts_ayat() {
    let mut storage = Storage::new();
    storage.upsert_segment(&tok("1:1", 0, "a", "g1", "r")).unwrap();
    storage.upsert_segment(&tok("1:2", 0, "b", "g2", "r")).unwrap();
    storage.upsert_segment(&tok("2:1", 0, "c", "g3", "r")).unwrap();
    let surahs = storage.list_surahs().unwrap();
    assert_eq!(surahs.len(), 2);
    assert_eq!(surahs[0].number, 1);
    assert_eq!(surahs[0].ayah_count, 2);
    assert_eq!(surahs[1].number, 2);
    assert_eq!(surahs[1].ayah_count, 1);
    assert_eq!(storage.count_verses_with_tokens(), 3);
}

#[test]
fn get_surah_verses_lists_texts() {
    let mut storage = Storage::new();
    storage.upsert_segment(&tok("1:1", 0, "a", "g1", "r")).unwrap();
    storage.upsert_segment(&tok("1:2", 0, "b", "g2", "r")).unwrap();
    storage.set_verse_text(1, 2, "second text").unwrap();
    let verses = storage.get_surah_verses(1).unwrap();
    assert_eq!(verses.len(), 2);
    assert_eq!(verses[0], (1, "".to_string()), "missing text reads as empty");
    assert_eq!(verses[1], (2, "second text".to_string()));
}

#[test]
fn verse_segments_join_their_tokens() {
    let mut storage = Storage::new();
    storage.upsert_segment(&tok("1:1", 0, "a", "g1", "r1")).unwrap();
    storage.upsert_segment(&tok("1:1", 1, "b", "g2", "r2")).unwrap();
    storage.upsert_segment(&tok("2:1", 0, "c", "g3", "r3")).unwrap();
    let rows = storage.get_verse_segments(1, 1).unwrap();
    assert_eq!(rows.len(), 2);
    assert_eq!(rows[0].seg.root.as_deref(), Some("r1"));
    assert_eq!(rows[0].token_index, 0);
    assert_eq!(rows[0].token_text, "a");
    assert_eq!(rows[1].seg.root.as_deref(), Some("r2"));
}
