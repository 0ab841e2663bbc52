//! The search index: filter routing, composition, and read-after-commit.

use kalima::index::SearchIndex;
use kalima::model::{Segment, SegmentView};

fn seg(id: &str, root: Option<&str>, pos: Option<&str>) -> Segment {
    Segment {
        id: id.to_string(),
        type_: "stem".to_string(),
        form: "f".to_string(),
        root: root.map(|s| s.to_string()),
        lemma: None,
        pattern: None,
        pos: pos.map(|s| s.to_string()),
        verb_form: None,
        voice: None,
        mood: None,
        tense: None,
        aspect: None,
        person: None,
        number: None,
        gender: None,
        case_: None,
        dependency_rel: None,
        role: None,
        derived_noun_type: None,
        state: None,
    }
}

fn doc(id: &str, text: &str, segments: Vec<Segment>) -> SegmentView {
    SegmentView {
        id: id.to_string(),
        verse_ref: "1:1".to_string(),
        token_index: 0,
        text: text.to_string(),
        segments,
        annotations: vec![],
    }
}

#[test]
fn filter_by_root_returns_only_matching_documents() {
    let mut idx = SearchIndex::new();
    idx.index_document(&doc("a", "بسم", vec![seg("s1", Some("بسم"), Some("N"))])).unwrap();
    idx.index_document(&doc("b", "other", vec![seg("s2", Some("غير"), Some("N"))])).unwrap();
    idx.commit().unwrap();
    let hits = idx
        .search_with_filters("", vec![("root".to_string(), vec!["بسم".to_string()])], 10)
        .unwrap();
    assert_eq!(hits.len(), 1);
    assert_eq!(hits[0].id, "a");
}

#[test]
fn filters_on_different_fields_conjoin() {
    let mut idx = SearchIndex::new();
    idx.index_document(&doc("a", "t", vec![seg("s1", Some("r1"), Some("N"))])).unwrap();
    idx.index_document(&doc("b", "t", vec![seg("s2", Some("r1"), Some("V"))])).unwrap();
    idx.commit().unwrap();
    let hits = idx
        .search_with_filters(
            "",
            vec![
                ("root".to_string(), vec!["r1".to_string()]),
                ("pos".to_string(), vec!["V".to_string()]),
            ],
            10,
        )
        .unwrap();
    assert_eq!(hits.len(), 1);
    assert_eq!(hits[0].id, "b");
}

#[test]
fn filter_values_disjoin_within_one_filter() {
    let mut idx = SearchIndex::new();
    idx.index_document(&doc("a", "t", vec![seg("s1", Some("r1"), None)])).unwrap();
    idx.index_document(&doc("b", "t", vec![seg("s2", Some("r2"), None)])).unwrap();
    idx.index_document(&doc("c", "t", vec![seg("s3", Some("r3"), None)])).unwrap();
    idx.commit().unwrap();
    let hits = idx
        .search_with_filters(
            "",
            vec![("root".to_string(), vec!["r1".to_string(), "r3".to_string()])],
            10,
        )
        .unwrap();
    assert_eq!(hits.len(), 2);
    assert!(hits.iter().any(|h| h.id == "a"));
    assert!(hits.iter().any(|h| h.id == "c"));
}

#[test]
fn unmapped_filter_fields_are_ignored() {
    let mut idx = SearchIndex::new();
    idx.index_document(&doc("a", "t", vec![seg("s1", Some("r1"), None)])).unwrap();
    idx.commit().unwrap();
    let hits = idx
        .search_with_filters("", vec![("nonsense".to_string(), vec!["x".to_string()])], 10)
        .unwrap();
    assert_eq!(hits.len(), 1);
}

#[test]
fn documents_become_visible_only_at_commit() {
    let mut idx = SearchIndex::new();
    idx.index_document(&doc("a", "hello", vec![])).unwrap();
    let before = idx.search_with_filters("hello", vec![], 10).unwrap();
    assert_eq!(before.len(), 0, "uncommitted document was visible");
    idx.commit().unwrap();
    let after = idx.search_with_filters("hello", vec![], 10).unwrap();
    assert_eq!(after.len(), 1);
}

#[test]
fn free_text_matches_tokens_and_scored_fields() {
    let mut idx = SearchIndex::new();
    idx.index_document(&doc("a", "alpha beta", vec![])).unwrap();
    idx.index_document(&doc("b", "gamma", vec![seg("s1", Some("alpha"), None)])).unwrap();
    idx.index_document(&doc("c", "delta", vec![])).unwrap();
    idx.commit().unwrap();
    let hits = idx.search_with_filters("alpha", vec![], 10).unwrap();
    assert_eq!(hits.len(), 2);
    assert!(hits.iter().any(|h| h.id == "a" && h.score == 1));
    assert!(hits.iter().any(|h| h.id == "b"));
}

#[test]
fn search_respects_the_limit() {
    let mut idx = SearchIndex::new();
    for i in 0..5 {
        idx.index_document(&doc(&format!("d{}", i), "same", vec![])).unwrap();
    }
    idx.commit().unwrap();
    let hits = idx.search_with_filters("same", vec![], 3).unwrap();
    assert_eq!(hits.len(), 3);
}
