//! The storage engine: ingestion, idempotence, round trips, annotations,
//! connections, metadata and the research store.

use kalima::index::SearchIndex;
use kalima::model::{Annotation, ConnectionRecord, Segment, SegmentView};
use kalima::storage::Storage;

fn bism_segment() -> Segment {
    Segment {
        id: "seg-1".to_string(),
        type_: "stem".to_string(),
        form: "بسم".to_string(),
        root: Some("بسم".to_string()),
        lemma: Some("بسم".to_string()),
        pattern: Some("fa3l".to_string()),
        pos: Some("n".to_string()),
        verb_form: None,
        voice: None,
        mood: None,
        tense: None,
        aspect: None,
        person: None,
        number: None,
        gender: None,
        case_: Some("gen".to_string()),
        dependency_rel: Some("nmod".to_string()),
        role: None,
        derived_noun_type: None,
        state: None,
    }
}

fn bism_doc() -> SegmentView {
    SegmentView {
        id: "1:1:0".to_string(),
        verse_ref: "1:1".to_string(),
        token_index: 0,
        text: "بسم".to_string(),
        segments: vec![bism_segment()],
        annotations: vec![],
    }
}

#[test]
fn golden_search_annotation_connection() {
    let mut storage = Storage::new();
    let mut index = SearchIndex::new();

    let doc = bism_doc();
    storage.upsert_segment(&doc).unwrap();
    index.index_document(&doc).unwrap();
    index.commit().unwrap();

    // Search by root.
    let hits = index
        .search_with_filters("", vec![("root".to_string(), vec!["بسم".to_string()])], 10)
        .unwrap();
    assert_eq!(hits.len(), 1);

    // Hydrate.
    let hydrated = storage.hydrate_segments(&hits).unwrap();
    assert_eq!(hydrated[0].segments[0].root.as_deref(), Some("بسم"));

    // Annotation CRUD.
    let ann = Annotation {
        id: "a1".to_string(),
        target_id: doc.id.clone(),
        layer: "note".to_string(),
        payload: "hello".to_string(),
    };
    storage.upsert_annotation(&ann).unwrap();
    let anns = storage.list_annotations(Some(&doc.id)).unwrap();
    assert_eq!(anns.len(), 1);
    storage.delete_annotation("a1").unwrap();
    assert_eq!(storage.list_annotations(Some(&doc.id)).unwrap().len(), 0);

    // Connection CRUD.
    let conn = ConnectionRecord {
        id: "c1".to_string(),
        from_token: doc.id.clone(),
        to_token: doc.id.clone(),
        layer: "internal".to_string(),
        meta: String::new(),
    };
    storage.upsert_connection(&conn).unwrap();
    let conns = storage.list_connections_for_verse(1, 1).unwrap();
    assert_eq!(conns.len(), 1);
    storage.delete_connection("c1").unwrap();
    assert_eq!(storage.list_connections_for_verse(1, 1).unwrap().len(), 0);
}

#[test]
fn reingesting_a_record_adds_no_rows() {
    let mut storage = Storage::new();
    let doc = bism_doc();
    storage.upsert_segment(&doc).unwrap();
    let tokens_once = storage.tokens.row_count();
    let segments_once = storage.segments.row_count();
    let surahs_once = storage.surahs.row_count();
    let first = storage.get_segment("1:1:0").unwrap().unwrap();

    storage.upsert_segment(&doc).unwrap();
    assert_eq!(storage.tokens.row_count(), tokens_once);
    assert_eq!(storage.segments.row_count(), segments_once);
    assert_eq!(storage.surahs.row_count(), surahs_once);
    let second = storage.get_segment("1:1:0").unwrap().unwrap();
    assert_eq!(first.text, second.text);
    assert_eq!(first.segments.len(), second.segments.len());
    assert_eq!(first.segments[0].root, second.segments[0].root);
}

#[test]
fn upserted_segment_reads_back_field_for_field() {
    let mut storage = Storage::new();
    let doc = bism_doc();
    storage.upsert_segment(&doc).unwrap();
    let got = storage.get_segment("1:1:0").unwrap().expect("token should be stored");
    assert_eq!(got.id, "1:1:0");
    assert_eq!(got.verse_ref, "1:1");
    assert_eq!(got.token_index, 0);
    assert_eq!(got.text, "بسم");
    assert_eq!(got.segments.len(), 1);
    let s = &got.segments[0];
    let orig = bism_segment();
    assert_eq!(s.id, orig.id);
    assert_eq!(s.type_, orig.type_);
    assert_eq!(s.form, orig.form);
    assert_eq!(s.root, orig.root);
    assert_eq!(s.lemma, orig.lemma);
    assert_eq!(s.pattern, orig.pattern);
    assert_eq!(s.pos, orig.pos);
    assert_eq!(s.case_, orig.case_);
    assert_eq!(s.dependency_rel, orig.dependency_rel);
    // Unset optional attributes round-trip as absent.
    assert_eq!(s.verb_form, None);
    assert_eq!(s.voice, None);
    assert_eq!(s.state, None);
}

#[test]
fn malformed_verse_reference_rejects_the_record() {
    let mut storage = Storage::new();
    let mut doc = bism_doc();
    doc.verse_ref = "not-a-ref".to_string();
    assert!(storage.upsert_segment(&doc).is_err());
    assert_eq!(storage.tokens.row_count(), 0);
}

#[test]
fn verse_text_is_kept_separately_from_tokens() {
    let mut storage = Storage::new();
    storage.upsert_segment(&bism_doc()).unwrap();
    assert!(storage.get_verse_text(1, 1).is_none());
    storage.set_verse_text(1, 1, "بسم الله").unwrap();
    assert_eq!(storage.get_verse_text(1, 1).as_deref(), Some("بسم الله"));
    // Correcting the text does not touch token rows.
    storage.set_verse_text(1, 1, "corrected").unwrap();
    assert_eq!(storage.get_verse_text(1, 1).as_deref(), Some("corrected"));
    assert_eq!(storage.tokens.row_count(), 1);
}

#[test]
fn distinct_listings_sort_ascending() {
    let mut storage = Storage::new();
    let mut a = bism_doc();
    a.segments[0].root = Some("c".to_string());
    a.segments[0].pos = Some("zz".to_string());
    storage.upsert_segment(&a).unwrap();
    let mut b = bism_doc();
    b.verse_ref = "1:2".to_string();
    b.segments[0].id = "seg-2".to_string();
    b.segments[0].root = Some("a".to_string());
    b.segments[0].pos = Some("ab".to_string());
    storage.upsert_segment(&b).unwrap();
    let mut c = bism_doc();
    c.verse_ref = "1:3".to_string();
    c.segments[0].id = "seg-3".to_string();
    c.segments[0].root = Some("b".to_string());
    c.segments[0].pos = Some("ab".to_string());
    storage.upsert_segment(&c).unwrap();
    assert_eq!(storage.list_unique_roots().unwrap(), vec!["a", "b", "c"]);
    assert_eq!(storage.list_unique_pos().unwrap(), vec!["ab", "zz"]);
}

#[test]
fn distinct_roots_and_counts() {
    let mut storage = Storage::new();
    storage.upsert_segment(&bism_doc()).unwrap();
    let mut other = bism_doc();
    other.verse_ref = "1:2".to_string();
    other.segments[0].id = "seg-2".to_string();
    storage.upsert_segment(&other).unwrap();
    let roots = storage.list_unique_roots().unwrap();
    assert_eq!(roots, vec!["بسم".to_string()]);
    assert_eq!(storage.count_verses(), 2);
    let pos = storage.list_unique_pos().unwrap();
    assert_eq!(pos, vec!["n".to_string()]);
}

#[test]
fn metadata_and_research_round_trip() {
    let mut storage = Storage::new();
    assert!(storage.get_verse_metadata("1:1", "pronouns").unwrap().is_none());
    storage.set_verse_metadata("1:1", "pronouns", "[1,2]").unwrap();
    storage.set_verse_metadata("1:1", "hypotheses", "[3]").unwrap();
    assert_eq!(storage.get_verse_metadata("1:1", "pronouns").unwrap().as_deref(), Some("[1,2]"));
    assert_eq!(storage.get_verse_metadata("1:1", "hypotheses").unwrap().as_deref(), Some("[3]"));
    assert!(storage.get_verse_metadata("1:1", "translations").unwrap().is_none());
    assert!(storage.get_verse_metadata("1:1", "unknown").is_err());
    assert!(storage.set_verse_metadata("1:1", "unknown", "x").is_err());

    assert!(storage.get_research_data("patterns").unwrap().is_none());
    storage.set_research_data("patterns", "{}").unwrap();
    assert_eq!(storage.get_research_data("patterns").unwrap().as_deref(), Some("{}"));
}

#[test]
fn annotations_list_newest_first() {
    let mut storage = Storage::new();
    for (id, target) in [("a1", "t"), ("a2", "t"), ("a3", "u")] {
        storage
            .upsert_annotation(&Annotation {
                id: id.to_string(),
                target_id: target.to_string(),
                layer: "note".to_string(),
                payload: id.to_string(),
            })
            .unwrap();
    }
    let all = storage.list_annotations(None).unwrap();
    assert_eq!(all.len(), 3);
    assert_eq!(all[0].id, "a3");
    assert_eq!(all[2].id, "a1");
    let t_only = storage.list_annotations(Some("t")).unwrap();
    assert_eq!(t_only.len(), 2);
    assert_eq!(t_only[0].id, "a2");
}

#[test]
fn verse_texts_feed_the_pattern_scan() {
    let mut storage = Storage::new();
    storage.set_verse_text(1, 1, "first").unwrap();
    storage.set_verse_text(1, 2, "").unwrap();
    storage.set_verse_text(2, 1, "third").unwrap();
    let texts = storage.get_all_verse_texts(10);
    assert_eq!(texts.len(), 2);
    assert_eq!(texts[0].0, "1:1");
    assert_eq!(texts[0].1, "first");
    assert_eq!(texts[1].0, "2:1");
}
