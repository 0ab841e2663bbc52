//! The corpus normalizers: legacy tagged text, the tabular export, and
//! the primary line-delimited format.

use kalima::normalize::{entries_for, normalize_verse, parse_masaq_record, parse_morphology_corpus,
    CorpusSegment, CorpusToken, CorpusVerse};

#[test]
fn legacy_line_parses_reference_and_tags() {
    let corpus = "# comment line\n\n(1:1:1:1)\tبِسْمِ\tN\tSTEM|POS:N|LEM:بِسْمِ|ROOT:سمو|M|GEN\nshort line\n";
    let entries = parse_morphology_corpus(corpus);
    assert_eq!(entries.len(), 1);
    let (s, a, e) = &entries[0];
    assert_eq!((*s, *a), (1, 1));
    assert_eq!(e.text, "بِسْمِ");
    assert_eq!(e.pos.as_deref(), Some("N"));
    assert_eq!(e.root.as_deref(), Some("سمو"));
    assert_eq!(e.lemma.as_deref(), Some("بِسْمِ"));
    assert_eq!(e.case_.as_deref(), Some("GEN"));
    assert_eq!(e.gender.as_deref(), Some("M"));
    assert_eq!(e.type_.as_deref(), Some("STEM"));
    assert_eq!(e.word_index, Some(1));
    let feats = e.features.as_deref().unwrap();
    assert!(feats.contains("case:GEN"));
    assert!(feats.contains("gender:M"));
    assert!(feats.contains("POS:N"), "unrecognized tags are kept verbatim: {}", feats);
}

#[test]
fn legacy_segment_type_defaults_to_stem() {
    let corpus = "(2:3:4:1)\tword\tN\tROOT:xyz\n";
    let entries = parse_morphology_corpus(corpus);
    assert_eq!(entries.len(), 1);
    let (s, a, e) = &entries[0];
    assert_eq!((*s, *a), (2, 3));
    assert_eq!(e.type_.as_deref(), Some("stem"));
    assert_eq!(e.word_index, Some(4));
}

#[test]
fn legacy_definiteness_comes_from_the_tag_bag() {
    let corpus = "(1:2:3:1)\tw\tN\tDEF|NOM\n";
    let entries = parse_morphology_corpus(corpus);
    assert_eq!(entries[0].2.definiteness.as_deref(), Some("DEF"));
    assert_eq!(entries[0].2.case_.as_deref(), Some("NOM"));
}

#[test]
fn cached_entries_answer_by_coordinate() {
    let corpus = "(1:1:1:1)\ta\tN\tSTEM\n(1:2:1:1)\tb\tN\tSTEM\n(1:1:2:1)\tc\tN\tSTEM\n";
    let entries = parse_morphology_corpus(corpus);
    let verse = entries_for(&entries, 1, 1);
    assert_eq!(verse.len(), 2);
    assert_eq!(verse[0].text, "a");
    assert_eq!(verse[1].text, "c");
    assert_eq!(entries_for(&entries, 9, 9).len(), 0);
}

fn masaq_row(cols: &[&str]) -> Vec<String> {
    cols.iter().map(|c| c.to_string()).collect()
}

#[test]
fn masaq_row_normalizes_a_determined_stem() {
    // A stem with a determiner tag loses its leading definite article.
    let rec = masaq_row(&[
        "id", "1", "1", "3", "x", "الكتاب", "lemma1", "الكتاب", "DET", "Stem", "", "inv",
        "role1", "poss1", "case1", "marker", "phr", "fn", "notes1",
    ]);
    let (s, a, e) = parse_masaq_record(&rec);
    assert_eq!((s, a), (1, 1));
    assert_eq!(e.text, "كتاب");
    assert_eq!(e.form.as_deref(), Some("كتاب"));
    assert_eq!(e.word_index, Some(3));
    assert_eq!(e.determiner, Some(true));
    assert_eq!(e.lemma.as_deref(), Some("lemma1"));
    assert_eq!(e.role.as_deref(), Some("role1"));
    assert_eq!(e.case_.as_deref(), Some("case1"));
    let feats = e.features.as_deref().unwrap();
    assert!(feats.contains("type:Stem"));
    assert!(feats.contains("invar:inv"));
    assert!(feats.contains("phrase:phr"));
    assert!(feats.contains("phrase_fn:fn"));
}

#[test]
fn masaq_row_keeps_prefix_surfaces() {
    let rec = masaq_row(&[
        "id", "1", "1", "1", "x", "word", "", "ال", "DET", "Prefix", "", "", "", "", "", "",
        "", "", "",
    ]);
    let (_, _, e) = parse_masaq_record(&rec);
    assert_eq!(e.text, "ال", "a prefix keeps its surface untouched");
    assert_eq!(e.determiner, Some(true));
}

#[test]
fn masaq_row_strips_a_leading_glottal_stop() {
    let rec = masaq_row(&[
        "id", "2", "5", "1", "x", "w", "", "اسم", "N", "Stem", "", "", "", "", "", "", "", "",
        "",
    ]);
    let (s, a, e) = parse_masaq_record(&rec);
    assert_eq!((s, a), (2, 5));
    assert_eq!(e.text, "سم");
}

#[test]
fn masaq_stem_strips_exactly_one_leading_letter() {
    // A stem starting with two glottal-stop letters loses only the first.
    let rec = masaq_row(&[
        "id", "2", "5", "1", "x", "w", "", "ااب", "N", "Stem", "", "", "", "", "", "", "", "",
        "",
    ]);
    let (_, _, e) = parse_masaq_record(&rec);
    assert_eq!(e.text, "اب");
    // A determined stem loses only one definite-article sequence.
    let rec2 = masaq_row(&[
        "id", "2", "5", "1", "x", "w", "", "الالكتاب", "DET", "Stem", "", "", "", "", "", "",
        "", "", "",
    ]);
    let (_, _, e2) = parse_masaq_record(&rec2);
    assert_eq!(e2.text, "الكتاب");
}

#[test]
fn primary_records_synthesize_ids() {
    let verse = CorpusVerse {
        surah_number: 1,
        ayah: 1,
        text: Some("".to_string()),
        tokens: vec![
            CorpusToken {
                id: None,
                form: "بسم".to_string(),
                segments: Some(vec![CorpusSegment {
                    id: None,
                    type_: None,
                    form: None,
                    root: Some("سمو".to_string()),
                    lemma: None,
                    pattern: None,
                    pos: None,
                    verb_form: None,
                    voice: None,
                    mood: None,
                    aspect: None,
                    person: None,
                    number: None,
                    gender: None,
                    case_: None,
                    dependency_rel: None,
                    role: None,
                    derived_noun_type: None,
                    state: None,
                }]),
            },
            CorpusToken { id: Some("tok-x".to_string()), form: "الله".to_string(), segments: None },
        ],
    };
    let (docs, text) = normalize_verse(&verse);
    assert_eq!(text, "بسم الله", "empty text falls back to joined token forms");
    assert_eq!(docs.len(), 2);
    assert_eq!(docs[0].id, "1:1:0");
    assert_eq!(docs[0].verse_ref, "1:1");
    assert_eq!(docs[0].text, "بسم");
    assert_eq!(docs[0].segments.len(), 1);
    assert_eq!(docs[0].segments[0].id, "seg-1-1-0-0");
    assert_eq!(docs[0].segments[0].form, "بسم", "segment form defaults to the token surface");
    assert_eq!(docs[0].segments[0].root.as_deref(), Some("سمو"));
    assert_eq!(docs[1].id, "tok-x");
    assert_eq!(docs[1].token_index, 1);
    assert_eq!(docs[1].segments.len(), 0);
}

#[test]
fn primary_records_prefer_given_verse_text() {
    let verse = CorpusVerse {
        surah_number: 2,
        ayah: 7,
        text: Some("given text".to_string()),
        tokens: vec![CorpusToken { id: None, form: "w".to_string(), segments: None }],
    };
    let (docs, text) = normalize_verse(&verse);
    assert_eq!(text, "given text");
    assert_eq!(docs[0].id, "2:7:0");
}
