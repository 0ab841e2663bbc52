//! The analysis consolidator: source merging, fallback splitting, repair,
//! and the strict completeness check.

use kalima::consolidate::{build_analysis_tokens, strict_coverage_check, strict_verse_coverage,
    AnalysisToken, DependencyEntry, MorphEntry, StrictCoverage, TokenSegment, VerseInput,
    VerseTokenInput};
use kalima::model::SurahInfo;

fn entry(text: &str) -> MorphEntry {
    MorphEntry {
        text: text.to_string(),
        pos: None,
        root: None,
        form: None,
        lemma: None,
        features: None,
        type_: None,
        dependency_rel: None,
        role: None,
        case_: None,
        gender: None,
        number: None,
        definiteness: None,
        determiner: None,
        word_index: None,
    }
}

fn verse(text: &str, tokens: Vec<VerseTokenInput>) -> VerseInput {
    VerseInput {
        surah: SurahInfo { number: 1, name: "Test".to_string() },
        ayah: 1,
        text: text.to_string(),
        tokens,
    }
}

fn texts(tokens: &[AnalysisToken]) -> Vec<String> {
    tokens.iter().map(|t| t.text.clone()).collect()
}

#[test]
fn build_tokens_prefers_morphology_segments() {
    let v = verse("text", vec![]);
    let morph = vec![MorphEntry {
        pos: Some("N".to_string()),
        root: Some("r".to_string()),
        form: Some("f".to_string()),
        type_: Some("noun".to_string()),
        dependency_rel: Some("subj".to_string()),
        ..entry("word")
    }];
    let deps: Vec<DependencyEntry> = vec![];
    let tokens = build_analysis_tokens(&v, &morph, &deps, true);
    assert!(tokens.iter().any(|t| t.text == "word (noun)"));
    assert!(tokens.iter().any(|t| t.root.as_deref() == Some("r")));
    assert!(tokens.iter().any(|t| t.pos.as_deref() == Some("N | dep: subj")));
}

#[test]
fn build_tokens_falls_back_to_verse_segments() {
    let v = verse(
        "text",
        vec![VerseTokenInput {
            text: Some("base".to_string()),
            form: Some("form".to_string()),
            segments: vec![TokenSegment {
                root: Some("root".to_string()),
                pos: Some("POS".to_string()),
            }],
        }],
    );
    let tokens = build_analysis_tokens(&v, &vec![], &vec![], true);
    assert_eq!(tokens.len(), 2, "got {:?}", texts(&tokens));
    assert!(tokens.iter().any(|t| t.text == "form (POS)" && t.root.as_deref() == Some("root")));
    assert!(tokens.iter().any(|t| t.text == "text"));
}

#[test]
fn build_tokens_includes_dependencies() {
    let v = verse("text", vec![]);
    let deps = vec![DependencyEntry {
        rel_label: Some("subj".to_string()),
        word: Some("foo".to_string()),
        pos: Some("N".to_string()),
    }];
    let tokens = build_analysis_tokens(&v, &vec![], &deps, true);
    assert_eq!(tokens.len(), 2, "got {:?}", texts(&tokens));
    assert!(tokens.iter().any(|t| t.text == "text"));
    assert!(tokens.iter().any(|t| t.text == "subj -> foo" && t.pos.as_deref() == Some("N")));
}

#[test]
fn build_tokens_merges_partial_morphology_with_verse() {
    let v = verse(
        "text",
        vec![
            VerseTokenInput {
                text: Some("first".to_string()),
                form: Some("first".to_string()),
                segments: vec![],
            },
            VerseTokenInput {
                text: Some("second".to_string()),
                form: Some("second".to_string()),
                segments: vec![TokenSegment {
                    root: Some("r2".to_string()),
                    pos: Some("POS2".to_string()),
                }],
            },
        ],
    );
    // Morphology only covers the first token.
    let morph = vec![MorphEntry {
        pos: Some("POS1".to_string()),
        root: Some("r1".to_string()),
        form: Some("f1".to_string()),
        type_: Some("noun".to_string()),
        ..entry("first")
    }];
    let tokens = build_analysis_tokens(&v, &morph, &vec![], true);
    assert_eq!(tokens.len(), 3, "got {:?}", texts(&tokens));
    assert!(tokens.iter().any(|t| t.text.contains("first") && t.root.as_deref() == Some("r1")));
    assert!(tokens.iter().any(|t| t.text.contains("second") && t.root.as_deref() == Some("r2")));
    assert!(tokens.iter().any(|t| t.text == "text"));
}

#[test]
fn build_tokens_splits_whole_verse_tokens_into_words() {
    let v = verse(
        "foo bar baz",
        vec![VerseTokenInput {
            text: Some("foo bar baz".to_string()),
            form: Some("foo bar baz".to_string()),
            segments: vec![],
        }],
    );
    let tokens = build_analysis_tokens(&v, &vec![], &vec![], true);
    assert_eq!(tokens.len(), 3, "got {:?}", texts(&tokens));
    assert!(tokens.iter().any(|t| t.text == "foo"));
    assert!(tokens.iter().any(|t| t.text == "bar"));
    assert!(tokens.iter().any(|t| t.text == "baz"));
}

#[test]
fn consolidation_keeps_two_sources_apart() {
    // One morphology segment for the first token plus a bare verse token
    // for the second, each keeping its own root.
    let v = verse(
        "",
        vec![
            VerseTokenInput {
                text: Some("first".to_string()),
                form: Some("first".to_string()),
                segments: vec![],
            },
            VerseTokenInput {
                text: Some("second".to_string()),
                form: Some("second".to_string()),
                segments: vec![TokenSegment {
                    root: Some("r2".to_string()),
                    pos: None,
                }],
            },
        ],
    );
    let morph = vec![MorphEntry { root: Some("r1".to_string()), ..entry("first") }];
    let tokens = build_analysis_tokens(&v, &morph, &vec![], true);
    assert_eq!(tokens.len(), 2, "got {:?}", texts(&tokens));
    assert!(tokens.iter().any(|t| t.text == "first" && t.root.as_deref() == Some("r1")));
    assert!(tokens.iter().any(|t| t.text == "second" && t.root.as_deref() == Some("r2")));
}

#[test]
fn consolidation_fills_missing_attributes_from_duplicates() {
    let v = verse("", vec![]);
    let morph = vec![
        MorphEntry { root: Some("r1".to_string()), ..entry("same") },
        MorphEntry { lemma: Some("l2".to_string()), root: Some("other".to_string()), ..entry("Same") },
    ];
    let tokens = build_analysis_tokens(&v, &morph, &vec![], false);
    assert_eq!(tokens.len(), 1);
    assert_eq!(tokens[0].root.as_deref(), Some("r1"));
    assert_eq!(tokens[0].lemma.as_deref(), Some("l2"));
}

#[test]
fn strict_check_names_first_missing_position() {
    // Coverage of three positions out of four fails naming the gap.
    let raw: Vec<usize> = vec![1, 2, 4];
    assert_eq!(strict_coverage_check(&raw, 4), Err(3));
}

#[test]
fn strict_check_accepts_full_coverage() {
    let raw: Vec<usize> = vec![1, 2, 3, 4];
    assert_eq!(strict_coverage_check(&raw, 4), Ok(4));
}

#[test]
fn strict_verse_coverage_names_its_failures() {
    let empty: Vec<MorphEntry> = vec![];
    assert!(matches!(strict_verse_coverage(&empty, 4), StrictCoverage::NoMorphology));
    let unindexed = vec![entry("w")];
    assert!(matches!(strict_verse_coverage(&unindexed, 4), StrictCoverage::NoIndices));
    let gapped = vec![
        MorphEntry { word_index: Some(1), ..entry("a") },
        MorphEntry { word_index: Some(2), ..entry("b") },
        MorphEntry { word_index: Some(4), ..entry("c") },
    ];
    assert!(matches!(strict_verse_coverage(&gapped, 4), StrictCoverage::Missing(3)));
    let full = vec![
        MorphEntry { word_index: Some(1), ..entry("a") },
        MorphEntry { word_index: Some(2), ..entry("b") },
    ];
    assert!(matches!(strict_verse_coverage(&full, 2), StrictCoverage::Complete(2)));
}

#[test]
fn strict_check_normalizes_zero_based_indices() {
    let raw: Vec<usize> = vec![0, 1, 2, 3];
    assert_eq!(strict_coverage_check(&raw, 4), Ok(4));
    let gap: Vec<usize> = vec![0, 1, 3];
    assert_eq!(strict_coverage_check(&gap, 4), Err(3));
}
