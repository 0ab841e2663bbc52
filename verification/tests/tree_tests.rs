//! The tree renderer: word alignment, prefix/stem labels, detail lines
//! and the long part-of-speech form.

use kalima::consolidate::{MorphEntry, VerseInput};
use kalima::model::SurahInfo;
use kalima::tree::{build_tree_display, pos_long_form};

fn morph_seg(text: &str, type_: &str, widx: usize) -> MorphEntry {
    MorphEntry {
        text: text.to_string(),
        pos: None,
        root: None,
        form: None,
        lemma: None,
        features: None,
        type_: Some(type_.to_string()),
        dependency_rel: None,
        role: None,
        case_: None,
        gender: None,
        number: None,
        definiteness: None,
        determiner: None,
        word_index: Some(widx),
    }
}

#[test]
fn build_tree_display_groups_segments_by_word_order() {
    let verse = VerseInput {
        surah: SurahInfo { number: 1, name: "Al-Fatiha".to_string() },
        ayah: 1,
        text: "بِسْمِ ٱللَّهِ ٱلرَحْمَٰنِ ٱلرَّحِيمِ".to_string(),
        tokens: vec![],
    };
    let segments = vec![
        MorphEntry {
            pos: Some("PREP".to_string()),
            features: Some(
                "type:Prefix | invar:x | role:y | phrase:شبه جملة | phrase_fn:خبر".to_string(),
            ),
            ..morph_seg("ب", "Prefix", 1)
        },
        MorphEntry {
            pos: Some("NOUN".to_string()),
            root: Some("س م و".to_string()),
            features: Some("type:Stem | poss:z".to_string()),
            ..morph_seg("سم", "Stem", 1)
        },
        morph_seg("ال", "Prefix", 2),
        MorphEntry { pos: Some("PROP-NOUN".to_string()), ..morph_seg("له", "Stem", 2) },
        morph_seg("ال", "Prefix", 3),
        MorphEntry { pos: Some("ADJ".to_string()), ..morph_seg("رحمن", "Stem", 3) },
        morph_seg("ال", "Prefix", 4),
        MorphEntry { pos: Some("ADJ".to_string()), ..morph_seg("رحيم", "Stem", 4) },
    ];

    let tree = build_tree_display(&verse, &segments);
    assert!(tree.contains("Word 1: بِسْمِ"), "word 1 surface missing:\n{}", tree);
    assert!(tree.contains("Word 2: ٱللَّهِ"), "word 2 surface missing");
    assert!(tree.contains("Word 3: ٱلرَحْمَٰنِ"), "word 3 surface missing");
    assert!(tree.contains("Word 4: ٱلرَّحِيمِ"), "word 4 surface missing");
    assert!(tree.contains("Prefix: ب"), "prefix for word1 missing");
    assert!(tree.contains("Stem: سم"), "stem for word1 missing");
    assert!(tree.contains("Stem: له"), "stem for word2 missing");
    assert!(tree.contains("Stem: رحمن"), "stem for word3 missing");
    assert!(tree.contains("Stem: رحيم"), "stem for word4 missing");
    // Word lines appear in order, each with its prefix before its stem.
    let w1 = tree.find("Word 1").unwrap();
    let w2 = tree.find("Word 2").unwrap();
    let w3 = tree.find("Word 3").unwrap();
    let w4 = tree.find("Word 4").unwrap();
    assert!(w1 < w2 && w2 < w3 && w3 < w4);
    let p1 = tree.find("Prefix: ب").unwrap();
    let s1 = tree.find("Stem: سم").unwrap();
    assert!(w1 < p1 && p1 < s1 && s1 < w2);
    // The phrase header carries its glosses.
    assert!(tree.contains("Phrase: شبه جملة (Semi-Sentence)"), "phrase gloss missing:\n{}", tree);
    assert!(tree.contains("Role: خبر (Predicate)"), "role gloss missing");
    // Detail lines.
    assert!(tree.contains("POS: Preposition (PREP)"));
    assert!(tree.contains("Root: س م و"));
    assert!(tree.contains("Grammar: z"));
    assert!(tree.contains("Inflection: x"));
}

#[test]
fn tree_uses_cursor_when_indices_are_absent() {
    let verse = VerseInput {
        surah: SurahInfo { number: 1, name: "T".to_string() },
        ayah: 1,
        text: "aa bb".to_string(),
        tokens: vec![],
    };
    let segments = vec![
        MorphEntry { word_index: None, ..morph_seg("x", "Stem", 0) },
        MorphEntry { word_index: None, ..morph_seg("y", "Stem", 0) },
    ];
    let tree = build_tree_display(&verse, &segments);
    let x = tree.find("Stem: x").unwrap();
    let w2 = tree.find("Word 2: bb").unwrap();
    let y = tree.find("Stem: y").unwrap();
    assert!(x < w2 && w2 < y, "cursor did not advance past the stem:\n{}", tree);
}

#[test]
fn pos_long_form_expands_known_tags() {
    assert_eq!(pos_long_form("DET"), "Determiner (DET)");
    assert_eq!(pos_long_form("det"), "Determiner (det)");
    assert_eq!(pos_long_form("V"), "Verb (V)");
    assert_eq!(pos_long_form("PROPN"), "Proper Noun (PROPN)");
}

#[test]
fn pos_long_form_title_cases_unknown_tags() {
    assert_eq!(pos_long_form("weird_tag"), "Weird Tag");
    assert_eq!(pos_long_form("odd-one"), "Odd One");
}
