//! The pattern matcher: template compilation and anchored matching.

use kalima::pattern::{count_pattern_matches, pattern_segments_to_regex, search_pattern_texts,
    PatternSegment};

fn letter(l: &str) -> PatternSegment {
    PatternSegment {
        letter: Some(l.to_string()),
        any_letter: false,
        diacritics: None,
        any_diacritics: false,
    }
}

fn wild() -> PatternSegment {
    PatternSegment { letter: None, any_letter: true, diacritics: None, any_diacritics: false }
}

fn chars(s: &str) -> Vec<char> {
    s.chars().collect()
}

#[test]
fn anchored_template_rejects_longer_words() {
    // A two-letter template must not match a three-letter word that
    // merely contains the two letters.
    let segs = vec![letter("ب"), letter("س")];
    let text = chars("بسم");
    assert_eq!(count_pattern_matches(&text, &segs, false, false), 0);
    // With both attachments allowed, the substring does match.
    assert_eq!(count_pattern_matches(&text, &segs, true, true), 1);
}

#[test]
fn whole_word_template_matches_exactly() {
    let segs = vec![letter("ب"), letter("س"), letter("م")];
    assert_eq!(count_pattern_matches(&chars("بسم"), &segs, false, false), 1);
    assert_eq!(count_pattern_matches(&chars("بسم بسم"), &segs, false, false), 2);
    assert_eq!(count_pattern_matches(&chars("xبسم"), &segs, false, false), 0);
    assert_eq!(count_pattern_matches(&chars("xبسم"), &segs, true, false), 1);
}

#[test]
fn diacritics_are_skipped_between_letters() {
    // The verse text carries diacritics between base letters.
    let segs = vec![letter("ب"), letter("س"), letter("م")];
    assert_eq!(count_pattern_matches(&chars("بِسْمِ"), &segs, false, false), 1);
}

#[test]
fn explicit_diacritics_are_required() {
    let kasra = PatternSegment {
        letter: Some("ب".to_string()),
        any_letter: false,
        diacritics: Some(vec!["ِ".to_string()]),
        any_diacritics: false,
    };
    assert_eq!(count_pattern_matches(&chars("بِ"), &vec![kasra], false, false), 1);
    let kasra2 = PatternSegment {
        letter: Some("ب".to_string()),
        any_letter: false,
        diacritics: Some(vec!["ِ".to_string()]),
        any_diacritics: false,
    };
    assert_eq!(count_pattern_matches(&chars("بْ"), &vec![kasra2], false, false), 0);
}

#[test]
fn wildcard_positions_accept_any_letter() {
    let segs = vec![wild(), wild(), wild()];
    assert_eq!(count_pattern_matches(&chars("بسم"), &segs, false, false), 1);
    assert_eq!(count_pattern_matches(&chars("بس"), &segs, false, false), 0);
}

#[test]
fn compiled_regex_carries_anchors_only_on_strict_sides() {
    let segs = vec![letter("ب")];
    let strict = pattern_segments_to_regex(&segs, false, false).unwrap();
    assert!(strict.starts_with("(?<!\\S)"));
    assert!(strict.ends_with("(?!\\S)"));
    let segs2 = vec![letter("ب")];
    let loose = pattern_segments_to_regex(&segs2, true, true).unwrap();
    assert!(!loose.contains("(?<!\\S)"));
    assert!(!loose.contains("(?!\\S)"));
    let empty: Vec<PatternSegment> = vec![];
    assert!(pattern_segments_to_regex(&empty, false, false).is_none());
}

#[test]
fn verse_scan_counts_per_verse() {
    let segs = vec![letter("ب"), letter("س"), letter("م")];
    let texts = vec![
        ("1:1".to_string(), "بسم الله".to_string()),
        ("1:2".to_string(), "الله".to_string()),
        ("1:3".to_string(), "بسم بسم".to_string()),
    ];
    let (hits, total) = search_pattern_texts(&texts, &segs, false, false, 50);
    assert_eq!(hits.len(), 2);
    assert_eq!(hits[0].0, "1:1");
    assert_eq!(hits[0].1, 1);
    assert_eq!(hits[1].0, "1:3");
    assert_eq!(hits[1].1, 2);
    assert_eq!(total, 3, "the total counts occurrences over all verses");
}

#[test]
fn verse_scan_truncates_listed_results_but_not_the_total() {
    let segs = vec![letter("ب")];
    let texts = vec![
        ("1:1".to_string(), "ب".to_string()),
        ("1:2".to_string(), "ب".to_string()),
        ("1:3".to_string(), "ب ب".to_string()),
    ];
    let (hits, total) = search_pattern_texts(&texts, &segs, false, false, 2);
    assert_eq!(hits.len(), 2, "listed results stop at the limit");
    assert_eq!(hits[0].0, "1:1");
    assert_eq!(hits[1].0, "1:2");
    assert_eq!(total, 4, "the total still covers every verse");
}
