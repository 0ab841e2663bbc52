//! Verse references, number phrases, configuration and key rendering.

use kalima::command::{parse_number, surah_name_or_fallback};
use kalima::config::ServerConfig;
use kalima::model::{interp_key, parse_verse_ref, token_uid};

#[test]
fn parse_verse_ref_accepts_surah_ayah() {
    assert_eq!(parse_verse_ref("2:5").unwrap(), (2, 5));
}

#[test]
fn parse_number_words_and_digits() {
    assert_eq!(parse_number("12").unwrap(), 12);
    assert_eq!(parse_number("twenty three").unwrap(), 23);
}

#[test]
fn parse_verse_ref_rejects_malformed() {
    assert!(parse_verse_ref("25").is_err());
    assert!(parse_verse_ref("2:x").is_err());
    assert!(parse_verse_ref("a:5").is_err());
    assert!(parse_verse_ref("").is_err());
    assert!(parse_verse_ref("1:2:3").is_err());
}

#[test]
fn parse_number_compound_phrases() {
    assert_eq!(parse_number("one hundred").unwrap(), 100);
    assert_eq!(parse_number("seven").unwrap(), 7);
    assert_eq!(parse_number(" 42 ").unwrap(), 42);
    assert!(parse_number("eleventy").is_err());
    // An empty phrase folds to zero.
    assert_eq!(parse_number("").unwrap(), 0);
}

#[test]
fn test_default_config() {
    let config = ServerConfig::default();
    assert!(!config.database_path.is_empty());
    assert!(!config.index_path.is_empty());
    assert_eq!(config.bind_address, "0.0.0.0:8080");
}

#[test]
fn test_new_config() {
    let config = ServerConfig::new("test.db".to_string(), "test-index".to_string());
    assert_eq!(config.database_path, "test.db");
    assert_eq!(config.index_path, "test-index");
}

#[test]
fn config_validation_requires_both_directories() {
    let config = ServerConfig::new("a.db".to_string(), "idx".to_string());
    assert!(config.validate(true, true).is_ok());
    assert!(config.validate(false, true).is_err());
    assert!(config.validate(true, false).is_err());
}

#[test]
fn keys_render_canonically() {
    assert_eq!(interp_key(1, 7), "1:7");
    assert_eq!(interp_key(-2, 0), "-2:0");
    assert_eq!(token_uid(2, 30, 4), "2:30:4");
}

#[test]
fn surah_names_fall_back() {
    assert_eq!(surah_name_or_fallback(1, "  custom  "), "custom");
    assert_eq!(surah_name_or_fallback(1, ""), "الفاتحة");
    assert_eq!(surah_name_or_fallback(114, " "), "الناس");
    assert_eq!(surah_name_or_fallback(115, ""), "Surah 115");
    assert_eq!(surah_name_or_fallback(0, ""), "Surah 0");
}
