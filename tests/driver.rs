use lingua::{IsoCode639_1, LanguageDetectorBuilder};
use lingua_cli::driver::{batch_lines, format_batch, unit_action, warns_of_omitted_lines, UnitAction};
use lingua_cli::length::{alphabetic_count, long_enough, passes};
use lingua_cli::input::{decodable_lines, document_text, line_text};
use lingua_cli::languages::parse_language_codes;
use lingua_cli::mode::{join_words, select_mode, ConfigError, InputMode};
use lingua_cli::record::{
    format_confidence_values, format_line_with_confidence_values, format_rejected,
    format_language_list, format_with_offset, ConfidenceEntry, Segment,
};

fn entry(code: &str, score: f64) -> ConfidenceEntry {
    ConfidenceEntry {
        code: code.to_string(),
        score_key: score.to_bits(),
        score_text: format!("{}", score),
    }
}

fn key(score: f64) -> Option<u64> {
    Some(score.to_bits())
}

fn text(bytes: Vec<u8>) -> String {
    String::from_utf8(bytes).unwrap()
}

fn distribution() -> Vec<ConfidenceEntry> {
    vec![entry("de", 0.7), entry("nl", 0.2), entry("en", 0.1)]
}

fn detect(codes: &[IsoCode639_1], line: &str) -> Vec<ConfidenceEntry> {
    let detector = LanguageDetectorBuilder::from_iso_codes_639_1(codes).build();
    detector
        .compute_language_confidence_values(line)
        .into_iter()
        .map(|(language, score)| entry(&language.iso_code_639_1().to_string(), score))
        .collect()
}

#[test]
fn german_text_restricted_to_two_languages() {
    let codes = parse_language_codes(&vec!["de".to_string(), "en".to_string()]).unwrap();
    let results = detect(&codes, "Der Hund läuft");
    let out = text(format_confidence_values(&results, "\t", None, false));
    assert!(out.starts_with("de\t"));
    assert!(out.ends_with('\n'));
    assert_eq!(out.lines().count(), 1);
    assert_eq!(out.matches('\t').count(), 1);
}

#[test]
fn per_line_with_minimum_length() {
    let codes = parse_language_codes(&vec![
        "de".to_string(),
        "en".to_string(),
        "fr".to_string(),
        "es".to_string(),
        "it".to_string(),
        "nl".to_string(),
    ])
    .unwrap();
    let mode = InputMode::PerLine;
    assert_eq!(unit_action("Bonjour", Some(3), &mode), UnitAction::Classify);
    let results = detect(&codes, "Bonjour");
    let out = text(format_line_with_confidence_values("Bonjour", &results, "\t", None, false));
    assert!(out.starts_with("fr\t"));
    assert!(out.ends_with("\tBonjour\n"));
    assert_eq!(unit_action("", Some(3), &mode), UnitAction::ReportUnknown);
    assert_eq!(text(format_rejected("\t", Some(""))), "unknown\t\t\n");
}

#[test]
fn multi_segment_records() {
    let segments = vec![
        Segment { start: 0, end: 5, code: "en".to_string() },
        Segment { start: 6, end: 13, code: "fr".to_string() },
    ];
    let out = text(format_with_offset(&segments, "Hello Bonjour", "\t"));
    assert_eq!(out, "0\t5\ten\tHello\n6\t13\tfr\tBonjour\n");
}

#[test]
fn multi_segment_offsets_are_bytes() {
    let segments = vec![Segment { start: 0, end: 6, code: "de".to_string() }];
    let out = text(format_with_offset(&segments, "läuft gut", ","));
    assert_eq!(out, "0,6,de,läuft\n");
}

#[test]
fn parallel_batch_drops_short_lines() {
    let mode = select_mode(&vec![], true, true, false).unwrap();
    assert_eq!(mode, InputMode::PerLineParallel);
    let lines = vec!["Guten Morgen".to_string(), "ab".to_string(), "Good morning".to_string()];
    let batch = batch_lines(&lines, Some(3));
    assert_eq!(batch, vec!["Guten Morgen".to_string(), "Good morning".to_string()]);
    assert!(warns_of_omitted_lines(&mode, Some(3)));
    assert_eq!(unit_action("ab", Some(3), &mode), UnitAction::Omit);
    let results = vec![vec![entry("de", 0.9)], vec![entry("en", 0.8)]];
    let out = text(format_batch(&batch, &results, "\t", None, false));
    assert_eq!(out, "de\t0.9\tGuten Morgen\nen\t0.8\tGood morning\n");
}

#[test]
fn no_warning_outside_parallel_mode() {
    assert!(!warns_of_omitted_lines(&InputMode::PerLine, Some(3)));
    assert!(!warns_of_omitted_lines(&InputMode::PerLineParallel, None));
}

#[test]
fn top_entry_without_threshold() {
    let out = text(format_confidence_values(&distribution(), "\t", None, false));
    assert_eq!(out, "de\t0.7\n");
}

#[test]
fn top_entry_meets_threshold() {
    let out = text(format_confidence_values(&distribution(), "\t", key(0.7), false));
    assert_eq!(out, "de\t0.7\n");
}

#[test]
fn top_entry_below_threshold() {
    let out = text(format_confidence_values(&distribution(), "\t", key(0.8), false));
    assert_eq!(out, "unknown\t\n");
}

#[test]
fn empty_distribution_is_unknown() {
    let out = text(format_confidence_values(&vec![], "\t", None, true));
    assert_eq!(out, "unknown\t\n");
    let out = text(format_confidence_values(&vec![], "\t", None, false));
    assert_eq!(out, "unknown\t\n");
}

#[test]
fn all_entries_above_threshold() {
    let out = text(format_confidence_values(&distribution(), ";", key(0.15), true));
    assert_eq!(out, "de;0.7\nnl;0.2\n");
}

#[test]
fn all_entries_without_threshold() {
    let out = text(format_confidence_values(&distribution(), "\t", None, true));
    assert_eq!(out, "de\t0.7\nnl\t0.2\nen\t0.1\n");
}

#[test]
fn all_entries_none_qualifying() {
    let out = text(format_line_with_confidence_values("Hallo", &distribution(), "\t", key(0.95), true));
    assert_eq!(out, "unknown\t\tHallo\n");
}

#[test]
fn line_records_carry_the_line() {
    let out = text(format_line_with_confidence_values("Hallo Welt", &distribution(), "|", key(0.2), true));
    assert_eq!(out, "de|0.7|Hallo Welt\nnl|0.2|Hallo Welt\n");
}

#[test]
fn formatting_twice_is_identical() {
    let a = format_confidence_values(&distribution(), "\t", key(0.1), true);
    let b = format_confidence_values(&distribution(), "\t", key(0.1), true);
    assert_eq!(a, b);
}

#[test]
fn batch_keeps_positions() {
    let lines = vec!["one".to_string(), "two".to_string(), "three".to_string()];
    let results = vec![vec![entry("en", 0.5)], vec![entry("fr", 0.6)], vec![entry("it", 0.4)]];
    let out = text(format_batch(&lines, &results, "\t", None, false));
    assert_eq!(out, "en\t0.5\tone\nfr\t0.6\ttwo\nit\t0.4\tthree\n");
}

#[test]
fn length_filter_at_exact_minimum() {
    assert_eq!(alphabetic_count("a1 b! ü"), 3);
    assert!(long_enough("abc", 3));
    assert!(!long_enough("ab 12", 3));
    assert!(passes("12", None));
    assert!(!passes("12", Some(1)));
    assert!(passes("ab c", Some(3)));
    assert_eq!(unit_action("ab1", Some(3), &InputMode::WholeDocument), UnitAction::ReportUnknown);
    assert_eq!(unit_action("abc", Some(3), &InputMode::WholeDocument), UnitAction::Classify);
}

#[test]
fn rejected_whole_text() {
    assert_eq!(text(format_rejected("\t", None)), "unknown\t\n");
}

#[test]
fn direct_text_overrides_line_modes() {
    let words = vec!["Hello".to_string(), "world".to_string()];
    assert_eq!(join_words(&words), "Hello world");
    let mode = select_mode(&words, true, true, true).unwrap();
    assert_eq!(mode, InputMode::DirectText("Hello world".to_string()));
}

#[test]
fn stdin_modes() {
    assert_eq!(select_mode(&vec![], false, false, false), Ok(InputMode::WholeDocument));
    assert_eq!(select_mode(&vec![], false, true, false), Ok(InputMode::WholeDocument));
    assert_eq!(select_mode(&vec![], true, false, false), Ok(InputMode::PerLine));
    assert_eq!(select_mode(&vec![], false, false, true), Ok(InputMode::WholeDocument));
}

#[test]
fn multi_with_lines_is_incompatible() {
    assert_eq!(select_mode(&vec![], true, false, true), Err(ConfigError::IncompatibleModes));
    assert_eq!(select_mode(&vec![], true, true, true), Err(ConfigError::IncompatibleModes));
}

#[test]
fn unsupported_language_code() {
    let codes = vec!["de".to_string(), "xx".to_string(), "yy".to_string()];
    assert_eq!(
        parse_language_codes(&codes).err(),
        Some(ConfigError::UnsupportedLanguageCode("xx".to_string()))
    );
    let ok = parse_language_codes(&vec!["DE".to_string(), "fr".to_string()]).unwrap();
    assert_eq!(ok, vec![IsoCode639_1::DE, IsoCode639_1::FR]);
}

#[test]
fn invalid_document_encoding() {
    assert_eq!(document_text(vec![0xff, 0x41]), Err(ConfigError::InvalidEncoding));
    assert_eq!(document_text("läuft".as_bytes().to_vec()), Ok("läuft".to_string()));
}

#[test]
fn line_terminators_are_stripped() {
    assert_eq!(line_text(&b"abc\r\n".to_vec()), Some("abc".to_string()));
    assert_eq!(line_text(&b"abc\n".to_vec()), Some("abc".to_string()));
    assert_eq!(line_text(&b"abc".to_vec()), Some("abc".to_string()));
    assert_eq!(line_text(&vec![0xc3, b'\n']), None);
}

#[test]
fn undecodable_lines_are_dropped() {
    let raws = vec![b"eins\n".to_vec(), vec![0xff, b'\n'], b"drei".to_vec()];
    assert_eq!(decodable_lines(&raws), vec!["eins".to_string(), "drei".to_string()]);
}

#[test]
fn language_listing_lines() {
    let mut languages: Vec<lingua::Language> = lingua::Language::all().into_iter().collect();
    languages.sort();
    let listing: Vec<(String, String)> = languages
        .iter()
        .map(|l| (l.iso_code_639_1().to_string(), l.to_string()))
        .collect();
    let out = text(format_language_list(&listing));
    assert_eq!(out.lines().count(), languages.len());
    for line in out.lines() {
        let parts: Vec<&str> = line.split(" - ").collect();
        assert_eq!(parts.len(), 2);
        assert_eq!(parts[0].len(), 2);
    }
    let fixed = vec![("de".to_string(), "German".to_string()), ("fr".to_string(), "French".to_string())];
    assert_eq!(text(format_language_list(&fixed)), "de - German\nfr - French\n");
}
