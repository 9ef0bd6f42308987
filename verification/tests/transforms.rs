use rowtext::brackets::remove_bracketed_content;
use rowtext::brackets::BracketSpec;
use rowtext::dedup::unique_words;
use rowtext::mapping::map_words;
use rowtext::mapping::Dict;
use rowtext::unicode::normalize;
use rowtext::unicode::remove_diacritics;
use rowtext::ConfigError;

fn dict_of(entries: &[(&str, &str)]) -> Dict {
    let owned: Vec<(String, String)> = entries
        .iter()
        .map(|(k, v)| (k.to_string(), v.to_string()))
        .collect();
    Dict::new(&owned).unwrap()
}

fn run_unique(value: &str) -> String {
    let mut out = String::new();
    unique_words(value, &mut out);
    out
}

fn run_map(value: &str, dict: &Dict) -> String {
    let mut out = String::new();
    map_words(value, dict, &mut out);
    out
}

fn run_normalize(value: &str, form: &str) -> String {
    let mut out = String::new();
    normalize(value, form, &mut out);
    out
}

fn run_diacritics(value: &str) -> String {
    let mut out = String::new();
    remove_diacritics(value, &mut out);
    out
}

fn run_brackets(value: &str, brackets: &str) -> String {
    let spec = BracketSpec::new(brackets).unwrap();
    let mut out = String::new();
    remove_bracketed_content(value, &spec, &mut out);
    out
}

#[test]
fn unique_words_first_occurrence_order() {
    assert_eq!(run_unique("a b a c b"), "a b c");
}

#[test]
fn unique_words_idempotent() {
    let once = run_unique("a b a c b");
    let twice = run_unique(&once);
    assert_eq!(once, twice);
    let once = run_unique("x  y x  y z");
    let twice = run_unique(&once);
    assert_eq!(once, twice);
}

#[test]
fn unique_words_empty_value() {
    assert_eq!(run_unique(""), "");
}

#[test]
fn unique_words_keeps_empty_tokens() {
    // Strict-space splitting of "a  a  b" yields "a", "", "a", "", "b";
    // the empty token deduplicates like any other, so one empty token
    // survives between "a" and "b".
    assert_eq!(run_unique("a  a  b"), "a  b");
}

#[test]
fn unique_words_single_token() {
    assert_eq!(run_unique("hello"), "hello");
}

#[test]
fn map_words_substitutes_and_keeps_unmapped() {
    let d = dict_of(&[("a", "x")]);
    assert_eq!(run_map("a b a", &d), "x b x");
}

#[test]
fn map_words_collapses_whitespace() {
    let d = dict_of(&[("a", "x")]);
    assert_eq!(run_map(" a\t b \n", &d), "x b");
}

#[test]
fn map_words_no_keys_match() {
    let d = dict_of(&[("q", "z")]);
    assert_eq!(run_map("a b", &d), "a b");
}

#[test]
fn map_words_empty_value() {
    let d = dict_of(&[("a", "x")]);
    assert_eq!(run_map("", &d), "");
}

#[test]
fn dict_duplicate_key_is_config_error() {
    let entries = vec![
        ("a".to_string(), "x".to_string()),
        ("a".to_string(), "y".to_string()),
    ];
    assert!(matches!(
        Dict::new(&entries),
        Err(ConfigError::DuplicateMapKey)
    ));
}

#[test]
fn normalize_nfc_composes() {
    assert_eq!(run_normalize("e\u{301}", "NFC"), "\u{e9}");
}

#[test]
fn normalize_nfd_decomposes() {
    assert_eq!(run_normalize("\u{e9}", "NFD"), "e\u{301}");
}

#[test]
fn normalize_nfkc_folds_compatibility() {
    assert_eq!(run_normalize("\u{fb01}", "NFKC"), "fi");
}

#[test]
fn normalize_nfkd_folds_compatibility() {
    assert_eq!(run_normalize("\u{fb01}x", "NFKD"), "fix");
}

#[test]
fn normalize_is_idempotent_per_form() {
    for form in ["NFC", "NFKC", "NFD", "NFKD"] {
        let once = run_normalize("e\u{301}\u{fb01}\u{212b}", form);
        let twice = run_normalize(&once, form);
        assert_eq!(once, twice);
    }
}

#[test]
fn normalize_unrecognized_form_is_noop() {
    assert_eq!(run_normalize("e\u{301}", "nfc"), "e\u{301}");
    assert_eq!(run_normalize("e\u{301}", ""), "e\u{301}");
    assert_eq!(run_normalize("\u{fb01}", "NKFC"), "\u{fb01}");
}

#[test]
fn remove_diacritics_strips_accents() {
    assert_eq!(run_diacritics("caf\u{e9}"), "cafe");
    assert_eq!(run_diacritics("\u{c5}ngstr\u{f6}m"), "Angstrom");
}

#[test]
fn remove_diacritics_output_is_ascii() {
    for input in ["caf\u{e9}", "\u{65e5}\u{672c}\u{8a9e}", "a\u{300}b\u{301}c"] {
        let out = run_diacritics(input);
        assert!(out.chars().all(|c| c.is_ascii()));
    }
}

#[test]
fn remove_diacritics_drops_undecomposable() {
    // An ideograph has no ASCII-range decomposition, so it disappears
    // entirely; the transform's scope is wider than accents alone.
    assert_eq!(run_diacritics("\u{65e5}a"), "a");
}

#[test]
fn brackets_simple_pair() {
    assert_eq!(run_brackets("a(b)c", "()"), "ac");
}

#[test]
fn brackets_two_kinds() {
    assert_eq!(run_brackets("a(b)c[d]e", "()[]"), "ace");
}

#[test]
fn brackets_stray_close_passes_through() {
    assert_eq!(run_brackets("a)b", "()"), "a)b");
}

#[test]
fn brackets_nested_same_kind_flat_reset() {
    // The per-kind depth is a 0/1 flag, not a counter: the first close
    // already puts the scan back outside, so "d" survives and the second
    // close passes through as a stray one.
    assert_eq!(run_brackets("a(b(c)d)e", "()"), "ad)e");
}

#[test]
fn brackets_no_glyphs_in_value() {
    assert_eq!(run_brackets("abc", "()"), "abc");
}

#[test]
fn brackets_empty_configuration() {
    assert_eq!(run_brackets("a(b)c", ""), "a(b)c");
}

#[test]
fn brackets_unclosed_open_suppresses_rest() {
    assert_eq!(run_brackets("a(bc", "()"), "a");
}

#[test]
fn brackets_shared_glyph_earliest_kind_wins() {
    // 'y' is both the close of kind 0 and the open of kind 1: closing
    // kind 0 does not stop the glyph scan, so the same character then
    // opens kind 1.
    assert_eq!(run_brackets("axbycz", "xyyz"), "a");
}

#[test]
fn brackets_odd_spec_is_config_error() {
    assert!(matches!(
        BracketSpec::new("("),
        Err(ConfigError::OddBracketSpec)
    ));
    assert!(matches!(
        BracketSpec::new("()["),
        Err(ConfigError::OddBracketSpec)
    ));
}

#[test]
fn transforms_append_to_existing_buffer() {
    let mut out = String::from("pre:");
    unique_words("a a", &mut out);
    assert_eq!(out, "pre:a");
}
