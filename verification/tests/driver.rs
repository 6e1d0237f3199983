use epub_translator::deepl::models::{Language, LanguagesResponse};
use epub_translator::deepl::mock_usage;
use epub_translator::driver::{
    collect_keys, confirms, decimal, path_is_epub, preflight_report, supported_codes,
};
use epub_translator::text::{char_is_whitespace, chars_of, joined, str_eq, text_is_blank};

#[test]
fn epub_paths_end_in_epub() {
    assert!(path_is_epub("book.epub"));
    assert!(path_is_epub("/home/me/My Book.v2.epub"));
    assert!(!path_is_epub("book.EPUB"));
    assert!(!path_is_epub("book.zip"));
    assert!(!path_is_epub(".epub"));
    assert!(!path_is_epub("epub"));
    assert!(!path_is_epub("book.epub/"));
}

#[test]
fn only_y_confirms() {
    assert!(confirms("y"));
    assert!(confirms("Y"));
    assert!(confirms("y\n"));
    assert!(confirms("  Y \r\n"));
    assert!(!confirms(""));
    assert!(!confirms("\n"));
    assert!(!confirms("n"));
    assert!(!confirms("yes"));
    assert!(!confirms("y y"));
    assert!(!confirms("yy"));
    assert!(!confirms("ny"));
    assert!(!confirms("yn"));
}

#[test]
fn keys_stop_at_the_first_gap() {
    let k = |s: &str| Some(s.to_string());
    assert_eq!(collect_keys("p".to_string(), vec![]), vec!["p"]);
    assert_eq!(collect_keys("p".to_string(), vec![k("a"), k("b")]), vec!["p", "a", "b"]);
    assert_eq!(collect_keys("p".to_string(), vec![k("a"), None, k("c")]), vec!["p", "a"]);
    assert_eq!(collect_keys("p".to_string(), vec![None, k("b")]), vec!["p"]);
}

#[test]
fn supported_codes_are_joined() {
    let lang = |c: &str| Language { language: c.to_string(), name: String::new() };
    assert_eq!(supported_codes(&LanguagesResponse(vec![])), "");
    assert_eq!(supported_codes(&LanguagesResponse(vec![lang("ES")])), "ES");
    assert_eq!(
        supported_codes(&LanguagesResponse(vec![lang("DE"), lang("EN-US"), lang("ES")])),
        "DE, EN-US, ES"
    );
}

#[test]
fn white_space_is_what_unicode_says() {
    for c in ['\t', '\n', '\u{000B}', '\u{000C}', '\r', ' ', '\u{0085}', '\u{00A0}', '\u{1680}',
        '\u{2000}', '\u{200A}', '\u{2028}', '\u{2029}', '\u{202F}', '\u{205F}', '\u{3000}']
    {
        assert!(char_is_whitespace(c), "{:?}", c);
    }
    for c in ['a', '0', '\u{0008}', '\u{000E}', '\u{200B}', '\u{1FFF}', '\u{FEFF}', '-'] {
        assert!(!char_is_whitespace(c), "{:?}", c);
    }
    for code in 0u32..0x3100 {
        if let Some(c) = char::from_u32(code) {
            assert_eq!(char_is_whitespace(c), c.is_whitespace(), "{:?}", c);
        }
    }
}

#[test]
fn blank_texts() {
    assert!(text_is_blank(""));
    assert!(text_is_blank(" \n\t\u{00A0}"));
    assert!(!text_is_blank(" a "));
    assert!(!text_is_blank("."));
}

#[test]
fn text_helpers() {
    assert_eq!(chars_of("aé✓"), vec!['a', 'é', '✓']);
    assert!(chars_of("").is_empty());
    assert!(str_eq("abc", "abc"));
    assert!(!str_eq("abc", "abd"));
    assert!(!str_eq("abc", "ab"));
    assert_eq!(joined("ab", "cd"), "abcd");
    assert_eq!(joined("", ""), "");
}

#[test]
fn numbers_are_written_in_decimal() {
    assert_eq!(decimal(0), "0");
    assert_eq!(decimal(7), "7");
    assert_eq!(decimal(10), "10");
    assert_eq!(decimal(1234567890), "1234567890");
    assert_eq!(decimal(500_000), "500000");
    assert_eq!(decimal(u64::MAX as u128), u64::MAX.to_string());
    assert_eq!(decimal(u128::MAX), u128::MAX.to_string());
}

#[test]
fn report_shows_limit_and_use() {
    let report = preflight_report(&mock_usage(), 499_000, 1234);
    assert_eq!(
        report,
        "DeepL Usage: Your limit is: 500000, you have already use: 1000\n Your character translation capacity is 499000\n Number of characters to translate: 1234"
    );
}
