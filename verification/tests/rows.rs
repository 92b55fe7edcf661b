use csv_processor::row::{fields_of, line_matches};
use csv_processor::scan::scan_content;
use csv_processor::text::{chars_of, decimal_of, trim, white_space};

fn chars(s: &str) -> Vec<char> {
    s.chars().collect()
}

#[test]
fn fields_are_split_at_commas_and_trimmed() {
    assert_eq!(fields_of(" a , b,c "), vec!["a", "b", "c"]);
    assert_eq!(fields_of(""), vec![""]);
    assert_eq!(fields_of("a,,"), vec!["a", "", ""]);
    assert_eq!(fields_of("\u{a0}x\u{3000},\ty\r"), vec!["x", "y"]);
}

#[test]
fn white_space_agrees_with_the_standard_library() {
    let mut code: u32 = 0;
    while code <= 0x10FFFF {
        if let Some(c) = char::from_u32(code) {
            assert_eq!(white_space(c), c.is_whitespace(), "U+{:04X}", code);
        }
        code += 1;
    }
}

#[test]
fn trim_agrees_with_the_standard_library() {
    for s in ["", " ", "  a b  ", "\u{2003}x\u{85}", "x", "\n\t x \r\n", "\u{200b}x"] {
        assert_eq!(trim(&chars(s)), chars(s.trim()));
        assert_eq!(chars_of(s), chars(s));
    }
}

#[test]
fn decimal_numerals() {
    assert_eq!(decimal_of(0), chars("0"));
    assert_eq!(decimal_of(7), chars("7"));
    assert_eq!(decimal_of(10), chars("10"));
    assert_eq!(decimal_of(1234567890), chars("1234567890"));
    assert_eq!(decimal_of(usize::MAX), chars(&usize::MAX.to_string()));
}

#[test]
fn a_row_matches_on_its_first_or_third_field_only() {
    assert!(line_matches("alice@x.com,Jane,bob@x.com", "ALICE@X.COM"));
    assert!(line_matches("alice@x.com,Jane,bob@x.com", "Bob@X.com"));
    assert!(!line_matches("alice@x.com,Jane,bob@x.com", "jane"));
    assert!(!line_matches("alice@x.com,Jane", "alice@x.com"));
    assert!(!line_matches("", ""));
    assert!(line_matches(",,", ""));
    assert!(line_matches("  alice@x.com  , Jane , bob@x.com ,extra", "alice@x.com"));
    assert!(!line_matches("alice@x.com,Jane,bob@x.com", " alice@x.com"));
    assert!(!line_matches("ALICÉ@x.com,a,b", "alicé@x.com"));
    assert!(line_matches("alicÉ@x.com,a,b", "ALICÉ@x.com"));
}

#[test]
fn scan_finds_the_first_matching_row() {
    let content = b"h1,h2,h3\nx@x.com,A,y@x.com\nalice@x.com,Jane,bob@x.com\r\nalice@x.com,Other,z@x.com\n";
    let scan = scan_content(content, "ALICE@X.COM").unwrap();
    let hit = scan.hit.unwrap();
    assert_eq!(hit.row, 3);
    assert_eq!(hit.text, "alice@x.com,Jane,bob@x.com");
    assert!(scan.undecodable.is_empty());
    let none = scan_content(content, "nobody@x.com").unwrap();
    assert!(none.hit.is_none());
}

#[test]
fn scan_reads_legacy_bytes_as_windows_1252() {
    let content = b"caf\xe9@x.com,a,b\n\x81\xff,,zo\xeb@x.com";
    let scan = scan_content(content, "CAF\u{e9}@x.com").unwrap();
    let hit = scan.hit.unwrap();
    assert_eq!(hit.row, 1);
    assert_eq!(hit.text, "caf\u{e9}@x.com,a,b");
    let scan = scan_content(content, "zo\u{eb}@X.COM").unwrap();
    let hit = scan.hit.unwrap();
    assert_eq!(hit.row, 2);
    assert_eq!(hit.text, "\u{81}\u{ff},,zo\u{eb}@x.com");
    assert!(scan.undecodable.is_empty());
}
