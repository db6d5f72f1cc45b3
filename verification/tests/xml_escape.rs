use gpscan::xml_escape;

#[test]
fn test_xml_escape() {
    // Test if special characters are correctly escaped
    let input = "&<>'\"";
    let expected = "&amp;&lt;&gt;&apos;&quot;";
    assert_eq!(xml_escape(input), expected);

    // Test if a string without special characters is returned unchanged
    let input_no_escape = "Hello, World!";
    let expected_no_escape = "Hello, World!";
    assert_eq!(xml_escape(input_no_escape), expected_no_escape);
}

/// Tests basic escaping of individual special characters
#[test]
fn test_xml_escape_basic() {
    assert_eq!(xml_escape("&"), "&amp;");
    assert_eq!(xml_escape("<"), "&lt;");
    assert_eq!(xml_escape(">"), "&gt;");
    assert_eq!(xml_escape("\""), "&quot;");
    assert_eq!(xml_escape("'"), "&apos;");
}

/// Tests escaping when mixed with regular text
#[test]
fn test_xml_escape_mixed() {
    assert_eq!(
        xml_escape("Hello & Welcome <world>"),
        "Hello &amp; Welcome &lt;world&gt;"
    );
}

/// Tests escaping of control characters (ASCII 0x00 to 0x1F)
#[test]
fn test_xml_escape_control_chars() {
    assert_eq!(xml_escape("\u{0000}"), "&#x0;"); // Null character
    assert_eq!(xml_escape("\u{0008}"), "&#x8;"); // Backspace
}

/// Tests that normal text without special characters is not altered
#[test]
fn test_xml_escape_regular_text() {
    assert_eq!(xml_escape("Hello, world!"), "Hello, world!");
    assert_eq!(
        xml_escape("Rust programming language"),
        "Rust programming language"
    );
}

/// Tests edge cases such as empty strings and numeric characters
#[test]
fn test_xml_escape_edge_cases() {
    assert_eq!(xml_escape(""), ""); // Empty string
    assert_eq!(xml_escape("1234567890"), "1234567890"); // Numbers only
}

#[test]
fn escape_keeps_tab_line_feed_and_carriage_return() {
    assert_eq!(xml_escape("a\tb\nc\rd"), "a\tb\nc\rd");
}

#[test]
fn escape_writes_references_in_upper_case_hexadecimal() {
    assert_eq!(xml_escape("\u{001F}"), "&#x1F;");
    assert_eq!(xml_escape("\u{007F}"), "&#x7F;");
    assert_eq!(xml_escape("\u{009F}"), "&#x9F;");
    assert_eq!(xml_escape("\u{000B}"), "&#xB;");
    assert_eq!(xml_escape("\u{FFFD}"), "&#xFFFD;");
    assert_eq!(xml_escape("\u{FFFE}"), "&#xFFFE;");
    assert_eq!(xml_escape("\u{FFFF}"), "&#xFFFF;");
}

#[test]
fn escape_keeps_other_characters() {
    assert_eq!(xml_escape("\u{00A0}é日本語\u{1F600}"), "\u{00A0}é日本語\u{1F600}");
    assert_eq!(xml_escape(" ~"), " ~");
}

#[test]
fn escaped_text_holds_no_markup_character() {
    let escaped = xml_escape("a<b>&\"c'\u{0001}");
    assert_eq!(escaped, "a&lt;b&gt;&amp;&quot;c&apos;&#x1;");
    assert!(!escaped.contains('<'));
    assert!(!escaped.contains('"'));
}
