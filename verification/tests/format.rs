use iron_render_cad::svg::format::escape_xml;

#[test]
fn escape_xml_escapes_only_the_three_xml_text_metacharacters() {
    assert_eq!(escape_xml("<a & b>"), "&lt;a &amp; b&gt;");
    assert_eq!(escape_xml("no special chars"), "no special chars");
    // Quotes are deliberately NOT escaped -- text content, not an
    // attribute value.
    assert_eq!(escape_xml("\"quoted\""), "\"quoted\"");
}

#[test]
fn escape_xml_never_writes_two_at_signs_in_a_row() {
    assert_eq!(escape_xml("5@200"), "5@200");
    assert_eq!(escape_xml("@@SW@@"), "@&#64;SW@&#64;");
    assert_eq!(escape_xml("@@@"), "@&#64;&#64;");
    assert!(!escape_xml("a@@b@@@c").contains("@@"));
}

#[test]
fn escape_xml_marks_the_characters_xml_forbids() {
    // XML 1.0 `Char`: #x9 | #xA | #xD | [#x20-#xD7FF] | [#xE000-#xFFFD]
    // | [#x10000-#x10FFFF] -- so U+0001, U+000B, U+001F and U+FFFE are
    // out, while tab, newline, carriage return, DEL and U+FFFD are in.
    assert_eq!(
        escape_xml("ZE\u{1}\u{B}RO\u{1F}\u{FFFE}"),
        "ZE\u{FFFD}\u{FFFD}RO\u{FFFD}\u{FFFD}"
    );
    assert_eq!(
        escape_xml("a\tb\nc\r\u{7F}\u{FFFD}"),
        "a\tb\nc\r\u{7F}\u{FFFD}"
    );
    assert_eq!(escape_xml("\u{0}<"), "\u{FFFD}&lt;");
}

/// The references `escape_xml` writes, read back in one pass from the left.
fn unescape(t: &str) -> String {
    let mut out = String::new();
    let mut rest = t;
    while let Some(c) = rest.chars().next() {
        let (read, len) = if rest.starts_with("&amp;") {
            ('&', 5)
        } else if rest.starts_with("&lt;") {
            ('<', 4)
        } else if rest.starts_with("&gt;") {
            ('>', 4)
        } else if rest.starts_with("&#64;") {
            ('@', 5)
        } else {
            (c, c.len_utf8())
        };
        out.push(read);
        rest = &rest[len..];
    }
    out
}

#[test]
fn escaped_text_reads_back_as_the_text() {
    for s in ["a & b < c > d", "@@SW@@ and @@@", "&amp; written out", "\u{d55c}\u{ae00}", ""] {
        assert_eq!(unescape(&escape_xml(s)), s);
    }
    assert_eq!(unescape(&escape_xml("a\u{1}b\u{ffff}")), "a\u{fffd}b\u{fffd}");
}
