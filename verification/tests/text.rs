use iron_render_cad::text::{decode_mtext, decode_text, percent_code, push_stack, unicode_escape};

#[test]
fn dimension_labels_keep_their_numbers_readable() {
    assert_eq!(decode_mtext(r#"\A1;7'-4""#), r#"7'-4""#);
    assert_eq!(decode_mtext(r#"3{\H0.7x;\S1#2;}""#), r#"3 1/2""#);
    assert_eq!(decode_mtext(r#"\A1;{\H0.750000x;\S1#2;}""#), r#"1/2""#);
    assert_eq!(
        decode_mtext(r#"\A1;1'-1{\H0.750000x;\S1#8;}""#),
        r#"1'-1 1/8""#
    );
    assert_eq!(decode_mtext(r#"\A1;2"%%C"#), "2\"\u{2205}");
}

#[test]
fn every_stack_separator_is_understood() {
    assert_eq!(decode_mtext(r"\S1/2;"), "1/2");
    assert_eq!(decode_mtext(r"\S1#2;"), "1/2");
    assert_eq!(decode_mtext(r"\S+0.1^-0.2;"), "+0.1^-0.2");
    // Super- and subscripts are one-sided stacks.
    assert_eq!(decode_mtext(r"m\S2^;"), "m2");
    assert_eq!(decode_mtext(r"H\S^2;"), "H2");
    assert_eq!(decode_mtext(r"\Sabc;"), "abc");
}

#[test]
fn paragraphs_groups_and_format_codes() {
    assert_eq!(decode_mtext(r"A\PB\XC\ND"), "A\nB\nC\nD");
    assert_eq!(decode_mtext(r"\~x"), " x");
    assert_eq!(
        decode_mtext(r"\pi102.25;{\f@Arial Unicode MS|b1|i0|c0|p34;A T M O S}"),
        "A T M O S"
    );
    assert_eq!(decode_mtext(r"\C1;red\C256;bylayer"), "redbylayer");
    assert_eq!(decode_mtext(r"\fArial|b0|i0;\W0.8;\Q10;\T1.2;\H2.5;x"), "x");
    assert_eq!(decode_mtext(r"a\\b\{c\}"), r"a\b{c}");
    assert_eq!(
        decode_mtext(r"\Lunder\l \Oover\o \Kstrike\k"),
        "under over strike"
    );
    // A blank paragraph is a line of its own.
    assert_eq!(decode_mtext(r"ALPHA\P\PBRAVO"), "ALPHA\n\nBRAVO");
    // An unterminated format code drops only its letter.
    assert_eq!(decode_mtext(r"\Hoops"), "oops");
}

#[test]
fn percent_codes_and_unicode_escapes() {
    assert_eq!(decode_text("%%c50"), "\u{2205}50");
    assert_eq!(decode_text("108%%d"), "108\u{00B0}");
    assert_eq!(decode_text("%%P0.5"), "\u{00B1}0.5");
    assert_eq!(decode_text("50%%%"), "50%");
    assert_eq!(decode_text("%%UBOOK RETURN%%U"), "BOOK RETURN");
    assert_eq!(decode_text("%%176"), "\u{00B0}");
    assert_eq!(decode_text("%%065"), "A");
    assert_eq!(decode_text(r"\U+00B1 3"), "\u{00B1} 3");
    assert_eq!(decode_mtext(r"\U+2205 50"), "\u{2205} 50");
    // Not codes: a lone percent, an unknown letter, a bad escape, and a
    // number that could only be a control character.
    assert_eq!(decode_text("50%"), "50%");
    assert_eq!(decode_text("a%%zb"), "a%%zb");
    assert_eq!(decode_text(r"\U+ZZZZ"), r"\U+ZZZZ");
    assert_eq!(decode_text("ZE%%001RO"), "ZE%%001RO");
    assert_eq!(decode_text("a%%009b"), "a\tb");
}

#[test]
fn text_strings_keep_backslashes_and_braces() {
    assert_eq!(decode_text(r"C:\Temp\{x}"), r"C:\Temp\{x}");
    assert_eq!(
        decode_text(r"\P is not a paragraph here"),
        r"\P is not a paragraph here"
    );
    assert_eq!(decode_text(""), "");
    assert_eq!(decode_mtext("trailing\\"), "trailing\\");
}

#[test]
fn what_the_code_stripping_it_replaces_got_right_still_holds() {
    assert_eq!(
        decode_mtext(r"\A1;Line1\PLine2 {\C1;colored} \S1#8;"),
        "Line1\nLine2 colored 1/8"
    );
    assert_eq!(decode_mtext(r"a\\b"), r"a\b");
    assert_eq!(decode_mtext(r"a\~b"), "a b");
}

#[test]
fn korean_text_passes_through() {
    assert_eq!(
        decode_mtext("방 101\\P면적 32.5\u{33A1}"),
        "방 101\n면적 32.5\u{33A1}"
    );
}

#[test]
fn text_without_codes_shows_as_written() {
    for s in ["plain words", "C:\\Temp\\{x}", "\u{d55c}\u{ae00} 3.5", ""] {
        assert_eq!(decode_text(s), s);
    }
    for s in ["plain words", "\u{d55c}\u{ae00} 3.5", "a/b^c#d"] {
        assert_eq!(decode_mtext(s), s);
    }
}

#[test]
fn an_escape_names_one_character_by_four_hex_digits() {
    let chars: Vec<char> = "\\U+00b1 3".chars().collect();
    assert_eq!(unicode_escape(&chars), Some(('\u{b1}', 7)));
    let chars: Vec<char> = "\\U+D800".chars().collect();
    assert_eq!(unicode_escape(&chars), None);
    let chars: Vec<char> = "\\U+12".chars().collect();
    assert_eq!(unicode_escape(&chars), None);
}

#[test]
fn a_percent_code_says_what_it_shows_and_how_long_it_is() {
    let read = |s: &str| percent_code(&s.chars().collect::<Vec<char>>());
    assert_eq!(read("%%d"), Some(("\u{b0}".to_string(), 3)));
    assert_eq!(read("%%U"), Some((String::new(), 3)));
    assert_eq!(read("%%999"), Some(("\u{fffd}".to_string(), 5)));
    assert_eq!(read("%%010x"), Some(("\n".to_string(), 5)));
    assert_eq!(read("%%001"), None);
    assert_eq!(read("%%z"), None);
    assert_eq!(read("%%"), None);
}

#[test]
fn a_stack_is_written_inline() {
    let mut s = String::from("3");
    push_stack(&mut s, " 1 # 2 ");
    assert_eq!(s, "3 1/2");
    let mut s = String::from("x");
    push_stack(&mut s, "no separator");
    assert_eq!(s, "xno separator");
}

#[test]
fn a_lone_percent_sign_is_plain_text() {
    assert_eq!(decode_text("50% off"), "50% off");
    assert_eq!(decode_mtext("100%"), "100%");
}

#[test]
fn decoding_never_makes_a_text_longer() {
    for (s, mtext) in [
        (r"3\S1#2;", true),
        (r"\S1/2;", true),
        (r"\S;", true),
        (r"\U+00B1", false),
        ("%%c%%d%%p%%%%%065", false),
        (r"a\Pb\~c", true),
        (r"\H2.5x;x{y}", true),
        ("\\", true),
    ] {
        let out = if mtext { decode_mtext(s) } else { decode_text(s) };
        assert!(out.chars().count() <= s.chars().count(), "{s:?} -> {out:?}");
    }
}
