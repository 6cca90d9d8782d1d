use iron_render_cad::svg::text_codes::{decode, decode_tokens, push_stack, shape_font_char, TextToken};

#[test]
fn percent_codes_are_the_characters_they_stand_for_in_any_text() {
    assert_eq!(
        decode("%%c32 %%d %%p0.1 100%%%", false),
        "\u{2300}32 \u{b0} \u{b1}0.1 100%"
    );
    assert_eq!(decode("%%C32", true), "\u{2300}32");
    assert_eq!(decode("%%065%%066", false), "AB");
    assert_eq!(decode("%%uUNDER%%u", false), "UNDER");
    // Not a code: kept as written.
    assert_eq!(decode("50%% off %%x %%12", false), "50%% off %%x %%12");
}

#[test]
fn a_storage_escape_is_not_read_here() {
    // How a file stored a character (`\U+XXXX`) is undone by the reader
    // before the text reaches the model; what is left is an escape of an
    // ASCII character, which the reader keeps as written -- and so does
    // the renderer, in either kind of text.
    assert_eq!(decode(r"\U+0041 20", false), r"\U+0041 20");
    assert_eq!(decode(r"\A1;\U+005C", true), r"\U+005C");
    // The character the reader produced is drawn as itself.
    assert_eq!(decode("\\A1;\u{2205}2.3794", true), "\u{2205}2.3794");
}

#[test]
fn an_escaped_backslash_is_a_backslash_and_starts_no_code() {
    assert_eq!(decode(r"C:\\PATH\\U+0041", true), r"C:\PATH\U+0041");
    assert_eq!(decode(r"a\\b", true), r"a\b");
    assert_eq!(decode(r"\{braces\}", true), "{braces}");
}

#[test]
fn formatting_codes_are_dropped_and_structure_kept() {
    assert_eq!(
        decode(r"\A1;Line1\PLine2 {\C1;colored} \S1#8;", true),
        "Line1\nLine2 colored 1/8"
    );
    assert_eq!(decode(r"\fArial|b1|i0;bold\Lu\l", true), "boldu");
    assert_eq!(decode(r"a\~b", true), "a b");
}

#[test]
fn an_unclosed_or_unknown_code_keeps_its_text() {
    // Without a `;` the height code does not end: nothing is swallowed.
    assert_eq!(decode(r"\H2.5 tall", true), r"\H2.5 tall");
    assert_eq!(decode(r"\Z?", true), r"\Z?");
    assert_eq!(decode(r"\M+18140", true), r"\M+18140");
}

#[test]
fn plain_text_is_not_read_as_mtext() {
    assert_eq!(decode(r"\P{x}", false), r"\P{x}");
    assert_eq!(decode(r"C:\\PATH", false), r"C:\\PATH");
}

#[test]
fn the_shape_font_codes_are_degree_plus_minus_and_diameter() {
    // As dimension text writes them.
    assert_eq!(decode("90%%127", false), "90\u{b0}");
    assert_eq!(decode("%%1292.0000", false), "\u{2300}2.0000");
    assert_eq!(decode("%%128", false), "\u{b1}");
    // A control character cannot be drawn: the code stays as written.
    assert_eq!(decode("a%%001b", false), "a%%001b");
}

#[test]
fn outside_mtext_a_backslash_starts_nothing() {
    assert_eq!(decode(r"C:\Temp\{x}", false), r"C:\Temp\{x}");
}

#[test]
fn a_dimensions_text_below_its_line_is_a_line_of_its_own() {
    assert_eq!(decode(r"A\PB\XC\ND", true), "A\nB\nC\nD");
}

#[test]
fn a_fraction_after_a_number_keeps_the_number_readable() {
    // Three and a half inches, not thirty-one halves.
    assert_eq!(decode(r#"3{\H0.7x;\S1#2;}""#, true), r#"3 1/2""#);
    assert_eq!(
        decode(r#"\A1;1'-1{\H0.750000x;\S1#8;}""#, true),
        r#"1'-1 1/8""#
    );
    assert_eq!(decode(r#"\A1;{\H0.750000x;\S1#2;}""#, true), r#"1/2""#);
    assert_eq!(decode(r#"\A1;7'-4""#, true), r#"7'-4""#);
}

#[test]
fn every_stack_separator_is_a_bar_and_a_one_sided_stack_is_its_side() {
    assert_eq!(decode(r"\S1/2;", true), "1/2");
    assert_eq!(decode(r"\S1#2;", true), "1/2");
    assert_eq!(decode(r"\S+0.1^-0.2;", true), "+0.1/-0.2");
    // A superscript and a subscript are stacks with one side empty.
    assert_eq!(decode(r"m\S2^;", true), "m2");
    assert_eq!(decode(r"H\S^2;", true), "H2");
    assert_eq!(decode(r"\Sabc;", true), "abc");
    assert_eq!(decode(r"x\S^;y", true), "xy");
}

#[test]
fn paragraph_and_character_codes_leave_only_the_text() {
    assert_eq!(decode(r"ALPHA\P\PBRAVO", true), "ALPHA\n\nBRAVO");
    assert_eq!(
        decode(
            r"\pi102.25;{\f@Arial Unicode MS|b1|i0|c0|p34;A T M O S}",
            true
        ),
        "A T M O S"
    );
    assert_eq!(decode(r"\C1;red\C256;bylayer", true), "redbylayer");
    assert_eq!(decode(r"\fArial|b0|i0;\W0.8;\Q10;\T1.2;\H2.5;x", true), "x");
    assert_eq!(
        decode(r"\Lunder\l \Oover\o \Kstrike\k", true),
        "under over strike"
    );
    assert_eq!(decode("trailing\\", true), "trailing\\");
    assert_eq!(
        decode("\u{BC29} 101\\P\u{BA74}\u{C801} 32.5\u{33A1}", true),
        "\u{BC29} 101\n\u{BA74}\u{C801} 32.5\u{33A1}"
    );
}

#[test]
fn percent_codes_read_the_same_in_a_text() {
    assert_eq!(decode("108%%d", false), "108\u{b0}");
    assert_eq!(decode("%%P0.5", false), "\u{b1}0.5");
    assert_eq!(decode("%%UBOOK RETURN%%U", false), "BOOK RETURN");
    assert_eq!(decode("%%176", false), "\u{b0}");
    // A code naming a control character is left as written.
    assert_eq!(decode("a%%009b", false), "a%%009b");
    assert_eq!(decode(r#"\A1;2"%%C"#, true), "2\"\u{2300}");
    // Not codes.
    assert_eq!(decode("50%", false), "50%");
    assert_eq!(decode("a%%zb", false), "a%%zb");
}

#[test]
fn the_pieces_the_model_splits_a_text_into_draw_as_the_module_says() {
    let ts = [
        TextToken::Char('3'),
        TextToken::Stack { top: "1", bottom: "2" },
        TextToken::Degree,
        TextToken::Break,
        TextToken::Toggle,
        TextToken::Property,
        TextToken::GroupStart,
        TextToken::CharCode(65),
        TextToken::CharCode(7),
        TextToken::GroupEnd,
        TextToken::NonBreakingSpace,
        TextToken::PlusMinus,
        TextToken::Diameter,
        TextToken::StackUnsplit("ab"),
        TextToken::Unknown("\\Q"),
    ];
    assert_eq!(decode_tokens(&ts), "3 1/2\u{b0}\nA%%007 \u{b1}\u{2300}ab\\Q");
}

#[test]
fn a_shape_font_code_is_never_a_control_character() {
    assert_eq!(shape_font_char(127), Some('\u{b0}'));
    assert_eq!(shape_font_char(128), Some('\u{b1}'));
    assert_eq!(shape_font_char(129), Some('\u{2300}'));
    assert_eq!(shape_font_char(65), Some('A'));
    assert_eq!(shape_font_char(10), None);
    assert_eq!(shape_font_char(0x85), None);
    assert_eq!(shape_font_char(0xD800), None);
}

#[test]
fn a_blank_side_leaves_the_other_alone() {
    let mut out = String::from("m");
    push_stack("2", " ", &mut out);
    assert_eq!(out, "m2");
    let mut out = String::from("7");
    push_stack("", "", &mut out);
    assert_eq!(out, "7");
}
