//! The control codes a drawing's text is written with, turned into the
//! characters they stand for.
//!
//! The model splits a text into its codes in one pass
//! ([`uncad_model::text::tokens`]), so what one code produces is never read
//! again as another; this module says what the renderer draws of each.
//!
//! - Percent codes (every text): `%%d` degree, `%%p` plus-minus, `%%c`
//!   diameter, `%%%` a percent sign, `%%nnn` the character with that
//!   three-digit code -- 127, 128 and 129 are where the standard shape
//!   fonts keep the degree, plus-minus and diameter signs, and a code
//!   naming any other control character is left as written; `%%u` / `%%o`
//!   switch underline and overline, which are not drawn.
//! - MTEXT codes: `\P`, `\N`, `\X` break the line; `\~` is a non-breaking
//!   space; `\S...;` is stacked text, drawn inline as `top/bottom` (one side
//!   alone when the other is blank, set off by a space after a digit);
//!   value codes (`\A1;`, `\H2.5x;`, ...), the one-letter switches and `{` /
//!   `}` grouping only change how text looks and are dropped. Anything else
//!   the model could not read as a code is drawn as written.

use vstd::prelude::*;
use crate::chars::{decimal, is_digit, is_scalar, is_white_space, push_decimal, string_of, white_space, ascii_digit, char_from_u32};
use uncad_model::text::Special::{Degree, Diameter, PlusMinus};
use uncad_model::text::Token::{
    Break, Char, CharCode, GroupEnd, GroupStart, NonBreakingSpace, Property, Special, Stack,
    StackUnsplit, Toggle, Unknown,
};
use uncad_model::text::{tokens, TextKind};

verus! {

/// A piece of a drawing's text as the model splits it, carrying what the
/// renderer reads of it: the characters of each code it draws, and only
/// the kind of each code it drops (a toggle, a line break, a property).
pub enum TextToken<'a> {
    /// A character of the text, one MTEXT wrote escaped included.
    Char(char),
    /// `%%d`.
    Degree,
    /// `%%p`.
    PlusMinus,
    /// `%%c`.
    Diameter,
    /// `%%nnn`.
    CharCode(u16),
    /// `%%u`, `%%o` and MTEXT's underline, overline and strike-through
    /// switches.
    Toggle,
    /// MTEXT's `\P`, `\N`, `\X`.
    Break,
    /// MTEXT's `\~`.
    NonBreakingSpace,
    /// MTEXT's `\S...;` with a separator: its two sides.
    Stack { top: &'a str, bottom: &'a str },
    /// MTEXT's `\S...;` without one: its body.
    StackUnsplit(&'a str),
    /// An MTEXT code setting a value up to a `;`.
    Property,
    /// MTEXT's `{`.
    GroupStart,
    /// MTEXT's `}`.
    GroupEnd,
    /// What looked like a code but is not one, as written.
    Unknown(&'a str),
}

/// A [`TextToken`] with its text as characters.
pub enum Piece {
    Char(char),
    Degree,
    PlusMinus,
    Diameter,
    CharCode(u16),
    Toggle,
    Break,
    NonBreakingSpace,
    Stack { top: Seq<char>, bottom: Seq<char> },
    StackUnsplit(Seq<char>),
    Property,
    GroupStart,
    GroupEnd,
    Unknown(Seq<char>),
}

impl<'a> View for TextToken<'a> {
    type V = Piece;

    open spec fn view(&self) -> Piece {
        match *self {
            TextToken::Char(c) => Piece::Char(c),
            TextToken::Degree => Piece::Degree,
            TextToken::PlusMinus => Piece::PlusMinus,
            TextToken::Diameter => Piece::Diameter,
            TextToken::CharCode(n) => Piece::CharCode(n),
            TextToken::Toggle => Piece::Toggle,
            TextToken::Break => Piece::Break,
            TextToken::NonBreakingSpace => Piece::NonBreakingSpace,
            TextToken::Stack { top, bottom } => Piece::Stack { top: top@, bottom: bottom@ },
            TextToken::StackUnsplit(s) => Piece::StackUnsplit(s@),
            TextToken::Property => Piece::Property,
            TextToken::GroupStart => Piece::GroupStart,
            TextToken::GroupEnd => Piece::GroupEnd,
            TextToken::Unknown(s) => Piece::Unknown(s@),
        }
    }
}

/// The pieces `uncad_model::text::tokens` splits `text` into -- as MTEXT
/// when `mtext`, else as a single-line text -- read as [`Piece`]s.
pub uninterp spec fn model_tokens(text: Seq<char>, mtext: bool) -> Seq<Piece>;

/// `uncad_model::text::tokens`, every token read as a [`TextToken`]: the
/// contract claims only that the result is what [`model_tokens`] names
/// for the same text and kind.
#[verifier::external_body]
fn text_tokens<'a>(text: &'a str, mtext: bool) -> (r: Vec<TextToken<'a>>)
    ensures
        r@.map_values(|t: TextToken<'a>| t@) == model_tokens(text@, mtext),
{
    tokens(text, if mtext { TextKind::MText } else { TextKind::Line }).map(|t| match t {
        Char(c) => TextToken::Char(c),
        Special(Degree) => TextToken::Degree,
        Special(PlusMinus) => TextToken::PlusMinus, Special(Diameter) => TextToken::Diameter,
        CharCode(n) => TextToken::CharCode(n),
        Toggle(_) => TextToken::Toggle, Break(_) => TextToken::Break,
        NonBreakingSpace => TextToken::NonBreakingSpace,
        Stack { top, bottom, .. } => TextToken::Stack { top, bottom },
        StackUnsplit(s) => TextToken::StackUnsplit(s),
        Property { .. } => TextToken::Property,
        GroupStart => TextToken::GroupStart, GroupEnd => TextToken::GroupEnd,
        Unknown(s) => TextToken::Unknown(s),
    }).collect()
}

// --- what each piece draws ---------------------------------------------

/// Unicode's control characters (general category Cc): U+0000 to U+001F
/// and U+007F to U+009F.
pub open spec fn is_control_code(code: int) -> bool {
    (0 <= code && code <= 0x1F) || (0x7F <= code && code <= 0x9F)
}

/// The character a `%%nnn` code draws: the shape fonts' degree, plus-minus
/// and diameter signs at 127, 128 and 129, otherwise the character with
/// that code unless it is a control character.
pub open spec fn shape_font_of(code: int) -> Option<char> {
    if code == 127 {
        Some('\u{b0}')
    } else if code == 128 {
        Some('\u{b1}')
    } else if code == 129 {
        Some('\u{2300}')
    } else if is_scalar(code) && !is_control_code(code) {
        Some(code as char)
    } else {
        None
    }
}

/// `n`'s decimal digits, padded with zeros to at least three.
pub open spec fn three_digits(n: nat) -> Seq<char> {
    if n < 10 {
        seq!['0', '0'] + decimal(n)
    } else if n < 100 {
        seq!['0'] + decimal(n)
    } else {
        decimal(n)
    }
}

/// Whether every character of `s` is white space (an empty side is).
pub open spec fn is_blank(s: Seq<char>) -> bool {
    forall|k: int| 0 <= k < s.len() ==> is_white_space(#[trigger] s[k])
}

/// `out` followed by a stack drawn inline: nothing when both sides are
/// blank, one side alone when the other is, else `top/bottom` -- set off by
/// a space when `out` ends with a digit.
pub open spec fn stack_shown(out: Seq<char>, top: Seq<char>, bottom: Seq<char>) -> Seq<char> {
    if is_blank(top) && is_blank(bottom) {
        out
    } else {
        let shown = if is_blank(top) {
            bottom
        } else if is_blank(bottom) {
            top
        } else {
            top + seq!['/'] + bottom
        };
        if out.len() > 0 && is_digit(out.last()) {
            out.push(' ') + shown
        } else {
            out + shown
        }
    }
}

/// `out` followed by what the piece `t` draws.
pub open spec fn piece_shown(out: Seq<char>, t: Piece) -> Seq<char> {
    match t {
        Piece::Char(c) => out.push(c),
        Piece::Degree => out.push('\u{b0}'),
        Piece::PlusMinus => out.push('\u{b1}'),
        Piece::Diameter => out.push('\u{2300}'),
        Piece::CharCode(n) => match shape_font_of(n as int) {
            Some(c) => out.push(c),
            None => out + seq!['%', '%'] + three_digits(n as nat),
        },
        Piece::Break => out.push('\n'),
        Piece::NonBreakingSpace => out.push(' '),
        Piece::Stack { top, bottom } => stack_shown(out, top, bottom),
        Piece::StackUnsplit(body) => stack_shown(out, body, Seq::empty()),
        Piece::Unknown(raw) => out + raw,
        Piece::Toggle | Piece::Property | Piece::GroupStart | Piece::GroupEnd => out,
    }
}

/// What the pieces `ts` draw, one after the other.
pub open spec fn shown(ts: Seq<Piece>) -> Seq<char>
    decreases ts.len(),
{
    if ts.len() == 0 {
        Seq::empty()
    } else {
        piece_shown(shown(ts.drop_last()), ts.last())
    }
}

// --- the implementation ----------------------------------------------

/// The character a `%%nnn` code draws: the standard shape fonts' degree,
/// plus-minus and diameter signs at 127, 128 and 129, otherwise the
/// character with that code -- unless it is a control character, which
/// has no place in drawn text.
pub fn shape_font_char(code: u32) -> (r: Option<char>)
    ensures
        r == shape_font_of(code as int),
        r matches Some(c) ==> !is_control_code(c as int),
{
    if code == 127 {
        Some('\u{b0}')
    } else if code == 128 {
        Some('\u{b1}')
    } else if code == 129 {
        Some('\u{2300}')
    } else if code <= 0x1F || (0x7F <= code && code <= 0x9F) {
        None
    } else {
        char_from_u32(code)
    }
}

/// A stack keeps what was shown before it, and a stack that shows
/// anything after a digit is set off from the digit by a space -- whichever
/// side is blank, since `10` and a superscript `6` written together read as
/// `106`. A stack blank on both sides shows nothing; one blank on one side
/// shows the other side alone, last.
pub proof fn lemma_a_stack_after_a_digit_is_set_off(out: Seq<char>, top: Seq<char>, bottom: Seq<char>)
    ensures
        stack_shown(out, top, bottom).len() >= out.len(),
        stack_shown(out, top, bottom).take(out.len() as int) == out,
        is_blank(top) && is_blank(bottom) ==> stack_shown(out, top, bottom) == out,
        !(is_blank(top) && is_blank(bottom)) && out.len() > 0 && is_digit(out.last()) ==> stack_shown(out, top, bottom).len()
            > out.len() && stack_shown(out, top, bottom)[out.len() as int] == ' ',
        is_blank(top) && !is_blank(bottom) ==> stack_shown(out, top, bottom).skip(
            stack_shown(out, top, bottom).len() - bottom.len(),
        ) == bottom,
        !is_blank(top) && is_blank(bottom) ==> stack_shown(out, top, bottom).skip(
            stack_shown(out, top, bottom).len() - top.len(),
        ) == top,
{
    let r = stack_shown(out, top, bottom);
    assert(r.take(out.len() as int) =~= out);
    if is_blank(top) && !is_blank(bottom) {
        assert(r.skip(r.len() - bottom.len()) =~= bottom);
    }
    if !is_blank(top) && is_blank(bottom) {
        assert(r.skip(r.len() - top.len()) =~= top);
    }
}

/// Whether every character of `s` is white space.
fn blank(s: &str) -> (r: bool)
    ensures
        r == is_blank(s@),
{
    let chars = crate::chars::chars_of(s);
    let mut i: usize = 0;
    while i < chars.len()
        invariant
            i <= chars@.len(),
            chars@ == s@,
            forall|k: int| 0 <= k < i ==> is_white_space(#[trigger] s@[k]),
        decreases chars@.len() - i,
    {
        if !white_space(chars[i]) {
            return false;
        }
        i = i + 1;
    }
    true
}

/// Appends the characters of `s` to `out`.
fn push_str(out: &mut Vec<char>, s: &str)
    ensures
        final(out)@ == old(out)@ + s@,
{
    let chars = crate::chars::chars_of(s);
    let ghost start = out@;
    let mut i: usize = 0;
    while i < chars.len()
        invariant
            i <= chars@.len(),
            chars@ == s@,
            out@ == start + s@.take(i as int),
        decreases chars@.len() - i,
    {
        out.push(chars[i]);
        i = i + 1;
        assert(out@ =~= start + s@.take(i as int));
    }
    assert(s@.take(s@.len() as int) =~= s@);
}

/// Appends a stack drawn inline to `out` (see [`stack_shown`]).
fn push_stack_chars(top: &str, bottom: &str, out: &mut Vec<char>)
    ensures
        final(out)@ == stack_shown(old(out)@, top@, bottom@),
{
    let top_blank = blank(top);
    let bottom_blank = blank(bottom);
    if top_blank && bottom_blank {
        return ;
    }
    if out.len() > 0 && ascii_digit(out[out.len() - 1]) {
        out.push(' ');
    }
    if top_blank {
        push_str(out, bottom);
    } else if bottom_blank {
        push_str(out, top);
    } else {
        push_str(out, top);
        out.push('/');
        push_str(out, bottom);
    }
}

/// Writes a stack inline as `top/bottom`. A stack with one side blank -- a
/// superscript `2^`, a subscript `^2` -- is the other side alone, not a
/// fraction with a dangling bar; and a stack that follows a digit is set off
/// from it by a space, since `3` and `1/2` written together read as `31/2`.
pub fn push_stack(top: &str, bottom: &str, out: &mut String)
    ensures
        final(out)@ == stack_shown(old(out)@, top@, bottom@),
        final(out)@.take(old(out)@.len() as int) == old(out)@,
        !(is_blank(top@) && is_blank(bottom@)) && old(out)@.len() > 0 && is_digit(old(out)@.last()) ==> final(out)@.len()
            > old(out)@.len() && final(out)@[old(out)@.len() as int] == ' ',
{
    proof {
        lemma_a_stack_after_a_digit_is_set_off(out@, top@, bottom@);
    }
    let mut chars = crate::chars::chars_of(out.as_str());
    push_stack_chars(top, bottom, &mut chars);
    *out = string_of(chars.as_slice());
}

/// Appends to `out` what the piece `t` draws.
fn push_piece(out: &mut Vec<char>, t: &TextToken)
    ensures
        final(out)@ == piece_shown(old(out)@, t@),
{
    match t {
        TextToken::Char(c) => out.push(*c),
        TextToken::Degree => out.push('\u{b0}'),
        TextToken::PlusMinus => out.push('\u{b1}'),
        TextToken::Diameter => out.push('\u{2300}'),
        TextToken::CharCode(n) => match shape_font_char(*n as u32) {
            Some(c) => out.push(c),
            None => {
                let ghost start = out@;
                out.push('%');
                out.push('%');
                if *n < 10 {
                    out.push('0');
                    out.push('0');
                } else if *n < 100 {
                    out.push('0');
                }
                push_decimal(out, *n as u64);
                assert(out@ =~= start + seq!['%', '%'] + three_digits(*n as nat));
            },
        },
        TextToken::Break => out.push('\n'),
        TextToken::NonBreakingSpace => out.push(' '),
        TextToken::Stack { top, bottom } => push_stack_chars(top, bottom, out),
        TextToken::StackUnsplit(body) => {
            proof {
                reveal_strlit("");
            }
            push_stack_chars(body, "", out);
            assert(""@ =~= Seq::<char>::empty());
        },
        TextToken::Unknown(raw) => push_str(out, raw),
        TextToken::Toggle | TextToken::Property | TextToken::GroupStart | TextToken::GroupEnd => {},
    }
}

/// What the pieces `ts` draw, as a string.
pub fn decode_tokens(ts: &[TextToken]) -> (r: String)
    ensures
        r@ == shown(ts@.map_values(|t: TextToken| t@)),
{
    let mut out: Vec<char> = Vec::new();
    let mut i: usize = 0;
    while i < ts.len()
        invariant
            i <= ts@.len(),
            out@ == shown(ts@.take(i as int).map_values(|t: TextToken| t@)),
        decreases ts@.len() - i,
    {
        proof {
            assert(ts@.take(i + 1).map_values(|t: TextToken| t@).drop_last() =~= ts@.take(
                i as int,
            ).map_values(|t: TextToken| t@));
        }
        push_piece(&mut out, &ts[i]);
        i = i + 1;
    }
    assert(ts@.take(ts@.len() as int) =~= ts@);
    string_of(out.as_slice())
}

/// `text` as the plain text it draws: its percent codes and, for MTEXT,
/// its formatting codes read (see the module documentation).
pub fn decode(text: &str, mtext: bool) -> (r: String)
    ensures
        r@ == shown(model_tokens(text@, mtext)),
{
    let ts = text_tokens(text, mtext);
    decode_tokens(ts.as_slice())
}

} // verus!
