//! What a drawing's text shows once the codes it is stored with are read:
//! MTEXT's paragraph breaks (`\P`, `\X`, `\N`), stacked fractions (`\S...;`),
//! `{...}` groups and value-carrying format codes (`\A`, `\H`, `\f`, ...),
//! and the percent codes (`%%c`, `%%d`, `%%p`, `%%%`, `%%u`, `%%o`,
//! `%%nnn`) and `\U+XXXX` escapes every text may hold.
//!
//! Stacked text is written inline (`3 1/2`), and no visual formatting --
//! fonts, colours, heights -- is reproduced.

use vstd::prelude::*;
use crate::chars::{
    ascii_digit, ascii_hex_digit, char_from_u32, chars_of, digit_value, hex_digit_value,
    hex_value, is_digit, is_hex_digit, is_scalar, is_white_space, string_of, white_space,
};

verus! {

// --- the specification -----------------------------------------------

/// The first index at or after `from` where `s` holds `c`.
pub open spec fn find_from(s: Seq<char>, c: char, from: int) -> Option<int>
    decreases s.len() - from,
{
    if from >= s.len() {
        None
    } else if s[from] == c {
        Some(from)
    } else {
        find_from(s, c, from + 1)
    }
}

/// The code point the four hexadecimal digits `s[3..7]` write.
pub open spec fn hex4(s: Seq<char>) -> int {
    ((hex_value(s[3]) * 16 + hex_value(s[4])) * 16 + hex_value(s[5])) * 16 + hex_value(s[6])
}

/// `\U+XXXX` at the start of `s` (four hexadecimal digits naming a
/// character): that character and the seven characters it takes.
pub open spec fn unicode_escape_of(s: Seq<char>) -> Option<(char, usize)> {
    if s.len() >= 7 && s[0] == '\\' && s[1] == 'U' && s[2] == '+' && is_hex_digit(s[3])
        && is_hex_digit(s[4]) && is_hex_digit(s[5]) && is_hex_digit(s[6]) && is_scalar(hex4(s)) {
        Some((hex4(s) as char, 7usize))
    } else {
        None
    }
}

/// The number the three decimal digits `s[2..5]` write.
pub open spec fn dec3(s: Seq<char>) -> int {
    (digit_value(s[2]) * 10 + digit_value(s[3])) * 10 + digit_value(s[4])
}

/// A percent code at the start of `s` (which starts `%%`): what it shows
/// and how many characters it takes. `%%c`, `%%d` and `%%p` (either case)
/// are the diameter, degree and plus-minus signs, `%%%` a percent sign,
/// `%%u` and `%%o` show nothing, and `%%nnn` is the character with that
/// code -- U+FFFD past 255, and no code at all below 32 but for tab, line
/// feed and carriage return.
pub open spec fn percent_code_of(s: Seq<char>) -> Option<(Seq<char>, usize)> {
    if s.len() < 3 {
        None
    } else {
        let c = s[2];
        if c == 'c' || c == 'C' {
            Some((seq!['\u{2205}'], 3usize))
        } else if c == 'd' || c == 'D' {
            Some((seq!['\u{b0}'], 3usize))
        } else if c == 'p' || c == 'P' {
            Some((seq!['\u{b1}'], 3usize))
        } else if c == '%' {
            Some((seq!['%'], 3usize))
        } else if c == 'u' || c == 'U' || c == 'o' || c == 'O' {
            Some((Seq::<char>::empty(), 3usize))
        } else if is_digit(c) && s.len() >= 5 && is_digit(s[3]) && is_digit(s[4]) {
            let n = dec3(s);
            if n >= 256 {
                Some((seq!['\u{fffd}'], 5usize))
            } else if n < 32 && n != 9 && n != 10 && n != 13 {
                None
            } else {
                Some((seq![n as char], 5usize))
            }
        } else {
            None
        }
    }
}

/// `s` without the white space it starts with.
pub open spec fn trim_start(s: Seq<char>) -> Seq<char>
    decreases s.len(),
{
    if s.len() > 0 && is_white_space(s[0]) {
        trim_start(s.drop_first())
    } else {
        s
    }
}

/// `s` without the white space it ends with.
pub open spec fn trim_end(s: Seq<char>) -> Seq<char>
    decreases s.len(),
{
    if s.len() > 0 && is_white_space(s.last()) {
        trim_end(s.drop_last())
    } else {
        s
    }
}

/// `s` without white space at either end.
pub open spec fn trim(s: Seq<char>) -> Seq<char> {
    trim_end(trim_start(s))
}

/// Where a stack's body splits, and whether it is a tolerance: the first
/// `^`, else the first `#`, else the first `/`.
pub open spec fn separator_of(body: Seq<char>) -> Option<(int, bool)> {
    match find_from(body, '^', 0) {
        Some(p) => Some((p, true)),
        None => match find_from(body, '#', 0) {
            Some(p) => Some((p, false)),
            None => match find_from(body, '/', 0) {
                Some(p) => Some((p, false)),
                None => None,
            },
        },
    }
}

/// `c` in upper case, for ASCII letters; any other character as it is.
pub open spec fn ascii_upper(c: char) -> char {
    if 'a' <= c && c <= 'z' {
        (c as int - 32) as char
    } else {
        c
    }
}

/// Percent codes are case-blind: `%%D` is the degree sign as `%%d` is,
/// and so for every letter code -- writing the code's letter in upper case
/// changes neither what it shows nor how much it takes.
pub proof fn lemma_percent_codes_are_case_blind(s: Seq<char>)
    requires
        s.len() >= 3,
    ensures
        percent_code_of(s.update(2, ascii_upper(s[2]))) == percent_code_of(s),
{
    let t = s.update(2, ascii_upper(s[2]));
    let c = s[2];
    assert(t.len() == s.len());
    assert(t[3 as int] == s[3 as int] || s.len() < 4);
    if 'a' <= c && c <= 'z' {
        assert(!is_digit(t[2]) && !is_digit(c));
        if c == 'c' { assert(t[2] == 'C'); }
        else if c == 'd' { assert(t[2] == 'D'); }
        else if c == 'p' { assert(t[2] == 'P'); }
        else if c == 'u' { assert(t[2] == 'U'); }
        else if c == 'o' { assert(t[2] == 'O'); }
        else {
            assert(t[2] != 'C' && t[2] != 'D' && t[2] != 'P' && t[2] != 'U' && t[2] != 'O' && t[2] != '%');
        }
    } else {
        assert(t =~= s);
    }
}

/// `plain` with a space after it when it ends with a digit.
pub open spec fn spaced(plain: Seq<char>) -> Seq<char> {
    if plain.len() > 0 && is_digit(plain.last()) {
        plain.push(' ')
    } else {
        plain
    }
}

/// `plain` followed by the plain form of the stack body `body`: without a
/// separator the body as written; otherwise the trimmed sides joined by
/// `^` (a tolerance) or `/`, one side alone when the other is empty -- set
/// off by a space from a digit before it.
pub open spec fn stack_of(plain: Seq<char>, body: Seq<char>) -> Seq<char> {
    match separator_of(body) {
        None => plain + body,
        Some((p, tolerance)) => {
            let top = trim(body.subrange(0, p));
            let bottom = trim(body.subrange(p + 1, body.len() as int));
            let before = spaced(plain);
            if top.len() == 0 && bottom.len() == 0 {
                before
            } else if bottom.len() == 0 {
                before + top
            } else if top.len() == 0 {
                before + bottom
            } else {
                before + top + seq![
                    if tolerance {
                        '^'
                    } else {
                        '/'
                    },
                ] + bottom
            }
        },
    }
}

/// MTEXT's underline, overline and strike-through switches.
pub open spec fn is_switch_code(c: char) -> bool {
    c == 'L' || c == 'l' || c == 'O' || c == 'o' || c == 'K' || c == 'k'
}

/// MTEXT's format codes whose value runs to a `;`.
pub open spec fn is_value_code(c: char) -> bool {
    c == 'A' || c == 'C' || c == 'c' || c == 'f' || c == 'F' || c == 'H' || c == 'Q' || c == 'T'
        || c == 'W' || c == 'p'
}

/// An MTEXT backslash code at `s[i]` (followed by `s[i + 1]`): what
/// `plain` becomes, and where reading goes on.
pub open spec fn mtext_code_step(s: Seq<char>, i: int, plain: Seq<char>) -> (Seq<char>, int) {
    let code = s[i + 1];
    if code == 'P' || code == 'X' || code == 'N' {
        (plain.push('\n'), i + 2)
    } else if code == '~' {
        (plain.push(' '), i + 2)
    } else if code == '\\' || code == '{' || code == '}' {
        (plain.push(code), i + 2)
    } else if is_switch_code(code) {
        (plain, i + 2)
    } else if code == 'S' {
        match find_from(s, ';', i + 2) {
            Some(p) => (stack_of(plain, s.subrange(i + 2, p)), p + 1),
            None => (plain + seq!['\\', 'S'], i + 2),
        }
    } else if is_value_code(code) {
        match find_from(s, ';', i + 2) {
            Some(p) => (plain, p + 1),
            None => (plain, i + 2),
        }
    } else {
        (plain.push(code), i + 2)
    }
}

/// One step of reading `s` from `i`, `plain` shown so far: what is shown
/// then, and where reading goes on.
pub open spec fn decode_step(s: Seq<char>, mtext: bool, i: int, plain: Seq<char>) -> (
    Seq<char>,
    int,
) {
    let c = s[i];
    if c == '\\' && i + 1 < s.len() {
        match unicode_escape_of(s.skip(i)) {
            Some((ch, n)) => (plain.push(ch), i + n),
            None => if !mtext {
                (plain.push(c), i + 1)
            } else {
                mtext_code_step(s, i, plain)
            },
        }
    } else if mtext && (c == '{' || c == '}') {
        (plain, i + 1)
    } else if c == '%' && i + 2 < s.len() && s[i + 1] == '%' && percent_code_of(s.skip(i)) is Some {
        let (shown, n) = percent_code_of(s.skip(i))->0;
        (plain + shown, i + n)
    } else {
        (plain.push(c), i + 1)
    }
}

/// What `s` from `i` on shows after `plain`.
pub open spec fn decode_from(s: Seq<char>, mtext: bool, i: int, plain: Seq<char>) -> Seq<char>
    decreases s.len() - i,
{
    if 0 <= i < s.len() {
        let (next, j) = decode_step(s, mtext, i, plain);
        if i < j <= s.len() {
            decode_from(s, mtext, j, next)
        } else {
            plain
        }
    } else {
        plain
    }
}

/// The characters the text `s` shows: MTEXT's codes read when `mtext`,
/// otherwise only the percent codes and `\U+XXXX` escapes.
pub open spec fn decoded(s: Seq<char>, mtext: bool) -> Seq<char> {
    decode_from(s, mtext, 0, Seq::empty())
}

/// `s` holds none of the codes decoding reads: no `%%`; no `{` or `}` in
/// MTEXT; and no backslash, but in TEXT one that does not start a
/// `\U+XXXX` escape.
pub open spec fn has_no_codes(s: Seq<char>, mtext: bool) -> bool {
    forall|k: int|
        0 <= k < s.len() ==> {
            &&& #[trigger] s[k] == '%' ==> !(k + 1 < s.len() && s[k + 1] == '%')
            &&& s[k] == '\\' ==> !mtext && unicode_escape_of(s.skip(k)) is None
            &&& mtext ==> s[k] != '{' && s[k] != '}'
        }
}

/// Reading a code-free `s` from `i` on, after what it shows before `i`,
/// shows all of `s`.
proof fn lemma_code_free_from(s: Seq<char>, mtext: bool, i: int)
    requires
        has_no_codes(s, mtext),
        0 <= i <= s.len(),
    ensures
        decode_from(s, mtext, i, s.take(i)) == s,
    decreases s.len() - i,
{
    if i < s.len() {
        assert(s[i] == '%' ==> !(i + 1 < s.len() && s[i + 1] == '%'));
        assert(s.take(i).push(s[i]) =~= s.take(i + 1));
        lemma_code_free_from(s, mtext, i + 1);
    } else {
        assert(s.take(i) =~= s);
    }
}

/// Text without codes shows exactly as written: a drawing's plain text --
/// any script, a lone `%`, backslashes and braces in TEXT included --
/// passes through decoding unchanged.
pub proof fn lemma_code_free_text_shows_as_written(s: Seq<char>, mtext: bool)
    requires
        has_no_codes(s, mtext),
    ensures
        decoded(s, mtext) == s,
{
    assert(s.take(0) =~= Seq::<char>::empty());
    lemma_code_free_from(s, mtext, 0);
}

/// A text without white space at one end or the other is no longer than
/// the text it was cut from.
proof fn lemma_trim_len(s: Seq<char>)
    ensures
        trim_start(s).len() <= s.len(),
        trim(s).len() <= s.len(),
    decreases s.len(),
{
    if s.len() > 0 && is_white_space(s[0]) {
        lemma_trim_len(s.drop_first());
    }
    lemma_trim_end_len(trim_start(s));
}

/// Cutting white space off a text's end never lengthens it.
proof fn lemma_trim_end_len(s: Seq<char>)
    ensures
        trim_end(s).len() <= s.len(),
    decreases s.len(),
{
    if s.len() > 0 && is_white_space(s.last()) {
        lemma_trim_end_len(s.drop_last());
    }
}

/// A stack adds to what is shown no more than its body and the space
/// setting it off from a digit.
proof fn lemma_stack_len(plain: Seq<char>, body: Seq<char>)
    ensures
        stack_of(plain, body).len() <= plain.len() + body.len() + 1,
{
    lemma_find_from_bounds(body, '^', 0);
    lemma_find_from_bounds(body, '#', 0);
    lemma_find_from_bounds(body, '/', 0);
    if let Some((p, _)) = separator_of(body) {
        lemma_trim_len(body.subrange(0, p));
        lemma_trim_len(body.subrange(p + 1, body.len() as int));
    }
}

/// One step of reading never shows more characters than it reads.
proof fn lemma_step_len(s: Seq<char>, mtext: bool, i: int, plain: Seq<char>)
    requires
        0 <= i < s.len(),
    ensures
        ({
            let (next, j) = decode_step(s, mtext, i, plain);
            i < j <= s.len() ==> next.len() <= plain.len() + (j - i)
        }),
{
    let c = s[i];
    if c == '\\' && i + 1 < s.len() {
        if unicode_escape_of(s.skip(i)) is None && mtext {
            let code = s[i + 1];
            if code == 'S' {
                lemma_find_from_bounds(s, ';', i + 2);
                if let Some(p) = find_from(s, ';', i + 2) {
                    lemma_stack_len(plain, s.subrange(i + 2, p));
                }
            } else if is_value_code(code) {
                lemma_find_from_bounds(s, ';', i + 2);
            }
        }
    }
}

/// Reading `s` from `i`, after `plain`, shows no more than `plain` and the
/// characters left to read.
proof fn lemma_decode_from_len(s: Seq<char>, mtext: bool, i: int, plain: Seq<char>)
    requires
        0 <= i <= s.len(),
    ensures
        decode_from(s, mtext, i, plain).len() <= plain.len() + (s.len() - i),
    decreases s.len() - i,
{
    if i < s.len() {
        lemma_step_len(s, mtext, i, plain);
        let (next, j) = decode_step(s, mtext, i, plain);
        if i < j <= s.len() {
            lemma_decode_from_len(s, mtext, j, next);
        }
    }
}

/// Decoding never makes a text longer: every code is replaced by no more
/// characters than it spans, a stack's separating space included.
pub proof fn lemma_decoding_never_lengthens(s: Seq<char>, mtext: bool)
    ensures
        decoded(s, mtext).len() <= s.len(),
{
    lemma_decode_from_len(s, mtext, 0, Seq::empty());
}

// --- the implementation ----------------------------------------------

/// The first index at or after `from` where `s` holds `c`.
fn find_char(s: &[char], c: char, from: usize) -> (r: Option<usize>)
    ensures
        match r {
            Some(j) => find_from(s@, c, from as int) == Some(j as int),
            None => find_from(s@, c, from as int) is None,
        },
{
    let mut j = from;
    while j < s.len()
        invariant
            from <= j,
            find_from(s@, c, from as int) == find_from(s@, c, j as int),
        decreases s@.len() - j,
    {
        if s[j] == c {
            return Some(j);
        }
        j = j + 1;
    }
    None
}

/// `plain` with every character of `tail` appended.
fn extend(plain: &mut Vec<char>, tail: &[char])
    ensures
        final(plain)@ == old(plain)@ + tail@,
{
    let ghost start = plain@;
    let mut i: usize = 0;
    while i < tail.len()
        invariant
            i <= tail@.len(),
            plain@ == start + tail@.take(i as int),
        decreases tail@.len() - i,
    {
        plain.push(tail[i]);
        i = i + 1;
        assert(plain@ =~= start + tail@.take(i as int));
    }
    assert(tail@.take(tail@.len() as int) =~= tail@);
}

/// Where the trimmed form of `s` starts and ends.
fn trim_bounds(s: &[char]) -> (r: (usize, usize))
    ensures
        r.0 <= r.1 <= s@.len(),
        s@.subrange(r.0 as int, r.1 as int) == trim(s@),
{
    let n = s.len();
    let mut a: usize = 0;
    assert(s@.subrange(0, n as int) =~= s@);
    while a < n && white_space(s[a])
        invariant
            a <= n == s@.len(),
            trim_start(s@) == trim_start(s@.subrange(a as int, n as int)),
        decreases n - a,
    {
        assert(s@.subrange(a as int, n as int).drop_first() =~= s@.subrange(a + 1, n as int));
        a = a + 1;
    }
    let mut e: usize = n;
    while e > a && white_space(s[e - 1])
        invariant
            a <= e <= n == s@.len(),
            trim_end(s@.subrange(a as int, n as int)) == trim_end(s@.subrange(a as int, e as int)),
        decreases e - a,
    {
        assert(s@.subrange(a as int, e as int).drop_last() =~= s@.subrange(a as int, e - 1));
        e = e - 1;
    }
    (a, e)
}

/// Appends to `plain` the plain form of the stack body `body`.
fn push_stack_chars(plain: &mut Vec<char>, body: &[char])
    ensures
        final(plain)@ == stack_of(old(plain)@, body@),
{
    let (p, tolerance) = match find_char(body, '^', 0) {
        Some(p) => (p, true),
        None => match find_char(body, '#', 0) {
            Some(p) => (p, false),
            None => match find_char(body, '/', 0) {
                Some(p) => (p, false),
                None => {
                    extend(plain, body);
                    return ;
                },
            },
        },
    };
    proof {
        lemma_find_from_bounds(body@, '^', 0);
        lemma_find_from_bounds(body@, '#', 0);
        lemma_find_from_bounds(body@, '/', 0);
    }
    let blen = body.len();
    assert(p < blen);
    let top_side = &body[0..p];
    let bottom_side = &body[p + 1..blen];
    let (ta, tb) = trim_bounds(top_side);
    let (ba, bb) = trim_bounds(bottom_side);
    let top = &top_side[ta..tb];
    let bottom = &bottom_side[ba..bb];
    let ghost before = plain@;
    if plain.len() > 0 && ascii_digit(plain[plain.len() - 1]) {
        plain.push(' ');
    }
    assert(plain@ == spaced(before));
    if top.len() == 0 && bottom.len() == 0 {
    } else if bottom.len() == 0 {
        extend(plain, top);
    } else if top.len() == 0 {
        extend(plain, bottom);
    } else {
        extend(plain, top);
        plain.push(if tolerance {
            '^'
        } else {
            '/'
        });
        extend(plain, bottom);
    }
}

/// Where `find_from` lands, when it lands.
pub proof fn lemma_find_from_bounds(s: Seq<char>, c: char, from: int)
    requires
        0 <= from,
    ensures
        find_from(s, c, from) matches Some(j) ==> from <= j < s.len() && s[j] == c,
    decreases s.len() - from,
{
    if from < s.len() && s[from] != c {
        lemma_find_from_bounds(s, c, from + 1);
    }
}

/// Writes to `plain` the plain form of a `\S` stack body: `a/b`, or `a^b`
/// for a tolerance stack, one side alone for a super- or subscript, the
/// body as written when it has no separator -- set off by a space after a
/// digit, so `3` and `1/2` cannot read as thirty-one halves.
pub fn push_stack(plain: &mut String, body: &str)
    ensures
        final(plain)@ == stack_of(old(plain)@, body@),
{
    let mut out = chars_of(plain.as_str());
    let b = chars_of(body);
    push_stack_chars(&mut out, b.as_slice());
    *plain = string_of(out.as_slice());
}

/// `\U+XXXX` (four hexadecimal digits) at the start of `chars`, as the
/// character and the number of characters it takes.
pub fn unicode_escape(chars: &[char]) -> (r: Option<(char, usize)>)
    ensures
        r == unicode_escape_of(chars@),
{
    if chars.len() < 7 || chars[0] != '\\' || chars[1] != 'U' || chars[2] != '+' {
        return None;
    }
    if !(ascii_hex_digit(chars[3]) && ascii_hex_digit(chars[4]) && ascii_hex_digit(chars[5])
        && ascii_hex_digit(chars[6])) {
        return None;
    }
    let code = ((hex_digit_value(chars[3]) * 16 + hex_digit_value(chars[4])) * 16
        + hex_digit_value(chars[5])) * 16 + hex_digit_value(chars[6]);
    match char_from_u32(code) {
        Some(ch) => Some((ch, 7)),
        None => None,
    }
}

/// The string of the one character `c`.
fn single(c: char) -> (r: String)
    ensures
        r@ == seq![c],
{
    let v = vec![c];
    assert(v@ =~= seq![c]);
    string_of(v.as_slice())
}

/// The percent code at the start of `chars` (which starts `%%`): what it
/// shows and how many characters it takes, or `None` when the `%%` is not
/// a code. `%%c`, `%%d`, `%%p` are the diameter, degree and plus-minus
/// signs, `%%%` a percent sign, `%%u` / `%%o` show nothing, `%%nnn` is a
/// character by its code (Latin-1 below 256, U+FFFD above); a code below 32
/// other than tab, line feed and carriage return, which only a character
/// XML forbids could stand for, is no code.
pub fn percent_code(chars: &[char]) -> (r: Option<(String, usize)>)
    ensures
        r is Some <==> percent_code_of(chars@) is Some,
        r matches Some((shown, n)) ==> (shown@, n) == percent_code_of(chars@)->0,
{
    if chars.len() < 3 {
        return None;
    }
    let c = chars[2];
    if c == 'c' || c == 'C' {
        Some((single('\u{2205}'), 3))
    } else if c == 'd' || c == 'D' {
        Some((single('\u{b0}'), 3))
    } else if c == 'p' || c == 'P' {
        Some((single('\u{b1}'), 3))
    } else if c == '%' {
        Some((single('%'), 3))
    } else if c == 'u' || c == 'U' || c == 'o' || c == 'O' {
        Some((String::new(), 3))
    } else if ascii_digit(c) && chars.len() >= 5 && ascii_digit(chars[3]) && ascii_digit(chars[4]) {
        let n = ((c as u32 - '0' as u32) * 10 + (chars[3] as u32 - '0' as u32)) * 10 + (chars[4] as u32
            - '0' as u32);
        assert(n == dec3(chars@));
        if n >= 256 {
            Some((single('\u{fffd}'), 5))
        } else if n < 32 && n != 9 && n != 10 && n != 13 {
            None
        } else {
            match char_from_u32(n) {
                Some(ch) => Some((single(ch), 5)),
                None => None,
            }
        }
    } else {
        None
    }
}

/// One step of reading `chars` from `i`: appends what is shown to `plain`
/// and returns where reading goes on.
fn decode_step_exec(chars: &[char], mtext: bool, i: usize, plain: &mut Vec<char>) -> (j: usize)
    requires
        i < chars@.len(),
    ensures
        (final(plain)@, j as int) == decode_step(chars@, mtext, i as int, old(plain)@),
        i < j <= chars@.len(),
{
    let n = chars.len();
    let c = chars[i];
    if c == '\\' && i + 1 < n {
        let (_, rest) = chars.split_at(i);
        assert(rest@ =~= chars@.skip(i as int));
        if let Some((ch, len)) = unicode_escape(rest) {
            plain.push(ch);
            return i + len;
        }
        if !mtext {
            plain.push(c);
            return i + 1;
        }
        let code = chars[i + 1];
        if code == 'P' || code == 'X' || code == 'N' {
            plain.push('\n');
        } else if code == '~' {
            plain.push(' ');
        } else if code == '\\' || code == '{' || code == '}' {
            plain.push(code);
        } else if code == 'L' || code == 'l' || code == 'O' || code == 'o' || code == 'K' || code
            == 'k' {
        } else if code == 'S' {
            match find_char(chars, ';', i + 2) {
                Some(p) => {
                    proof {
                        lemma_find_from_bounds(chars@, ';', i + 2);
                    }
                    let body = &chars[i + 2..p];
                    push_stack_chars(plain, body);
                    return p + 1;
                },
                None => {
                    plain.push('\\');
                    plain.push('S');
                    assert(plain@ =~= old(plain)@ + seq!['\\', 'S']);
                },
            }
        } else if code == 'A' || code == 'C' || code == 'c' || code == 'f' || code == 'F' || code
            == 'H' || code == 'Q' || code == 'T' || code == 'W' || code == 'p' {
            if let Some(p) = find_char(chars, ';', i + 2) {
                proof {
                    lemma_find_from_bounds(chars@, ';', i + 2);
                }
                return p + 1;
            }
        } else {
            plain.push(code);
        }
        return i + 2;
    }
    if mtext && (c == '{' || c == '}') {
        return i + 1;
    }
    if c == '%' && n - i > 2 && chars[i + 1] == '%' {
        let (_, rest) = chars.split_at(i);
        assert(rest@ =~= chars@.skip(i as int));
        if let Some((shown, len)) = percent_code(rest) {
            let s = chars_of(shown.as_str());
            extend(plain, s.as_slice());
            return i + len;
        }
    }
    plain.push(c);
    i + 1
}

/// The characters `chars` show: MTEXT's codes read when `mtext`.
fn decode_chars(chars: &[char], mtext: bool) -> (r: Vec<char>)
    ensures
        r@ == decoded(chars@, mtext),
{
    let mut plain: Vec<char> = Vec::new();
    let mut i: usize = 0;
    while i < chars.len()
        invariant
            i <= chars@.len(),
            decode_from(chars@, mtext, i as int, plain@) == decoded(chars@, mtext),
        decreases chars@.len() - i,
    {
        i = decode_step_exec(chars, mtext, i, &mut plain);
    }
    plain
}

/// The characters `raw` shows: with `mtext`, MTEXT's codes read as well as
/// the percent codes and `\U+XXXX` escapes every text may hold.
pub fn decode(raw: &str, mtext: bool) -> (r: String)
    ensures
        r@ == decoded(raw@, mtext),
{
    let chars = chars_of(raw);
    let plain = decode_chars(chars.as_slice(), mtext);
    string_of(plain.as_slice())
}

/// The characters an MTEXT string (or a dimension's label) shows: its
/// paragraph breaks (`\P`, `\X`, `\N`) become line feeds.
pub fn decode_mtext(raw: &str) -> (r: String)
    ensures
        r@ == decoded(raw@, true),
{
    decode(raw, true)
}

/// The characters a TEXT or ATTRIB string shows: only the percent codes
/// and `\U+XXXX` escapes apply; a backslash is otherwise a backslash.
pub fn decode_text(raw: &str) -> (r: String)
    ensures
        r@ == decoded(raw@, false),
{
    decode(raw, false)
}

} // verus!
