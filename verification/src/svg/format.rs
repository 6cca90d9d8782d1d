//! String formatting for the emitted SVG: the text content of an element,
//! escaped for XML.

use vstd::prelude::*;
use crate::chars::{chars_of, string_of};

verus! {

/// Whether XML 1.0 forbids `c` in a document altogether: the C0 controls
/// other than tab, line feed and carriage return, and the non-characters
/// U+FFFE and U+FFFF.
pub open spec fn xml_illegal(c: char) -> bool {
    ||| ('\u{0}' <= c && c <= '\u{8}')
    ||| c == '\u{b}'
    ||| c == '\u{c}'
    ||| ('\u{e}' <= c && c <= '\u{1f}')
    ||| c == '\u{fffe}'
    ||| c == '\u{ffff}'
}

/// How the character `c` is written, `after_at` when the character before
/// it is an `@`: `&`, `<` and `>` as their entities, an `@` right after
/// another as `&#64;`, a character XML forbids as U+FFFD, anything else as
/// itself.
pub open spec fn escape_piece(c: char, after_at: bool) -> Seq<char> {
    if c == '&' {
        seq!['&', 'a', 'm', 'p', ';']
    } else if c == '<' {
        seq!['&', 'l', 't', ';']
    } else if c == '>' {
        seq!['&', 'g', 't', ';']
    } else if c == '@' && after_at {
        seq!['&', '#', '6', '4', ';']
    } else if xml_illegal(c) {
        seq!['\u{fffd}']
    } else {
        seq![c]
    }
}

/// `s` escaped for XML text content, character by character.
pub open spec fn escaped(s: Seq<char>) -> Seq<char>
    decreases s.len(),
{
    if s.len() == 0 {
        Seq::empty()
    } else {
        escaped(s.drop_last()) + escape_piece(s.last(), s.len() >= 2 && s[s.len() - 2] == '@')
    }
}

/// No two `@` in a row.
pub open spec fn no_double_at(s: Seq<char>) -> bool {
    forall|k: int| 0 <= k < s.len() - 1 ==> !(#[trigger] s[k] == '@' && s[k + 1] == '@')
}

/// No character XML forbids.
pub open spec fn xml_clean(s: Seq<char>) -> bool {
    forall|k: int| 0 <= k < s.len() ==> !xml_illegal(#[trigger] s[k])
}

/// Whether XML 1.0 forbids `c` in a document altogether: the C0 controls
/// other than tab, line feed and carriage return, and the non-characters
/// U+FFFE and U+FFFF. (A lone surrogate cannot occur in a `char`.)
pub fn is_xml_illegal(c: char) -> (r: bool)
    ensures
        r == xml_illegal(c),
{
    ('\u{0}' <= c && c <= '\u{8}') || c == '\u{b}' || c == '\u{c}' || ('\u{e}' <= c && c
        <= '\u{1f}') || c == '\u{fffe}' || c == '\u{ffff}'
}

/// An escaped piece is never empty, ends with an `@` only when it is the
/// `@` itself, and holds no character XML forbids.
proof fn lemma_piece(c: char, after_at: bool)
    ensures
        escape_piece(c, after_at).len() > 0,
        escape_piece(c, after_at).last() == '@' ==> c == '@' && !after_at,
        escape_piece(c, after_at)[0] == '@' ==> c == '@' && !after_at,
        forall|k: int|
            0 <= k < escape_piece(c, after_at).len() - 1 ==> #[trigger] escape_piece(
                c,
                after_at,
            )[k] != '@',
        xml_clean(escape_piece(c, after_at)),
{
}

/// The escaped text ends with an `@` only when the text does.
proof fn lemma_ends_with_at(s: Seq<char>)
    ensures
        escaped(s).len() >= s.len(),
        escaped(s).len() > 0 && escaped(s).last() == '@' ==> s.len() > 0 && s.last() == '@',
    decreases s.len(),
{
    if s.len() > 0 {
        lemma_ends_with_at(s.drop_last());
        lemma_piece(s.last(), s.len() >= 2 && s[s.len() - 2] == '@');
    }
}

/// Escaping never writes two `@` in a row, whatever the text: a label
/// holding `@@` cannot be read as one of the `@@`-delimited placeholders
/// the renderer fills in once the picture is known.
pub proof fn lemma_escaped_has_no_double_at(s: Seq<char>)
    ensures
        no_double_at(escaped(s)),
    decreases s.len(),
{
    if s.len() > 0 {
        let prev = s.drop_last();
        let after_at = s.len() >= 2 && s[s.len() - 2] == '@';
        let piece = escape_piece(s.last(), after_at);
        lemma_escaped_has_no_double_at(prev);
        lemma_ends_with_at(prev);
        lemma_piece(s.last(), after_at);
        let e = escaped(s);
        assert(e == escaped(prev) + piece);
        assert forall|k: int| 0 <= k < e.len() - 1 implies !(#[trigger] e[k] == '@' && e[k + 1]
            == '@') by {
            let n = escaped(prev).len() as int;
            if k < n - 1 {
                assert(e[k] == escaped(prev)[k] && e[k + 1] == escaped(prev)[k + 1]);
            } else if k == n - 1 {
                if e[k] == '@' && e[k + 1] == '@' {
                    assert(escaped(prev).last() == '@');
                    assert(prev.last() == '@');
                    assert(prev.last() == s[s.len() - 2]);
                    assert(piece[0] == '@');
                }
            } else {
                assert(e[k] == piece[k - n]);
            }
        }
    }
}

/// Escaping leaves no character XML forbids, whatever the text: one such
/// character in one label would make the whole document unparseable.
pub proof fn lemma_escaped_is_xml_clean(s: Seq<char>)
    ensures
        xml_clean(escaped(s)),
    decreases s.len(),
{
    if s.len() > 0 {
        let after_at = s.len() >= 2 && s[s.len() - 2] == '@';
        lemma_escaped_is_xml_clean(s.drop_last());
        lemma_piece(s.last(), after_at);
        let e = escaped(s);
        let n = escaped(s.drop_last()).len() as int;
        assert forall|k: int| 0 <= k < e.len() implies !xml_illegal(#[trigger] e[k]) by {
            if k < n {
                assert(e[k] == escaped(s.drop_last())[k]);
            } else {
                assert(e[k] == escape_piece(s.last(), after_at)[k - n]);
            }
        }
    }
}

/// What a reader of the document makes of escaped text `t`, in one pass
/// from the left: the references `&amp;`, `&lt;`, `&gt;` and `&#64;` read
/// as the characters they stand for, every other character as itself.
pub open spec fn unescape(t: Seq<char>) -> Seq<char>
    decreases t.len(),
{
    if t.len() == 0 {
        Seq::empty()
    } else if t.len() >= 5 && t[0] == '&' && t[1] == 'a' && t[2] == 'm' && t[3] == 'p' && t[4] == ';' {
        seq!['&'] + unescape(t.skip(5))
    } else if t.len() >= 4 && t[0] == '&' && t[1] == 'l' && t[2] == 't' && t[3] == ';' {
        seq!['<'] + unescape(t.skip(4))
    } else if t.len() >= 4 && t[0] == '&' && t[1] == 'g' && t[2] == 't' && t[3] == ';' {
        seq!['>'] + unescape(t.skip(4))
    } else if t.len() >= 5 && t[0] == '&' && t[1] == '#' && t[2] == '6' && t[3] == '4' && t[4] == ';' {
        seq!['@'] + unescape(t.skip(5))
    } else {
        seq![t[0]] + unescape(t.skip(1))
    }
}

/// The character a reader gets back for `c`: `c`, or U+FFFD where XML
/// forbids it.
pub open spec fn read_back(c: char) -> char {
    if xml_illegal(c) {
        '\u{fffd}'
    } else {
        c
    }
}

/// Reading back one escaped character and what follows it gives the
/// character read back, then what follows read on its own.
proof fn lemma_unescape_piece(c: char, after_at: bool, y: Seq<char>)
    ensures
        unescape(escape_piece(c, after_at) + y) == seq![read_back(c)] + unescape(y),
{
    let t = escape_piece(c, after_at) + y;
    let p = escape_piece(c, after_at);
    assert(t.skip(p.len() as int) =~= y);
    if p.len() == 1 {
        assert(t[0] == p[0]);
        assert(p[0] != '&');
    } else {
        assert(t[0] == p[0] && t[1] == p[1] && t[2] == p[2] && t[3] == p[3]);
        if p.len() == 5 {
            assert(t[4] == p[4]);
        }
    }
}

/// Reading back escaped `s` and then `y` gives `s` read back, then `y`
/// read on its own: an escaped text ends where its last reference does.
proof fn lemma_unescape_escaped_then(s: Seq<char>, y: Seq<char>)
    ensures
        unescape(escaped(s) + y) == s.map_values(|c: char| read_back(c)) + unescape(y),
    decreases s.len(),
{
    if s.len() == 0 {
        assert(escaped(s) + y =~= y);
        assert(s.map_values(|c: char| read_back(c)) + unescape(y) =~= unescape(y));
    } else {
        let prev = s.drop_last();
        let after_at = s.len() >= 2 && s[s.len() - 2] == '@';
        let p = escape_piece(s.last(), after_at);
        lemma_unescape_escaped_then(prev, p + y);
        lemma_unescape_piece(s.last(), after_at, y);
        assert(escaped(s) + y =~= escaped(prev) + (p + y));
        assert(s.map_values(|c: char| read_back(c)) =~= prev.map_values(|c: char| read_back(c)).push(
            read_back(s.last()),
        ));
        assert(s.map_values(|c: char| read_back(c)) + unescape(y) =~= prev.map_values(
            |c: char| read_back(c),
        ) + (seq![read_back(s.last())] + unescape(y)));
    }
}

/// Escaping loses nothing a document can hold: reading the escaped text
/// back gives the text again, each character XML forbids replaced by
/// U+FFFD.
pub proof fn lemma_escaped_reads_back(s: Seq<char>)
    ensures
        unescape(escaped(s)) == s.map_values(|c: char| read_back(c)),
{
    lemma_unescape_escaped_then(s, Seq::empty());
    assert(escaped(s) + Seq::<char>::empty() =~= escaped(s));
    assert(s.map_values(|c: char| read_back(c)) + unescape(Seq::<char>::empty()) =~= s.map_values(
        |c: char| read_back(c),
    ));
}

/// Escapes `s` for XML text content (`&`, `<`, `>`; quotes are left alone,
/// this is not an attribute value) and replaces every character XML 1.0
/// forbids outright ([`is_xml_illegal`]) with U+FFFD, the mark a reader
/// leaves for a byte it could not decode. It never writes two `@` in a
/// row: the second `@` of a pair is written as the character reference
/// `&#64;`, which draws the same.
pub fn escape_xml(s: &str) -> (r: String)
    ensures
        r@ == escaped(s@),
        no_double_at(r@),
        xml_clean(r@),
{
    let chars = chars_of(s);
    let mut out: Vec<char> = Vec::new();
    let mut after_at = false;
    let mut i: usize = 0;
    while i < chars.len()
        invariant
            i <= chars@.len(),
            chars@ == s@,
            out@ == escaped(s@.take(i as int)),
            after_at == (i >= 1 && s@[i - 1] == '@'),
        decreases chars@.len() - i,
    {
        let c = chars[i];
        let ghost before = out@;
        if c == '&' {
            out.push('&');
            out.push('a');
            out.push('m');
            out.push('p');
            out.push(';');
        } else if c == '<' {
            out.push('&');
            out.push('l');
            out.push('t');
            out.push(';');
        } else if c == '>' {
            out.push('&');
            out.push('g');
            out.push('t');
            out.push(';');
        } else if c == '@' && after_at {
            out.push('&');
            out.push('#');
            out.push('6');
            out.push('4');
            out.push(';');
        } else if is_xml_illegal(c) {
            out.push('\u{fffd}');
        } else {
            out.push(c);
        }
        assert(out@ =~= before + escape_piece(c, after_at));
        assert(s@.take(i + 1).drop_last() =~= s@.take(i as int));
        after_at = c == '@';
        i = i + 1;
    }
    assert(s@.take(s@.len() as int) =~= s@);
    proof {
        lemma_escaped_has_no_double_at(s@);
        lemma_escaped_is_xml_clean(s@);
    }
    string_of(out.as_slice())
}

} // verus!
