//! What a PNG of a drawing is drawn with: the fonts its text is laid out
//! in, and the bound on the image's size.

use std::sync::Arc;
use vstd::prelude::*;
use crate::chars::{chars_of, decimal, push_decimal, string_of};

verus! {

/// The largest either side of an image may be unless a caller says
/// otherwise. A pixel is four bytes, so the largest image this allows is
/// 8192 x 8192 x 4 = 256 MiB of pixels.
pub const DEFAULT_MAX_EDGE: u32 = 8192;

/// Which fonts a PNG's `<text>` is drawn with. The SVG itself names no
/// font; this is where the face is chosen.
#[derive(Clone)]
#[non_exhaustive]
pub enum Fonts {
    /// The host's installed fonts, found on the first call in a process and
    /// shared by every later one. A host with no matching font draws
    /// `<text>` blank rather than failing.
    System,
    /// These fonts and no others -- nothing from the host, so the same
    /// drawing gives the same picture everywhere. Each is the bytes of an
    /// OpenType or TrueType file (a collection contributes every face in
    /// it); text is drawn in the family of the first face that loads.
    Custom(Vec<Arc<[u8]>>),
}

impl Default for Fonts {
    /// The host's fonts.
    fn default() -> (r: Fonts)
        ensures
            r is System,
    {
        Fonts::System
    }
}

/// `sizes`, written as a list: `[3, 5]`.
pub open spec fn size_list(sizes: Seq<usize>) -> Seq<char>
    decreases sizes.len(),
{
    if sizes.len() == 0 {
        seq!['[', ']']
    } else {
        list_items(sizes) + seq![']']
    }
}

/// `[` and the sizes separated by `, `, without the closing bracket.
pub open spec fn list_items(sizes: Seq<usize>) -> Seq<char>
    decreases sizes.len(),
{
    if sizes.len() == 0 {
        seq!['[']
    } else if sizes.len() == 1 {
        seq!['['] + decimal(sizes[0] as nat)
    } else {
        list_items(sizes.drop_last()) + seq![',', ' '] + decimal(sizes.last() as nat)
    }
}

impl Fonts {
    /// How the fonts are described: `System`, or `Custom` and the sizes of
    /// the font files in bytes, not their bytes (`Custom([1024, 2048])`).
    pub open spec fn description(&self) -> Seq<char> {
        match self {
            Fonts::System => seq!['S', 'y', 's', 't', 'e', 'm'],
            Fonts::Custom(files) => seq!['C', 'u', 's', 't', 'o', 'm', '('] + size_list(
                files@.map_values(|f: Arc<[u8]>| f@.len() as usize),
            ) + seq![')'],
        }
    }

    /// The fonts described for a reader: `System`, or `Custom` with the
    /// sizes of the font files in bytes -- never their bytes.
    pub fn describe(&self) -> (r: String)
        ensures
            r@ == self.description(),
    {
        let mut out: Vec<char> = Vec::new();
        match self {
            Fonts::System => {
                out.push('S');
                out.push('y');
                out.push('s');
                out.push('t');
                out.push('e');
                out.push('m');
            },
            Fonts::Custom(files) => {
                out.push('C');
                out.push('u');
                out.push('s');
                out.push('t');
                out.push('o');
                out.push('m');
                out.push('(');
                let ghost sizes = files@.map_values(|f: Arc<[u8]>| f@.len() as usize);
                let ghost start = out@;
                out.push('[');
                let mut i: usize = 0;
                while i < files.len()
                    invariant
                        i <= files@.len(),
                        sizes == files@.map_values(|f: Arc<[u8]>| f@.len() as usize),
                        out@ == start + list_items(sizes.take(i as int)),
                    decreases files@.len() - i,
                {
                    assert(sizes.take(i + 1).drop_last() =~= sizes.take(i as int));
                    if i > 0 {
                        out.push(',');
                        out.push(' ');
                    }
                    let n = files[i].len();
                    push_decimal(&mut out, n as u64);
                    i = i + 1;
                    assert(out@ =~= start + list_items(sizes.take(i as int)));
                }
                assert(sizes.take(sizes.len() as int) =~= sizes);
                out.push(']');
                out.push(')');
            },
        }
        string_of(out.as_slice())
    }
}

/// `resvg::usvg::Error`, why an SVG document could not be parsed: carried
/// through as it is.
#[verifier::external_type_specification]
#[verifier::external_body]
pub struct ExSvgError(resvg::usvg::Error);

/// Why a PNG could not be drawn.
#[derive(Debug)]
#[non_exhaustive]
pub enum PngError {
    /// The SVG document could not be parsed -- since the document comes
    /// from this crate's own render, that would be a fault there rather
    /// than bad input from a caller.
    InvalidSvg(resvg::usvg::Error),
    /// The requested pixel size rounds to zero in at least one dimension.
    EmptyCanvas,
    /// The requested pixel size exceeds the largest side allowed. Nothing
    /// was allocated.
    TooLarge { width: u32, height: u32, max_edge: u32 },
    /// The PNG encoder failed, in its own words.
    Encode(String),
    /// The rasterizer panicked, with its own message.
    RenderPanic(String),
}

/// Whether an image `width` x `height` pixels may be drawn under the bound
/// `max_edge` on either side: refused as too large, before any pixel is
/// allocated, when a side is past the bound.
pub open spec fn size_refused(width: u32, height: u32, max_edge: u32) -> bool {
    width > max_edge || height > max_edge
}

/// Checks a requested image size against the bound on its sides, before
/// anything is allocated: [`PngError::TooLarge`] with the size and the
/// bound when a side is past it.
pub fn check_size(width: u32, height: u32, max_edge: u32) -> (r: Result<(), PngError>)
    ensures
        size_refused(width, height, max_edge) ==> r == Err::<(), PngError>(PngError::TooLarge { width, height, max_edge }),
        !size_refused(width, height, max_edge) ==> r is Ok,
{
    if width > max_edge || height > max_edge {
        Err(PngError::TooLarge { width, height, max_edge })
    } else {
        Ok(())
    }
}

/// What `usvg::Error`'s `Display` writes for an error: a sentence that
/// depends on the error alone.
pub uninterp spec fn usvg_error_words(e: resvg::usvg::Error) -> Seq<char>;

/// `usvg::Error`'s own description (its `Display`): the contract claims
/// only that it is what [`usvg_error_words`] names for the same error.
#[verifier::external_body]
fn svg_error_text(e: &resvg::usvg::Error) -> (r: String)
    ensures
        r@ == usvg_error_words(*e),
{
    e.to_string()
}

/// What the error says: for a parse error, the parser's own words after
/// the prefix.
pub open spec fn error_message_of(e: PngError) -> Seq<char> {
    match e {
        PngError::InvalidSvg(err) => "SVG parsing failed: "@ + usvg_error_words(err),
        PngError::EmptyCanvas => "render size is zero (check the scale)"@,
        PngError::TooLarge { width, height, max_edge } => "render size "@ + decimal(width as nat) + "x"@
            + decimal(height as nat) + " px exceeds the "@ + decimal(max_edge as nat)
            + " px limit (use a smaller scale, or raise max_edge)"@,
        PngError::Encode(m) => "PNG encoding failed: "@ + m@,
        PngError::RenderPanic(m) => "the rasterizer panicked: "@ + m@,
    }
}

/// Appends the characters of `s` to `out`.
fn push_all(out: &mut Vec<char>, s: &str)
    ensures
        final(out)@ == old(out)@ + s@,
{
    let cs = chars_of(s);
    let mut i: usize = 0;
    while i < cs.len()
        invariant
            i <= cs@.len(),
            cs@ == s@,
            out@ == old(out)@ + cs@.take(i as int),
        decreases cs@.len() - i,
    {
        out.push(cs[i]);
        i = i + 1;
        assert(out@ =~= old(out)@ + cs@.take(i as int));
    }
    assert(cs@.take(cs@.len() as int) =~= cs@);
}

impl PngError {
    /// What the error says, as a sentence for a person: for a parse error,
    /// `SVG parsing failed: ` and the parser's own words.
    pub fn message(&self) -> (r: String)
        ensures
            r@ == error_message_of(*self),
    {
        let mut out: Vec<char> = Vec::new();
        match self {
            PngError::InvalidSvg(e) => {
                push_all(&mut out, "SVG parsing failed: ");
                push_all(&mut out, svg_error_text(e).as_str());
            },
            PngError::EmptyCanvas => push_all(&mut out, "render size is zero (check the scale)"),
            PngError::TooLarge { width, height, max_edge } => {
                push_all(&mut out, "render size ");
                push_decimal(&mut out, *width as u64);
                push_all(&mut out, "x");
                push_decimal(&mut out, *height as u64);
                push_all(&mut out, " px exceeds the ");
                push_decimal(&mut out, *max_edge as u64);
                push_all(&mut out, " px limit (use a smaller scale, or raise max_edge)");
            },
            PngError::Encode(m) => {
                push_all(&mut out, "PNG encoding failed: ");
                push_all(&mut out, m.as_str());
            },
            PngError::RenderPanic(m) => {
                push_all(&mut out, "the rasterizer panicked: ");
                push_all(&mut out, m.as_str());
            },
        }
        string_of(out.as_slice())
    }
}

} // verus!
