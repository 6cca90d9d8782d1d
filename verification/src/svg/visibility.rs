//! What the drawing hides. A file carries entities nobody sees on a plot:
//! ones marked invisible, attribute values whose own flag hides them,
//! AutoCAD's `DEFPOINTS` layer (where a dimension keeps its definition
//! points), and anything on a layer that is switched off, frozen or marked
//! not to plot. The renderer leaves them out of the picture -- or draws
//! them faded, when asked -- and counts them, and never lets them into the
//! extent.

use vstd::prelude::*;
use crate::chars::chars_of;

verus! {

/// Why an entity is not shown. Checked in this order, so an invisible
/// entity on a frozen layer is hidden because it is invisible.
#[derive(Debug, Clone, Copy, PartialEq, Eq, Structural)]
pub enum Hidden {
    /// The entity's own invisible flag (DXF 60), or an ATTRIB's (DXF 70,
    /// bit 1).
    Invisible,
    /// On the `DEFPOINTS` layer, which AutoCAD never plots whatever its
    /// state says.
    Defpoints,
    /// The layer is switched off.
    LayerOff,
    /// The layer is frozen.
    LayerFrozen,
    /// The layer is stated not to plot. A layer whose file does not say
    /// plots.
    LayerNoPlot,
    /// The layer is frozen in the viewport the model is drawn through,
    /// whatever the drawing says of it elsewhere.
    FrozenInViewport,
}

/// The state of a layer the model holds.
#[derive(Debug, Clone, Copy, PartialEq, Eq, Structural)]
pub struct LayerState {
    /// Switched off.
    pub off: bool,
    /// Frozen.
    pub frozen: bool,
    /// Whether it plots, when the file says.
    pub plot: Option<bool>,
}

/// `c` in lower case, for ASCII letters; any other character as it is.
pub open spec fn ascii_lower(c: char) -> char {
    if 'A' <= c && c <= 'Z' {
        (c as int + 32) as char
    } else {
        c
    }
}

/// Whether `a` and `b` are the same string but for the case of ASCII
/// letters.
pub open spec fn same_ignoring_ascii_case(a: Seq<char>, b: Seq<char>) -> bool {
    &&& a.len() == b.len()
    &&& forall|k: int| 0 <= k < a.len() ==> #[trigger] ascii_lower(a[k]) == ascii_lower(b[k])
}

/// The name of the layer AutoCAD never plots.
pub open spec fn defpoints() -> Seq<char> {
    seq!['D', 'E', 'F', 'P', 'O', 'I', 'N', 'T', 'S']
}

/// The layer an entity is drawn on: its own, but inside a block reference
/// (whose own layer is `reference`) an entity on layer `0` takes the
/// reference's.
pub open spec fn effective_layer_of(own: Option<Seq<char>>, reference: Option<Seq<char>>) -> Option<Seq<char>> {
    if own == Some(seq!['0']) && reference is Some {
        reference
    } else {
        own
    }
}

/// Whether `name` is among the layer names `frozen`.
pub open spec fn frozen_in(frozen: Seq<Seq<char>>, name: Seq<char>) -> bool {
    exists|k: int| 0 <= k < frozen.len() && #[trigger] frozen[k] == name
}

/// Why the drawing hides an entity (see [`hidden_reason`]).
pub open spec fn hidden_of(
    invisible: bool,
    layer: Option<Seq<char>>,
    record: Option<LayerState>,
    viewport_frozen: Seq<Seq<char>>,
) -> Option<Hidden> {
    if invisible {
        Some(Hidden::Invisible)
    } else if layer matches Some(name) && same_ignoring_ascii_case(name, defpoints()) {
        Some(Hidden::Defpoints)
    } else if record matches Some(r) && r.off {
        Some(Hidden::LayerOff)
    } else if record matches Some(r) && r.frozen {
        Some(Hidden::LayerFrozen)
    } else if record matches Some(r) && r.plot == Some(false) {
        Some(Hidden::LayerNoPlot)
    } else if layer matches Some(name) && frozen_in(viewport_frozen, name) {
        Some(Hidden::FrozenInViewport)
    } else {
        None
    }
}

/// `s` viewed as its characters, when there is one.
pub open spec fn opt_view(s: Option<&str>) -> Option<Seq<char>> {
    match s {
        Some(x) => Some(x@),
        None => None,
    }
}

/// The layer an entity is drawn on: `own`, its own layer (`None` when its
/// layer reference resolved to nothing), unless it is layer `0` inside a
/// block reference whose layer is `reference` -- then the reference's.
pub fn effective_layer<'a>(own: Option<&'a str>, reference: Option<&'a str>) -> (r: Option<&'a str>)
    ensures
        opt_view(r) == effective_layer_of(opt_view(own), opt_view(reference)),
{
    match own {
        Some(name) => {
            let cs = chars_of(name);
            if cs.len() == 1 && cs[0] == '0' && reference.is_some() {
                assert(name@ =~= seq!['0']);
                reference
            } else {
                assert(cs@.len() == 1 && cs@[0] == '0' ==> name@ =~= seq!['0']);
                own
            }
        },
        None => None,
    }
}

/// `c` in lower case, for ASCII letters.
fn lower(c: char) -> (r: char)
    ensures
        r == ascii_lower(c),
{
    if 'A' <= c && c <= 'Z' {
        ((c as u8) + 32) as char
    } else {
        c
    }
}

/// Why the drawing hides an entity, or `None` when it shows it, in this
/// order: the entity's own invisible flag (or an ATTRIB's), `invisible`;
/// the `DEFPOINTS` layer, by its name in any case; the state of the layer,
/// `record`, when the model holds it; and, while the model is drawn
/// through a viewport, the layers frozen in it, `viewport_frozen` (empty
/// elsewhere). `layer` is the layer the entity is drawn on (see
/// [`effective_layer`]). A layer the model does not hold and the viewport
/// does not freeze, or one the entity does not resolve to, is shown:
/// nothing says otherwise.
pub fn hidden_reason(
    invisible: bool,
    layer: Option<&str>,
    record: Option<LayerState>,
    viewport_frozen: &[String],
) -> (r: Option<Hidden>)
    ensures
        r == hidden_of(invisible, opt_view(layer), record, viewport_frozen@.map_values(|f: String| f@)),
{
    if invisible {
        return Some(Hidden::Invisible);
    }
    if let Some(l) = layer {
        if is_defpoints(l) {
            return Some(Hidden::Defpoints);
        }
    }
    if let Some(r) = record {
        if r.off {
            return Some(Hidden::LayerOff);
        } else if r.frozen {
            return Some(Hidden::LayerFrozen);
        } else if r.plot == Some(false) {
            return Some(Hidden::LayerNoPlot);
        }
    }
    if let Some(l) = layer {
        if is_frozen_in(viewport_frozen, l) {
            return Some(Hidden::FrozenInViewport);
        }
    }
    None
}

/// Whether `name` is among the layer names `frozen`.
fn is_frozen_in(frozen: &[String], name: &str) -> (r: bool)
    ensures
        r == frozen_in(frozen@.map_values(|f: String| f@), name@),
{
    let ghost names = frozen@.map_values(|f: String| f@);
    let target = chars_of(name);
    let mut k: usize = 0;
    while k < frozen.len()
        invariant
            k <= frozen@.len(),
            names == frozen@.map_values(|f: String| f@),
            target@ == name@,
            forall|j: int| 0 <= j < k ==> #[trigger] names[j] != name@,
        decreases frozen@.len() - k,
    {
        let candidate = chars_of(frozen[k].as_str());
        if super::chars_equal(candidate.as_slice(), target.as_slice()) {
            assert(names[k as int] == name@);
            return true;
        }
        k = k + 1;
    }
    false
}

/// Whether `layer` is `DEFPOINTS`, in any case.
fn is_defpoints(layer: &str) -> (r: bool)
    ensures
        r == same_ignoring_ascii_case(layer@, defpoints()),
{
    let name = chars_of(layer);
    let target = ['D', 'E', 'F', 'P', 'O', 'I', 'N', 'T', 'S'];
    assert(target@ =~= defpoints());
    let mut same = name.len() == target.len();
    let mut k: usize = 0;
    while same && k < name.len()
        invariant
            name@ == layer@,
            same ==> name@.len() == target@.len(),
            k <= name@.len(),
            same == (name@.len() == target@.len() && forall|j: int| 0 <= j < k ==> #[trigger] ascii_lower(name@[j]) == ascii_lower(target@[j])),
        decreases name@.len() - k,
    {
        if lower(name[k]) != lower(target[k]) {
            same = false;
        }
        k = k + 1;
    }
    same
}

} // verus!
