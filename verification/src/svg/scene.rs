//! Render once, assemble many: how the parts of a kept render are named
//! and chosen for a document.

use vstd::prelude::*;
use crate::chars::{chars_of, decimal, is_digit, lemma_decimal, lemma_decimal_injective, push_decimal, string_of};
use crate::svg::crop::LeftOutReason;

verus! {

/// The IDs `path` written with a `.` between them.
pub open spec fn joined(path: Seq<u64>) -> Seq<char>
    decreases path.len(),
{
    if path.len() == 0 {
        Seq::empty()
    } else if path.len() == 1 {
        decimal(path[0] as nat)
    } else {
        joined(path.drop_last()) + seq!['.'] + decimal(path.last() as nat)
    }
}

/// The `id` of the `<text>` a text with this path is drawn as: `t`, then
/// the IDs' values joined by `.`.
pub open spec fn text_id_of(path: Seq<u64>) -> Seq<char> {
    seq!['t'] + joined(path)
}

/// The `id` attribute of the `<text>` a text with this path (the reference
/// IDs' values of the text entity, after those of the block references it
/// is drawn inside, outermost first) is drawn as: `t`, then the values
/// joined by `.` -- `t12.40.7`.
pub fn text_id(path: &[u64]) -> (r: String)
    ensures
        r@ == text_id_of(path@),
{
    let mut id: Vec<char> = Vec::new();
    id.push('t');
    let mut i: usize = 0;
    while i < path.len()
        invariant
            i <= path@.len(),
            id@ == seq!['t'] + joined(path@.take(i as int)),
        decreases path@.len() - i,
    {
        assert(path@.take(i + 1).drop_last() =~= path@.take(i as int));
        if i > 0 {
            id.push('.');
        }
        push_decimal(&mut id, path[i]);
        i = i + 1;
        assert(id@ =~= seq!['t'] + joined(path@.take(i as int)));
    }
    assert(path@.take(path@.len() as int) =~= path@);
    string_of(id.as_slice())
}

/// The elements of the parts kept, in drawing order: of the first `n`
/// parts' elements `body`, those `keep` accepts that drew something.
pub open spec fn kept_bodies(body: Seq<Seq<char>>, keep: Seq<bool>, n: int) -> Seq<Seq<char>>
    decreases n,
{
    if n <= 0 {
        Seq::empty()
    } else if keep[n - 1] && body[n - 1].len() > 0 {
        kept_bodies(body, keep, n - 1).push(body[n - 1])
    } else {
        kept_bodies(body, keep, n - 1)
    }
}

/// `pieces` written one after the other with `sep` between each two.
pub open spec fn joined_by(pieces: Seq<Seq<char>>, sep: Seq<char>) -> Seq<char>
    decreases pieces.len(),
{
    if pieces.len() == 0 {
        Seq::empty()
    } else if pieces.len() == 1 {
        pieces[0]
    } else {
        joined_by(pieces.drop_last(), sep) + sep + pieces.last()
    }
}

/// What a document's layer is written from before its stroke widths and
/// construction lines are resolved: the elements of every part `keep`
/// accepts that drew something, in drawing order, each on a line of its
/// own indented under the document's root.
pub fn layer_body(body: &[String], keep: &[bool]) -> (r: String)
    requires
        keep@.len() == body@.len(),
    ensures
        r@ == joined_by(kept_bodies(body@.map_values(|b: String| b@), keep@, body@.len() as int), seq!['\n', ' ', ' ']),
{
    let ghost views = body@.map_values(|b: String| b@);
    let sep = ['\n', ' ', ' '];
    let mut out: Vec<char> = Vec::new();
    let mut any = false;
    let mut i: usize = 0;
    while i < body.len()
        invariant
            i <= body@.len(),
            keep@.len() == body@.len(),
            views == body@.map_values(|b: String| b@),
            sep@ == seq!['\n', ' ', ' '],
            out@ == joined_by(kept_bodies(views, keep@, i as int), sep@),
            any == (kept_bodies(views, keep@, i as int).len() > 0),
        decreases body@.len() - i,
    {
        let piece = chars_of(body[i].as_str());
        if keep[i] && piece.len() > 0 {
            let ghost before = kept_bodies(views, keep@, i as int);
            if any {
                out.push(sep[0]);
                out.push(sep[1]);
                out.push(sep[2]);
            }
            let mut k: usize = 0;
            let ghost mid = out@;
            while k < piece.len()
                invariant
                    k <= piece@.len(),
                    out@ == mid + piece@.take(k as int),
                decreases piece@.len() - k,
            {
                out.push(piece[k]);
                k = k + 1;
                assert(out@ =~= mid + piece@.take(k as int));
            }
            proof {
                assert(piece@.take(piece@.len() as int) =~= piece@);
                let after = kept_bodies(views, keep@, i + 1);
                assert(after == before.push(views[i as int]));
                assert(after.drop_last() =~= before);
                if before.len() == 0 {
                    assert(out@ =~= joined_by(after, sep@));
                } else {
                    assert(out@ =~= joined_by(before, sep@) + sep@ + views[i as int]);
                }
            }
            any = true;
        }
        i = i + 1;
    }
    string_of(out.as_slice())
}

/// No `.` in `s`.
pub open spec fn dot_free(s: Seq<char>) -> bool {
    forall|k: int| 0 <= k < s.len() ==> #[trigger] s[k] != '.'
}

/// A number's digits hold no `.`.
proof fn lemma_decimal_dot_free(n: nat)
    ensures
        dot_free(decimal(n)),
        decimal(n).len() >= 1,
{
    lemma_decimal(n);
    assert forall|k: int| 0 <= k < decimal(n).len() implies #[trigger] decimal(n)[k] != '.' by {
        assert(is_digit(decimal(n)[k]));
    }
}

/// An empty path writes nothing, a path of one ID its digits alone, and a
/// longer one holds a `.`.
proof fn lemma_joined_shape(path: Seq<u64>)
    ensures
        path.len() == 0 <==> joined(path).len() == 0,
        path.len() == 1 ==> dot_free(joined(path)),
        path.len() >= 2 ==> !dot_free(joined(path)),
    decreases path.len(),
{
    if path.len() == 1 {
        lemma_decimal_dot_free(path[0] as nat);
    } else if path.len() >= 2 {
        lemma_decimal_dot_free(path.last() as nat);
        let j = joined(path);
        let n = joined(path.drop_last()).len() as int;
        assert(j[n] == '.');
    }
}

/// Where the last `.` is, the two sides are fixed: `x.d` and `y.e`, with
/// `d` and `e` free of dots, are the same only when `x` is `y` and `d` is
/// `e`.
proof fn lemma_split_at_last_dot(x: Seq<char>, d: Seq<char>, y: Seq<char>, e: Seq<char>)
    requires
        x + seq!['.'] + d == y + seq!['.'] + e,
        dot_free(d),
        dot_free(e),
    ensures
        x == y,
        d == e,
{
    let s = x + seq!['.'] + d;
    let t = y + seq!['.'] + e;
    assert(s.len() == t.len());
    if d.len() < e.len() {
        let i = x.len() as int;
        assert(s[i] == '.');
        assert(t[i] == e[i - y.len() - 1]);
    } else if e.len() < d.len() {
        let i = y.len() as int;
        assert(t[i] == '.');
        assert(s[i] == d[i - x.len() - 1]);
    }
    assert(x =~= s.take(x.len() as int));
    assert(y =~= t.take(y.len() as int));
    assert(d =~= s.skip((x.len() + 1) as int));
    assert(e =~= t.skip((y.len() + 1) as int));
}

/// Two paths written the same are the same path.
proof fn lemma_joined_injective(p: Seq<u64>, q: Seq<u64>)
    requires
        joined(p) == joined(q),
    ensures
        p == q,
    decreases p.len(),
{
    lemma_joined_shape(p);
    lemma_joined_shape(q);
    if p.len() == 0 {
        assert(q.len() == 0);
        assert(p =~= q);
    } else if p.len() == 1 {
        assert(q.len() == 1);
        lemma_decimal_injective(p[0] as nat, q[0] as nat);
        assert(p =~= q);
    } else {
        assert(q.len() >= 2);
        lemma_decimal_dot_free(p.last() as nat);
        lemma_decimal_dot_free(q.last() as nat);
        lemma_split_at_last_dot(
            joined(p.drop_last()),
            decimal(p.last() as nat),
            joined(q.drop_last()),
            decimal(q.last() as nat),
        );
        lemma_joined_injective(p.drop_last(), q.drop_last());
        lemma_decimal_injective(p.last() as nat, q.last() as nat);
        assert(p =~= q.drop_last().push(q.last()));
        assert(q =~= q.drop_last().push(q.last()));
    }
}

/// A text's `id` names its path and nothing else: two texts whose paths
/// differ never share an `id`, which is how a document's texts are found
/// again -- unique in a document because a model's reference IDs are.
pub proof fn lemma_text_ids_are_unique(p: Seq<u64>, q: Seq<u64>)
    requires
        text_id_of(p) == text_id_of(q),
    ensures
        p == q,
{
    assert(joined(p) =~= text_id_of(p).skip(1));
    assert(joined(q) =~= text_id_of(q).skip(1));
    lemma_joined_injective(p, q);
}

/// Whether a plain render's document holds a part left out for `left_out`:
/// every part but the outliers the crop set aside.
pub fn in_document(left_out: Option<LeftOutReason>) -> (r: bool)
    ensures
        r == !(left_out == Some(LeftOutReason::ScaleOutlier) || left_out == Some(LeftOutReason::FarOutlier)),
{
    match left_out {
        Some(LeftOutReason::ScaleOutlier) | Some(LeftOutReason::FarOutlier) => false,
        _ => true,
    }
}

} // verus!
