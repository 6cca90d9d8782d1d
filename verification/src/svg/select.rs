//! Which of a drawing's top-level entities a render of one space walks.

use std::collections::BTreeSet;
use vstd::prelude::*;
use crate::svg::{block_space, space_of_block, Space};

verus! {

/// An entity a block record owns, by reference ID (value): the entity
/// itself and, for a block reference, the attribute values it carries,
/// which the model lists at the top level beside it.
#[derive(Debug, Clone, PartialEq, Eq)]
pub struct OwnedEntity {
    pub id: u64,
    pub attribs: Vec<u64>,
}

/// A block record, as the choice of a space reads it: its name and the
/// entities it owns.
#[derive(Debug, Clone, PartialEq, Eq)]
pub struct BlockRecordRef {
    pub name: String,
    pub entities: Vec<OwnedEntity>,
}

/// The IDs an owned entity stands for: its own and its attributes'.
pub open spec fn entity_ids(e: OwnedEntity) -> Set<u64> {
    set![e.id].union(e.attribs@.to_set())
}

/// The IDs the first `n` entities `es` stand for.
pub open spec fn entities_ids(es: Seq<OwnedEntity>, n: int) -> Set<u64>
    decreases n,
{
    if n <= 0 {
        Set::empty()
    } else {
        entities_ids(es, n - 1).union(entity_ids(es[n - 1]))
    }
}

/// The IDs the first `n` block records own, counting only those of the
/// space `space` (see [`space_of_block`]).
pub open spec fn space_ids(blocks: Seq<BlockRecordRef>, space: Space, n: int) -> Set<u64>
    decreases n,
{
    if n <= 0 {
        Set::empty()
    } else if space_of_block(blocks[n - 1].name@) == Some(space) {
        space_ids(blocks, space, n - 1).union(entities_ids(blocks[n - 1].entities@, blocks[n - 1].entities@.len() as int))
    } else {
        space_ids(blocks, space, n - 1)
    }
}

/// Whether the entity `id` is a top-level entity of `space`: a block of
/// that space owns it, itself or as an attribute value of a block
/// reference it owns. Every entity is one of [`Space::All`].
pub open spec fn in_space(blocks: Seq<BlockRecordRef>, space: Space, id: u64) -> bool {
    space == Space::All || exists|b: int, k: int|
        0 <= b < blocks.len() && 0 <= k < blocks[b].entities@.len() && space_of_block(#[trigger] blocks[b].name@)
            == Some(space) && #[trigger] entity_ids(blocks[b].entities@[k]).contains(id)
}

/// The indices, in order, of the first `n` entities `ids` that are
/// top-level entities of `space`.
pub open spec fn selected(blocks: Seq<BlockRecordRef>, ids: Seq<u64>, space: Space, n: int) -> Seq<int>
    decreases n,
{
    if n <= 0 {
        Seq::empty()
    } else if in_space(blocks, space, ids[n - 1]) {
        selected(blocks, ids, space, n - 1).push(n - 1)
    } else {
        selected(blocks, ids, space, n - 1)
    }
}

/// An ID is among what the first `n` entities stand for exactly when one
/// of them stands for it.
proof fn lemma_entities_ids(es: Seq<OwnedEntity>, n: int, id: u64)
    requires
        0 <= n <= es.len(),
    ensures
        entities_ids(es, n).contains(id) <==> exists|k: int| 0 <= k < n && #[trigger] entity_ids(es[k]).contains(id),
    decreases n,
{
    if n > 0 {
        lemma_entities_ids(es, n - 1, id);
        if entities_ids(es, n).contains(id) && !entity_ids(es[n - 1]).contains(id) {
            let k = choose|k: int| 0 <= k < n - 1 && #[trigger] entity_ids(es[k]).contains(id);
            assert(0 <= k < n);
        }
    }
}

/// An ID is among what the first `n` block records of `space` own exactly
/// when one of them owns it.
proof fn lemma_space_ids(blocks: Seq<BlockRecordRef>, space: Space, n: int, id: u64)
    requires
        0 <= n <= blocks.len(),
    ensures
        space_ids(blocks, space, n).contains(id) <==> exists|b: int, k: int|
            0 <= b < n && 0 <= k < blocks[b].entities@.len() && space_of_block(#[trigger] blocks[b].name@) == Some(space)
                && #[trigger] entity_ids(blocks[b].entities@[k]).contains(id),
    decreases n,
{
    if n > 0 {
        lemma_space_ids(blocks, space, n - 1, id);
        let es = blocks[n - 1].entities@;
        lemma_entities_ids(es, es.len() as int, id);
        if space_ids(blocks, space, n).contains(id) && !space_ids(blocks, space, n - 1).contains(id) {
            let k = choose|k: int| 0 <= k < es.len() && #[trigger] entity_ids(es[k]).contains(id);
            assert(space_of_block(blocks[n - 1].name@) == Some(space) && entity_ids(blocks[n - 1].entities@[k]).contains(id));
        }
        if !space_ids(blocks, space, n).contains(id) {
            if exists|b: int, k: int|
                0 <= b < n && 0 <= k < blocks[b].entities@.len() && space_of_block(#[trigger] blocks[b].name@) == Some(space)
                    && #[trigger] entity_ids(blocks[b].entities@[k]).contains(id) {
                let (b, k) = choose|b: int, k: int|
                    0 <= b < n && 0 <= k < blocks[b].entities@.len() && space_of_block(#[trigger] blocks[b].name@) == Some(space)
                        && #[trigger] entity_ids(blocks[b].entities@[k]).contains(id);
                if b == n - 1 {
                    assert(entity_ids(es[k]).contains(id));
                }
            }
        }
    }
}

/// The IDs the blocks of `space` own, themselves or as the attribute
/// values of the block references they own.
fn owned_ids(blocks: &[BlockRecordRef], space: Space) -> (r: BTreeSet<u64>)
    ensures
        r@ == space_ids(blocks@, space, blocks@.len() as int),
{
    let mut ids: BTreeSet<u64> = BTreeSet::new();
    let mut b: usize = 0;
    while b < blocks.len()
        invariant
            b <= blocks@.len(),
            ids@ == space_ids(blocks@, space, b as int),
        decreases blocks@.len() - b,
    {
        let block = &blocks[b];
        if block_space(block.name.as_str()) == Some(space) {
            let ghost base = ids@;
            let mut k: usize = 0;
            while k < block.entities.len()
                invariant
                    k <= block.entities@.len(),
                    block == blocks@[b as int],
                    ids@ == base.union(entities_ids(block.entities@, k as int)),
                decreases block.entities@.len() - k,
            {
                let e = &block.entities[k];
                let ghost mid = ids@;
                ids.insert(e.id);
                let mut a: usize = 0;
                while a < e.attribs.len()
                    invariant
                        a <= e.attribs@.len(),
                        ids@ == mid.union(set![e.id]).union(e.attribs@.take(a as int).to_set()),
                    decreases e.attribs@.len() - a,
                {
                    ids.insert(e.attribs[a]);
                    proof {
                        assert(e.attribs@.take(a + 1) =~= e.attribs@.take(a as int).push(e.attribs@[a as int]));
                        e.attribs@.take(a as int).lemma_push_to_set_commute(e.attribs@[a as int]);
                    }
                    a = a + 1;
                    assert(ids@ =~= mid.union(set![e.id]).union(e.attribs@.take(a as int).to_set()));
                }
                assert(e.attribs@.take(e.attribs@.len() as int) =~= e.attribs@);
                k = k + 1;
                assert(ids@ =~= base.union(entities_ids(block.entities@, k as int)));
            }
        }
        b = b + 1;
    }
    ids
}

/// The top-level entities a render of `space` walks, as indices into the
/// model's top-level list `ids` (reference ID values, in the model's
/// order), in that order: every one for [`Space::All`] -- the model's list
/// holds only model and paper space -- otherwise those the blocks of the
/// space own (see [`in_space`]).
pub fn select_for_space(blocks: &[BlockRecordRef], ids: &[u64], space: Space) -> (r: Vec<usize>)
    ensures
        r@.len() == selected(blocks@, ids@, space, ids@.len() as int).len(),
        forall|k: int| 0 <= k < r@.len() ==> #[trigger] r@[k] as int == selected(blocks@, ids@, space, ids@.len() as int)[k],
{
    let all = space == Space::All;
    let owned = if all {
        BTreeSet::new()
    } else {
        owned_ids(blocks, space)
    };
    let mut r: Vec<usize> = Vec::new();
    let mut i: usize = 0;
    while i < ids.len()
        invariant
            i <= ids@.len(),
            all == (space == Space::All),
            !all ==> owned@ == space_ids(blocks@, space, blocks@.len() as int),
            r@.len() == selected(blocks@, ids@, space, i as int).len(),
            forall|k: int| 0 <= k < r@.len() ==> #[trigger] r@[k] as int == selected(blocks@, ids@, space, i as int)[k],
        decreases ids@.len() - i,
    {
        proof {
            lemma_space_ids(blocks@, space, blocks@.len() as int, ids@[i as int]);
        }
        if all || owned.contains(&ids[i]) {
            r.push(i);
        }
        i = i + 1;
    }
    r
}

} // verus!
