//! What a block reference draws: whether it is expanded at all, and which
//! of its block's entities -- and of their attribute values -- are drawn,
//! in order.

use std::collections::BTreeSet;
use vstd::prelude::*;
use crate::chars::chars_of;
use crate::limits::{Account, Cap, LimitReport, MAX_BLOCK_REF_DEPTH};

verus! {

/// What a render reports of the block references it could not expand:
/// those naming a block the model does not hold, by their own reference
/// IDs, and the blocks that drew nothing, by name, each once.
#[derive(Debug, Clone)]
pub struct BlockReports {
    /// The reference IDs of references to blocks the model does not hold.
    pub unresolved: BTreeSet<u64>,
    /// The names of the blocks that drew nothing, in the order first met.
    pub empty: Vec<String>,
}

impl BlockReports {
    /// The names of the blocks that drew nothing.
    pub open spec fn empty_names(&self) -> Seq<Seq<char>> {
        self.empty@.map_values(|n: String| n@)
    }

    /// No block named twice.
    pub open spec fn wf(&self) -> bool {
        forall|i: int, j: int|
            0 <= i < j < self.empty_names().len() ==> #[trigger] self.empty_names()[i] != #[trigger] self.empty_names()[j]
    }

    /// Nothing reported yet.
    pub fn new() -> (r: BlockReports)
        ensures
            r.wf(),
            r.unresolved@ == Set::<u64>::empty(),
            r.empty_names() == Seq::<Seq<char>>::empty(),
    {
        let r = BlockReports { unresolved: BTreeSet::new(), empty: Vec::new() };
        assert(r.empty_names() =~= Seq::<Seq<char>>::empty());
        r
    }

    /// Reports the reference `owner` as naming a block the model does not
    /// hold.
    pub fn note_unresolved(&mut self, owner: u64)
        ensures
            final(self).unresolved@ == old(self).unresolved@.insert(owner),
            final(self).empty == old(self).empty,
            old(self).wf() ==> final(self).wf(),
    {
        self.unresolved.insert(owner);
        assert(self.empty_names() =~= old(self).empty_names());
    }

    /// Reports the block `name` as drawing nothing, unless it already is.
    pub fn note_empty(&mut self, name: &str)
        ensures
            old(self).wf() ==> final(self).wf(),
            final(self).unresolved == old(self).unresolved,
            final(self).empty_names() == if old(self).empty_names().contains(name@) {
                old(self).empty_names()
            } else {
                old(self).empty_names().push(name@)
            },
    {
        let ghost names = self.empty_names();
        let target = chars_of(name);
        let mut k: usize = 0;
        while k < self.empty.len()
            invariant
                k <= self.empty@.len(),
                names == self.empty@.map_values(|n: String| n@),
                names == old(self).empty_names(),
                self.empty@ == old(self).empty@,
                self.unresolved == old(self).unresolved,
                target@ == name@,
                forall|j: int| 0 <= j < k ==> names[j] != name@,
            decreases self.empty@.len() - k,
        {
            let listed = chars_of(self.empty[k].as_str());
            if super::chars_equal(listed.as_slice(), target.as_slice()) {
                assert(names[k as int] == name@);
                assert(self.empty_names() =~= names);
                return;
            }
            k = k + 1;
        }
        assert(!names.contains(name@));
        self.empty.push(name.to_string());
        assert(self.empty_names() =~= names.push(name@));
    }
}

/// What becomes of a block reference before anything of it is drawn.
#[derive(Debug, Clone, Copy, PartialEq, Eq, Structural)]
pub enum BlockRefOutcome {
    /// It names a block the model does not hold: nothing is drawn, and the
    /// reference is reported under its own ID.
    Unresolved,
    /// Its block holds no entity: nothing is drawn, and the block is
    /// reported by name -- as it is when the block's entities, once
    /// walked, draw nothing.
    Empty,
    /// A bound on block references stopped it: nested too deep, or the
    /// render's expansions are spent. Counted and named.
    Dropped,
    /// Expanded: one expansion spent, one level deeper.
    Expanded,
}

/// What becomes of a block reference (see [`block_ref_outcome`]), in this
/// order: an unheld block, an empty one, then the bounds on expansion.
pub open spec fn block_ref_outcome_of(held: bool, n_children: usize, account: Account) -> BlockRefOutcome {
    if !held {
        BlockRefOutcome::Unresolved
    } else if n_children == 0 {
        BlockRefOutcome::Empty
    } else if !(account.depth <= MAX_BLOCK_REF_DEPTH && account.block_ref_budget > 0) {
        BlockRefOutcome::Dropped
    } else {
        BlockRefOutcome::Expanded
    }
}

/// Decides whether the block reference `owner` (of DXF type `owner_type`)
/// is expanded: `held` is whether the model holds the block it names,
/// `n_children` how many entities that block holds, `block_name` its name.
/// A reference to an unheld block is reported under its own ID, and an
/// empty block by name, in `reports`; an expansion is charged to `account`
/// (see [`Account::enter_block_ref`]), as is a reference the bounds stop;
/// an unheld or empty block leaves the account as it was. Nothing is drawn
/// but for an expanded reference.
pub fn block_ref_outcome(
    held: bool,
    n_children: usize,
    account: &mut Account,
    reports: &mut BlockReports,
    owner: u64,
    owner_type: &str,
    block_name: &str,
) -> (r: BlockRefOutcome)
    requires
        old(account).wf(),
        old(account).can_count(),
    ensures
        final(account).wf(),
        old(reports).wf() ==> final(reports).wf(),
        r == block_ref_outcome_of(held, n_children, *old(account)),
        (r == BlockRefOutcome::Unresolved || r == BlockRefOutcome::Empty) ==> *final(account) == *old(account),
        r == BlockRefOutcome::Dropped ==> LimitReport::counted(
            old(account).limits,
            final(account).limits,
            Cap::BlockRefs,
            owner,
            owner_type@,
        ) && *final(account) == (Account { limits: final(account).limits, ..*old(account) }),
        r == BlockRefOutcome::Expanded ==> *final(account) == (Account {
            block_ref_budget: (old(account).block_ref_budget - 1) as u32,
            depth: (old(account).depth + 1) as u32,
            ..*old(account)
        }),
        r == BlockRefOutcome::Unresolved ==> final(reports).unresolved@ == old(reports).unresolved@.insert(owner)
            && final(reports).empty == old(reports).empty,
        r == BlockRefOutcome::Empty ==> final(reports).unresolved == old(reports).unresolved
            && final(reports).empty_names() == (if old(reports).empty_names().contains(block_name@) {
                old(reports).empty_names()
            } else {
                old(reports).empty_names().push(block_name@)
            }),
        (r == BlockRefOutcome::Dropped || r == BlockRefOutcome::Expanded) ==> *final(reports) == *old(reports),
{
    if !held {
        reports.note_unresolved(owner);
        return BlockRefOutcome::Unresolved;
    }
    if n_children == 0 {
        reports.note_empty(block_name);
        return BlockRefOutcome::Empty;
    }
    assert(account.limits.can_count(Cap::BlockRefs));
    if account.enter_block_ref(owner, owner_type) {
        BlockRefOutcome::Expanded
    } else {
        BlockRefOutcome::Dropped
    }
}

/// An expanded block reference is done: the walk comes back out of it,
/// and a block whose entities drew nothing (`drew` false) is reported by
/// name, as an empty one is.
pub fn finish_block_ref(account: &mut Account, reports: &mut BlockReports, block_name: &str, drew: bool)
    requires
        old(account).wf(),
        old(account).depth > 0,
    ensures
        final(account).wf(),
        old(reports).wf() ==> final(reports).wf(),
        *final(account) == (Account { depth: (old(account).depth - 1) as u32, ..*old(account) }),
        final(reports).unresolved == old(reports).unresolved,
        final(reports).empty_names() == (if drew || old(reports).empty_names().contains(block_name@) {
            old(reports).empty_names()
        } else {
            old(reports).empty_names().push(block_name@)
        }),
{
    account.leave_block_ref();
    if !drew {
        reports.note_empty(block_name);
    }
}

/// An entity of a block, as its drawing order reads it.
#[derive(Debug, Clone, PartialEq, Eq)]
pub enum BlockChild {
    /// An attribute template: never drawn.
    Attdef,
    /// An attribute value the block lists, by reference ID.
    Attrib(u64),
    /// A block reference, with the reference IDs of the attribute values
    /// it carries.
    Insert(Vec<u64>),
    /// Any other entity.
    Other,
}

/// One thing a block reference's expansion draws.
#[derive(Debug, Clone, Copy, PartialEq, Eq, Structural)]
pub enum DrawItem {
    /// The block's entity at this index.
    Child(usize),
    /// The attribute value at index `attrib` of the block reference at
    /// index `child`.
    InsertAttrib { child: usize, attrib: usize },
}

/// The reference IDs of the attribute values the first `n` entities of a
/// block list among themselves.
pub open spec fn listed_attribs(children: Seq<BlockChild>, n: int) -> Set<u64>
    decreases n,
{
    if n <= 0 {
        Set::empty()
    } else {
        match children[n - 1] {
            BlockChild::Attrib(id) => listed_attribs(children, n - 1).insert(id),
            _ => listed_attribs(children, n - 1),
        }
    }
}

/// Of the first `n` attribute values `attribs` of the block reference at
/// index `child`, those the block does not already list, in order.
pub open spec fn carried_attribs(children: Seq<BlockChild>, child: int, attribs: Seq<u64>, n: int) -> Seq<DrawItem>
    decreases n,
{
    if n <= 0 {
        Seq::empty()
    } else if listed_attribs(children, children.len() as int).contains(attribs[n - 1]) {
        carried_attribs(children, child, attribs, n - 1)
    } else {
        carried_attribs(children, child, attribs, n - 1).push(
            DrawItem::InsertAttrib { child: child as usize, attrib: (n - 1) as usize },
        )
    }
}

/// What the block's entity at index `i` adds to the draw list: nothing for
/// an attribute template; otherwise the entity, then -- for a block
/// reference -- the attribute values it carries that the block does not
/// list, which nothing else would draw.
pub open spec fn child_items(children: Seq<BlockChild>, i: int) -> Seq<DrawItem> {
    match children[i] {
        BlockChild::Attdef => Seq::empty(),
        BlockChild::Insert(attribs) => seq![DrawItem::Child(i as usize)] + carried_attribs(
            children,
            i,
            attribs@,
            attribs@.len() as int,
        ),
        _ => seq![DrawItem::Child(i as usize)],
    }
}

/// What the first `n` entities of a block add to the draw list, in order.
pub open spec fn draw_list(children: Seq<BlockChild>, n: int) -> Seq<DrawItem>
    decreases n,
{
    if n <= 0 {
        Seq::empty()
    } else {
        draw_list(children, n - 1) + child_items(children, n - 1)
    }
}

/// The IDs of the attribute values the block lists.
fn listed_attrib_ids(children: &[BlockChild]) -> (r: BTreeSet<u64>)
    ensures
        r@ == listed_attribs(children@, children@.len() as int),
{
    let mut ids: BTreeSet<u64> = BTreeSet::new();
    let mut k: usize = 0;
    while k < children.len()
        invariant
            k <= children@.len(),
            ids@ == listed_attribs(children@, k as int),
        decreases children@.len() - k,
    {
        if let BlockChild::Attrib(id) = &children[k] {
            ids.insert(*id);
        }
        k = k + 1;
    }
    ids
}

/// What an expanded block reference draws, in order (see [`draw_list`]):
/// each of its block's entities but the attribute templates, and after a
/// nested block reference the attribute values it carries -- once, not
/// again where the block lists them itself.
pub fn block_ref_children(children: &[BlockChild]) -> (r: Vec<DrawItem>)
    ensures
        r@ == draw_list(children@, children@.len() as int),
        forall|x: int|
            0 <= x < r@.len() && (#[trigger] r@[x]) is InsertAttrib ==> ({
                &&& r@[x] matches DrawItem::InsertAttrib { child, attrib }
                &&& child < children@.len()
                &&& children@[child as int] matches BlockChild::Insert(attribs)
                &&& attrib < attribs@.len()
                &&& forall|k: int| 0 <= k < children@.len() ==> #[trigger] children@[k] != BlockChild::Attrib(
                    attribs@[attrib as int],
                )
            }),
{
    let listed = listed_attrib_ids(children);
    let mut out: Vec<DrawItem> = Vec::new();
    let mut i: usize = 0;
    while i < children.len()
        invariant
            i <= children@.len(),
            listed@ == listed_attribs(children@, children@.len() as int),
            out@ == draw_list(children@, i as int),
        decreases children@.len() - i,
    {
        match &children[i] {
            BlockChild::Attdef => {},
            BlockChild::Insert(attribs) => {
                let ghost base = out@;
                out.push(DrawItem::Child(i));
                let mut k: usize = 0;
                while k < attribs.len()
                    invariant
                        k <= attribs@.len(),
                        i < children@.len(),
                        children@[i as int] == BlockChild::Insert(*attribs),
                        listed@ == listed_attribs(children@, children@.len() as int),
                        out@ == base + seq![DrawItem::Child(i)] + carried_attribs(children@, i as int, attribs@, k as int),
                    decreases attribs@.len() - k,
                {
                    if !listed.contains(&attribs[k]) {
                        out.push(DrawItem::InsertAttrib { child: i, attrib: k });
                    }
                    k = k + 1;
                    assert(out@ =~= base + seq![DrawItem::Child(i)] + carried_attribs(children@, i as int, attribs@, k as int));
                }
                assert(out@ =~= base + child_items(children@, i as int));
            },
            _ => {
                out.push(DrawItem::Child(i));
            },
        }
        i = i + 1;
    }
    proof {
        assert forall|x: int| 0 <= x < out@.len() && (#[trigger] out@[x]) is InsertAttrib implies ({
            &&& out@[x] matches DrawItem::InsertAttrib { child, attrib }
            &&& child < children@.len()
            &&& children@[child as int] matches BlockChild::Insert(attribs)
            &&& attrib < attribs@.len()
            &&& forall|k: int| 0 <= k < children@.len() ==> #[trigger] children@[k] != BlockChild::Attrib(
                attribs@[attrib as int],
            )
        }) by {
            lemma_a_listed_attribute_value_is_not_drawn_again(children@, x);
        }
    }
    out
}

/// An attribute value a block lists among its first `n` entities is among
/// those [`listed_attribs`] holds.
proof fn lemma_listed_has(children: Seq<BlockChild>, n: int, k: int, id: u64)
    requires
        0 <= k < n <= children.len(),
        children[k] == BlockChild::Attrib(id),
    ensures
        listed_attribs(children, n).contains(id),
    decreases n,
{
    if k < n - 1 {
        lemma_listed_has(children, n - 1, k, id);
    }
}

/// Every carried attribute item names the reference at `child` and one of
/// its first `n` values, which the block does not list.
proof fn lemma_carried_items(children: Seq<BlockChild>, child: int, attribs: Seq<u64>, n: int)
    requires
        0 <= n <= attribs.len(),
        attribs.len() <= usize::MAX,
        0 <= child <= usize::MAX,
    ensures
        forall|x: int|
            0 <= x < carried_attribs(children, child, attribs, n).len() ==> (#[trigger] carried_attribs(children, child, attribs, n)[x]
                matches DrawItem::InsertAttrib { child: c, attrib: t } && c == child as usize && t < n
                && !listed_attribs(children, children.len() as int).contains(attribs[t as int])),
    decreases n,
{
    if n > 0 {
        lemma_carried_items(children, child, attribs, n - 1);
    }
}

/// A draw-list item of the first `n` entities that is a carried attribute
/// value names a block reference among them and one of its values, which
/// the block does not list.
spec fn carried_ok(children: Seq<BlockChild>, n: int, item: DrawItem) -> bool {
    match item {
        DrawItem::InsertAttrib { child, attrib } => child < n && match children[child as int] {
            BlockChild::Insert(attribs) => attrib < attribs@.len() && !listed_attribs(
                children,
                children.len() as int,
            ).contains(attribs@[attrib as int]),
            _ => false,
        },
        _ => true,
    }
}

/// Every carried attribute item of the first `n` entities' draw list names
/// a block reference among them and one of its values, which the block
/// does not list.
proof fn lemma_draw_list_items(children: Seq<BlockChild>, n: int)
    requires
        0 <= n <= children.len(),
        children.len() <= usize::MAX,
    ensures
        forall|x: int|
            0 <= x < draw_list(children, n).len() ==> carried_ok(children, n, #[trigger] draw_list(children, n)[x]),
    decreases n,
{
    if n > 0 {
        lemma_draw_list_items(children, n - 1);
        let prev = draw_list(children, n - 1);
        let items = child_items(children, n - 1);
        let cur = draw_list(children, n);
        match children[n - 1] {
            BlockChild::Insert(attribs) => {
                assert(attribs@.len() == attribs.len());
                lemma_carried_items(children, n - 1, attribs@, attribs@.len() as int);
                let carried = carried_attribs(children, n - 1, attribs@, attribs@.len() as int);
                assert(cur == prev + items);
                assert(items == seq![DrawItem::Child((n - 1) as usize)] + carried);
                assert forall|x: int| 0 <= x < cur.len() implies carried_ok(children, n, #[trigger] cur[x]) by {
                    if x < prev.len() {
                        assert(cur[x] == prev[x]);
                    } else if x > prev.len() {
                        assert(cur[x] == items[x - prev.len()]);
                        assert(items[x - prev.len()] == carried[x - prev.len() - 1]);
                    } else {
                        assert(cur[x] == items[0]);
                    }
                }
            },
            _ => {
                assert forall|x: int| 0 <= x < cur.len() implies carried_ok(children, n, #[trigger] cur[x]) by {
                    if x < prev.len() {
                        assert(cur[x] == prev[x]);
                    }
                }
            },
        }
    }
}

/// An attribute value is drawn once: a value a block reference carries is
/// drawn beside it only when the block lists no attribute value with that
/// ID among its entities -- before or after the reference -- so a value
/// the block lists is drawn where the block lists it, and only there.
pub proof fn lemma_a_listed_attribute_value_is_not_drawn_again(children: Seq<BlockChild>, x: int)
    requires
        children.len() <= usize::MAX,
        0 <= x < draw_list(children, children.len() as int).len(),
        draw_list(children, children.len() as int)[x] is InsertAttrib,
    ensures
        ({
            let item = draw_list(children, children.len() as int)[x];
            &&& item matches DrawItem::InsertAttrib { child, attrib }
            &&& child < children.len()
            &&& children[child as int] matches BlockChild::Insert(attribs)
            &&& attrib < attribs@.len()
            &&& forall|k: int| 0 <= k < children.len() ==> #[trigger] children[k] != BlockChild::Attrib(attribs@[attrib as int])
        }),
{
    let n = children.len() as int;
    lemma_draw_list_items(children, n);
    let item = draw_list(children, n)[x];
    if let DrawItem::InsertAttrib { child, attrib } = item {
        if let BlockChild::Insert(attribs) = children[child as int] {
            let id = attribs@[attrib as int];
            assert forall|k: int| 0 <= k < n implies #[trigger] children[k] != BlockChild::Attrib(id) by {
                if children[k] == BlockChild::Attrib(id) {
                    lemma_listed_has(children, n, k, id);
                }
            }
        }
    }
}

} // verus!
