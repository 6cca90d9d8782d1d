//! Every bound the renderer puts on a number that came out of the drawing,
//! the report of what those bounds left out, and the running account a
//! render keeps against them.
//!
//! A drawing is untrusted input: a count, a scale or a spacing in it is
//! whatever the file says, and a corrupt one turns straight into an
//! allocation size or a loop bound. So each such number is capped, the caps
//! are named here, and every render says through [`LimitReport`] what a cap
//! took away: a malformed file may cost a missing entity and a note saying
//! so, never the process. The caps sit far above anything a real drawing
//! reaches, so a well-formed drawing's report is empty.

use vstd::prelude::*;

verus! {

broadcast use vstd::string::group_string_axioms;

/// How deep block references may nest before rendering stops following
/// them: a reference inside more than this many others is not expanded.
pub const MAX_BLOCK_REF_DEPTH: u32 = 20;

/// How many block references one render may expand in total: the depth
/// cap bounds nesting but not breadth, and this budget -- spent once per
/// expansion and never restored -- bounds the breadth.
pub const MAX_BLOCK_REFS: u32 = 100_000;

/// How many bytes of drawing body one render may emit.
pub const MAX_SVG_BODY_BYTES: usize = 64 * 1024 * 1024;

/// How many bytes of drawing body one top-level entity may emit: a quarter
/// of the document's budget.
pub const MAX_ENTITY_SVG_BYTES: usize = MAX_SVG_BODY_BYTES / 4;

/// How many points one entity may be drawn with.
pub const MAX_ENTITY_POINTS: usize = 100_000;

/// How many entities [`LimitReport::dropped`] names before it stops
/// collecting. The counts stay exact past it; only the naming stops.
pub const MAX_NAMED: usize = 100;

/// Which cap acted on an entity.
#[derive(Debug, Clone, Copy, PartialEq, Eq, PartialOrd, Ord, Hash, Structural)]
#[non_exhaustive]
pub enum Cap {
    /// More than 100,000 points. The entity is not drawn.
    EntityPoints,
    /// The document's 64 MiB of drawing body was already spent when this
    /// entity's turn came. It is not drawn.
    DocumentBytes,
    /// The entity drew 16 MiB, a quarter of the document's budget, and its
    /// block expansion was stopped there. It is drawn, but part of it is
    /// missing.
    EntityBytes,
    /// A block reference this entity is, or expands to, nested more than 20
    /// deep or came after the render's 100,000th expansion, and was not
    /// followed.
    BlockRefs,
    /// A HATCH's pattern tile was more than 16 times the size of the shape
    /// it fills. The hatch keeps its outline but not its pattern.
    HatchTile,
    /// A coordinate, size or angle the entity is drawn from is not a real
    /// number, or an angle names no direction. It is not drawn.
    NotANumber,
    /// The entity's extent reaches more than 1e15 drawing units from the
    /// origin. It is not drawn and does not count towards the extent.
    OutOfRange,
}

/// One entity a cap acted on, so a report can name what is missing instead
/// of only counting it.
#[derive(Debug, Clone, PartialEq, Eq)]
pub struct Dropped {
    /// The entity's reference ID (its value).
    pub id: u64,
    /// Its DXF type name.
    pub dxf_type: String,
    /// Which cap acted, and so whether the entity is missing entirely or
    /// only incomplete.
    pub cap: Cap,
}

/// What the caps took away from one render. Every count is of events, not
/// of entities as the file lists them: a block referenced twice and dropped
/// twice counts twice. [`dropped`](Self::dropped) names which entities,
/// once per entity and cap, the first 100 of them.
#[derive(Debug, Clone, PartialEq, Eq)]
pub struct LimitReport {
    /// Entities left out because they would have been drawn with more than
    /// 100,000 points.
    pub oversized_entities: usize,
    /// Block references not expanded because they nest more than 20 deep or
    /// came after the render's 100,000th expansion.
    pub block_refs_dropped: usize,
    /// HATCH pattern fills reduced to an outline because the pattern's tile
    /// was more than 16 times the size of the shape.
    pub hatch_patterns_dropped: usize,
    /// Entities not drawn at all because the document's 64 MiB of drawing
    /// body was already spent when their turn came.
    pub entities_dropped: usize,
    /// Top-level entities drawn only as far as the 16 MiB one entity may
    /// emit.
    pub truncated_parts: usize,
    /// Entities not drawn because a number they are drawn from is not a
    /// real number, or an angle names no direction.
    pub unreadable_entities: usize,
    /// Top-level entities not drawn because their extent reaches more than
    /// 1e15 drawing units from the origin.
    pub out_of_range_entities: usize,
    /// Which entities the counts above are about, in the order they were
    /// met: one entry per (entity, cap) pair, at most 100 of them.
    pub dropped: Vec<Dropped>,
}

/// Whether `(id, cap)` is named in `dropped`.
pub open spec fn names(dropped: Seq<Dropped>, cap: Cap, id: u64) -> bool {
    exists|k: int| 0 <= k < dropped.len() && #[trigger] dropped[k].cap == cap && dropped[k].id == id
}

/// What naming `(id, cap)` makes of the list `before`: the entity
/// appended, unless it is already named for that cap or the list is full.
pub open spec fn note_effect(
    before: Seq<Dropped>,
    after: Seq<Dropped>,
    cap: Cap,
    id: u64,
    dxf_type: Seq<char>,
) -> bool {
    if before.len() >= MAX_NAMED || names(before, cap, id) {
        after == before
    } else {
        &&& after.len() == before.len() + 1
        &&& after.drop_last() == before
        &&& after.last().cap == cap
        &&& after.last().id == id
        &&& after.last().dxf_type@ == dxf_type
    }
}

impl LimitReport {
    /// The count a cap adds to.
    pub open spec fn count_of(&self, cap: Cap) -> int {
        match cap {
            Cap::EntityPoints => self.oversized_entities as int,
            Cap::DocumentBytes => self.entities_dropped as int,
            Cap::EntityBytes => self.truncated_parts as int,
            Cap::BlockRefs => self.block_refs_dropped as int,
            Cap::HatchTile => self.hatch_patterns_dropped as int,
            Cap::NotANumber => self.unreadable_entities as int,
            Cap::OutOfRange => self.out_of_range_entities as int,
        }
    }

    /// Whether the count `cap` adds to can take one more.
    pub open spec fn can_count(&self, cap: Cap) -> bool {
        self.count_of(cap) < usize::MAX
    }

    /// `after` is `before` with one more event under `cap`, the entity
    /// `id` named for it (see [`note_effect`]).
    pub open spec fn counted(before: LimitReport, after: LimitReport, cap: Cap, id: u64, dxf_type: Seq<char>) -> bool {
        &&& forall|c: Cap| #[trigger] after.count_of(c) == before.count_of(c) + if c == cap { 1int } else { 0int }
        &&& note_effect(before.dropped@, after.dropped@, cap, id, dxf_type)
    }

    /// Every count zero and nobody named.
    pub open spec fn is_empty(&self) -> bool {
        &&& self.oversized_entities == 0
        &&& self.block_refs_dropped == 0
        &&& self.hatch_patterns_dropped == 0
        &&& self.entities_dropped == 0
        &&& self.truncated_parts == 0
        &&& self.unreadable_entities == 0
        &&& self.out_of_range_entities == 0
        &&& self.dropped@.len() == 0
    }

    /// What every report keeps: at most [`MAX_NAMED`] names, each (entity,
    /// cap) pair at most once.
    pub open spec fn wf(&self) -> bool {
        &&& self.dropped@.len() <= MAX_NAMED
        &&& forall|i: int, j: int|
            0 <= i < j < self.dropped@.len() ==> !(#[trigger] self.dropped@[i].cap
                == #[trigger] self.dropped@[j].cap && self.dropped@[i].id == self.dropped@[j].id)
    }

    /// The report of a render no cap acted on.
    pub fn empty() -> (r: LimitReport)
        ensures
            r.is_empty(),
            r.wf(),
    {
        LimitReport {
            oversized_entities: 0,
            block_refs_dropped: 0,
            hatch_patterns_dropped: 0,
            entities_dropped: 0,
            truncated_parts: 0,
            unreadable_entities: 0,
            out_of_range_entities: 0,
            dropped: Vec::new(),
        }
    }

    /// Whether the report is well formed (see [`wf`](Self::wf)): at most
    /// [`MAX_NAMED`] names, none twice for one cap.
    pub fn is_well_formed(&self) -> (r: bool)
        ensures
            r == self.wf(),
    {
        let n = self.dropped.len();
        if n > MAX_NAMED {
            return false;
        }
        let mut j: usize = 1;
        while j < n
            invariant
                n == self.dropped@.len(),
                1 <= j <= n || n == 0,
                forall|a: int, b: int|
                    0 <= a < b < j && b < n ==> !(#[trigger] self.dropped@[a].cap == #[trigger] self.dropped@[b].cap
                        && self.dropped@[a].id == self.dropped@[b].id),
            decreases n - j,
        {
            let mut i: usize = 0;
            while i < j
                invariant
                    n == self.dropped@.len(),
                    j < n,
                    i <= j,
                    forall|a: int, b: int|
                        0 <= a < b < j ==> !(#[trigger] self.dropped@[a].cap == #[trigger] self.dropped@[b].cap
                            && self.dropped@[a].id == self.dropped@[b].id),
                    forall|a: int| 0 <= a < i ==> !(#[trigger] self.dropped@[a].cap == self.dropped@[j as int].cap
                        && self.dropped@[a].id == self.dropped@[j as int].id),
                decreases j - i,
            {
                if self.dropped[i].cap == self.dropped[j].cap && self.dropped[i].id == self.dropped[j].id {
                    return false;
                }
                i = i + 1;
            }
            j = j + 1;
        }
        true
    }

    /// Whether any cap acted at all -- whether the picture is missing
    /// something the model holds.
    pub fn engaged(&self) -> (r: bool)
        ensures
            r == !self.is_empty(),
    {
        self.oversized_entities != 0 || self.block_refs_dropped != 0 || self.hatch_patterns_dropped
            != 0 || self.entities_dropped != 0 || self.truncated_parts != 0
            || self.unreadable_entities != 0 || self.out_of_range_entities != 0
            || self.dropped.len() != 0
    }

    /// Names one entity a cap acted on, unless it is already named for that
    /// cap or the list is full.
    pub fn note(&mut self, cap: Cap, id: u64, dxf_type: &str)
        requires
            old(self).wf(),
        ensures
            final(self).wf(),
            note_effect(old(self).dropped@, final(self).dropped@, cap, id, dxf_type@),
            forall|c: Cap| #[trigger] final(self).count_of(c) == old(self).count_of(c),
    {
        if self.dropped.len() >= MAX_NAMED {
            return ;
        }
        if is_named(&self.dropped, cap, id) {
            return ;
        }
        let ghost before = self.dropped@;
        self.dropped.push(Dropped { id, dxf_type: dxf_type.to_string(), cap });
        assert(self.dropped@.drop_last() =~= before);
    }

    /// Counts one event under `cap` and names the entity `id` for it.
    pub fn count(&mut self, cap: Cap, id: u64, dxf_type: &str)
        requires
            old(self).wf(),
            old(self).can_count(cap),
        ensures
            final(self).wf(),
            LimitReport::counted(*old(self), *final(self), cap, id, dxf_type@),
    {
        match cap {
            Cap::EntityPoints => self.oversized_entities = self.oversized_entities + 1,
            Cap::DocumentBytes => self.entities_dropped = self.entities_dropped + 1,
            Cap::EntityBytes => self.truncated_parts = self.truncated_parts + 1,
            Cap::BlockRefs => self.block_refs_dropped = self.block_refs_dropped + 1,
            Cap::HatchTile => self.hatch_patterns_dropped = self.hatch_patterns_dropped + 1,
            Cap::NotANumber => self.unreadable_entities = self.unreadable_entities + 1,
            Cap::OutOfRange => self.out_of_range_entities = self.out_of_range_entities + 1,
        }
        self.note(cap, id, dxf_type);
    }
}



impl Default for LimitReport {
    /// The report of a render no cap acted on.
    fn default() -> (r: LimitReport)
        ensures
            r.is_empty(),
            r.wf(),
    {
        LimitReport::empty()
    }
}

/// Naming an entity is idempotent: naming `(id, cap)` a second time, under
/// any type name, changes nothing -- an entity is named once per cap.
pub proof fn lemma_note_is_idempotent(
    before: Seq<Dropped>,
    once: Seq<Dropped>,
    twice: Seq<Dropped>,
    cap: Cap,
    id: u64,
    first_name: Seq<char>,
    second_name: Seq<char>,
)
    requires
        note_effect(before, once, cap, id, first_name),
        note_effect(once, twice, cap, id, second_name),
    ensures
        twice == once,
{
    if !(before.len() >= MAX_NAMED || names(before, cap, id)) {
        let k = once.len() - 1;
        assert(once[k].cap == cap && once[k].id == id);
        assert(names(once, cap, id));
    }
}

/// However many entities a render names, under whatever caps, the list
/// never passes [`MAX_NAMED`] and never names an entity twice for one cap.
pub proof fn lemma_note_keeps_the_list_bounded(
    before: LimitReport,
    after: LimitReport,
    cap: Cap,
    id: u64,
    dxf_type: Seq<char>,
)
    requires
        before.wf(),
        note_effect(before.dropped@, after.dropped@, cap, id, dxf_type),
    ensures
        after.dropped@.len() <= MAX_NAMED,
        forall|i: int, j: int|
            0 <= i < j < after.dropped@.len() ==> !(#[trigger] after.dropped@[i].cap
                == #[trigger] after.dropped@[j].cap && after.dropped@[i].id == after.dropped@[j].id),
{
    let b = before.dropped@;
    let a = after.dropped@;
    if !(b.len() >= MAX_NAMED || names(b, cap, id)) {
        assert forall|i: int, j: int| 0 <= i < j < a.len() implies !(#[trigger] a[i].cap
            == #[trigger] a[j].cap && a[i].id == a[j].id) by {
            if j == a.len() - 1 {
                assert(a[i] == b[i]);
                if a[i].cap == a[j].cap && a[i].id == a[j].id {
                    assert(names(b, cap, id));
                }
            } else {
                assert(a[i] == b[i] && a[j] == b[j]);
            }
        }
    }
}

/// Whether an entity is drawn, and if not, which bound kept it out.
#[derive(Debug, Clone, Copy, PartialEq, Eq, Structural)]
pub enum Admission {
    /// Drawn.
    Draw,
    /// Hidden by the drawing, and hidden entities are not drawn.
    Hidden,
    /// The document's drawing body is spent ([`Cap::DocumentBytes`]).
    DocumentSpent,
    /// The top-level entity this one belongs to has drawn as much as one
    /// may; what it drew is kept ([`Cap::EntityBytes`], counted when the
    /// part ends).
    PartSpent,
    /// Too many points ([`Cap::EntityPoints`]).
    TooManyPoints,
    /// A number it is drawn from is not a real number ([`Cap::NotANumber`]).
    NotANumber,
}

/// What becomes of a top-level entity once it is walked.
#[derive(Debug, Clone, Copy, PartialEq, Eq, Structural)]
pub enum PartOutcome {
    /// Kept whole.
    Kept,
    /// Kept, but its block expansion was cut short ([`Cap::EntityBytes`]).
    Truncated,
    /// Left out: its extent reaches past what a viewBox can be built from
    /// ([`Cap::OutOfRange`]).
    OutOfRange,
}

/// What [`Account::screen`] decides, in its order.
pub open spec fn admission(
    emitted: usize,
    entity_start: usize,
    hidden: bool,
    include_hidden: bool,
    point_count: usize,
    numbers_real: bool,
) -> Admission {
    if hidden && !include_hidden {
        Admission::Hidden
    } else if emitted >= MAX_SVG_BODY_BYTES {
        Admission::DocumentSpent
    } else if emitted - entity_start >= MAX_ENTITY_SVG_BYTES {
        Admission::PartSpent
    } else if point_count > MAX_ENTITY_POINTS {
        Admission::TooManyPoints
    } else if !numbers_real {
        Admission::NotANumber
    } else {
        Admission::Draw
    }
}

/// The cap an admission that keeps an entity out is counted under, when
/// it is counted at once.
pub open spec fn admission_cap(a: Admission) -> Option<Cap> {
    match a {
        Admission::DocumentSpent => Some(Cap::DocumentBytes),
        Admission::TooManyPoints => Some(Cap::EntityPoints),
        Admission::NotANumber => Some(Cap::NotANumber),
        _ => None,
    }
}

/// The running account a render keeps against the caps: how much drawing
/// body it has emitted, in the document and in the current top-level
/// entity, how many block references it may still expand and how deep it
/// is inside them, how many hidden entities it met, and the report of what
/// the caps took away.
pub struct Account {
    /// Bytes of drawing body emitted so far.
    pub emitted: usize,
    /// [`emitted`](Self::emitted) when the current top-level entity started.
    pub entity_start: usize,
    /// Whether [`MAX_ENTITY_SVG_BYTES`] cut the current top-level entity's
    /// block expansion short.
    pub part_truncated: bool,
    /// Block references the render may still expand.
    pub block_ref_budget: u32,
    /// How many block references the walk is inside.
    pub depth: u32,
    /// Hidden entities met.
    pub hidden: usize,
    /// What the caps took away.
    pub limits: LimitReport,
}

impl Account {
    /// What every account keeps: its report well formed, the current part
    /// started no later than the bytes emitted, the budget never above its
    /// start, and the walk never more than one level past the depth cap.
    pub open spec fn wf(&self) -> bool {
        &&& self.limits.wf()
        &&& self.entity_start <= self.emitted
        &&& self.block_ref_budget <= MAX_BLOCK_REFS
        &&& self.depth <= MAX_BLOCK_REF_DEPTH + 1
    }

    /// How many block references the render has expanded.
    pub open spec fn expanded(&self) -> int {
        MAX_BLOCK_REFS - self.block_ref_budget
    }

    /// Every count can take one more, the hidden count included.
    pub open spec fn can_count(&self) -> bool {
        &&& self.hidden < usize::MAX
        &&& forall|c: Cap| #[trigger] self.limits.can_count(c)
    }

    /// The account a render starts with: nothing emitted, the whole budget,
    /// an empty report.
    pub fn new() -> (r: Account)
        ensures
            r.wf(),
            r.emitted == 0,
            r.entity_start == 0,
            !r.part_truncated,
            r.block_ref_budget == MAX_BLOCK_REFS,
            r.depth == 0,
            r.hidden == 0,
            r.limits.is_empty(),
    {
        Account {
            emitted: 0,
            entity_start: 0,
            part_truncated: false,
            block_ref_budget: MAX_BLOCK_REFS,
            depth: 0,
            hidden: 0,
            limits: LimitReport::empty(),
        }
    }

    /// Whether the account may be charged: well formed, and every count
    /// able to take one more.
    pub fn is_ready(&self) -> (r: bool)
        ensures
            r == (self.wf() && self.can_count()),
    {
        let counts_fit = self.hidden < usize::MAX && self.limits.oversized_entities < usize::MAX
            && self.limits.block_refs_dropped < usize::MAX && self.limits.hatch_patterns_dropped < usize::MAX
            && self.limits.entities_dropped < usize::MAX && self.limits.truncated_parts < usize::MAX
            && self.limits.unreadable_entities < usize::MAX && self.limits.out_of_range_entities < usize::MAX;
        proof {
            if !counts_fit && self.hidden < usize::MAX {
                if !(self.limits.oversized_entities < usize::MAX) {
                    assert(!self.limits.can_count(Cap::EntityPoints));
                } else if !(self.limits.block_refs_dropped < usize::MAX) {
                    assert(!self.limits.can_count(Cap::BlockRefs));
                } else if !(self.limits.hatch_patterns_dropped < usize::MAX) {
                    assert(!self.limits.can_count(Cap::HatchTile));
                } else if !(self.limits.entities_dropped < usize::MAX) {
                    assert(!self.limits.can_count(Cap::DocumentBytes));
                } else if !(self.limits.truncated_parts < usize::MAX) {
                    assert(!self.limits.can_count(Cap::EntityBytes));
                } else if !(self.limits.unreadable_entities < usize::MAX) {
                    assert(!self.limits.can_count(Cap::NotANumber));
                } else {
                    assert(!self.limits.can_count(Cap::OutOfRange));
                }
            }
        }
        counts_fit && self.entity_start <= self.emitted && self.block_ref_budget <= MAX_BLOCK_REFS
            && self.depth <= MAX_BLOCK_REF_DEPTH + 1 && self.limits.is_well_formed()
    }

    /// A top-level entity starts: its share of the body is counted from
    /// here.
    pub fn start_part(&mut self)
        requires
            old(self).wf(),
        ensures
            final(self).wf(),
            *final(self) == (Account {
                entity_start: old(self).emitted,
                part_truncated: false,
                ..*old(self)
            }),
    {
        self.entity_start = self.emitted;
        self.part_truncated = false;
    }

    /// Whether the entity `id` (of DXF type `dxf_type`) is drawn, checked
    /// before any work is done for it, in this order: a hidden entity is
    /// counted, and drawn only when `include_hidden`; nothing more is drawn
    /// once the document's body is spent; an entity inside a part that has
    /// emitted its share is not drawn and the part is marked truncated; nor
    /// is one with more than [`MAX_ENTITY_POINTS`] points or one drawn from
    /// a number that is not real. The document, point and number refusals
    /// are counted and the entity named at once.
    pub fn screen(
        &mut self,
        id: u64,
        dxf_type: &str,
        hidden: bool,
        include_hidden: bool,
        point_count: usize,
        numbers_real: bool,
    ) -> (r: Admission)
        requires
            old(self).wf(),
            old(self).can_count(),
        ensures
            final(self).wf(),
            r == admission(
                old(self).emitted,
                old(self).entity_start,
                hidden,
                include_hidden,
                point_count,
                numbers_real,
            ),
            final(self).hidden == old(self).hidden + if hidden { 1int } else { 0int },
            final(self).part_truncated == (old(self).part_truncated || r == Admission::PartSpent),
            final(self).emitted == old(self).emitted,
            final(self).entity_start == old(self).entity_start,
            final(self).block_ref_budget == old(self).block_ref_budget,
            final(self).depth == old(self).depth,
            match admission_cap(r) {
                Some(cap) => LimitReport::counted(old(self).limits, final(self).limits, cap, id, dxf_type@),
                None => final(self).limits == old(self).limits,
            },
    {
        if hidden {
            self.hidden = self.hidden + 1;
            if !include_hidden {
                return Admission::Hidden;
            }
        }
        if self.emitted >= MAX_SVG_BODY_BYTES {
            assert(self.limits.can_count(Cap::DocumentBytes));
            self.limits.count(Cap::DocumentBytes, id, dxf_type);
            return Admission::DocumentSpent;
        }
        if self.emitted - self.entity_start >= MAX_ENTITY_SVG_BYTES {
            self.part_truncated = true;
            return Admission::PartSpent;
        }
        if point_count > MAX_ENTITY_POINTS {
            assert(self.limits.can_count(Cap::EntityPoints));
            self.limits.count(Cap::EntityPoints, id, dxf_type);
            return Admission::TooManyPoints;
        }
        if !numbers_real {
            assert(self.limits.can_count(Cap::NotANumber));
            self.limits.count(Cap::NotANumber, id, dxf_type);
            return Admission::NotANumber;
        }
        Admission::Draw
    }

    /// Charges what an entity drew: the drawing string handed back holds
    /// everything the entities below it already charged, so the total is
    /// set to the bytes emitted before it began plus that string's length,
    /// not incremented by it.
    pub fn charge(&mut self, before: usize, drawn: usize)
        requires
            old(self).wf(),
            old(self).entity_start <= before,
            before + drawn <= usize::MAX,
        ensures
            final(self).wf(),
            *final(self) == (Account { emitted: (before + drawn) as usize, ..*old(self) }),
    {
        self.emitted = before + drawn;
    }

    /// Whether a block reference (the entity `id`, of DXF type `dxf_type`)
    /// is expanded: not when the walk is already more than
    /// [`MAX_BLOCK_REF_DEPTH`] references deep or the render's budget of
    /// expansions is spent -- then it is counted and named. An expansion
    /// spends one of the budget, never given back, and goes one level
    /// deeper.
    pub fn enter_block_ref(&mut self, id: u64, dxf_type: &str) -> (r: bool)
        requires
            old(self).wf(),
            old(self).limits.can_count(Cap::BlockRefs),
        ensures
            final(self).wf(),
            r == (old(self).depth <= MAX_BLOCK_REF_DEPTH && old(self).block_ref_budget > 0),
            r ==> final(self).block_ref_budget == old(self).block_ref_budget - 1,
            r ==> final(self).depth == old(self).depth + 1,
            r ==> final(self).limits == old(self).limits,
            !r ==> final(self).block_ref_budget == old(self).block_ref_budget,
            !r ==> final(self).depth == old(self).depth,
            !r ==> LimitReport::counted(old(self).limits, final(self).limits, Cap::BlockRefs, id, dxf_type@),
            final(self).emitted == old(self).emitted,
            final(self).entity_start == old(self).entity_start,
            final(self).part_truncated == old(self).part_truncated,
            final(self).hidden == old(self).hidden,
    {
        if self.depth > MAX_BLOCK_REF_DEPTH || self.block_ref_budget == 0 {
            self.limits.count(Cap::BlockRefs, id, dxf_type);
            return false;
        }
        self.block_ref_budget = self.block_ref_budget - 1;
        self.depth = self.depth + 1;
        true
    }

    /// The walk comes back out of a block reference it expanded.
    pub fn leave_block_ref(&mut self)
        requires
            old(self).wf(),
            old(self).depth > 0,
        ensures
            final(self).wf(),
            *final(self) == (Account { depth: (old(self).depth - 1) as u32, ..*old(self) }),
    {
        self.depth = self.depth - 1;
    }

    /// What becomes of the top-level entity `id` once walked: one whose
    /// measured extent reaches past what a viewBox can be built from
    /// (`out_of_range`) is left out, counted and named; one that drew
    /// something after its share of the body ran out is kept, counted and
    /// named as truncated; any other is kept whole.
    pub fn finish_part(&mut self, id: u64, dxf_type: &str, out_of_range: bool, drew: bool) -> (r:
        PartOutcome)
        requires
            old(self).wf(),
            old(self).limits.can_count(Cap::OutOfRange),
            old(self).limits.can_count(Cap::EntityBytes),
        ensures
            final(self).wf(),
            r == (if out_of_range {
                PartOutcome::OutOfRange
            } else if drew && old(self).part_truncated {
                PartOutcome::Truncated
            } else {
                PartOutcome::Kept
            }),
            r == PartOutcome::OutOfRange ==> LimitReport::counted(old(self).limits, final(self).limits, Cap::OutOfRange, id, dxf_type@),
            r == PartOutcome::Truncated ==> LimitReport::counted(old(self).limits, final(self).limits, Cap::EntityBytes, id, dxf_type@),
            r == PartOutcome::Kept ==> final(self).limits == old(self).limits,
            final(self).emitted == old(self).emitted,
            final(self).entity_start == old(self).entity_start,
            final(self).part_truncated == old(self).part_truncated,
            final(self).block_ref_budget == old(self).block_ref_budget,
            final(self).depth == old(self).depth,
            final(self).hidden == old(self).hidden,
    {
        if out_of_range {
            self.limits.count(Cap::OutOfRange, id, dxf_type);
            PartOutcome::OutOfRange
        } else if drew && self.part_truncated {
            self.limits.count(Cap::EntityBytes, id, dxf_type);
            PartOutcome::Truncated
        } else {
            PartOutcome::Kept
        }
    }

    /// A HATCH's pattern is dropped because its tile is too large for the
    /// shape it fills: counted and named.
    pub fn drop_hatch_pattern(&mut self, id: u64)
        requires
            old(self).wf(),
            old(self).limits.can_count(Cap::HatchTile),
        ensures
            final(self).wf(),
            LimitReport::counted(old(self).limits, final(self).limits, Cap::HatchTile, id, seq!['H', 'A', 'T', 'C', 'H']),
            *final(self) == (Account { limits: final(self).limits, ..*old(self) }),
    {
        self.limits.count(Cap::HatchTile, id, "HATCH");
        proof {
            reveal_strlit("HATCH");
            assert("HATCH"@ =~= seq!['H', 'A', 'T', 'C', 'H']);
        }
    }
}

/// A cap that acts shows in the report: once any event is counted, the
/// report is engaged -- a picture missing something never comes with an
/// empty report.
pub proof fn lemma_a_cap_that_acts_engages_the_report(
    before: LimitReport,
    after: LimitReport,
    cap: Cap,
    id: u64,
    dxf_type: Seq<char>,
)
    requires
        LimitReport::counted(before, after, cap, id, dxf_type),
    ensures
        !after.is_empty(),
{
    assert(after.count_of(cap) == before.count_of(cap) + 1);
}

/// However a drawing's blocks nest and fan out, a render's walk stays
/// bounded: it expands at most [`MAX_BLOCK_REFS`] block references in all,
/// and is never more than one level past [`MAX_BLOCK_REF_DEPTH`] deep.
pub proof fn lemma_the_walk_is_bounded(a: Account)
    requires
        a.wf(),
    ensures
        0 <= a.expanded() <= MAX_BLOCK_REFS,
        a.depth <= MAX_BLOCK_REF_DEPTH + 1,
{
}

/// Whether `(id, cap)` is named in `dropped`.
fn is_named(dropped: &Vec<Dropped>, cap: Cap, id: u64) -> (r: bool)
    ensures
        r == names(dropped@, cap, id),
{
    let mut k: usize = 0;
    while k < dropped.len()
        invariant
            k <= dropped@.len(),
            forall|j: int| 0 <= j < k ==> !(#[trigger] dropped@[j].cap == cap && dropped@[j].id == id),
        decreases dropped@.len() - k,
    {
        if dropped[k].cap == cap && dropped[k].id == id {
            return true;
        }
        k = k + 1;
    }
    false
}

} // verus!
