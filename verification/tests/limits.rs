use iron_render_cad::limits::{
    Account, Admission, Cap, LimitReport, PartOutcome, MAX_BLOCK_REFS, MAX_BLOCK_REF_DEPTH,
    MAX_ENTITY_POINTS, MAX_ENTITY_SVG_BYTES, MAX_NAMED, MAX_SVG_BODY_BYTES,
};

#[test]
fn a_default_report_is_not_engaged() {
    assert!(!LimitReport::default().engaged());
    let counted = LimitReport {
        hatch_patterns_dropped: 1,
        ..LimitReport::default()
    };
    assert!(counted.engaged());
}

#[test]
fn an_entity_is_named_once_per_cap_and_the_list_has_a_ceiling() {
    let mut r = LimitReport::default();
    let id = 0x7F;
    // The same entity met twice under one cap is one entry; under two
    // caps it is two.
    r.note(Cap::BlockRefs, id, "INSERT");
    r.note(Cap::BlockRefs, id, "INSERT");
    r.note(Cap::EntityBytes, id, "INSERT");
    assert_eq!(r.dropped.len(), 2, "{:?}", r.dropped);
    for i in 0..(MAX_NAMED as u64) * 2 {
        r.note(Cap::DocumentBytes, i, "LINE");
    }
    assert_eq!(r.dropped.len(), MAX_NAMED);
}

#[test]
fn a_name_alone_engages_the_report() {
    let mut r = LimitReport::empty();
    r.note(Cap::OutOfRange, 3, "LINE");
    assert!(r.engaged());
    assert_eq!(r.out_of_range_entities, 0);
}

#[test]
fn counting_adds_one_to_the_caps_count_and_names_the_entity() {
    let mut r = LimitReport::empty();
    r.count(Cap::NotANumber, 9, "CIRCLE");
    r.count(Cap::NotANumber, 9, "CIRCLE");
    assert_eq!(r.unreadable_entities, 2);
    assert_eq!(r.dropped.len(), 1);
    assert_eq!(r.dropped[0].id, 9);
    assert_eq!(r.dropped[0].dxf_type, "CIRCLE");
    assert_eq!(r.dropped[0].cap, Cap::NotANumber);
    r.count(Cap::EntityPoints, 4, "LWPOLYLINE");
    assert_eq!(r.oversized_entities, 1);
    assert_eq!(r.dropped.len(), 2);
}

#[test]
fn naming_twice_under_another_type_name_changes_nothing() {
    let mut r = LimitReport::empty();
    r.note(Cap::HatchTile, 5, "HATCH");
    let once = r.clone();
    r.note(Cap::HatchTile, 5, "SOMETHING ELSE");
    assert_eq!(r, once);
}

#[test]
fn a_new_account_has_spent_nothing() {
    let a = Account::new();
    assert_eq!(a.emitted, 0);
    assert_eq!(a.block_ref_budget, MAX_BLOCK_REFS);
    assert_eq!(a.depth, 0);
    assert_eq!(a.hidden, 0);
    assert!(!a.limits.engaged());
}

#[test]
fn screening_checks_each_bound_in_its_order() {
    let mut a = Account::new();
    // Hidden first: counted, and drawn only when asked.
    assert_eq!(a.screen(1, "LINE", true, false, MAX_ENTITY_POINTS + 1, false), Admission::Hidden);
    assert_eq!(a.hidden, 1);
    assert!(!a.limits.engaged());
    // Too many points before a number that is not real.
    assert_eq!(a.screen(2, "SPLINE", false, false, MAX_ENTITY_POINTS + 1, false), Admission::TooManyPoints);
    assert_eq!(a.limits.oversized_entities, 1);
    assert_eq!(a.screen(3, "ARC", false, false, MAX_ENTITY_POINTS, false), Admission::NotANumber);
    assert_eq!(a.limits.unreadable_entities, 1);
    assert_eq!(a.screen(4, "LINE", true, true, 2, true), Admission::Draw);
    assert_eq!(a.hidden, 2);
    assert_eq!(a.limits.dropped.len(), 2);
}

#[test]
fn a_spent_document_draws_nothing_more_and_a_spent_part_is_truncated() {
    let mut a = Account::new();
    a.start_part();
    a.charge(0, MAX_ENTITY_SVG_BYTES);
    assert_eq!(a.screen(7, "LINE", false, false, 2, true), Admission::PartSpent);
    assert!(a.part_truncated);
    assert_eq!(a.finish_part(1, "INSERT", false, true), PartOutcome::Truncated);
    assert_eq!(a.limits.truncated_parts, 1);
    a.start_part();
    assert!(!a.part_truncated);
    a.charge(a.emitted, MAX_SVG_BODY_BYTES);
    assert_eq!(a.screen(8, "LINE", false, false, 2, true), Admission::DocumentSpent);
    assert_eq!(a.limits.entities_dropped, 1);
}

#[test]
fn an_extent_out_of_range_leaves_the_part_out() {
    let mut a = Account::new();
    a.start_part();
    assert_eq!(a.finish_part(11, "LINE", true, true), PartOutcome::OutOfRange);
    assert_eq!(a.limits.out_of_range_entities, 1);
    a.start_part();
    assert_eq!(a.finish_part(12, "LINE", false, true), PartOutcome::Kept);
    assert_eq!(a.limits.dropped.len(), 1);
}

#[test]
fn block_references_nest_no_deeper_than_the_cap() {
    let mut a = Account::new();
    let mut entered = 0;
    while a.enter_block_ref(1, "INSERT") {
        entered += 1;
    }
    // The walk is inside one more reference than the depth cap allows
    // before it refuses.
    assert_eq!(entered, MAX_BLOCK_REF_DEPTH + 1);
    assert_eq!(a.depth, MAX_BLOCK_REF_DEPTH + 1);
    assert_eq!(a.limits.block_refs_dropped, 1);
    a.leave_block_ref();
    assert_eq!(a.depth, MAX_BLOCK_REF_DEPTH);
    // Leaving gives no expansion back.
    assert_eq!(a.block_ref_budget, MAX_BLOCK_REFS - (MAX_BLOCK_REF_DEPTH + 1));
}

#[test]
fn the_expansion_budget_is_spent_and_never_restored() {
    let mut a = Account::new();
    for _ in 0..MAX_BLOCK_REFS {
        assert!(a.enter_block_ref(2, "INSERT"));
        a.leave_block_ref();
    }
    assert_eq!(a.block_ref_budget, 0);
    assert!(!a.enter_block_ref(2, "INSERT"));
    assert!(!a.enter_block_ref(3, "INSERT"));
    assert_eq!(a.limits.block_refs_dropped, 2);
    assert_eq!(a.limits.dropped.len(), 2);
}

#[test]
fn a_dropped_hatch_pattern_is_counted_under_its_cap() {
    let mut a = Account::new();
    a.drop_hatch_pattern(21);
    assert_eq!(a.limits.hatch_patterns_dropped, 1);
    assert_eq!(a.limits.dropped[0].dxf_type, "HATCH");
    assert_eq!(a.limits.dropped[0].cap, Cap::HatchTile);
}
