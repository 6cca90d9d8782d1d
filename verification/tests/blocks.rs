use iron_render_cad::limits::{Account, MAX_BLOCK_REFS, MAX_BLOCK_REF_DEPTH};
use iron_render_cad::svg::blocks::{
    block_ref_children, block_ref_outcome, finish_block_ref, BlockChild, BlockRefOutcome, BlockReports, DrawItem,
};

#[test]
fn an_unheld_or_empty_block_draws_nothing_and_spends_nothing() {
    let mut a = Account::new();
    let mut r = BlockReports::new();
    assert_eq!(block_ref_outcome(false, 3, &mut a, &mut r, 1, "INSERT", "GONE"), BlockRefOutcome::Unresolved);
    assert_eq!(block_ref_outcome(true, 0, &mut a, &mut r, 2, "INSERT", "BLANK"), BlockRefOutcome::Empty);
    assert_eq!(block_ref_outcome(true, 0, &mut a, &mut r, 3, "INSERT", "BLANK"), BlockRefOutcome::Empty);
    assert_eq!(a.block_ref_budget, MAX_BLOCK_REFS);
    assert_eq!(a.depth, 0);
    assert!(!a.limits.engaged());
    assert_eq!(r.unresolved.iter().copied().collect::<Vec<u64>>(), vec![1]);
    assert_eq!(r.empty, vec!["BLANK".to_string()]);
}

#[test]
fn an_expansion_is_charged_and_a_bound_stops_the_next() {
    let mut a = Account::new();
    let mut r = BlockReports::new();
    assert_eq!(block_ref_outcome(true, 2, &mut a, &mut r, 7, "INSERT", "DOOR"), BlockRefOutcome::Expanded);
    assert_eq!((a.block_ref_budget, a.depth), (MAX_BLOCK_REFS - 1, 1));
    while a.depth <= MAX_BLOCK_REF_DEPTH {
        assert_eq!(block_ref_outcome(true, 2, &mut a, &mut r, 7, "INSERT", "DOOR"), BlockRefOutcome::Expanded);
    }
    assert_eq!(block_ref_outcome(true, 2, &mut a, &mut r, 8, "DIMENSION", "DIM"), BlockRefOutcome::Dropped);
    assert_eq!(a.limits.block_refs_dropped, 1);
    assert_eq!(a.limits.dropped[0].id, 8);
    assert_eq!(a.limits.dropped[0].dxf_type, "DIMENSION");
    // A reference to an unheld block is not a bound acting.
    assert_eq!(block_ref_outcome(false, 2, &mut a, &mut r, 9, "INSERT", "GONE"), BlockRefOutcome::Unresolved);
    assert_eq!(a.limits.block_refs_dropped, 1);
    assert!(r.empty.is_empty());
}

#[test]
fn templates_are_skipped_and_carried_values_drawn_once() {
    let children = vec![
        BlockChild::Attdef,
        BlockChild::Other,
        BlockChild::Attrib(5),
        BlockChild::Insert(vec![5, 6, 7]),
        BlockChild::Insert(vec![]),
    ];
    assert_eq!(
        block_ref_children(&children),
        vec![
            DrawItem::Child(1),
            DrawItem::Child(2),
            DrawItem::Child(3),
            DrawItem::InsertAttrib { child: 3, attrib: 1 },
            DrawItem::InsertAttrib { child: 3, attrib: 2 },
            DrawItem::Child(4),
        ]
    );
    assert_eq!(block_ref_children(&[]), vec![]);
}

#[test]
fn leaving_an_expansion_restores_the_depth_and_reports_a_block_that_drew_nothing() {
    let mut a = Account::new();
    let mut r = BlockReports::new();
    assert_eq!(block_ref_outcome(true, 1, &mut a, &mut r, 4, "INSERT", "HIDDEN"), BlockRefOutcome::Expanded);
    finish_block_ref(&mut a, &mut r, "HIDDEN", false);
    assert_eq!(a.depth, 0);
    assert_eq!(a.block_ref_budget, MAX_BLOCK_REFS - 1);
    assert_eq!(r.empty, vec!["HIDDEN".to_string()]);
    assert_eq!(block_ref_outcome(true, 1, &mut a, &mut r, 5, "INSERT", "DOOR"), BlockRefOutcome::Expanded);
    finish_block_ref(&mut a, &mut r, "DOOR", true);
    assert_eq!(r.empty, vec!["HIDDEN".to_string()]);
}

#[test]
fn an_account_is_ready_until_a_count_is_full() {
    let mut a = Account::new();
    assert!(a.is_ready());
    a.hidden = usize::MAX;
    assert!(!a.is_ready());
}
