use iron_render_cad::svg::overlay::{plan_overlay, ChangeRef, PartRef};
use iron_render_cad::{MarkKind, NotMarkedReason, OverlayFrame};

fn part(id: u64, drawn: bool) -> PartRef {
    PartRef { id, drawn, has_extent: drawn, through_viewport: false }
}

#[test]
fn an_overlay_frames_the_whole_drawing_unless_asked() {
    assert_eq!(OverlayFrame::default(), OverlayFrame::Drawing);
}

#[test]
fn every_change_is_marked_or_named_with_its_reason() {
    let changes = vec![
        ChangeRef::Added { id: 10 },
        ChangeRef::Removed { id: 20 },
        ChangeRef::Modified { id: 30, counterpart: None },
        ChangeRef::Unknown { id: 40, candidates: vec![41, 42] },
        ChangeRef::Added { id: 50 },
        ChangeRef::Modified { id: 60, counterpart: Some(61) },
    ];
    let before = vec![
        part(20, true),
        part(30, true),
        part(40, false),
        PartRef { id: 60, drawn: true, has_extent: true, through_viewport: true },
    ];
    let after = vec![part(10, true), part(30, true), part(41, false), part(42, true), part(61, false)];
    let plan = plan_overlay(&changes, &before, &after);

    assert_eq!(plan.marked.len(), 4);
    let m = &plan.marked;
    assert_eq!((m[0].entry, m[0].kind, m[0].before, m[0].after), (0, MarkKind::Added, None, Some(10)));
    assert_eq!((m[0].before_part, m[0].after_parts.clone()), (None, vec![0]));
    assert_eq!((m[1].entry, m[1].kind, m[1].before, m[1].after), (1, MarkKind::Removed, Some(20), None));
    assert_eq!((m[1].before_part, m[1].after_parts.clone()), (Some(0), vec![]));
    assert_eq!((m[2].entry, m[2].kind, m[2].before, m[2].after), (2, MarkKind::Modified, Some(30), Some(30)));
    assert_eq!((m[2].before_part, m[2].after_parts.clone()), (Some(1), vec![1]));
    // An unknown change is clouded around what its candidates drew, and
    // none of them is drawn as its counterpart.
    assert_eq!((m[3].entry, m[3].kind, m[3].before, m[3].after), (3, MarkKind::Unknown, Some(40), None));
    assert_eq!((m[3].before_part, m[3].after_parts.clone()), (None, vec![3]));

    assert_eq!(plan.not_marked.len(), 2);
    let n = &plan.not_marked;
    assert_eq!((n[0].entry, n[0].kind, n[0].id, n[0].reason), (4, MarkKind::Added, 50, NotMarkedReason::NotTopLevel));
    // The model seen through a viewport is no top-level entity, and the
    // counterpart drew nothing.
    assert_eq!(
        (n[1].entry, n[1].kind, n[1].id, n[1].reason),
        (5, MarkKind::Modified, 60, NotMarkedReason::NothingDrawn)
    );

    assert_eq!(plan.drawn_after, vec![true, true, false, false, false]);
    assert_eq!(plan.drawn_before, vec![true, false, false, false]);
}

#[test]
fn an_empty_change_set_marks_nothing() {
    let plan = plan_overlay(&[], &[part(1, true)], &[part(1, true)]);
    assert!(plan.marked.is_empty());
    assert!(plan.not_marked.is_empty());
    assert_eq!(plan.drawn_after, vec![false]);
    assert_eq!(plan.drawn_before, vec![false]);
}

#[test]
fn the_last_top_level_part_of_an_entity_is_the_one_clouded() {
    let changes = vec![ChangeRef::Removed { id: 7 }];
    let before = vec![part(7, false), part(8, true), part(7, true)];
    let plan = plan_overlay(&changes, &before, &[]);
    assert_eq!(plan.marked[0].before_part, Some(2));
    assert_eq!(plan.drawn_before, vec![false, false, true]);
}

#[test]
fn a_change_reports_the_entity_it_is_about() {
    assert_eq!(ChangeRef::Unknown { id: 4, candidates: vec![5] }.id(), 4);
    assert_eq!(ChangeRef::Modified { id: 9, counterpart: Some(3) }.id(), 9);
}
