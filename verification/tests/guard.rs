use iron_render_cad::svg::guard::{
    pass_budget, pass_candidates, remaining_entities, set_aside_in_order, settle_outliers, take_pass,
};
use iron_render_cad::LeftOutReason::{FarOutlier, ScaleOutlier};

#[test]
fn a_pass_weighs_the_largest_and_the_farthest_a_quarter_at_most() {
    let by_size = [5, 1, 2, 3, 4, 0, 6, 7];
    let by_distance = [1, 7, 3, 2, 0, 4, 5, 6];
    assert_eq!(pass_candidates(2, &by_size, &by_distance), vec![5, 1, 7]);
    assert_eq!(pass_candidates(9, &by_size, &by_distance), vec![5, 1, 7]);
    assert_eq!(pass_candidates(0, &by_size, &by_distance), Vec::<usize>::new());
    assert_eq!(pass_candidates(2, &[0, 1, 2], &[2, 1, 0]), Vec::<usize>::new());
}

#[test]
fn scale_outliers_go_largest_first_within_the_budget() {
    let candidates = [5, 1, 7];
    let size_order = [0, 2, 1];
    let is_scale = [true, false, true];
    let is_far = [false, true, false];
    assert_eq!(
        settle_outliers(8, 2, &candidates, &size_order, &is_scale, &is_far),
        vec![(5, ScaleOutlier), (7, ScaleOutlier)]
    );
    assert_eq!(
        settle_outliers(8, 1, &candidates, &size_order, &is_scale, &is_far),
        vec![(5, ScaleOutlier)]
    );
}

#[test]
fn far_outliers_go_only_within_the_budget_and_a_fifth_of_the_drawing() {
    let candidates = [5, 1, 7];
    let size_order = [0, 2, 1];
    let is_scale = [true, false, true];
    let is_far = [false, true, true];
    assert_eq!(
        settle_outliers(8, 3, &candidates, &size_order, &is_scale, &is_far),
        vec![(5, ScaleOutlier), (7, ScaleOutlier), (1, FarOutlier)]
    );
    // A scale outlier cut off by the budget can still be far.
    assert_eq!(
        settle_outliers(8, 1, &candidates, &size_order, &[true, false, true], &[false, false, true]),
        vec![(5, ScaleOutlier)]
    );
    assert_eq!(
        settle_outliers(8, 2, &candidates, &size_order, &[true, false, true], &[false, false, true]),
        vec![(5, ScaleOutlier), (7, ScaleOutlier)]
    );
    // Two far outliers among nine are more than a fifth.
    assert_eq!(
        settle_outliers(9, 3, &candidates, &size_order, &[false, false, false], &[false, true, true]),
        vec![]
    );
    assert_eq!(
        settle_outliers(10, 3, &candidates, &size_order, &[false, false, false], &[false, true, true]),
        vec![(1, FarOutlier), (7, FarOutlier)]
    );
}

#[test]
fn a_pass_that_would_leave_too_small_a_rest_sets_nothing_aside() {
    assert_eq!(settle_outliers(5, 3, &[0, 1, 2], &[0, 1, 2], &[true, true, true], &[false, false, false]), vec![]);
}

#[test]
fn the_passes_stay_within_the_limit_and_come_back_in_entity_order() {
    assert_eq!(pass_budget(3, 0), 3);
    assert_eq!(pass_budget(3, 5), 0);
    let mut taken = Vec::new();
    assert!(take_pass(&mut taken, vec![(3, ScaleOutlier)], 3));
    assert_eq!(remaining_entities(5, &taken), vec![0, 1, 2, 4]);
    assert!(!take_pass(&mut taken, vec![(1, FarOutlier), (4, FarOutlier)], 3));
    assert!(!take_pass(&mut taken, vec![], 3));
    assert_eq!(taken.len(), 3);
    assert_eq!(set_aside_in_order(5, &taken), vec![(1, FarOutlier), (3, ScaleOutlier), (4, FarOutlier)]);
}
