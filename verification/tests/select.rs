use iron_render_cad::svg::select::{select_for_space, BlockRecordRef, OwnedEntity};
use iron_render_cad::Space;

fn owned(id: u64, attribs: &[u64]) -> OwnedEntity {
    OwnedEntity { id, attribs: attribs.to_vec() }
}

fn blocks() -> Vec<BlockRecordRef> {
    vec![
        BlockRecordRef { name: "*Model_Space".to_string(), entities: vec![owned(1, &[]), owned(3, &[4, 5])] },
        BlockRecordRef { name: "*Paper_Space".to_string(), entities: vec![owned(2, &[])] },
        BlockRecordRef { name: "*PAPER_SPACE0".to_string(), entities: vec![owned(7, &[])] },
        BlockRecordRef { name: "DOOR".to_string(), entities: vec![owned(6, &[])] },
    ]
}

#[test]
fn a_space_walks_the_top_level_entities_its_blocks_own_in_model_order() {
    let ids = [5, 2, 1, 6, 4, 3, 7, 9];
    assert_eq!(select_for_space(&blocks(), &ids, Space::Model), vec![0, 2, 4, 5]);
    assert_eq!(select_for_space(&blocks(), &ids, Space::Paper), vec![1, 6]);
}

#[test]
fn every_space_is_every_top_level_entity() {
    let ids = [5, 2, 1, 6];
    assert_eq!(select_for_space(&blocks(), &ids, Space::All), vec![0, 1, 2, 3]);
    assert_eq!(select_for_space(&[], &ids, Space::All), vec![0, 1, 2, 3]);
}

#[test]
fn a_model_without_its_blocks_has_nothing_in_a_space() {
    assert_eq!(select_for_space(&[], &[1, 2], Space::Model), Vec::<usize>::new());
}
