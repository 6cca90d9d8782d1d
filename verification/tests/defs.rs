use iron_render_cad::svg::defs::DefIds;

#[test]
fn ids_run_on_across_prefixes() {
    let mut ids = DefIds::new();
    assert_eq!(ids.next_def_id("hp"), "hp0");
    assert_eq!(ids.next_def_id("hg"), "hg1");
    assert_eq!(ids.next_def_id("vp"), "vp2");
    assert_eq!(ids.next_def_id("hp"), "hp3");
    assert_eq!(ids.next, 4);
}

#[test]
fn no_two_ids_of_a_document_are_the_same() {
    let mut ids = DefIds::new();
    let mut seen = std::collections::BTreeSet::new();
    for k in 0..300 {
        let prefix = ["hp", "hg", "vp"][k % 3];
        assert!(seen.insert(ids.next_def_id(prefix)));
    }
}
