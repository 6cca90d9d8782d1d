use iron_render_cad::svg::visibility::{effective_layer, hidden_reason, Hidden, LayerState};
use std::collections::BTreeMap;

fn tables() -> BTreeMap<String, LayerState> {
    let mut layers = BTreeMap::new();
    for (name, off, frozen, plot) in [
        ("SHOWN", false, false, None),
        ("PLOTTED", false, false, Some(true)),
        ("OFF", true, false, None),
        ("FROZEN", false, true, None),
        ("NOPLOT", false, false, Some(false)),
        ("OFF-AND-FROZEN", true, true, Some(false)),
        ("Defpoints", false, false, None),
        ("0", true, false, None),
    ] {
        layers.insert(name.to_string(), LayerState { off, frozen, plot });
    }
    layers
}

/// Why an entity on `own` (`None`: its layer reference resolved to
/// nothing), drawn inside a reference on `reference`, is hidden.
fn reason_of(
    t: &BTreeMap<String, LayerState>,
    invisible: bool,
    own: Option<&str>,
    reference: Option<&str>,
) -> Option<Hidden> {
    let layer = effective_layer(own, reference);
    let record = layer.and_then(|l| t.get(l).copied());
    hidden_reason(invisible, layer, record, &[])
}

#[test]
fn each_reason_in_its_order() {
    let t = tables();
    let reason = |layer: &str| reason_of(&t, false, Some(layer), None);
    assert_eq!(reason("SHOWN"), None);
    assert_eq!(reason("PLOTTED"), None);
    assert_eq!(reason("OFF"), Some(Hidden::LayerOff));
    assert_eq!(reason("FROZEN"), Some(Hidden::LayerFrozen));
    assert_eq!(reason("NOPLOT"), Some(Hidden::LayerNoPlot));
    assert_eq!(reason("OFF-AND-FROZEN"), Some(Hidden::LayerOff));
    // DEFPOINTS by its name, in any case, whatever its record says --
    // or with no record at all.
    assert_eq!(reason("Defpoints"), Some(Hidden::Defpoints));
    assert_eq!(reason("DEFPOINTS"), Some(Hidden::Defpoints));
    // The entity's own flag first.
    assert_eq!(reason_of(&t, true, Some("FROZEN"), None), Some(Hidden::Invisible));
    // Nothing says a layer the model does not hold, or a reference that
    // resolved to nothing, is hidden.
    assert_eq!(reason("NOT-A-LAYER"), None);
    assert_eq!(reason_of(&t, false, None, None), None);
}

#[test]
fn inside_a_block_layer_zero_is_the_references_layer() {
    let t = tables();
    // Layer 0 is off here, but a child on it takes the reference's
    // layer; a child on its own layer keeps it.
    assert_eq!(reason_of(&t, false, Some("0"), Some("SHOWN")), None);
    assert_eq!(reason_of(&t, false, Some("0"), Some("FROZEN")), Some(Hidden::LayerFrozen));
    assert_eq!(reason_of(&t, false, Some("OFF"), Some("SHOWN")), Some(Hidden::LayerOff));
    // At the top level, layer 0 is layer 0.
    assert_eq!(reason_of(&t, false, Some("0"), None), Some(Hidden::LayerOff));
}

#[test]
fn only_layer_zero_takes_the_references_layer() {
    assert_eq!(effective_layer(Some("0"), Some("WALLS")), Some("WALLS"));
    assert_eq!(effective_layer(Some("00"), Some("WALLS")), Some("00"));
    assert_eq!(effective_layer(Some("0"), None), Some("0"));
    assert_eq!(effective_layer(None, Some("WALLS")), None);
}

#[test]
fn defpoints_is_matched_whole_and_in_any_case() {
    assert_eq!(hidden_reason(false, Some("defPoints"), None, &[]), Some(Hidden::Defpoints));
    assert_eq!(hidden_reason(false, Some("DEFPOINTS2"), None, &[]), None);
    assert_eq!(hidden_reason(false, Some("DEFPOINT"), None, &[]), None);
}

#[test]
fn a_layer_frozen_in_the_viewport_is_hidden_there() {
    let t = tables();
    let frozen = ["WALLS".to_string(), "NOT-A-LAYER".to_string()];
    assert_eq!(hidden_reason(false, Some("WALLS"), None, &frozen), Some(Hidden::FrozenInViewport));
    assert_eq!(hidden_reason(false, Some("NOT-A-LAYER"), None, &frozen), Some(Hidden::FrozenInViewport));
    assert_eq!(hidden_reason(false, Some("walls"), None, &frozen), None);
    // The drawing's own reasons come first.
    let off = t.get("OFF").copied();
    assert_eq!(hidden_reason(false, Some("OFF"), off, &["OFF".to_string()]), Some(Hidden::LayerOff));
    let shown = t.get("SHOWN").copied();
    assert_eq!(hidden_reason(false, Some("SHOWN"), shown, &["SHOWN".to_string()]), Some(Hidden::FrozenInViewport));
    assert_eq!(hidden_reason(false, Some("SHOWN"), shown, &frozen), None);
    assert_eq!(hidden_reason(false, None, None, &frozen), None);
}
