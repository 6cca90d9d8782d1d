use iron_render_cad::svg::justify::{
    justify, mtext_placement, AnchorPoint, Attachment, BaselineDrop, Horizontal, Justified, Row,
    TextAnchor, Vertical,
};

#[test]
fn a_left_baseline_text_hangs_from_its_start_point() {
    let j = justify(false, Horizontal::Left, Vertical::Baseline);
    assert_eq!(
        j,
        Justified { point: AnchorPoint::Start, anchor: TextAnchor::Start, drop: BaselineDrop::Baseline }
    );
    assert_eq!(j.anchor.as_str(), "start");
}

#[test]
fn each_justification_takes_its_anchor_and_baseline() {
    let at = |h, v| justify(true, h, v);
    assert_eq!(at(Horizontal::Center, Vertical::Baseline).anchor.as_str(), "middle");
    assert_eq!(at(Horizontal::Center, Vertical::Baseline).point, AnchorPoint::Alignment);
    assert_eq!(at(Horizontal::Right, Vertical::Top).anchor.as_str(), "end");
    assert_eq!(at(Horizontal::Right, Vertical::Top).drop, BaselineDrop::Height);
    assert_eq!(at(Horizontal::Left, Vertical::Bottom).drop, BaselineDrop::Descender);
    assert_eq!(at(Horizontal::Left, Vertical::Middle).drop, BaselineDrop::HalfHeight);
    // MIDDLE is centred both ways, whatever the vertical says.
    assert_eq!(at(Horizontal::Middle, Vertical::Baseline).drop, BaselineDrop::HalfHeight);
    // ALIGNED and FIT are centred between their two points.
    let aligned = at(Horizontal::Aligned, Vertical::Baseline);
    assert_eq!((aligned.point, aligned.anchor), (AnchorPoint::Between, TextAnchor::Middle));
    assert_eq!(at(Horizontal::Fit, Vertical::Baseline).point, AnchorPoint::Between);
}

#[test]
fn a_justification_without_its_point_falls_back_to_the_start_point() {
    let j = justify(false, Horizontal::Right, Vertical::Top);
    assert_eq!((j.point, j.anchor, j.drop), (AnchorPoint::Start, TextAnchor::Start, BaselineDrop::Baseline));
}

#[test]
fn an_mtext_block_hangs_from_its_attachment_point() {
    let at = |a| mtext_placement(Some(a), 3);
    assert_eq!((at(Attachment::TopLeft).anchor, at(Attachment::TopLeft).row), (TextAnchor::Start, Row::Top));
    assert_eq!((at(Attachment::MiddleCenter).anchor, at(Attachment::MiddleCenter).row), (TextAnchor::Middle, Row::Middle));
    assert_eq!((at(Attachment::BottomRight).anchor, at(Attachment::BottomRight).row), (TextAnchor::End, Row::Bottom));
    assert_eq!(at(Attachment::BottomRight).spacings, 2);
    // Unstated: the insertion point stays the first baseline.
    let unstated = mtext_placement(None, 3);
    assert_eq!((unstated.anchor, unstated.row), (TextAnchor::Start, Row::Top));
    assert_eq!(mtext_placement(None, 0).spacings, 0);
}
