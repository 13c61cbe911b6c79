use rime::popover::ResizeEdge;

#[test]
fn axes_map_each_edge_to_its_dimensions() {
    assert_eq!(ResizeEdge::Right.axes(), (true, false));
    assert_eq!(ResizeEdge::Bottom.axes(), (false, true));
    assert_eq!(ResizeEdge::Corner.axes(), (true, true));
}
