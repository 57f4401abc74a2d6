use breakout::geometry::{overlap, saturate, EdgeDirection, Vec2};

fn v(x: i64, y: i64) -> Vec2 {
    Vec2 { x, y }
}

#[test]
fn overlap_none_when_apart() {
    assert_eq!(overlap(v(0, 0), v(20, 20), v(100, 0), v(40, 40)), None);
    assert_eq!(overlap(v(0, 0), v(20, 20), v(0, 100), v(40, 40)), None);
    assert_eq!(overlap(v(0, 0), v(20, 20), v(-100, -100), v(40, 40)), None);
}

#[test]
fn overlap_none_when_edges_only_touch() {
    // a spans -10..10, b spans 10..50: they share a border and no interior.
    assert_eq!(overlap(v(0, 0), v(20, 20), v(30, 0), v(40, 40)), None);
    assert_eq!(overlap(v(0, 0), v(20, 20), v(0, 30), v(40, 40)), None);
    assert_eq!(overlap(v(0, 0), v(20, 20), v(-30, 0), v(40, 40)), None);
    assert_eq!(overlap(v(0, 0), v(20, 20), v(0, -30), v(40, 40)), None);
}

#[test]
fn overlap_left_edge() {
    // a spans x -10..10, b spans x 5..45; on y a lies within b.
    assert_eq!(overlap(v(0, 0), v(20, 20), v(25, 0), v(40, 100)), Some(EdgeDirection::Left));
}

#[test]
fn overlap_right_edge() {
    assert_eq!(overlap(v(0, 0), v(20, 20), v(-25, 0), v(40, 100)), Some(EdgeDirection::Right));
}

#[test]
fn overlap_top_edge() {
    // a comes from above: a spans y -10..10, b spans y -45..-5.
    assert_eq!(overlap(v(0, 0), v(20, 20), v(0, -25), v(100, 40)), Some(EdgeDirection::Top));
}

#[test]
fn overlap_bottom_edge() {
    assert_eq!(overlap(v(0, 0), v(20, 20), v(0, 25), v(100, 40)), Some(EdgeDirection::Bottom));
}

#[test]
fn overlap_inside() {
    assert_eq!(overlap(v(0, 0), v(20, 20), v(0, 0), v(100, 100)), Some(EdgeDirection::Inside));
    assert_eq!(overlap(v(3, -4), v(20, 20), v(0, 0), v(100, 100)), Some(EdgeDirection::Inside));
}

#[test]
fn overlap_same_box_is_inside() {
    assert_eq!(overlap(v(7, 7), v(20, 20), v(7, 7), v(20, 20)), Some(EdgeDirection::Inside));
}

#[test]
fn overlap_picks_the_shallower_axis() {
    // Corner hit: depth 2 on x, depth 6 on y.
    assert_eq!(overlap(v(0, 0), v(20, 20), v(28, 24), v(40, 40)), Some(EdgeDirection::Left));
    // Corner hit: depth 6 on x, depth 2 on y.
    assert_eq!(overlap(v(0, 0), v(20, 20), v(24, 28), v(40, 40)), Some(EdgeDirection::Bottom));
}

#[test]
fn overlap_tie_goes_to_x() {
    // Depth 4 on both axes.
    assert_eq!(overlap(v(0, 0), v(20, 20), v(26, 26), v(40, 40)), Some(EdgeDirection::Left));
    assert_eq!(overlap(v(0, 0), v(20, 20), v(-26, -26), v(40, 40)), Some(EdgeDirection::Right));
}

#[test]
fn overlap_wide_box_across_narrow_box_is_left() {
    // a straddles both vertical bounds of b; the lower bound takes precedence.
    assert_eq!(overlap(v(0, 0), v(100, 10), v(0, 0), v(20, 100)), Some(EdgeDirection::Left));
}

#[test]
fn overlap_is_exact_for_odd_extents() {
    // a spans -0.5..0.5 and b spans 0.5..1.5: no shared interior.
    assert_eq!(overlap(v(0, 0), v(1, 1), v(1, 0), v(1, 1)), None);
    // With extent 3, a spans -1.5..1.5 and reaches one unit into b.
    assert_eq!(overlap(v(0, 0), v(3, 3), v(1, 0), v(1, 1)), Some(EdgeDirection::Left));
    assert_eq!(overlap(v(0, 0), v(3, 3), v(2, 0), v(3, 9)), Some(EdgeDirection::Left));
}

#[test]
fn overlap_with_empty_box() {
    assert_eq!(overlap(v(0, 0), v(0, 0), v(0, 0), v(10, 10)), Some(EdgeDirection::Inside));
    assert_eq!(overlap(v(0, 0), v(0, 0), v(0, 0), v(0, 0)), None);
}

#[test]
fn overlap_at_the_ends_of_the_range() {
    let far = i64::MAX;
    let near = i64::MIN;
    assert_eq!(overlap(v(far, far), v(far, far), v(near, near), v(far, far)), None);
    assert_eq!(
        overlap(v(far, far), v(far, far), v(far, far), v(far, far)),
        Some(EdgeDirection::Inside)
    );
    assert_eq!(
        overlap(v(near, 0), v(far, 10), v(near + 10, 0), v(far, 100)),
        Some(EdgeDirection::Left)
    );
}

#[test]
fn saturate_clamps() {
    assert_eq!(saturate(0), 0);
    assert_eq!(saturate(-5), -5);
    assert_eq!(saturate(i64::MAX as i128), i64::MAX);
    assert_eq!(saturate(i64::MAX as i128 + 1), i64::MAX);
    assert_eq!(saturate(i64::MIN as i128 - 1), i64::MIN);
    assert_eq!(saturate(i128::MAX), i64::MAX);
    assert_eq!(saturate(i128::MIN), i64::MIN);
}
