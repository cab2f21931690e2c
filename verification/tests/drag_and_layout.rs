use komorebi::drag::classify_drag;
use komorebi::drag::DragDecision;
use komorebi::drag::OperationDirection;
use komorebi::drag::ResizeOp;
use komorebi::drag::Sizing;
use komorebi::geometry::Point;
use komorebi::geometry::Rect;
use komorebi::layout::compute_layout;

fn rect(left: i32, top: i32, right: i32, bottom: i32) -> Rect {
    Rect { left, top, right, bottom }
}

#[test]
fn pure_positional_drag_classifies_as_move() {
    // Raw {12,0,124,112} is {0,0,100,100} once the border inset
    // (12, 0, 24, 12) is subtracted: zero delta on every edge.
    let old = rect(0, 0, 100, 100);
    let raw = rect(12, 0, 124, 112);
    assert_eq!(classify_drag(&old, &raw), DragDecision::Move);
}

#[test]
fn left_edge_delta_sign_gives_increase_on_left() {
    // Left delta -10: doubled -20, "> 0" is false, so Increase on Left
    // with magnitude 20.
    let op = komorebi::drag::make_edge_op(-10, true, OperationDirection::Left);
    assert_eq!(
        op,
        ResizeOp { direction: OperationDirection::Left, sizing: Sizing::Increase, step: 20 }
    );
}

#[test]
fn left_edge_drag_classifies_as_increase_on_left() {
    // Border-adjusted post-drag rect {-10,0,100,100}: the width grew by
    // 10, so this is a resize with exactly one operation, Increase on
    // Left with magnitude 20.
    let old = rect(0, 0, 100, 100);
    let raw = rect(2, 0, 124, 112);
    let expected = vec![ResizeOp {
        direction: OperationDirection::Left,
        sizing: Sizing::Increase,
        step: 20,
    }];
    assert_eq!(classify_drag(&old, &raw), DragDecision::Resize(expected));
}

#[test]
fn translated_drag_classifies_as_move() {
    // Border-adjusted post-drag rect {50,30,150,130}: every edge moved,
    // but the width and height are unchanged, so this is a move.
    let old = rect(0, 0, 100, 100);
    let raw = rect(62, 30, 174, 142);
    assert_eq!(classify_drag(&old, &raw), DragDecision::Move);
}

#[test]
fn right_edge_drag_classifies_as_decrease_on_right() {
    // Adjusted {0,0,90,100}: right delta -10, doubled -20, "< 0" true,
    // so Decrease on Right; honoured because the left edge did not move.
    let old = rect(0, 0, 100, 100);
    let raw = rect(12, 0, 114, 112);
    let expected = vec![ResizeOp {
        direction: OperationDirection::Right,
        sizing: Sizing::Decrease,
        step: 20,
    }];
    assert_eq!(classify_drag(&old, &raw), DragDecision::Resize(expected));
}

#[test]
fn right_edge_delta_is_dropped_when_left_edge_also_moved() {
    // Adjusted {-10,0,110,100}: both horizontal edges moved and the
    // width changed; only the left edge is honoured, to avoid
    // double-counting one drag.
    let old = rect(0, 0, 100, 100);
    let raw = rect(2, 0, 134, 112);
    let expected = vec![ResizeOp {
        direction: OperationDirection::Left,
        sizing: Sizing::Increase,
        step: 20,
    }];
    assert_eq!(classify_drag(&old, &raw), DragDecision::Resize(expected));
}

#[test]
fn layout_splits_work_area_into_columns() {
    let area = rect(0, 0, 300, 100);
    let slots = compute_layout(area, 3);
    assert_eq!(slots, vec![rect(0, 0, 100, 100), rect(100, 0, 200, 100), rect(200, 0, 300, 100)]);
}

#[test]
fn layout_last_column_absorbs_remainder() {
    let area = rect(10, 20, 115, 80);
    let slots = compute_layout(area, 2);
    assert_eq!(slots, vec![rect(10, 20, 62, 80), rect(62, 20, 115, 80)]);
}

#[test]
fn layout_is_deterministic_for_identical_inputs() {
    let area = rect(-7, 3, 1913, 1043);
    let first = compute_layout(area, 5);
    let second = compute_layout(area, 5);
    assert_eq!(first, second);
}

#[test]
fn layout_of_zero_containers_is_empty() {
    let area = rect(0, 0, 1920, 1080);
    assert_eq!(compute_layout(area, 0), vec![]);
}

#[test]
fn rect_contains_point_is_half_open() {
    let r = rect(0, 0, 100, 100);
    assert!(r.contains_point(Point { x: 0, y: 0 }));
    assert!(r.contains_point(Point { x: 99, y: 99 }));
    assert!(!r.contains_point(Point { x: 100, y: 50 }));
    assert!(!r.contains_point(Point { x: 50, y: 100 }));
}
