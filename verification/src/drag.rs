//! Classification of a finished mouse drag as a container move or a set of
//! directional resize operations, from the pre-drag layout rectangle and the
//! post-drag live rectangle.
//!
//! The live rectangle the platform reports includes an invisible border that
//! the manager itself added when it placed the window (left 12, top 0,
//! right 24, bottom 12); it is subtracted before the comparison.

use vstd::prelude::*;

use crate::geometry::Rect;

verus! {

/// The edge a resize operation acts on.
#[derive(Clone, Copy, Debug, PartialEq, Eq, Structural)]
pub enum OperationDirection {
    Left,
    Up,
    Right,
    Down,
}

/// Whether a resize grows or shrinks the tile.
#[derive(Clone, Copy, Debug, PartialEq, Eq, Structural)]
pub enum Sizing {
    Increase,
    Decrease,
}

/// One directional resize request: edge, sense, and step in pixels.
#[derive(Clone, Copy, Debug, PartialEq, Eq, Structural)]
pub struct ResizeOp {
    pub direction: OperationDirection,
    pub sizing: Sizing,
    pub step: i64,
}

/// The outcome of classifying a drag.
#[derive(Debug, PartialEq, Eq)]
pub enum DragDecision {
    /// The whole rectangle moved without changing size.
    Move,
    /// The size changed: one operation per honoured moved edge.
    Resize(Vec<ResizeOp>),
}

/// The width of the invisible border on the left edge.
pub const BORDER_LEFT: i32 = 12;

/// The width of the invisible border on the top edge.
pub const BORDER_TOP: i32 = 0;

/// The width of the invisible border on the right edge.
pub const BORDER_RIGHT: i32 = 24;

/// The width of the invisible border on the bottom edge.
pub const BORDER_BOTTOM: i32 = 12;

/// Left-edge displacement after subtracting the invisible border.
pub open spec fn delta_left(old: Rect, raw: Rect) -> int {
    (raw.left - BORDER_LEFT) - old.left
}

/// Top-edge displacement after subtracting the invisible border.
pub open spec fn delta_top(old: Rect, raw: Rect) -> int {
    (raw.top - BORDER_TOP) - old.top
}

/// Right-edge displacement after subtracting the invisible border.
pub open spec fn delta_right(old: Rect, raw: Rect) -> int {
    (raw.right - BORDER_RIGHT) - old.right
}

/// Bottom-edge displacement after subtracting the invisible border.
pub open spec fn delta_bottom(old: Rect, raw: Rect) -> int {
    (raw.bottom - BORDER_BOTTOM) - old.bottom
}

/// A drag is a move when it changed neither the width nor the height:
/// each size delta is the far edge's displacement less the near edge's.
pub open spec fn drag_is_move(old: Rect, raw: Rect) -> bool {
    delta_right(old, raw) - delta_left(old, raw) == 0 && delta_bottom(old, raw) - delta_top(
        old,
        raw,
    ) == 0
}

/// The operation one moved edge yields: the displacement is doubled, its
/// sign against the edge's comparator picks the sense (`>` zero means
/// shrink for the left and top edges, `<` zero for the right and bottom
/// edges), and the step is the doubled magnitude.
pub open spec fn edge_op(delta: int, positive_shrinks: bool, dir: OperationDirection) -> ResizeOp {
    let doubled = 2 * delta;
    let shrink = if positive_shrinks {
        doubled > 0
    } else {
        doubled < 0
    };
    ResizeOp {
        direction: dir,
        sizing: if shrink {
            Sizing::Decrease
        } else {
            Sizing::Increase
        },
        step: (if doubled < 0 {
            -doubled
        } else {
            doubled
        }) as i64,
    }
}

/// The resize operations a non-move drag yields, in edge order
/// left, top, right, bottom. A right-edge displacement is honoured only
/// when the left edge did not move, and a bottom-edge displacement only
/// when the top edge did not move.
pub open spec fn resize_ops(old: Rect, raw: Rect) -> Seq<ResizeOp> {
    let dl = delta_left(old, raw);
    let dt = delta_top(old, raw);
    let dr = delta_right(old, raw);
    let db = delta_bottom(old, raw);
    (if dl != 0 {
        seq![edge_op(dl, true, OperationDirection::Left)]
    } else {
        Seq::empty()
    }) + (if dt != 0 {
        seq![edge_op(dt, true, OperationDirection::Up)]
    } else {
        Seq::empty()
    }) + (if dr != 0 && dl == 0 {
        seq![edge_op(dr, false, OperationDirection::Right)]
    } else {
        Seq::empty()
    }) + (if db != 0 && dt == 0 {
        seq![edge_op(db, false, OperationDirection::Down)]
    } else {
        Seq::empty()
    })
}

/// Computes the operation for one moved edge; `delta` is an edge
/// displacement between two 32-bit rectangles adjusted by the border.
pub fn make_edge_op(delta: i64, positive_shrinks: bool, dir: OperationDirection) -> (op: ResizeOp)
    requires
        -5_000_000_000 <= delta <= 5_000_000_000,
    ensures
        op == edge_op(delta as int, positive_shrinks, dir),
{
    let doubled: i64 = 2 * delta;
    let shrink = if positive_shrinks {
        doubled > 0
    } else {
        doubled < 0
    };
    ResizeOp {
        direction: dir,
        sizing: if shrink {
            Sizing::Decrease
        } else {
            Sizing::Increase
        },
        step: if doubled < 0 {
            -doubled
        } else {
            doubled
        },
    }
}

/// Classifies a finished drag from the pre-drag layout rectangle and the
/// raw post-drag rectangle the platform reported.
pub fn classify_drag(old: &Rect, raw: &Rect) -> (d: DragDecision)
    ensures
        drag_is_move(*old, *raw) ==> d == DragDecision::Move,
        !drag_is_move(*old, *raw) ==> (d matches DragDecision::Resize(ops) && ops@
            == resize_ops(*old, *raw)),
{
    let dl: i64 = (raw.left as i64 - BORDER_LEFT as i64) - old.left as i64;
    let dt: i64 = (raw.top as i64 - BORDER_TOP as i64) - old.top as i64;
    let dr: i64 = (raw.right as i64 - BORDER_RIGHT as i64) - old.right as i64;
    let db: i64 = (raw.bottom as i64 - BORDER_BOTTOM as i64) - old.bottom as i64;
    if dr - dl == 0 && db - dt == 0 {
        DragDecision::Move
    } else {
        let mut ops: Vec<ResizeOp> = Vec::new();
        if dl != 0 {
            ops.push(make_edge_op(dl, true, OperationDirection::Left));
        }
        if dt != 0 {
            ops.push(make_edge_op(dt, true, OperationDirection::Up));
        }
        if dr != 0 && dl == 0 {
            ops.push(make_edge_op(dr, false, OperationDirection::Right));
        }
        if db != 0 && dt == 0 {
            ops.push(make_edge_op(db, false, OperationDirection::Down));
        }
        proof {
            assert(ops@ =~= resize_ops(*old, *raw));
        }
        DragDecision::Resize(ops)
    }
}

} // verus!
