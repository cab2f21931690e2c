//! The tiling layout: a deterministic function from a work area and a
//! container count to one target rectangle per container slot.
//!
//! The discipline is a column split: the work area is divided into equal
//! columns, one per container, in slot order; the last column absorbs the
//! division remainder so the columns exactly tile the work area.

use vstd::prelude::*;

use crate::geometry::Rect;
use crate::geometry::rect_wf;

verus! {

/// The target rectangle of slot `i` out of `n` in `area`.
pub open spec fn slot_rect(area: Rect, n: int, i: int) -> Rect
    recommends
        0 < n,
        0 <= i < n,
{
    let w = (area.right - area.left) / n;
    Rect {
        left: (area.left + i * w) as i32,
        top: area.top,
        right: if i == n - 1 {
            area.right
        } else {
            (area.left + (i + 1) * w) as i32
        },
        bottom: area.bottom,
    }
}

/// The full layout: one rectangle per container slot, in slot order.
pub open spec fn layout_spec(area: Rect, n: nat) -> Seq<Rect> {
    Seq::new(n, |i: int| slot_rect(area, n as int, i))
}

/// For `0 <= i <= n`, the offset `i * ((area.right - area.left) / n)` stays
/// within the width of a well-formed area.
proof fn lemma_offset_in_range(area: Rect, n: int, i: int)
    requires
        rect_wf(area),
        0 < n,
        0 <= i <= n,
    ensures
        0 <= i * ((area.right - area.left) / n) <= area.right - area.left,
{
    let total = area.right - area.left;
    let w = total / n;
    vstd::arithmetic::div_mod::lemma_div_pos_is_pos(total, n);
    assert(0 <= w);
    vstd::arithmetic::div_mod::lemma_fundamental_div_mod(total, n);
    vstd::arithmetic::div_mod::lemma_mod_bound(total, n);
    assert(n * w <= total);
    assert(i * w <= n * w) by (nonlinear_arith)
        requires
            0 <= w,
            i <= n,
    ;
    assert(0 <= i * w) by (nonlinear_arith)
        requires
            0 <= w,
            0 <= i,
    ;
}

/// Computes the layout rectangles for `n` container slots in `area`.
pub fn compute_layout(area: Rect, n: usize) -> (r: Vec<Rect>)
    requires
        rect_wf(area),
    ensures
        r@ == layout_spec(area, n as nat),
{
    let mut out: Vec<Rect> = Vec::new();
    if n == 0 {
        proof {
            assert(out@ =~= layout_spec(area, 0));
        }
        return out;
    }
    let total: i64 = area.right as i64 - area.left as i64;
    // A count beyond the coordinate range exceeds the width, so each
    // column is zero pixels wide without computing the division.
    let w: i64;
    if n as u64 <= u32::MAX as u64 {
        w = total / (n as i64);
    } else {
        w = 0;
        proof {
            vstd::arithmetic::div_mod::lemma_basic_div(total as int, n as int);
        }
    }
    let mut cur: i64 = area.left as i64;
    let mut i: usize = 0;
    while i < n
        invariant
            0 < n,
            i <= n,
            rect_wf(area),
            total == area.right - area.left,
            w as int == total as int / n as int,
            cur as int == area.left + (i as int) * (w as int),
            out@.len() == i,
            forall|j: int| 0 <= j < i ==> out@[j] == slot_rect(area, n as int, j),
        decreases n - i,
    {
        proof {
            lemma_offset_in_range(area, n as int, i as int);
            lemma_offset_in_range(area, n as int, i as int + 1);
            assert(0 <= (i as int) * (w as int) <= total as int);
            assert((i as int + 1) * (w as int) == (i as int) * (w as int) + w as int)
                by (nonlinear_arith);
            assert(0 <= (i as int + 1) * (w as int) <= total as int);
        }
        let next: i64 = cur + w;
        let right_i: i64 = if i == n - 1 {
            area.right as i64
        } else {
            next
        };
        out.push(
            Rect {
                left: cur as i32,
                top: area.top,
                right: right_i as i32,
                bottom: area.bottom,
            },
        );
        cur = next;
        i = i + 1;
    }
    proof {
        assert(out@ =~= layout_spec(area, n as nat));
    }
    out
}

/// Law: the layout is deterministic. Identical work areas and container
/// counts always yield identical ordered rectangle sequences.
pub proof fn lemma_layout_deterministic(area1: Rect, area2: Rect, n1: nat, n2: nat)
    requires
        area1 == area2,
        n1 == n2,
    ensures
        layout_spec(area1, n1) == layout_spec(area2, n2),
{
}

} // verus!
