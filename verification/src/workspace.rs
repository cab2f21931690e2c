//! A workspace: the ordered tiled containers, the floating windows exempt
//! from tiling, the focused container, and the last computed layout.

use vstd::prelude::*;

use crate::container::clamp_idx;
use crate::container::con_has_hwnd;
use crate::container::con_reap;
use crate::container::con_wf;
use crate::container::con_without;
use crate::container::contains_hwnd;
use crate::container::filter_valid_windows;
use crate::container::filter_without_hwnd;
use crate::container::wins_valid;
use crate::container::wins_without;
use crate::container::Container;
use crate::container::ContainerView;
use crate::container::Window;
use crate::errors::WmError;
use crate::geometry::rect_contains_point;
use crate::geometry::rect_wf;
use crate::geometry::Point;
use crate::geometry::Rect;
use crate::layout::compute_layout;
use crate::layout::layout_spec;

verus! {

/// The mathematical value of a workspace.
pub ghost struct WorkspaceView {
    /// The tiled containers, in layout slot order.
    pub containers: Seq<ContainerView>,
    /// The windows exempt from tiling.
    pub floating: Seq<Window>,
    /// Which container is focused.
    pub focused_container_idx: int,
    /// The rectangles of the last computed layout, slot-aligned.
    pub latest_layout: Seq<Rect>,
}

/// A virtual desktop holding a tiled container set plus floating windows.
#[derive(Debug)]
pub struct Workspace {
    pub containers: Vec<Container>,
    pub floating_windows: Vec<Window>,
    pub focused_container_idx: usize,
    pub latest_layout: Vec<Rect>,
}

/// The views of a sequence of containers.
pub open spec fn cons_view(v: Seq<Container>) -> Seq<ContainerView> {
    v.map_values(|c: Container| c@)
}

impl View for Workspace {
    type V = WorkspaceView;

    open spec fn view(&self) -> WorkspaceView {
        WorkspaceView {
            containers: cons_view(self.containers@),
            floating: self.floating_windows@,
            focused_container_idx: self.focused_container_idx as int,
            latest_layout: self.latest_layout@,
        }
    }
}

/// A workspace is well formed when every container is, and the focused
/// index points at a container whenever one exists (and is zero
/// otherwise).
pub open spec fn ws_wf(ws: WorkspaceView) -> bool {
    &&& forall|i: int| 0 <= i < ws.containers.len() ==> con_wf(#[trigger] ws.containers[i])
    &&& if ws.containers.len() > 0 {
        0 <= ws.focused_container_idx < ws.containers.len()
    } else {
        ws.focused_container_idx == 0
    }
}

/// Whether some tiled container holds a window with handle `h`.
pub open spec fn ws_tiled_has(ws: WorkspaceView, h: isize) -> bool {
    exists|i: int| 0 <= i < ws.containers.len() && con_has_hwnd(#[trigger] ws.containers[i], h)
}

/// Whether a floating window has handle `h`.
pub open spec fn ws_floating_has(ws: WorkspaceView, h: isize) -> bool {
    exists|k: int| 0 <= k < ws.floating.len() && ws.floating[k].hwnd == h
}

/// Whether the workspace holds `h` at all, tiled or floating.
pub open spec fn ws_has(ws: WorkspaceView, h: isize) -> bool {
    ws_tiled_has(ws, h) || ws_floating_has(ws, h)
}

/// Containers after reaping: each loses its invalid windows, and those
/// left empty are dropped.
pub open spec fn cons_reap(cs: Seq<ContainerView>, valid: Seq<isize>) -> Seq<ContainerView>
    decreases cs.len(),
{
    if cs.len() == 0 {
        Seq::empty()
    } else {
        let prefix = cons_reap(cs.drop_last(), valid);
        let c = con_reap(cs.last(), valid);
        if c.windows.len() > 0 {
            prefix.push(c)
        } else {
            prefix
        }
    }
}

/// Containers after removing handle `h` everywhere: each container loses
/// its windows with that handle, and those left empty are dropped.
pub open spec fn cons_without(cs: Seq<ContainerView>, h: isize) -> Seq<ContainerView>
    decreases cs.len(),
{
    if cs.len() == 0 {
        Seq::empty()
    } else {
        let prefix = cons_without(cs.drop_last(), h);
        let c = con_without(cs.last(), h);
        if c.windows.len() > 0 {
            prefix.push(c)
        } else {
            prefix
        }
    }
}

/// How many windows a sequence of containers stacks in all.
pub open spec fn cons_win_count(cs: Seq<ContainerView>) -> int
    decreases cs.len(),
{
    if cs.len() == 0 {
        0
    } else {
        cons_win_count(cs.drop_last()) + cs.last().windows.len()
    }
}

/// How many windows the workspace tracks, tiled and floating together.
pub open spec fn ws_window_count(ws: WorkspaceView) -> int {
    cons_win_count(ws.containers) + ws.floating.len()
}

/// The workspace after one orphan-reaping pass against the platform's
/// set of still-valid handles. The layout is untouched: reaping is pure
/// bookkeeping, and the caller updates afterwards.
pub open spec fn ws_reap(ws: WorkspaceView, valid: Seq<isize>) -> WorkspaceView {
    let cs = cons_reap(ws.containers, valid);
    WorkspaceView {
        containers: cs,
        floating: wins_valid(ws.floating, valid),
        focused_container_idx: clamp_idx(ws.focused_container_idx, cs.len() as int),
        latest_layout: ws.latest_layout,
    }
}

/// The workspace after removing every window with handle `h`, tiled or
/// floating.
pub open spec fn ws_remove(ws: WorkspaceView, h: isize) -> WorkspaceView {
    let cs = cons_without(ws.containers, h);
    WorkspaceView {
        containers: cs,
        floating: wins_without(ws.floating, h),
        focused_container_idx: clamp_idx(ws.focused_container_idx, cs.len() as int),
        latest_layout: ws.latest_layout,
    }
}

/// A saturating narrowing into `usize`.
pub open spec fn sat_usize(d: int) -> int {
    if d >= usize::MAX as int {
        usize::MAX as int
    } else {
        d
    }
}

/// Saturating addition on `usize`.
fn sat_add(a: usize, b: usize) -> (r: usize)
    ensures
        r as int == sat_usize(a as int + b as int),
{
    if a <= usize::MAX - b {
        a + b
    } else {
        usize::MAX
    }
}

/// Saturation composes: saturating once more after adding loses nothing.
proof fn lemma_sat_add(a: int, b: int)
    requires
        0 <= a,
        0 <= b,
    ensures
        sat_usize(sat_usize(a) + b) == sat_usize(a + b),
{
}

/// Reaping never grows a container sequence, in containers or windows.
pub proof fn lemma_cons_reap_le(cs: Seq<ContainerView>, valid: Seq<isize>)
    ensures
        cons_reap(cs, valid).len() <= cs.len(),
        0 <= cons_win_count(cons_reap(cs, valid)) <= cons_win_count(cs),
    decreases cs.len(),
{
    if cs.len() > 0 {
        lemma_cons_reap_le(cs.drop_last(), valid);
        lemma_wins_valid_len(cs.last().windows, valid);
        let prefix = cons_reap(cs.drop_last(), valid);
        let c = con_reap(cs.last(), valid);
        if c.windows.len() > 0 {
            assert(prefix.push(c).drop_last() =~= prefix);
            assert(prefix.push(c).last() == c);
            assert(cons_win_count(prefix.push(c)) == cons_win_count(prefix) + c.windows.len());
        }
        lemma_cons_count_nonneg(cons_reap(cs, valid));
    } else {
        lemma_cons_count_nonneg(cons_reap(cs, valid));
    }
}

/// A window count is never negative.
pub proof fn lemma_cons_count_nonneg(cs: Seq<ContainerView>)
    ensures
        0 <= cons_win_count(cs),
    decreases cs.len(),
{
    if cs.len() > 0 {
        lemma_cons_count_nonneg(cs.drop_last());
    }
}

/// The kept subsequence of windows is never longer than the original.
pub proof fn lemma_wins_valid_len(ws: Seq<Window>, valid: Seq<isize>)
    ensures
        wins_valid(ws, valid).len() <= ws.len(),
    decreases ws.len(),
{
    if ws.len() > 0 {
        lemma_wins_valid_len(ws.drop_last(), valid);
    }
}

/// Every container reaping keeps is well formed, whether or not the
/// originals were.
pub proof fn lemma_cons_reap_wf(cs: Seq<ContainerView>, valid: Seq<isize>)
    ensures
        forall|i: int|
            0 <= i < cons_reap(cs, valid).len() ==> con_wf(#[trigger] cons_reap(cs, valid)[i]),
    decreases cs.len(),
{
    if cs.len() > 0 {
        lemma_cons_reap_wf(cs.drop_last(), valid);
        let out = cons_reap(cs, valid);
        let prefix = cons_reap(cs.drop_last(), valid);
        assert forall|i: int| 0 <= i < out.len() implies con_wf(#[trigger] out[i]) by {
            if i < prefix.len() {
                assert(out[i] == prefix[i]);
            } else {
                assert(out[i] == con_reap(cs.last(), valid));
            }
        }
    }
}

/// Every container removal keeps is well formed, whether or not the
/// originals were.
pub proof fn lemma_cons_without_wf(cs: Seq<ContainerView>, h: isize)
    ensures
        forall|i: int|
            0 <= i < cons_without(cs, h).len() ==> con_wf(#[trigger] cons_without(cs, h)[i]),
    decreases cs.len(),
{
    if cs.len() > 0 {
        lemma_cons_without_wf(cs.drop_last(), h);
        let out = cons_without(cs, h);
        let prefix = cons_without(cs.drop_last(), h);
        assert forall|i: int| 0 <= i < out.len() implies con_wf(#[trigger] out[i]) by {
            if i < prefix.len() {
                assert(out[i] == prefix[i]);
            } else {
                assert(out[i] == con_without(cs.last(), h));
            }
        }
    }
}

/// Reaping preserves workspace well-formedness.
pub proof fn lemma_ws_reap_wf(ws: WorkspaceView, valid: Seq<isize>)
    requires
        ws_wf(ws),
    ensures
        ws_wf(ws_reap(ws, valid)),
{
    lemma_cons_reap_wf(ws.containers, valid);
}

/// Removal preserves workspace well-formedness.
pub proof fn lemma_ws_remove_wf(ws: WorkspaceView, h: isize)
    requires
        ws_wf(ws),
    ensures
        ws_wf(ws_remove(ws, h)),
{
    lemma_cons_without_wf(ws.containers, h);
}

impl Workspace {
    /// An empty workspace with no layout computed yet.
    pub fn empty() -> (ws: Workspace)
        ensures
            ws@.containers.len() == 0,
            ws@.floating.len() == 0,
            ws@.focused_container_idx == 0,
            ws@.latest_layout.len() == 0,
            ws_wf(ws@),
    {
        let ws = Workspace {
            containers: Vec::new(),
            floating_windows: Vec::new(),
            focused_container_idx: 0,
            latest_layout: Vec::new(),
        };
        proof {
            assert(cons_view(ws.containers@) =~= Seq::<ContainerView>::empty());
        }
        ws
    }

    /// Whether some tiled container holds a window with handle `h`.
    pub fn contains_window(&self, h: isize) -> (b: bool)
        ensures
            b == ws_tiled_has(self@, h),
    {
        let mut i: usize = 0;
        while i < self.containers.len()
            invariant
                i <= self.containers@.len(),
                forall|j: int| 0 <= j < i ==> !con_has_hwnd(#[trigger] cons_view(self.containers@)[j], h),
            decreases self.containers@.len() - i,
        {
            if self.containers[i].contains_window(h) {
                proof {
                    assert(ws_tiled_has(self@, h)) by {
                        assert(con_has_hwnd(self@.containers[i as int], h));
                    }
                }
                return true;
            }
            i = i + 1;
        }
        false
    }

    /// The slot of the first tiled container stacking a window with
    /// handle `h`, or none when no container does.
    pub fn container_idx_for_window(&self, h: isize) -> (r: Option<usize>)
        ensures
            match r {
                Some(ci) => 0 <= ci < self@.containers.len() && con_has_hwnd(
                    self@.containers[ci as int],
                    h,
                ) && forall|j: int| 0 <= j < ci ==> !con_has_hwnd(#[trigger] self@.containers[j], h),
                None => !ws_tiled_has(self@, h),
            },
    {
        let mut ci: usize = 0;
        while ci < self.containers.len()
            invariant
                ci <= self.containers@.len(),
                forall|j: int|
                    0 <= j < ci ==> !con_has_hwnd(#[trigger] cons_view(self.containers@)[j], h),
            decreases self.containers@.len() - ci,
        {
            if self.containers[ci].contains_window(h) {
                return Some(ci);
            }
            ci = ci + 1;
        }
        None
    }

    /// Whether a floating window has handle `h`.
    pub fn has_floating_window(&self, h: isize) -> (b: bool)
        ensures
            b == ws_floating_has(self@, h),
    {
        let mut k: usize = 0;
        while k < self.floating_windows.len()
            invariant
                k <= self.floating_windows@.len(),
                forall|j: int| 0 <= j < k ==> self.floating_windows@[j].hwnd != h,
            decreases self.floating_windows@.len() - k,
        {
            if self.floating_windows[k].hwnd == h {
                proof {
                    assert(ws_floating_has(self@, h)) by {
                        assert(self@.floating[k as int].hwnd == h);
                    }
                }
                return true;
            }
            k = k + 1;
        }
        false
    }

    /// Removes invalid windows, then empty containers, against the
    /// platform's set of still-valid handles. Returns how many windows and
    /// containers were removed (the window count saturates at the machine
    /// limit). Pure bookkeeping: the layout is left for the caller to
    /// update.
    pub fn reap_orphans(&mut self, valid: &Vec<isize>) -> (r: (usize, usize))
        ensures
            final(self)@ == ws_reap(old(self)@, valid@),
            r.0 as int == sat_usize(
                ws_window_count(old(self)@) - ws_window_count(ws_reap(old(self)@, valid@)),
            ),
            r.1 as int == old(self)@.containers.len() - ws_reap(old(self)@, valid@).containers.len(),
    {
        let ghost ocs = cons_view(old(self).containers@);
        let mut kept: Vec<Container> = Vec::new();
        let mut removed_windows: usize = 0;
        let mut i: usize = 0;
        while i < self.containers.len()
            invariant
                *self == *old(self),
                i <= self.containers@.len(),
                ocs == cons_view(self.containers@),
                cons_view(kept@) == cons_reap(ocs.take(i as int), valid@),
                kept@.len() <= i,
                removed_windows as int == sat_usize(
                    cons_win_count(ocs.take(i as int)) - cons_win_count(
                        cons_reap(ocs.take(i as int), valid@),
                    ),
                ),
            decreases self.containers@.len() - i,
        {
            proof {
                assert(ocs.take(i as int + 1).drop_last() =~= ocs.take(i as int));
                assert(ocs.take(i as int + 1).last() == self.containers@[i as int]@);
                lemma_cons_reap_le(ocs.take(i as int), valid@);
                lemma_cons_count_nonneg(ocs.take(i as int));
                lemma_wins_valid_len(self.containers@[i as int]@.windows, valid@);
            }
            let c = &self.containers[i];
            let windows = filter_valid_windows(&c.windows, valid);
            let dropped: usize = c.windows.len() - windows.len();
            proof {
                lemma_sat_add(
                    cons_win_count(ocs.take(i as int)) - cons_win_count(
                        cons_reap(ocs.take(i as int), valid@),
                    ),
                    dropped as int,
                );
                let pre = cons_reap(ocs.take(i as int), valid@);
                let cr = con_reap(ocs.take(i as int + 1).last(), valid@);
                assert(pre.push(cr).drop_last() =~= pre);
                assert(pre.push(cr).last() == cr);
                if cr.windows.len() > 0 {
                    assert(cons_win_count(pre.push(cr)) == cons_win_count(pre)
                        + cr.windows.len());
                }
                assert(cons_win_count(ocs.take(i as int + 1)) == cons_win_count(
                    ocs.take(i as int),
                ) + ocs.take(i as int + 1).last().windows.len());
            }
            removed_windows = sat_add(removed_windows, dropped);
            if windows.len() > 0 {
                let focused_window_idx = if c.focused_window_idx < windows.len() {
                    c.focused_window_idx
                } else {
                    windows.len() - 1
                };
                kept.push(Container { windows, focused_window_idx });
                proof {
                    assert(cons_view(kept@) =~= cons_reap(ocs.take(i as int + 1), valid@));
                }
            } else {
                proof {
                    assert(cons_view(kept@) =~= cons_reap(ocs.take(i as int + 1), valid@));
                }
            }
            i = i + 1;
        }
        proof {
            assert(ocs.take(ocs.len() as int) =~= ocs);
        }
        let removed_containers: usize = self.containers.len() - kept.len();
        let floating = filter_valid_windows(&self.floating_windows, valid);
        let dropped_floating: usize = self.floating_windows.len() - floating.len();
        proof {
            lemma_sat_add(
                cons_win_count(ocs) - cons_win_count(cons_reap(ocs, valid@)),
                dropped_floating as int,
            );
            lemma_cons_reap_le(ocs, valid@);
        }
        removed_windows = sat_add(removed_windows, dropped_floating);
        self.containers = kept;
        self.floating_windows = floating;
        if self.containers.len() == 0 {
            self.focused_container_idx = 0;
        } else if self.focused_container_idx >= self.containers.len() {
            self.focused_container_idx = self.containers.len() - 1;
        }
        (removed_windows, removed_containers)
    }

    /// Removes every window with handle `h`, tiled or floating, dropping
    /// any container left empty. Fails with `WindowNotFound`, changing
    /// nothing, when the workspace does not hold `h`.
    pub fn remove_window(&mut self, h: isize) -> (r: Result<(), WmError>)
        ensures
            ws_has(old(self)@, h) ==> r == Result::<(), WmError>::Ok(()) && final(self)@
                == ws_remove(old(self)@, h),
            !ws_has(old(self)@, h) ==> r == Result::<(), WmError>::Err(WmError::WindowNotFound)
                && *final(self) == *old(self),
    {
        if !self.contains_window(h) && !self.has_floating_window(h) {
            return Err(WmError::WindowNotFound);
        }
        let ghost ocs = cons_view(old(self).containers@);
        let mut kept: Vec<Container> = Vec::new();
        let mut i: usize = 0;
        while i < self.containers.len()
            invariant
                *self == *old(self),
                i <= self.containers@.len(),
                ocs == cons_view(self.containers@),
                cons_view(kept@) == cons_without(ocs.take(i as int), h),
            decreases self.containers@.len() - i,
        {
            proof {
                assert(ocs.take(i as int + 1).drop_last() =~= ocs.take(i as int));
                assert(ocs.take(i as int + 1).last() == self.containers@[i as int]@);
            }
            let c = &self.containers[i];
            let windows = filter_without_hwnd(&c.windows, h);
            if windows.len() > 0 {
                let focused_window_idx = if c.focused_window_idx < windows.len() {
                    c.focused_window_idx
                } else {
                    windows.len() - 1
                };
                kept.push(Container { windows, focused_window_idx });
                proof {
                    assert(cons_view(kept@) =~= cons_without(ocs.take(i as int + 1), h));
                }
            } else {
                proof {
                    assert(cons_view(kept@) =~= cons_without(ocs.take(i as int + 1), h));
                }
            }
            i = i + 1;
        }
        proof {
            assert(ocs.take(ocs.len() as int) =~= ocs);
        }
        self.containers = kept;
        self.floating_windows = filter_without_hwnd(&self.floating_windows, h);
        if self.containers.len() == 0 {
            self.focused_container_idx = 0;
        } else if self.focused_container_idx >= self.containers.len() {
            self.focused_container_idx = self.containers.len() - 1;
        }
        Ok(())
    }

    /// Exchanges the containers in slots `i` and `j`; a no-op when they
    /// coincide.
    pub fn swap_containers(&mut self, i: usize, j: usize)
        requires
            i < old(self)@.containers.len(),
            j < old(self)@.containers.len(),
        ensures
            final(self)@.containers == old(self)@.containers.update(
                i as int,
                old(self)@.containers[j as int],
            ).update(j as int, old(self)@.containers[i as int]),
            final(self)@.floating == old(self)@.floating,
            final(self)@.focused_container_idx == old(self)@.focused_container_idx,
            final(self)@.latest_layout == old(self)@.latest_layout,
    {
        if i == j {
            proof {
                assert(final(self)@.containers =~= old(self)@.containers.update(
                    i as int,
                    old(self)@.containers[j as int],
                ).update(j as int, old(self)@.containers[i as int]));
            }
            return;
        }
        let (a, b) = if i < j {
            (i, j)
        } else {
            (j, i)
        };
        let cb = self.containers.remove(b);
        let ca = self.containers.remove(a);
        self.containers.insert(a, cb);
        self.containers.insert(b, ca);
        proof {
            assert(cons_view(self.containers@) =~= cons_view(old(self).containers@).update(
                i as int,
                cons_view(old(self).containers@)[j as int],
            ).update(j as int, cons_view(old(self).containers@)[i as int]));
        }
    }

    /// Opens a new container for `w` at the end of the tiling order. The
    /// focused container is unchanged; a focus-change notification follows
    /// separately when the platform moves focus.
    pub fn new_container_for_window(&mut self, w: Window)
        ensures
            final(self)@.containers == old(self)@.containers.push(
                ContainerView { windows: seq![w], focused_window_idx: 0 },
            ),
            final(self)@.floating == old(self)@.floating,
            final(self)@.focused_container_idx == old(self)@.focused_container_idx,
            final(self)@.latest_layout == old(self)@.latest_layout,
    {
        self.containers.push(Container::for_window(w));
        proof {
            assert(cons_view(self.containers@) =~= cons_view(old(self).containers@).push(
                ContainerView { windows: seq![w], focused_window_idx: 0 },
            ));
        }
    }

    /// Focuses the first container stacking a window with handle `h`, and
    /// within it that window. Fails with `WindowNotFound`, changing
    /// nothing, when no tiled container holds `h`.
    pub fn focus_container_by_window(&mut self, h: isize) -> (r: Result<(), WmError>)
        ensures
            !ws_tiled_has(old(self)@, h) ==> r == Result::<(), WmError>::Err(
                WmError::WindowNotFound,
            ) && *final(self) == *old(self),
            ws_tiled_has(old(self)@, h) ==> r == Result::<(), WmError>::Ok(()) && exists|ci: int, wi: int|
                {
                    &&& 0 <= ci < old(self)@.containers.len()
                    &&& 0 <= wi < old(self)@.containers[ci].windows.len()
                    &&& old(self)@.containers[ci].windows[wi].hwnd == h
                    &&& forall|j: int| 0 <= j < ci ==> !con_has_hwnd(old(self)@.containers[j], h)
                    &&& forall|j: int| 0 <= j < wi ==> old(self)@.containers[ci].windows[j].hwnd != h
                    &&& final(self)@.focused_container_idx == ci
                    &&& final(self)@.containers == old(self)@.containers.update(
                        ci,
                        ContainerView {
                            windows: old(self)@.containers[ci].windows,
                            focused_window_idx: wi,
                        },
                    )
                    &&& final(self)@.floating == old(self)@.floating
                    &&& final(self)@.latest_layout == old(self)@.latest_layout
                },
    {
        let mut ci: usize = 0;
        while ci < self.containers.len()
            invariant
                *self == *old(self),
                ci <= self.containers@.len(),
                forall|j: int|
                    0 <= j < ci ==> !con_has_hwnd(#[trigger] cons_view(self.containers@)[j], h),
            decreases self.containers@.len() - ci,
        {
            if self.containers[ci].contains_window(h) {
                let wi = match self.containers[ci].idx_of(h) {
                    Some(wi) => wi,
                    None => {
                        return Err(WmError::WindowNotFound);
                    },
                };
                let mut c = self.containers.remove(ci);
                c.focused_window_idx = wi;
                self.containers.insert(ci, c);
                self.focused_container_idx = ci;
                proof {
                    assert(cons_view(self.containers@) =~= cons_view(old(self).containers@).update(
                        ci as int,
                        ContainerView {
                            windows: cons_view(old(self).containers@)[ci as int].windows,
                            focused_window_idx: wi as int,
                        },
                    ));
                    assert(ws_tiled_has(old(self)@, h)) by {
                        assert(con_has_hwnd(old(self)@.containers[ci as int], h));
                    }
                }
                return Ok(());
            }
            ci = ci + 1;
        }
        Err(WmError::WindowNotFound)
    }

    /// The slot whose layout rectangle contains `p`: the first match in
    /// slot order, or none when `p` is outside every tiled rectangle.
    pub fn container_idx_from_current_point(&self, p: Point) -> (r: Option<usize>)
        ensures
            match r {
                Some(idx) => 0 <= idx < self@.latest_layout.len() && rect_contains_point(
                    self@.latest_layout[idx as int],
                    p,
                ) && forall|j: int|
                    0 <= j < idx ==> !rect_contains_point(#[trigger] self@.latest_layout[j], p),
                None => forall|j: int|
                    0 <= j < self@.latest_layout.len() ==> !rect_contains_point(
                        #[trigger] self@.latest_layout[j],
                        p,
                    ),
            },
    {
        let mut idx: usize = 0;
        while idx < self.latest_layout.len()
            invariant
                idx <= self.latest_layout@.len(),
                forall|j: int|
                    0 <= j < idx ==> !rect_contains_point(#[trigger] self.latest_layout@[j], p),
            decreases self.latest_layout@.len() - idx,
        {
            if self.latest_layout[idx].contains_point(p) {
                return Some(idx);
            }
            idx = idx + 1;
        }
        None
    }

    /// Recomputes the layout for the current container count in
    /// `work_area`. Geometry application is the embedding program's part;
    /// the model records the rectangles. Never fails.
    pub fn update(&mut self, work_area: &Rect) -> (r: Result<(), WmError>)
        requires
            rect_wf(*work_area),
        ensures
            r == Result::<(), WmError>::Ok(()),
            final(self)@.latest_layout == layout_spec(
                *work_area,
                old(self)@.containers.len() as nat,
            ),
            final(self)@.containers == old(self)@.containers,
            final(self)@.floating == old(self)@.floating,
            final(self)@.focused_container_idx == old(self)@.focused_container_idx,
    {
        self.latest_layout = compute_layout(*work_area, self.containers.len());
        Ok(())
    }
}

} // verus!
