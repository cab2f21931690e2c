//! The window manager: the ordered monitors, the focused monitor, the
//! pause flag, the configuration lists, and the event-driven state
//! machine that keeps the model consistent with the desktop.

use vstd::prelude::*;

use crate::container::con_has_hwnd;
use crate::container::ContainerView;
use crate::container::Window;
use crate::drag::drag_is_move;
use crate::drag::resize_ops;
use crate::drag::OperationDirection;
use crate::drag::ResizeOp;
use crate::drag::Sizing;
use crate::errors::WmError;
use crate::events::event_resyncs_monitor;
use crate::events::event_window;
use crate::events::PlatformSnapshot;
use crate::events::SnapshotView;
use crate::events::WindowManagerEvent;
use crate::geometry::rect_contains_point;
use crate::geometry::rect_wf;
use crate::geometry::Point;
use crate::geometry::Rect;
use crate::layout::layout_spec;
use crate::monitor::mon_reap;
use crate::monitor::mon_wf;
use crate::monitor::ws_layout_synced;
use crate::monitor::Monitor;
use crate::monitor::MonitorView;
use crate::search::first_idx;
use crate::workspace::ws_floating_has;
use crate::workspace::ws_has;
use crate::workspace::ws_remove;
use crate::workspace::ws_tiled_has;
use crate::workspace::ws_wf;
use crate::workspace::WorkspaceView;

verus! {

/// The mathematical value of the whole manager.
pub ghost struct WmView {
    /// The monitors, in enumeration order.
    pub monitors: Seq<MonitorView>,
    /// Which monitor is focused.
    pub focused_monitor_idx: int,
    /// While set, events are acknowledged and dropped without mutation.
    pub is_paused: bool,
    /// Handles this manager itself hid programmatically.
    pub hidden_hwnds: Seq<isize>,
    /// Executables known to hide secondary windows spuriously.
    pub multi_window_exes: Seq<Seq<char>>,
    /// Directional resize requests issued to the platform and not yet
    /// drained by the embedding program.
    pub pending_resize_ops: Seq<ResizeOp>,
}

/// The authoritative in-memory model of the desktop.
#[derive(Debug)]
pub struct WindowManager {
    pub monitors: Vec<Monitor>,
    pub focused_monitor_idx: usize,
    pub is_paused: bool,
    pub hidden_hwnds: Vec<isize>,
    pub multi_window_exes: Vec<String>,
    pub pending_resize_ops: Vec<ResizeOp>,
}

/// The views of a sequence of monitors.
pub open spec fn mons_view(v: Seq<Monitor>) -> Seq<MonitorView> {
    v.map_values(|m: Monitor| m@)
}

/// The views of the configured executable names.
pub open spec fn strs_view(v: Seq<String>) -> Seq<Seq<char>> {
    v.map_values(|s: String| s@)
}

impl View for WindowManager {
    type V = WmView;

    open spec fn view(&self) -> WmView {
        WmView {
            monitors: mons_view(self.monitors@),
            focused_monitor_idx: self.focused_monitor_idx as int,
            is_paused: self.is_paused,
            hidden_hwnds: self.hidden_hwnds@,
            multi_window_exes: strs_view(self.multi_window_exes@),
            pending_resize_ops: self.pending_resize_ops@,
        }
    }
}

/// The manager is well formed when it has at least one monitor, the
/// focused index points at one, and every monitor is well formed.
pub open spec fn wm_wf(wm: WmView) -> bool {
    &&& wm.monitors.len() > 0
    &&& 0 <= wm.focused_monitor_idx < wm.monitors.len()
    &&& forall|i: int| 0 <= i < wm.monitors.len() ==> mon_wf(#[trigger] wm.monitors[i])
}

/// Whether any tiled container anywhere in the model stacks handle `h`.
pub open spec fn wm_tiled_has(wm: WmView, h: isize) -> bool {
    exists|i: int, j: int|
        0 <= i < wm.monitors.len() && 0 <= j < wm.monitors[i].workspaces.len() && ws_tiled_has(
            #[trigger] wm.monitors[i].workspaces[j],
            h,
        )
}

/// The focused monitor.
pub open spec fn focused_monitor(wm: WmView) -> MonitorView
    recommends
        wm_wf(wm),
{
    wm.monitors[wm.focused_monitor_idx]
}

/// The focused workspace: the focused monitor's focused workspace.
pub open spec fn focused_workspace(wm: WmView) -> WorkspaceView
    recommends
        wm_wf(wm),
{
    focused_monitor(wm).workspaces[focused_monitor(wm).focused_workspace_idx]
}

/// The manager with its focused workspace replaced by `ws`.
pub open spec fn with_focused_workspace(wm: WmView, ws: WorkspaceView) -> WmView {
    let m = focused_monitor(wm);
    WmView {
        monitors: wm.monitors.update(
            wm.focused_monitor_idx,
            MonitorView { workspaces: m.workspaces.update(m.focused_workspace_idx, ws), ..m },
        ),
        ..wm
    }
}

/// The manager after recomputing the focused workspace's layout for its
/// current container count.
pub open spec fn wm_update_focused(wm: WmView) -> WmView {
    let ws = focused_workspace(wm);
    with_focused_workspace(
        wm,
        WorkspaceView {
            latest_layout: layout_spec(
                focused_monitor(wm).work_area_size,
                ws.containers.len() as nat,
            ),
            ..ws
        },
    )
}

/// The manager after one orphan-reaping pass over every workspace of
/// every monitor.
pub open spec fn wm_reap(wm: WmView, valid: Seq<isize>) -> WmView {
    WmView {
        monitors: Seq::new(wm.monitors.len(), |i: int| mon_reap(wm.monitors[i], valid)),
        ..wm
    }
}

/// Removal of handle `h` from the focused workspace, with a layout
/// recomputation on success and `WindowNotFound` when the workspace does
/// not hold `h`.
pub open spec fn wm_remove_in_focused(wm: WmView, h: isize) -> (WmView, Result<(), WmError>) {
    let ws = focused_workspace(wm);
    if ws_has(ws, h) {
        (wm_update_focused(with_focused_workspace(wm, ws_remove(ws, h))), Ok(()))
    } else {
        (wm, Err(WmError::WindowNotFound))
    }
}

/// Whether the list of executable names holds `s`.
pub open spec fn str_list_has(l: Seq<Seq<char>>, s: Seq<char>) -> bool {
    exists|i: int| 0 <= i < l.len() && l[i] == s
}

/// The hide step: removal only when the window is no longer a window, or
/// its executable is known to hide windows spuriously, and the handle was
/// not hidden by this manager itself; otherwise the event is ignored.
pub open spec fn wm_hide_step(wm: WmView, h: isize, p: SnapshotView) -> (WmView, Result<
    (),
    WmError,
>) {
    if !p.valid_hwnds.contains(h) {
        if !wm.hidden_hwnds.contains(h) {
            wm_remove_in_focused(wm, h)
        } else {
            (wm, Ok(()))
        }
    } else {
        match p.event_window_exe {
            None => (wm, Err(WmError::PlatformQueryFailed)),
            Some(exe) => if str_list_has(wm.multi_window_exes, exe) && !wm.hidden_hwnds.contains(
                h,
            ) {
                wm_remove_in_focused(wm, h)
            } else {
                (wm, Ok(()))
            },
        }
    }
}

/// The focused workspace after focusing the first container stacking
/// `h`, and within it the first window with that handle.
pub open spec fn ws_focus_window(ws: WorkspaceView, h: isize) -> WorkspaceView
    recommends
        ws_tiled_has(ws, h),
{
    let ci = first_idx(ws.containers, |c: ContainerView| con_has_hwnd(c, h));
    let c = ws.containers[ci];
    let wi = first_idx(c.windows, |w: Window| w.hwnd == h);
    WorkspaceView {
        containers: ws.containers.update(
            ci,
            ContainerView { windows: c.windows, focused_window_idx: wi },
        ),
        focused_container_idx: ci,
        ..ws
    }
}

/// The focus-change step: a floating window is ignored; otherwise the
/// container stacking the window becomes focused, and `WindowNotFound`
/// tolerates a window that is gone.
pub open spec fn wm_focus_change_step(wm: WmView, h: isize) -> (WmView, Result<(), WmError>) {
    let ws = focused_workspace(wm);
    if ws_floating_has(ws, h) {
        (wm, Ok(()))
    } else if !ws_tiled_has(ws, h) {
        (wm, Err(WmError::WindowNotFound))
    } else {
        (with_focused_workspace(wm, ws_focus_window(ws, h)), Ok(()))
    }
}

/// The last workspace index whose tiled containers hold `h`, or `-1`.
pub open spec fn last_ws_with(wss: Seq<WorkspaceView>, h: isize) -> int
    decreases wss.len(),
{
    if wss.len() == 0 {
        -1
    } else if ws_tiled_has(wss.last(), h) {
        wss.len() - 1
    } else {
        last_ws_with(wss.drop_last(), h)
    }
}

/// The last monitor with a workspace holding `h`, with that workspace's
/// index, in the enumeration order the search walks.
pub open spec fn last_mon_ws_with(ms: Seq<MonitorView>, h: isize) -> Option<(int, int)>
    decreases ms.len(),
{
    if ms.len() == 0 {
        None
    } else {
        let j = last_ws_with(ms.last().workspaces, h);
        if j >= 0 {
            Some(((ms.len() - 1) as int, j))
        } else {
            last_mon_ws_with(ms.drop_last(), h)
        }
    }
}

/// A workspace with a fresh container for `w` at the end of the tiling
/// order.
pub open spec fn ws_push_container(ws: WorkspaceView, w: Window) -> WorkspaceView {
    WorkspaceView {
        containers: ws.containers.push(ContainerView { windows: seq![w], focused_window_idx: 0 }),
        ..ws
    }
}

/// The show step without a focus switch: a new container is opened unless
/// the focused workspace already tiles the window.
pub open spec fn wm_show_insert(wm: WmView, w: Window) -> (WmView, Result<(), WmError>) {
    let ws = focused_workspace(wm);
    if ws.containers.len() == 0 || !ws_tiled_has(ws, w.hwnd) {
        (wm_update_focused(with_focused_workspace(wm, ws_push_container(ws, w))), Ok(()))
    } else {
        (wm, Ok(()))
    }
}

/// The show step: when some workspace already tiles the window and it is
/// not the focused one, focus switches there and nothing is inserted;
/// otherwise the window is given a container in the focused workspace if
/// it has none.
pub open spec fn wm_show_step(wm: WmView, w: Window) -> (WmView, Result<(), WmError>) {
    match last_mon_ws_with(wm.monitors, w.hwnd) {
        Some(ij) => {
            if wm.focused_monitor_idx != ij.0 || focused_monitor(wm).focused_workspace_idx
                != ij.1 {
                (
                    WmView {
                        monitors: wm.monitors.update(
                            ij.0,
                            MonitorView { focused_workspace_idx: ij.1, ..wm.monitors[ij.0] },
                        ),
                        focused_monitor_idx: ij.0,
                        ..wm
                    },
                    Ok(()),
                )
            } else {
                wm_show_insert(wm, w)
            }
        },
        None => wm_show_insert(wm, w),
    }
}

/// A workspace with the containers in slots `i` and `j` exchanged.
pub open spec fn ws_swap(ws: WorkspaceView, i: int, j: int) -> WorkspaceView {
    WorkspaceView {
        containers: ws.containers.update(i, ws.containers[j]).update(j, ws.containers[i]),
        ..ws
    }
}

/// The drag-end step: a floating window is ignored; the window must be
/// tiled in the focused workspace, its slot's pre-drag rectangle must
/// exist, and the live rectangle be readable; a pure move swaps the
/// dragged window's container with the slot under the pointer (or snaps
/// back); a resize issues one operation per honoured edge.
pub open spec fn wm_move_resize_step(wm: WmView, h: isize, p: SnapshotView) -> (WmView, Result<
    (),
    WmError,
>) {
    let ws = focused_workspace(wm);
    let ci = first_idx(ws.containers, |c: ContainerView| con_has_hwnd(c, h));
    if ws_floating_has(ws, h) {
        (wm, Ok(()))
    } else if ci < 0 {
        (wm, Err(WmError::WindowNotFound))
    } else if !(ci < ws.latest_layout.len()) {
        (wm, Err(WmError::NoLatestLayout))
    } else {
        match p.event_window_rect {
            None => (wm, Err(WmError::GeometryQueryFailed)),
            Some(raw) => {
                let old_pos = ws.latest_layout[ci];
                if drag_is_move(old_pos, raw) {
                    let t = first_idx(
                        ws.latest_layout,
                        |r: Rect| rect_contains_point(r, p.pointer),
                    );
                    if t >= 0 {
                        (
                            wm_update_focused(
                                with_focused_workspace(wm, ws_swap(ws, ci, t)),
                            ),
                            Ok(()),
                        )
                    } else {
                        (wm_update_focused(wm), Ok(()))
                    }
                } else {
                    (
                        wm_update_focused(
                            WmView {
                                pending_resize_ops: wm.pending_resize_ops + resize_ops(
                                    old_pos,
                                    raw,
                                ),
                                ..wm
                            },
                        ),
                        Ok(()),
                    )
                }
            },
        }
    }
}

/// The whole event step: nothing while paused; then the focus resync for
/// the events that carry one, the orphan-reaping pass, and the dispatch
/// on the event kind.
pub open spec fn wm_step(wm: WmView, e: WindowManagerEvent, p: SnapshotView) -> (WmView, Result<
    (),
    WmError,
>) {
    if wm.is_paused {
        (wm, Ok(()))
    } else if event_resyncs_monitor(e) && p.event_window_monitor is None {
        (wm, Err(WmError::NoOwningMonitor))
    } else if event_resyncs_monitor(e) && p.event_window_monitor.unwrap() as int
        >= wm.monitors.len() {
        (wm, Err(WmError::IndexOutOfRange))
    } else {
        let resynced = if event_resyncs_monitor(e) {
            WmView { focused_monitor_idx: p.event_window_monitor.unwrap() as int, ..wm }
        } else {
            wm
        };
        let base = wm_reap(resynced, p.valid_hwnds);
        match e {
            WindowManagerEvent::MouseCapture(..) => (base, Ok(())),
            WindowManagerEvent::Minimize(_, w) => wm_remove_in_focused(base, w.hwnd),
            WindowManagerEvent::Destroy(_, w) => wm_remove_in_focused(base, w.hwnd),
            WindowManagerEvent::Hide(_, w) => wm_hide_step(base, w.hwnd, p),
            WindowManagerEvent::FocusChange(_, w) => wm_focus_change_step(base, w.hwnd),
            WindowManagerEvent::Show(_, w) => wm_show_step(base, w),
            WindowManagerEvent::MoveResizeEnd(_, w) => wm_move_resize_step(base, w.hwnd, p),
        }
    }
}

/// The handles one container stacks, in stacking order.
pub open spec fn con_hwnds(c: ContainerView) -> Seq<isize> {
    c.windows.map_values(|w: Window| w.hwnd)
}

/// The handles a container sequence stacks, in slot then stacking order.
pub open spec fn cons_hwnds(cs: Seq<ContainerView>) -> Seq<isize>
    decreases cs.len(),
{
    if cs.len() == 0 {
        Seq::empty()
    } else {
        cons_hwnds(cs.drop_last()) + con_hwnds(cs.last())
    }
}

/// The tiled handles of a workspace sequence, in order. Floating windows
/// are not part of the persisted snapshot.
pub open spec fn wss_hwnds(wss: Seq<WorkspaceView>) -> Seq<isize>
    decreases wss.len(),
{
    if wss.len() == 0 {
        Seq::empty()
    } else {
        wss_hwnds(wss.drop_last()) + cons_hwnds(wss.last().containers)
    }
}

/// The tiled handles of a monitor sequence, in order.
pub open spec fn mons_hwnds(ms: Seq<MonitorView>) -> Seq<isize>
    decreases ms.len(),
{
    if ms.len() == 0 {
        Seq::empty()
    } else {
        mons_hwnds(ms.drop_last()) + wss_hwnds(ms.last().workspaces)
    }
}

/// Every handle the manager currently tracks in a tiled container, in
/// monitor, workspace, slot, stacking order.
pub open spec fn wm_hwnds(wm: WmView) -> Seq<isize> {
    mons_hwnds(wm.monitors)
}

/// Collects the handles one container stacks.
fn con_hwnds_vec(c: &crate::container::Container) -> (r: Vec<isize>)
    ensures
        r@ == con_hwnds(c@),
{
    let mut r: Vec<isize> = Vec::new();
    let mut k: usize = 0;
    while k < c.windows.len()
        invariant
            k <= c.windows@.len(),
            r@.len() == k,
            forall|j: int| 0 <= j < k ==> r@[j] == c.windows@[j].hwnd,
        decreases c.windows@.len() - k,
    {
        r.push(c.windows[k].hwnd);
        k = k + 1;
    }
    proof {
        assert(r@ =~= con_hwnds(c@));
    }
    r
}

/// Collects the handles a workspace's containers stack, in slot order.
fn ws_hwnds_vec(ws: &crate::workspace::Workspace) -> (r: Vec<isize>)
    ensures
        r@ == cons_hwnds(ws@.containers),
{
    let ghost cs = crate::workspace::cons_view(ws.containers@);
    let mut r: Vec<isize> = Vec::new();
    let mut i: usize = 0;
    while i < ws.containers.len()
        invariant
            i <= ws.containers@.len(),
            cs == crate::workspace::cons_view(ws.containers@),
            r@ == cons_hwnds(cs.take(i as int)),
        decreases ws.containers@.len() - i,
    {
        proof {
            assert(cs.take(i as int + 1).drop_last() =~= cs.take(i as int));
            assert(cs.take(i as int + 1).last() == ws.containers@[i as int]@);
        }
        let mut part = con_hwnds_vec(&ws.containers[i]);
        r.append(&mut part);
        i = i + 1;
    }
    proof {
        assert(cs.take(cs.len() as int) =~= cs);
    }
    r
}

/// The last workspace index holding `h` lies in range, when there is one.
pub proof fn lemma_last_ws_with_bounds(wss: Seq<WorkspaceView>, h: isize)
    ensures
        -1 <= last_ws_with(wss, h) < wss.len(),
    decreases wss.len(),
{
    if wss.len() > 0 {
        lemma_last_ws_with_bounds(wss.drop_last(), h);
    }
}

/// The last monitor and workspace indices holding `h` lie in range, when
/// there are any.
pub proof fn lemma_last_mon_ws_with_bounds(ms: Seq<MonitorView>, h: isize)
    ensures
        match last_mon_ws_with(ms, h) {
            Some(ij) => 0 <= ij.0 < ms.len() && 0 <= ij.1 < ms[ij.0].workspaces.len(),
            None => true,
        },
    decreases ms.len(),
{
    if ms.len() > 0 {
        lemma_last_ws_with_bounds(ms.last().workspaces, h);
        lemma_last_mon_ws_with_bounds(ms.drop_last(), h);
        match last_mon_ws_with(ms, h) {
            Some(ij) => {
                if last_ws_with(ms.last().workspaces, h) < 0 {
                    assert(ms.drop_last()[ij.0] == ms[ij.0]);
                }
            },
            None => {},
        }
    }
}

/// Reaping every monitor preserves manager well-formedness.
pub proof fn lemma_wm_reap_wf(wm: WmView, valid: Seq<isize>)
    requires
        wm_wf(wm),
    ensures
        wm_wf(wm_reap(wm, valid)),
{
    let out = wm_reap(wm, valid);
    assert forall|i: int| 0 <= i < out.monitors.len() implies mon_wf(#[trigger] out.monitors[i]) by {
        crate::monitor::lemma_mon_reap_wf(wm.monitors[i], valid);
    }
}

/// Replacing the focused workspace by a well-formed, layout-aligned one
/// preserves manager well-formedness.
pub proof fn lemma_with_focused_workspace_wf(wm: WmView, ws: WorkspaceView)
    requires
        wm_wf(wm),
        ws_wf(ws),
        ws_layout_synced(ws),
    ensures
        wm_wf(with_focused_workspace(wm, ws)),
        focused_workspace(with_focused_workspace(wm, ws)) == ws,
{
    let out = with_focused_workspace(wm, ws);
    assert forall|i: int| 0 <= i < out.monitors.len() implies mon_wf(#[trigger] out.monitors[i]) by {
        if i == wm.focused_monitor_idx {
            let m = focused_monitor(wm);
            let m2 = out.monitors[i];
            assert forall|j: int| 0 <= j < m2.workspaces.len() implies ws_wf(
                #[trigger] m2.workspaces[j],
            ) && ws_layout_synced(m2.workspaces[j]) by {
                if j != m.focused_workspace_idx {
                    assert(m2.workspaces[j] == m.workspaces[j]);
                }
            }
        } else {
            assert(out.monitors[i] == wm.monitors[i]);
        }
    }
}

/// After replacing the focused workspace, it reads back as what was put
/// in, and the rest of the manager is untouched.
pub proof fn lemma_focused_of_with(wm: WmView, ws: WorkspaceView)
    requires
        wm_wf(wm),
    ensures
        focused_workspace(with_focused_workspace(wm, ws)) == ws,
        focused_monitor(with_focused_workspace(wm, ws)).work_area_size == focused_monitor(
            wm,
        ).work_area_size,
        with_focused_workspace(wm, ws).focused_monitor_idx == wm.focused_monitor_idx,
        focused_monitor(with_focused_workspace(wm, ws)).focused_workspace_idx == focused_monitor(
            wm,
        ).focused_workspace_idx,
{
}

/// Replacing the focused workspace twice keeps only the second value.
pub proof fn lemma_with_with(wm: WmView, a: WorkspaceView, b: WorkspaceView)
    requires
        wm_wf(wm),
    ensures
        with_focused_workspace(with_focused_workspace(wm, a), b) == with_focused_workspace(wm, b),
{
    let one = with_focused_workspace(wm, a);
    let two = with_focused_workspace(one, b);
    let direct = with_focused_workspace(wm, b);
    assert(two.monitors[wm.focused_monitor_idx].workspaces =~= direct.monitors[wm.focused_monitor_idx].workspaces);
    assert(two.monitors =~= direct.monitors);
}

/// Recomputing the focused workspace's layout preserves manager
/// well-formedness.
pub proof fn lemma_wm_update_focused_wf(wm: WmView)
    requires
        wm_wf(wm),
        ws_wf(focused_workspace(wm)),
    ensures
        wm_wf(wm_update_focused(wm)),
{
    let ws = focused_workspace(wm);
    let ws2 = WorkspaceView {
        latest_layout: layout_spec(focused_monitor(wm).work_area_size, ws.containers.len() as nat),
        ..ws
    };
    lemma_with_focused_workspace_wf(wm, ws2);
}

impl WindowManager {
    /// A new manager: one monitor per given work area, each with one
    /// empty workspace, the first monitor focused, unpaused, with the
    /// given list of executables known to hide windows spuriously. Fails
    /// with `NoMonitors` when no work area is given or one is not
    /// ordered.
    pub fn new(work_areas: &Vec<Rect>, multi_window_exes: Vec<String>) -> (r: Result<
        WindowManager,
        WmError,
    >)
        ensures
            match r {
                Ok(wm) => {
                    &&& work_areas@.len() > 0
                    &&& forall|i: int| 0 <= i < work_areas@.len() ==> rect_wf(#[trigger] work_areas@[i])
                    &&& wm_wf(wm@)
                    &&& wm@.monitors.len() == work_areas@.len()
                    &&& forall|i: int|
                        0 <= i < work_areas@.len() ==> (#[trigger] wm@.monitors[i]).work_area_size
                            == work_areas@[i] && wm@.monitors[i].workspaces.len() == 1
                            && wm@.monitors[i].workspaces[0].containers.len() == 0
                            && wm@.monitors[i].workspaces[0].floating.len() == 0
                            && wm@.monitors[i].focused_workspace_idx == 0
                    &&& wm@.focused_monitor_idx == 0
                    &&& !wm@.is_paused
                    &&& wm@.hidden_hwnds.len() == 0
                    &&& wm@.multi_window_exes == strs_view(multi_window_exes@)
                    &&& wm@.pending_resize_ops.len() == 0
                },
                Err(e) => e == WmError::NoMonitors && (work_areas@.len() == 0 || exists|i: int|
                    0 <= i < work_areas@.len() && !rect_wf(#[trigger] work_areas@[i])),
            },
    {
        if work_areas.len() == 0 {
            return Err(WmError::NoMonitors);
        }
        let mut monitors: Vec<Monitor> = Vec::new();
        let mut i: usize = 0;
        while i < work_areas.len()
            invariant
                i <= work_areas@.len(),
                forall|k: int| 0 <= k < i ==> rect_wf(#[trigger] work_areas@[k]),
                monitors@.len() == i,
                forall|k: int|
                    0 <= k < i ==> (#[trigger] mons_view(monitors@)[k]).work_area_size
                        == work_areas@[k] && mons_view(monitors@)[k].workspaces.len() == 1
                        && mons_view(monitors@)[k].workspaces[0].containers.len() == 0
                        && mons_view(monitors@)[k].workspaces[0].floating.len() == 0
                        && mons_view(monitors@)[k].focused_workspace_idx == 0 && mon_wf(
                        mons_view(monitors@)[k],
                    ),
            decreases work_areas@.len() - i,
        {
            let area = work_areas[i];
            if !(area.left <= area.right && area.top <= area.bottom) {
                return Err(WmError::NoMonitors);
            }
            let ghost prev = monitors@;
            let m = Monitor::new(area);
            let ghost mv = m@;
            monitors.push(m);
            proof {
                assert forall|k: int| 0 <= k < i as int + 1 implies (#[trigger] mons_view(
                    monitors@,
                )[k]).work_area_size == work_areas@[k] && mons_view(monitors@)[k].workspaces.len()
                    == 1 && mons_view(monitors@)[k].workspaces[0].containers.len() == 0
                    && mons_view(monitors@)[k].workspaces[0].floating.len() == 0 && mons_view(
                    monitors@,
                )[k].focused_workspace_idx == 0 && mon_wf(mons_view(monitors@)[k]) by {
                    if k < prev.len() {
                        assert(monitors@[k] == prev[k]);
                        assert(mons_view(monitors@)[k] == mons_view(prev)[k]);
                    } else {
                        assert(monitors@[k]@ == mv);
                    }
                }
            }
            i = i + 1;
        }
        let wm = WindowManager {
            monitors,
            focused_monitor_idx: 0,
            is_paused: false,
            hidden_hwnds: Vec::new(),
            multi_window_exes,
            pending_resize_ops: Vec::new(),
        };
        Ok(wm)
    }

    /// Focuses monitor `idx`. Fails with `IndexOutOfRange`, changing
    /// nothing, when no such monitor exists.
    pub fn focus_monitor(&mut self, idx: usize) -> (r: Result<(), WmError>)
        ensures
            idx < old(self)@.monitors.len() ==> r == Result::<(), WmError>::Ok(()) && final(self)@
                == (WmView { focused_monitor_idx: idx as int, ..old(self)@ }),
            idx >= old(self)@.monitors.len() ==> r == Result::<(), WmError>::Err(
                WmError::IndexOutOfRange,
            ) && *final(self) == *old(self),
    {
        if idx < self.monitors.len() {
            self.focused_monitor_idx = idx;
            Ok(())
        } else {
            Err(WmError::IndexOutOfRange)
        }
    }

    /// Focuses workspace `idx` on the focused monitor, creating empty
    /// workspaces on demand when `idx` lies beyond the current count.
    pub fn focus_workspace(&mut self, idx: usize) -> (r: Result<(), WmError>)
        requires
            wm_wf(old(self)@),
        ensures
            r == Result::<(), WmError>::Ok(()),
            wm_wf(final(self)@),
            final(self)@.focused_monitor_idx == old(self)@.focused_monitor_idx,
            final(self)@.is_paused == old(self)@.is_paused,
            final(self)@.hidden_hwnds == old(self)@.hidden_hwnds,
            final(self)@.multi_window_exes == old(self)@.multi_window_exes,
            final(self)@.pending_resize_ops == old(self)@.pending_resize_ops,
            final(self)@.monitors.len() == old(self)@.monitors.len(),
            forall|i: int|
                0 <= i < old(self)@.monitors.len() && i != old(self)@.focused_monitor_idx
                    ==> final(self)@.monitors[i] == old(self)@.monitors[i],
            focused_monitor(final(self)@).focused_workspace_idx == idx as int,
            focused_monitor(final(self)@).work_area_size == focused_monitor(
                old(self)@,
            ).work_area_size,
            forall|j: int|
                0 <= j < focused_monitor(old(self)@).workspaces.len() ==> focused_monitor(
                    final(self)@,
                ).workspaces[j] == focused_monitor(old(self)@).workspaces[j],
            idx < focused_monitor(old(self)@).workspaces.len() ==> focused_monitor(
                final(self)@,
            ).workspaces == focused_monitor(old(self)@).workspaces,
            forall|j: int|
                focused_monitor(old(self)@).workspaces.len() <= j < focused_monitor(
                    final(self)@,
                ).workspaces.len() ==> (#[trigger] focused_monitor(
                    final(self)@,
                ).workspaces[j]).containers.len() == 0 && focused_monitor(
                    final(self)@,
                ).workspaces[j].floating.len() == 0,
    {
        let fm = self.focused_monitor_idx;
        let ghost prev = self.monitors@;
        let mut m = self.monitors.remove(fm);
        m.ensure_workspace_idx(idx);
        let result = m.focus_workspace(idx);
        self.monitors.insert(fm, m);
        proof {
            assert forall|i: int| 0 <= i < self.monitors@.len() implies mons_view(
                self.monitors@,
            )[i] == mons_view(prev).update(fm as int, m@)[i] by {
                if i < fm as int {
                    assert(self.monitors@[i] == prev[i]);
                } else if i == fm as int {
                    assert(self.monitors@[i] == m);
                } else {
                    assert(self.monitors@[i] == prev[i]);
                }
            }
            assert(mons_view(self.monitors@) =~= mons_view(prev).update(fm as int, m@));
            if idx < focused_monitor(old(self)@).workspaces.len() {
                assert(focused_monitor(final(self)@).workspaces =~= focused_monitor(
                    old(self)@,
                ).workspaces);
            }
            assert(mon_wf(m@));
        }
        Ok(())
    }

    /// Flips the pause flag; while it is set, events are acknowledged and
    /// dropped without touching the model.
    pub fn toggle_pause(&mut self)
        ensures
            final(self)@ == (WmView { is_paused: !old(self)@.is_paused, ..old(self)@ }),
    {
        self.is_paused = !self.is_paused;
    }

    /// Issues one directional resize request toward the platform; the
    /// embedding program drains and applies the pending requests. A
    /// missing step falls back to the default of 50 pixels.
    pub fn resize_window(&mut self, direction: OperationDirection, sizing: Sizing, step: Option<
        i64,
    >) -> (r: Result<(), WmError>)
        ensures
            r == Result::<(), WmError>::Ok(()),
            final(self)@ == (WmView {
                pending_resize_ops: old(self)@.pending_resize_ops.push(
                    ResizeOp {
                        direction,
                        sizing,
                        step: match step {
                            Some(s) => s,
                            None => 50,
                        },
                    },
                ),
                ..old(self)@
            }),
    {
        let step_px: i64 = match step {
            Some(s) => s,
            None => 50,
        };
        self.pending_resize_ops.push(ResizeOp { direction, sizing, step: step_px });
        Ok(())
    }

    /// Recomputes the focused workspace's layout for its current
    /// container count. A forced update also reapplies geometry that did
    /// not change, which is the embedding program's part; the model
    /// records the same rectangles either way.
    pub fn update_focused_workspace(&mut self, force: bool) -> (r: Result<(), WmError>)
        requires
            wm_wf(old(self)@),
        ensures
            r == Result::<(), WmError>::Ok(()),
            final(self)@ == wm_update_focused(old(self)@),
            wm_wf(final(self)@),
    {
        let fm = self.focused_monitor_idx;
        let ghost o = old(self)@;
        let ghost prev = self.monitors@;
        let mut m = self.monitors.remove(fm);
        proof {
            assert(m@ == o.monitors[fm as int]);
            assert(mon_wf(m@));
        }
        let fw = m.focused_workspace_idx;
        let ghost prev_ws = m.workspaces@;
        let mut ws = m.workspaces.remove(fw);
        proof {
            assert(ws@ == focused_workspace(o));
        }
        let result = ws.update(&m.work_area_size);
        m.workspaces.insert(fw, ws);
        proof {
            assert forall|j: int| 0 <= j < m.workspaces@.len() implies crate::monitor::wss_view(
                m.workspaces@,
            )[j] == crate::monitor::wss_view(prev_ws).update(fw as int, ws@)[j] by {
                if j != fw as int {
                    assert(m.workspaces@[j] == prev_ws[j]);
                } else {
                    assert(m.workspaces@[j] == ws);
                }
            }
            assert(crate::monitor::wss_view(m.workspaces@) =~= crate::monitor::wss_view(
                prev_ws,
            ).update(fw as int, ws@));
        }
        self.monitors.insert(fm, m);
        proof {
            assert forall|i: int| 0 <= i < self.monitors@.len() implies mons_view(
                self.monitors@,
            )[i] == mons_view(prev).update(fm as int, m@)[i] by {
                if i != fm as int {
                    assert(self.monitors@[i] == prev[i]);
                } else {
                    assert(self.monitors@[i] == m);
                }
            }
            assert(mons_view(self.monitors@) =~= mons_view(prev).update(fm as int, m@));
            let target = wm_update_focused(o);
            assert(m@ == target.monitors[fm as int]) by {
                assert(m@.workspaces =~= target.monitors[fm as int].workspaces);
            }
            assert(final(self)@.monitors =~= target.monitors);
            lemma_wm_update_focused_wf(o);
        }
        Ok(())
    }

    /// Removes handle `h` from the focused workspace and recomputes its
    /// layout; `WindowNotFound` tolerates a window that is already gone.
    fn remove_from_focused(&mut self, h: isize) -> (r: Result<(), WmError>)
        requires
            wm_wf(old(self)@),
        ensures
            final(self)@ == wm_remove_in_focused(old(self)@, h).0,
            r == wm_remove_in_focused(old(self)@, h).1,
            wm_wf(final(self)@),
    {
        let fm = self.focused_monitor_idx;
        let ghost o = old(self)@;
        let ghost prev = self.monitors@;
        let mut m = self.monitors.remove(fm);
        proof {
            assert(m@ == o.monitors[fm as int]);
            assert(mon_wf(m@));
        }
        let fw = m.focused_workspace_idx;
        let ghost prev_ws = m.workspaces@;
        let mut ws = m.workspaces.remove(fw);
        proof {
            assert(ws@ == focused_workspace(o));
        }
        let removed = ws.remove_window(h);
        if removed.is_ok() {
            let result = ws.update(&m.work_area_size);
        }
        m.workspaces.insert(fw, ws);
        proof {
            assert forall|j: int| 0 <= j < m.workspaces@.len() implies crate::monitor::wss_view(
                m.workspaces@,
            )[j] == crate::monitor::wss_view(prev_ws).update(fw as int, ws@)[j] by {
                if j != fw as int {
                    assert(m.workspaces@[j] == prev_ws[j]);
                } else {
                    assert(m.workspaces@[j] == ws);
                }
            }
            assert(crate::monitor::wss_view(m.workspaces@) =~= crate::monitor::wss_view(
                prev_ws,
            ).update(fw as int, ws@));
        }
        self.monitors.insert(fm, m);
        proof {
            assert forall|i: int| 0 <= i < self.monitors@.len() implies mons_view(
                self.monitors@,
            )[i] == mons_view(prev).update(fm as int, m@)[i] by {
                if i != fm as int {
                    assert(self.monitors@[i] == prev[i]);
                } else {
                    assert(self.monitors@[i] == m);
                }
            }
            assert(mons_view(self.monitors@) =~= mons_view(prev).update(fm as int, m@));
            if ws_has(focused_workspace(o), h) {
                crate::workspace::lemma_ws_remove_wf(focused_workspace(o), h);
                let removed_ws = ws_remove(focused_workspace(o), h);
                let mid = with_focused_workspace(o, removed_ws);
                lemma_focused_of_with(o, removed_ws);
                let ws2 = WorkspaceView {
                    latest_layout: layout_spec(
                        focused_monitor(o).work_area_size,
                        removed_ws.containers.len() as nat,
                    ),
                    ..removed_ws
                };
                assert(ws@ == ws2);
                assert(wm_update_focused(mid) == with_focused_workspace(mid, ws2));
                lemma_with_with(o, removed_ws, ws2);
                let target = with_focused_workspace(o, ws2);
                assert(m@ == target.monitors[fm as int]) by {
                    assert(m@.workspaces =~= target.monitors[fm as int].workspaces);
                }
                assert(final(self)@.monitors =~= target.monitors);
                lemma_with_focused_workspace_wf(o, ws2);
            } else {
                assert(m@ == o.monitors[fm as int]) by {
                    assert(m@.workspaces =~= o.monitors[fm as int].workspaces);
                }
                assert(final(self)@.monitors =~= o.monitors);
            }
        }
        match removed {
            Ok(()) => Ok(()),
            Err(e) => Err(e),
        }
    }

    /// The snapshot of every tracked tiled window handle, recomputed from
    /// the whole model in monitor, workspace, slot, stacking order; the
    /// embedding program persists it after every processed event.
    pub fn known_hwnds(&self) -> (r: Vec<isize>)
        ensures
            r@ == wm_hwnds(self@),
    {
        let ghost ms = mons_view(self.monitors@);
        let mut r: Vec<isize> = Vec::new();
        let mut i: usize = 0;
        while i < self.monitors.len()
            invariant
                i <= self.monitors@.len(),
                ms == mons_view(self.monitors@),
                r@ == mons_hwnds(ms.take(i as int)),
            decreases self.monitors@.len() - i,
        {
            proof {
                assert(ms.take(i as int + 1).drop_last() =~= ms.take(i as int));
                assert(ms.take(i as int + 1).last() == self.monitors@[i as int]@);
            }
            let ghost wss = ms[i as int].workspaces;
            let mut j: usize = 0;
            while j < self.monitors[i].workspaces.len()
                invariant
                    i < self.monitors@.len(),
                    j <= self.monitors@[i as int].workspaces@.len(),
                    ms == mons_view(self.monitors@),
                    wss == ms[i as int].workspaces,
                    wss.len() == self.monitors@[i as int].workspaces@.len(),
                    r@ == mons_hwnds(ms.take(i as int)) + wss_hwnds(wss.take(j as int)),
                decreases self.monitors@[i as int].workspaces@.len() - j,
            {
                proof {
                    assert(wss.take(j as int + 1).drop_last() =~= wss.take(j as int));
                    assert(wss.take(j as int + 1).last() == self.monitors@[i
                        as int].workspaces@[j as int]@);
                }
                let mut part = ws_hwnds_vec(&self.monitors[i].workspaces[j]);
                r.append(&mut part);
                proof {
                    assert(mons_hwnds(ms.take(i as int)) + wss_hwnds(wss.take(j as int))
                        + cons_hwnds(wss.take(j as int + 1).last().containers) =~= mons_hwnds(
                        ms.take(i as int),
                    ) + wss_hwnds(wss.take(j as int + 1)));
                }
                j = j + 1;
            }
            proof {
                assert(wss.take(wss.len() as int) =~= wss);
            }
            i = i + 1;
        }
        proof {
            assert(ms.take(ms.len() as int) =~= ms);
        }
        r
    }

    /// Opens a container for `w` in the focused workspace and recomputes
    /// its layout, unless the workspace already tiles the window.
    fn show_insert(&mut self, w: Window) -> (r: Result<(), WmError>)
        requires
            wm_wf(old(self)@),
        ensures
            final(self)@ == wm_show_insert(old(self)@, w).0,
            r == wm_show_insert(old(self)@, w).1,
            wm_wf(final(self)@),
    {
        let fm = self.focused_monitor_idx;
        let ghost o = old(self)@;
        let ghost prev = self.monitors@;
        let mut m = self.monitors.remove(fm);
        proof {
            assert(m@ == o.monitors[fm as int]);
            assert(mon_wf(m@));
        }
        let fw = m.focused_workspace_idx;
        let ghost prev_ws = m.workspaces@;
        let mut ws = m.workspaces.remove(fw);
        proof {
            assert(ws@ == focused_workspace(o));
        }
        let insert = ws.containers.len() == 0 || !ws.contains_window(w.hwnd);
        if insert {
            ws.new_container_for_window(w);
            let result = ws.update(&m.work_area_size);
        }
        m.workspaces.insert(fw, ws);
        proof {
            assert forall|j: int| 0 <= j < m.workspaces@.len() implies crate::monitor::wss_view(
                m.workspaces@,
            )[j] == crate::monitor::wss_view(prev_ws).update(fw as int, ws@)[j] by {
                if j != fw as int {
                    assert(m.workspaces@[j] == prev_ws[j]);
                } else {
                    assert(m.workspaces@[j] == ws);
                }
            }
            assert(crate::monitor::wss_view(m.workspaces@) =~= crate::monitor::wss_view(
                prev_ws,
            ).update(fw as int, ws@));
        }
        self.monitors.insert(fm, m);
        proof {
            assert forall|i: int| 0 <= i < self.monitors@.len() implies mons_view(
                self.monitors@,
            )[i] == mons_view(prev).update(fm as int, m@)[i] by {
                if i != fm as int {
                    assert(self.monitors@[i] == prev[i]);
                } else {
                    assert(self.monitors@[i] == m);
                }
            }
            assert(mons_view(self.monitors@) =~= mons_view(prev).update(fm as int, m@));
            let fws = focused_workspace(o);
            if insert {
                let pushed = ws_push_container(fws, w);
                assert(ws_wf(pushed)) by {
                    assert forall|k: int| 0 <= k < pushed.containers.len() implies crate::container::con_wf(
                        #[trigger] pushed.containers[k],
                    ) by {
                        if k < fws.containers.len() {
                            assert(pushed.containers[k] == fws.containers[k]);
                        } else {
                            assert(pushed.containers[k] == ContainerView {
                                windows: seq![w],
                                focused_window_idx: 0,
                            });
                        }
                    }
                }
                let mid = with_focused_workspace(o, pushed);
                lemma_focused_of_with(o, pushed);
                let ws2 = WorkspaceView {
                    latest_layout: layout_spec(
                        focused_monitor(o).work_area_size,
                        pushed.containers.len() as nat,
                    ),
                    ..pushed
                };
                assert(ws@ == ws2);
                assert(wm_update_focused(mid) == with_focused_workspace(mid, ws2));
                lemma_with_with(o, pushed, ws2);
                let target = with_focused_workspace(o, ws2);
                assert(m@ == target.monitors[fm as int]) by {
                    assert(m@.workspaces =~= target.monitors[fm as int].workspaces);
                }
                assert(final(self)@.monitors =~= target.monitors);
                lemma_with_focused_workspace_wf(o, ws2);
            } else {
                assert(m@ == o.monitors[fm as int]) by {
                    assert(m@.workspaces =~= o.monitors[fm as int].workspaces);
                }
                assert(final(self)@.monitors =~= o.monitors);
            }
        }
        Ok(())
    }

    /// Exchanges two container slots of the focused workspace and
    /// recomputes its layout.
    fn swap_in_focused(&mut self, a: usize, b: usize) -> (r: Result<(), WmError>)
        requires
            wm_wf(old(self)@),
            a < focused_workspace(old(self)@).containers.len(),
            b < focused_workspace(old(self)@).containers.len(),
        ensures
            r == Result::<(), WmError>::Ok(()),
            final(self)@ == wm_update_focused(
                with_focused_workspace(
                    old(self)@,
                    ws_swap(focused_workspace(old(self)@), a as int, b as int),
                ),
            ),
            wm_wf(final(self)@),
    {
        let fm = self.focused_monitor_idx;
        let ghost o = old(self)@;
        let ghost prev = self.monitors@;
        let mut m = self.monitors.remove(fm);
        proof {
            assert(m@ == o.monitors[fm as int]);
            assert(mon_wf(m@));
        }
        let fw = m.focused_workspace_idx;
        let ghost prev_ws = m.workspaces@;
        let mut ws = m.workspaces.remove(fw);
        proof {
            assert(ws@ == focused_workspace(o));
        }
        ws.swap_containers(a, b);
        let result = ws.update(&m.work_area_size);
        m.workspaces.insert(fw, ws);
        proof {
            assert forall|j: int| 0 <= j < m.workspaces@.len() implies crate::monitor::wss_view(
                m.workspaces@,
            )[j] == crate::monitor::wss_view(prev_ws).update(fw as int, ws@)[j] by {
                if j != fw as int {
                    assert(m.workspaces@[j] == prev_ws[j]);
                } else {
                    assert(m.workspaces@[j] == ws);
                }
            }
            assert(crate::monitor::wss_view(m.workspaces@) =~= crate::monitor::wss_view(
                prev_ws,
            ).update(fw as int, ws@));
        }
        self.monitors.insert(fm, m);
        proof {
            assert forall|i: int| 0 <= i < self.monitors@.len() implies mons_view(
                self.monitors@,
            )[i] == mons_view(prev).update(fm as int, m@)[i] by {
                if i != fm as int {
                    assert(self.monitors@[i] == prev[i]);
                } else {
                    assert(self.monitors@[i] == m);
                }
            }
            assert(mons_view(self.monitors@) =~= mons_view(prev).update(fm as int, m@));
            let fws = focused_workspace(o);
            let swapped = ws_swap(fws, a as int, b as int);
            assert(ws_wf(swapped)) by {
                assert forall|k: int| 0 <= k < swapped.containers.len() implies crate::container::con_wf(
                    #[trigger] swapped.containers[k],
                ) by {
                    if k == a as int {
                        assert(swapped.containers[k] == fws.containers[b as int]);
                    } else if k == b as int {
                        assert(swapped.containers[k] == fws.containers[a as int]);
                    } else {
                        assert(swapped.containers[k] == fws.containers[k]);
                    }
                }
            }
            let mid = with_focused_workspace(o, swapped);
            lemma_focused_of_with(o, swapped);
            let ws2 = WorkspaceView {
                latest_layout: layout_spec(
                    focused_monitor(o).work_area_size,
                    swapped.containers.len() as nat,
                ),
                ..swapped
            };
            assert(ws@ == ws2);
            assert(wm_update_focused(mid) == with_focused_workspace(mid, ws2));
            lemma_with_with(o, swapped, ws2);
            let target = with_focused_workspace(o, ws2);
            assert(m@ == target.monitors[fm as int]) by {
                assert(m@.workspaces =~= target.monitors[fm as int].workspaces);
            }
            assert(final(self)@.monitors =~= target.monitors);
            lemma_with_focused_workspace_wf(o, ws2);
        }
        Ok(())
    }

    /// Focuses the container stacking handle `h` in the focused
    /// workspace; a floating window is left alone, and a window that is
    /// gone is tolerated as `WindowNotFound`.
    fn focus_change_in_focused(&mut self, h: isize) -> (r: Result<(), WmError>)
        requires
            wm_wf(old(self)@),
        ensures
            final(self)@ == wm_focus_change_step(old(self)@, h).0,
            r == wm_focus_change_step(old(self)@, h).1,
            wm_wf(final(self)@),
    {
        let fm = self.focused_monitor_idx;
        let ghost o = old(self)@;
        let ghost prev = self.monitors@;
        let mut m = self.monitors.remove(fm);
        proof {
            assert(m@ == o.monitors[fm as int]);
            assert(mon_wf(m@));
        }
        let fw = m.focused_workspace_idx;
        let ghost prev_ws = m.workspaces@;
        let mut ws = m.workspaces.remove(fw);
        proof {
            assert(ws@ == focused_workspace(o));
        }
        let floating = ws.has_floating_window(h);
        let focused = if floating {
            Ok(())
        } else {
            ws.focus_container_by_window(h)
        };
        m.workspaces.insert(fw, ws);
        proof {
            assert forall|j: int| 0 <= j < m.workspaces@.len() implies crate::monitor::wss_view(
                m.workspaces@,
            )[j] == crate::monitor::wss_view(prev_ws).update(fw as int, ws@)[j] by {
                if j != fw as int {
                    assert(m.workspaces@[j] == prev_ws[j]);
                } else {
                    assert(m.workspaces@[j] == ws);
                }
            }
            assert(crate::monitor::wss_view(m.workspaces@) =~= crate::monitor::wss_view(
                prev_ws,
            ).update(fw as int, ws@));
        }
        self.monitors.insert(fm, m);
        proof {
            assert forall|i: int| 0 <= i < self.monitors@.len() implies mons_view(
                self.monitors@,
            )[i] == mons_view(prev).update(fm as int, m@)[i] by {
                if i != fm as int {
                    assert(self.monitors@[i] == prev[i]);
                } else {
                    assert(self.monitors@[i] == m);
                }
            }
            assert(mons_view(self.monitors@) =~= mons_view(prev).update(fm as int, m@));
            let fws = focused_workspace(o);
            if floating || !ws_tiled_has(fws, h) {
                assert(m@ == o.monitors[fm as int]) by {
                    assert(m@.workspaces =~= o.monitors[fm as int].workspaces);
                }
                assert(final(self)@.monitors =~= o.monitors);
            } else {
                let (ci, wi) = choose|ci: int, wi: int|
                    {
                        &&& 0 <= ci < fws.containers.len()
                        &&& 0 <= wi < fws.containers[ci].windows.len()
                        &&& fws.containers[ci].windows[wi].hwnd == h
                        &&& forall|j: int| 0 <= j < ci ==> !con_has_hwnd(fws.containers[j], h)
                        &&& forall|j: int| 0 <= j < wi ==> fws.containers[ci].windows[j].hwnd != h
                        &&& ws@.focused_container_idx == ci
                        &&& ws@.containers == fws.containers.update(
                            ci,
                            ContainerView {
                                windows: fws.containers[ci].windows,
                                focused_window_idx: wi,
                            },
                        )
                    };
                assert((|c: ContainerView| con_has_hwnd(c, h))(fws.containers[ci])) by {
                    assert(fws.containers[ci].windows[wi].hwnd == h);
                }
                crate::search::lemma_first_idx_at(
                    fws.containers,
                    |c: ContainerView| con_has_hwnd(c, h),
                    ci,
                );
                crate::search::lemma_first_idx_at(
                    fws.containers[ci].windows,
                    |w: Window| w.hwnd == h,
                    wi,
                );
                assert(ws@ == ws_focus_window(fws, h));
                let target = with_focused_workspace(o, ws_focus_window(fws, h));
                assert(m@ == target.monitors[fm as int]) by {
                    assert(m@.workspaces =~= target.monitors[fm as int].workspaces);
                }
                assert(final(self)@.monitors =~= target.monitors);
                assert(ws_wf(ws@)) by {
                    assert forall|k: int| 0 <= k < ws@.containers.len() implies crate::container::con_wf(
                        #[trigger] ws@.containers[k],
                    ) by {
                        if k != ci {
                            assert(ws@.containers[k] == fws.containers[k]);
                        }
                    }
                }
                lemma_with_focused_workspace_wf(o, ws@);
            }
        }
        if floating {
            return Ok(());
        }
        match focused {
            Ok(()) => Ok(()),
            Err(e) => Err(e),
        }
    }

    /// Processes one window-lifecycle notification against the platform
    /// answers in `platform`, in strict order: nothing while paused; a
    /// focused-monitor resync for focus-change, show and drag-end events;
    /// an orphan-reaping pass over every workspace; then the dispatch on
    /// the event kind. Every error is per-event and recoverable: the
    /// event loop logs it and continues. The snapshot must be consistent
    /// with the event: a platform that resolves a monitor for the
    /// window also lists its handle as valid.
    pub fn process_event(&mut self, event: &WindowManagerEvent, platform: &PlatformSnapshot) -> (r:
        Result<(), WmError>)
        requires
            wm_wf(old(self)@),
            crate::events::snapshot_consistent(*event, platform@),
        ensures
            final(self)@ == wm_step(old(self)@, *event, platform@).0,
            r == wm_step(old(self)@, *event, platform@).1,
            wm_wf(final(self)@),
    {
        let ghost o = old(self)@;
        if self.is_paused {
            return Ok(());
        }
        let w = event.window();
        let h = w.hwnd;
        let resync = matches!(
            event,
            WindowManagerEvent::FocusChange(..) | WindowManagerEvent::Show(..)
                | WindowManagerEvent::MoveResizeEnd(..)
        );
        if resync {
            match platform.event_window_monitor {
                None => {
                    return Err(WmError::NoOwningMonitor);
                },
                Some(mi) => {
                    match self.focus_monitor(mi) {
                        Ok(()) => {},
                        Err(e) => {
                            return Err(e);
                        },
                    }
                },
            }
        }
        let ghost resynced = self@;
        proof {
            assert(wm_wf(resynced));
        }
        let ghost valid = platform@.valid_hwnds;
        let mut i: usize = 0;
        while i < self.monitors.len()
            invariant
                i <= self.monitors@.len(),
                self.monitors@.len() == resynced.monitors.len(),
                self.focused_monitor_idx as int == resynced.focused_monitor_idx,
                self.is_paused == resynced.is_paused,
                self.hidden_hwnds@ == resynced.hidden_hwnds,
                strs_view(self.multi_window_exes@) == resynced.multi_window_exes,
                self.pending_resize_ops@ == resynced.pending_resize_ops,
                valid == platform@.valid_hwnds,
                wm_wf(resynced),
                forall|k: int|
                    0 <= k < i ==> mons_view(self.monitors@)[k] == mon_reap(
                        #[trigger] resynced.monitors[k],
                        valid,
                    ),
                forall|k: int|
                    i <= k < self.monitors@.len() ==> mons_view(self.monitors@)[k]
                        == resynced.monitors[k],
            decreases self.monitors@.len() - i,
        {
            let ghost prev = self.monitors@;
            let mut m = self.monitors.remove(i);
            proof {
                assert(m@ == resynced.monitors[i as int]);
                assert(mon_wf(m@));
            }
            m.reap_orphans_all(&platform.valid_hwnds);
            self.monitors.insert(i, m);
            proof {
                assert forall|k: int| 0 <= k < self.monitors@.len() implies mons_view(
                    self.monitors@,
                )[k] == mons_view(prev).update(i as int, m@)[k] by {
                    if k != i as int {
                        assert(self.monitors@[k] == prev[k]);
                    } else {
                        assert(self.monitors@[k] == m);
                    }
                }
            }
            i = i + 1;
        }
        proof {
            assert(self@.monitors =~= wm_reap(resynced, valid).monitors);
            assert(self@ == wm_reap(resynced, valid));
            lemma_wm_reap_wf(resynced, valid);
        }
        let ghost base = self@;
        if matches!(event, WindowManagerEvent::MouseCapture(..)) {
            return Ok(());
        }
        match event {
            WindowManagerEvent::Minimize(..) | WindowManagerEvent::Destroy(..) => {
                let removed = self.remove_from_focused(h);
                removed
            },
            WindowManagerEvent::Hide(..) => {
                if !crate::container::contains_hwnd(&platform.valid_hwnds, h) {
                    if !crate::container::contains_hwnd(&self.hidden_hwnds, h) {
                        let removed = self.remove_from_focused(h);
                        removed
                    } else {
                        Ok(())
                    }
                } else {
                    match &platform.event_window_exe {
                        None => {
                            proof {
                                assert(platform@.event_window_exe is None);
                            }
                            Err(WmError::PlatformQueryFailed)
                        },
                        Some(exe) => {
                            proof {
                                assert(platform@.event_window_exe == Some(exe@));
                            }
                            let spurious = self.multi_exes_contains(exe);
                            if spurious && !crate::container::contains_hwnd(
                                &self.hidden_hwnds,
                                h,
                            ) {
                                let removed = self.remove_from_focused(h);
                                removed
                            } else {
                                Ok(())
                            }
                        },
                    }
                }
            },
            WindowManagerEvent::FocusChange(..) => {
                let focused = self.focus_change_in_focused(h);
                focused
            },
            WindowManagerEvent::Show(..) => {
                let ghost ms = base.monitors;
                let mut found: Option<(usize, usize)> = None;
                let mut mi: usize = 0;
                while mi < self.monitors.len()
                    invariant
                        wm_wf(base),
                        self@ == base,
                        mi <= self.monitors@.len(),
                        ms == mons_view(self.monitors@),
                        match found {
                            Some(ab) => last_mon_ws_with(ms.take(mi as int), h) == Some(
                                (ab.0 as int, ab.1 as int),
                            ) && ab.0 < ms.len() && ab.1
                                < ms[ab.0 as int].workspaces.len(),
                            None => last_mon_ws_with(ms.take(mi as int), h) is None,
                        },
                    decreases self.monitors@.len() - mi,
                {
                    let ghost found_before = found;
                    let ghost wss = ms[mi as int].workspaces;
                    let mut wj: usize = 0;
                    while wj < self.monitors[mi].workspaces.len()
                        invariant
                            wm_wf(base),
                            self@ == base,
                            mi < self.monitors@.len(),
                            wj <= self.monitors@[mi as int].workspaces@.len(),
                            ms == mons_view(self.monitors@),
                            wss == ms[mi as int].workspaces,
                            wss.len() == self.monitors@[mi as int].workspaces@.len(),
                            match found_before {
                                Some(ab) => last_mon_ws_with(ms.take(mi as int), h) == Some(
                                    (ab.0 as int, ab.1 as int),
                                ) && ab.0 < ms.len() && ab.1
                                    < ms[ab.0 as int].workspaces.len(),
                                None => last_mon_ws_with(ms.take(mi as int), h) is None,
                            },
                            if last_ws_with(wss.take(wj as int), h) >= 0 {
                                found == Some(
                                    (mi, last_ws_with(wss.take(wj as int), h) as usize),
                                )
                            } else {
                                found == found_before
                            },
                        decreases self.monitors@[mi as int].workspaces@.len() - wj,
                    {
                        proof {
                            assert(wss.take(wj as int + 1).drop_last() =~= wss.take(wj as int));
                            assert(wss.take(wj as int + 1).last() == self.monitors@[mi
                                as int].workspaces@[wj as int]@);
                            lemma_last_ws_with_bounds(wss.take(wj as int + 1), h);
                        }
                        if self.monitors[mi].workspaces[wj].contains_window(h) {
                            found = Some((mi, wj));
                        }
                        wj = wj + 1;
                    }
                    proof {
                        assert(wss.take(wss.len() as int) =~= wss);
                        assert(ms.take(mi as int + 1).drop_last() =~= ms.take(mi as int));
                        assert(ms.take(mi as int + 1).last() == ms[mi as int]);
                        lemma_last_ws_with_bounds(wss, h);
                    }
                    mi = mi + 1;
                }
                proof {
                    assert(ms.take(ms.len() as int) =~= ms);
                }
                match found {
                    Some(ij) => {
                        let (a, b) = ij;
                        let switch = self.focused_monitor_idx != a || {
                            let fm = self.focused_monitor_idx;
                            self.monitors[fm].focused_workspace_idx != b
                        };
                        if switch {
                            let r1 = self.focus_monitor(a);
                            let r2 = self.focus_workspace(b);
                            proof {
                                let target = wm_show_step(base, w).0;
                                assert(focused_monitor(final(self)@).workspaces =~= target.monitors[a as int].workspaces);
                                assert(final(self)@.monitors[a as int] == target.monitors[a as int]);
                                assert(final(self)@.monitors =~= target.monitors);
                                assert(wm_wf(final(self)@)) by {
                                    assert forall|k: int|
                                        0 <= k < final(self)@.monitors.len() implies mon_wf(
                                        #[trigger] final(self)@.monitors[k],
                                    ) by {
                                        if k != a as int {
                                            assert(final(self)@.monitors[k] == base.monitors[k]);
                                        }
                                    }
                                }
                            }
                            Ok(())
                        } else {
                            let inserted = self.show_insert(w);
                            inserted
                        }
                    },
                    None => {
                        let inserted = self.show_insert(w);
                        inserted
                    },
                }
            },
            WindowManagerEvent::MoveResizeEnd(..) => {
                let fm = self.focused_monitor_idx;
                let fw = self.monitors[fm].focused_workspace_idx;
                let ghost fws = focused_workspace(base);
                proof {
                    assert(self.monitors@[fm as int]@ == base.monitors[fm as int]);
                    assert(self.monitors@[fm as int].workspaces@[fw as int]@ == fws);
                }
                if self.monitors[fm].workspaces[fw].has_floating_window(h) {
                    return Ok(());
                }
                let ci = match self.monitors[fm].workspaces[fw].container_idx_for_window(h) {
                    None => {
                        proof {
                            crate::search::lemma_first_idx_none(
                                fws.containers,
                                |c: ContainerView| con_has_hwnd(c, h),
                            );
                        }
                        return Err(WmError::WindowNotFound);
                    },
                    Some(ci) => {
                        proof {
                            crate::search::lemma_first_idx_at(
                                fws.containers,
                                |c: ContainerView| con_has_hwnd(c, h),
                                ci as int,
                            );
                        }
                        ci
                    },
                };
                if ci >= self.monitors[fm].workspaces[fw].latest_layout.len() {
                    return Err(WmError::NoLatestLayout);
                }
                let old_pos = self.monitors[fm].workspaces[fw].latest_layout[ci];
                let raw = match platform.event_window_rect {
                    None => {
                        return Err(WmError::GeometryQueryFailed);
                    },
                    Some(raw) => raw,
                };
                match crate::drag::classify_drag(&old_pos, &raw) {
                    crate::drag::DragDecision::Move => {
                        let target = self.monitors[fm].workspaces[fw]
                            .container_idx_from_current_point(platform.pointer);
                        match target {
                            Some(t) => {
                                proof {
                                    crate::search::lemma_first_idx_at(
                                        fws.latest_layout,
                                        |rc: Rect| rect_contains_point(rc, platform@.pointer),
                                        t as int,
                                    );
                                }
                                let swapped = self.swap_in_focused(ci, t);
                                swapped
                            },
                            None => {
                                proof {
                                    crate::search::lemma_first_idx_none(
                                        fws.latest_layout,
                                        |rc: Rect| rect_contains_point(rc, platform@.pointer),
                                    );
                                }
                                let updated = self.update_focused_workspace(true);
                                updated
                            },
                        }
                    },
                    crate::drag::DragDecision::Resize(ops) => {
                        let ghost expected = resize_ops(old_pos, raw);
                        let mut k: usize = 0;
                        while k < ops.len()
                            invariant
                                wm_wf(base),
                                k <= ops@.len(),
                                ops@ == expected,
                                self@ == (WmView {
                                    pending_resize_ops: base.pending_resize_ops + expected.take(
                                        k as int,
                                    ),
                                    ..base
                                }),
                            decreases ops@.len() - k,
                        {
                            let op = ops[k];
                            let pushed = self.resize_window(op.direction, op.sizing, Some(op.step));
                            proof {
                                assert(base.pending_resize_ops + expected.take(k as int + 1)
                                    =~= (base.pending_resize_ops + expected.take(k as int)).push(
                                    expected[k as int],
                                ));
                            }
                            k = k + 1;
                        }
                        proof {
                            assert(expected.take(expected.len() as int) =~= expected);
                            assert(self@ == (WmView {
                                pending_resize_ops: base.pending_resize_ops + expected,
                                ..base
                            }));
                            assert(focused_workspace(self@) == focused_workspace(base));
                            assert(wm_wf(self@));
                        }
                        let updated = self.update_focused_workspace(false);
                        updated
                    },
                }
            },
            WindowManagerEvent::MouseCapture(..) => Ok(()),
        }
    }

    /// Whether the configured multi-window executable list holds `exe`.
    fn multi_exes_contains(&self, exe: &String) -> (b: bool)
        ensures
            b == str_list_has(self@.multi_window_exes, exe@),
    {
        let mut i: usize = 0;
        while i < self.multi_window_exes.len()
            invariant
                i <= self.multi_window_exes@.len(),
                forall|j: int| 0 <= j < i ==> strs_view(self.multi_window_exes@)[j] != exe@,
            decreases self.multi_window_exes@.len() - i,
        {
            let hit = self.multi_window_exes[i].eq(exe);
            proof {
                assert(strs_view(self.multi_window_exes@)[i as int] == self.multi_window_exes@[i
                    as int]@);
            }
            if hit {
                proof {
                    assert(str_list_has(self@.multi_window_exes, exe@)) by {
                        assert(self@.multi_window_exes[i as int] == exe@);
                    }
                }
                return true;
            }
            i = i + 1;
        }
        false
    }
}

} // verus!
