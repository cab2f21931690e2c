//! The library's stated laws, proved against the event-step specification
//! that `WindowManager::process_event` is verified to implement.

use vstd::prelude::*;

use crate::container::con_has_hwnd;
use crate::container::con_reap;
use crate::container::con_without;
use crate::container::clamp_idx;
use crate::container::lemma_wins_valid_members;
use crate::container::lemma_wins_without_members;
use crate::container::wins_valid;
use crate::container::ContainerView;
use crate::container::Window;
use crate::errors::WmError;
use crate::events::SnapshotView;
use crate::geometry::Rect;
use crate::workspace::ws_floating_has;
use crate::events::WindowManagerEvent;
use crate::manager::focused_monitor;
use crate::manager::focused_workspace;
use crate::manager::last_mon_ws_with;
use crate::manager::last_ws_with;
use crate::manager::lemma_last_mon_ws_with_bounds;
use crate::manager::lemma_last_ws_with_bounds;
use crate::manager::with_focused_workspace;
use crate::manager::wm_reap;
use crate::manager::wm_remove_in_focused;
use crate::manager::wm_show_insert;
use crate::manager::wm_step;
use crate::manager::wm_tiled_has;
use crate::manager::wm_update_focused;
use crate::manager::wm_wf;
use crate::manager::WmView;
use crate::monitor::mon_reap;
use crate::monitor::ws_reap_update;
use crate::monitor::MonitorView;
use crate::workspace::cons_reap;
use crate::workspace::cons_without;
use crate::workspace::sat_usize;
use crate::workspace::ws_has;
use crate::workspace::ws_reap;
use crate::workspace::ws_remove;
use crate::workspace::ws_tiled_has;
use crate::workspace::ws_window_count;
use crate::workspace::WorkspaceView;

verus! {

/// While paused, any event is acknowledged without touching the model:
/// every monitor, workspace, container and window collection is exactly
/// what it was.
pub proof fn lemma_pause_drops_events(wm: WmView, e: WindowManagerEvent, p: SnapshotView)
    requires
        wm.is_paused,
    ensures
        wm_step(wm, e, p).0 == wm,
        wm_step(wm, e, p).1 == Result::<(), WmError>::Ok(()),
{
}

/// A window sequence whose handles are all in `valid` is kept whole.
proof fn lemma_wins_valid_stable(s: Seq<Window>, valid: Seq<isize>)
    requires
        forall|k: int| 0 <= k < s.len() ==> valid.contains(#[trigger] s[k].hwnd),
    ensures
        wins_valid(s, valid) == s,
    decreases s.len(),
{
    if s.len() > 0 {
        assert forall|k: int| 0 <= k < s.drop_last().len() implies valid.contains(
            #[trigger] s.drop_last()[k].hwnd,
        ) by {
            assert(s.drop_last()[k] == s[k]);
        }
        lemma_wins_valid_stable(s.drop_last(), valid);
        assert(valid.contains(s.last().hwnd));
        assert(s.drop_last().push(s.last()) =~= s);
    }
}

/// Reaping a container sequence twice removes nothing more.
proof fn lemma_cons_reap_idem(cs: Seq<ContainerView>, valid: Seq<isize>)
    ensures
        cons_reap(cons_reap(cs, valid), valid) == cons_reap(cs, valid),
    decreases cs.len(),
{
    if cs.len() > 0 {
        lemma_cons_reap_idem(cs.drop_last(), valid);
        let prefix = cons_reap(cs.drop_last(), valid);
        let c = con_reap(cs.last(), valid);
        if c.windows.len() > 0 {
            assert(prefix.push(c).drop_last() =~= prefix);
            assert(prefix.push(c).last() == c);
            lemma_wins_valid_members(cs.last().windows, valid);
            lemma_wins_valid_stable(c.windows, valid);
            assert(con_reap(c, valid) == c);
            assert(cons_reap(prefix.push(c), valid) =~= cons_reap(prefix, valid).push(c));
        }
    }
}

/// Law: orphan reaping is idempotent. One pass leaves a workspace from
/// which a second pass against the same set of valid handles removes
/// nothing: no window, no container, and the state is unchanged.
pub proof fn lemma_reap_idempotent(ws: WorkspaceView, valid: Seq<isize>)
    ensures
        ws_reap(ws_reap(ws, valid), valid) == ws_reap(ws, valid),
        ws_window_count(ws_reap(ws, valid)) - ws_window_count(ws_reap(ws_reap(ws, valid), valid))
            == 0,
        sat_usize(
            ws_window_count(ws_reap(ws, valid)) - ws_window_count(
                ws_reap(ws_reap(ws, valid), valid),
            ),
        ) == 0,
        ws_reap(ws, valid).containers.len() - ws_reap(ws_reap(ws, valid), valid).containers.len()
            == 0,
{
    lemma_cons_reap_idem(ws.containers, valid);
    lemma_wins_valid_members(ws.floating, valid);
    lemma_wins_valid_stable(wins_valid(ws.floating, valid), valid);
    let once = ws_reap(ws, valid);
    assert(clamp_idx(once.focused_container_idx, once.containers.len() as int)
        == once.focused_container_idx);
}

/// Law: the whole reaping pass of the event machine is idempotent. One
/// pass over every monitor leaves a model in which a second pass against
/// the same set of valid handles changes nothing — so it reaps (0, 0)
/// from every workspace and triggers no layout recomputation.
pub proof fn lemma_reap_pass_idempotent(wm: WmView, valid: Seq<isize>)
    ensures
        wm_reap(wm_reap(wm, valid), valid) == wm_reap(wm, valid),
{
    let once = wm_reap(wm, valid);
    let twice = wm_reap(once, valid);
    assert forall|i: int| 0 <= i < once.monitors.len() implies twice.monitors[i]
        == once.monitors[i] by {
        let m = wm.monitors[i];
        let m1 = mon_reap(m, valid);
        assert forall|j: int| 0 <= j < m1.workspaces.len() implies mon_reap(
            m1,
            valid,
        ).workspaces[j] == m1.workspaces[j] by {
            let ws = m.workspaces[j];
            let u = ws_reap_update(ws, valid, m.work_area_size);
            lemma_reap_idempotent(ws, valid);
            assert(ws_reap(u, valid) == u) by {
                let r = ws_reap(ws, valid);
                assert(cons_reap(r.containers, valid) == r.containers);
                assert(wins_valid(r.floating, valid) == r.floating);
                assert(clamp_idx(r.focused_container_idx, r.containers.len() as int)
                    == r.focused_container_idx);
            }
            assert(ws_reap_update(u, valid, m1.work_area_size) == u);
        }
        assert(mon_reap(m1, valid).workspaces =~= m1.workspaces);
        assert(twice.monitors[i] == mon_reap(m1, valid));
    }
    assert(twice.monitors =~= once.monitors);
}

/// Every handle a workspace holds, tiled or floating, is in `valid`.
pub open spec fn ws_handles_valid(ws: WorkspaceView, valid: Seq<isize>) -> bool {
    &&& forall|i: int, k: int|
        0 <= i < ws.containers.len() && 0 <= k < ws.containers[i].windows.len() ==> valid.contains(
            #[trigger] ws.containers[i].windows[k].hwnd,
        )
    &&& forall|k: int| 0 <= k < ws.floating.len() ==> valid.contains(#[trigger] ws.floating[k].hwnd)
}

/// The containers reaping keeps stack handles in `valid` only.
proof fn lemma_cons_reap_members(cs: Seq<ContainerView>, valid: Seq<isize>)
    ensures
        forall|i: int, k: int|
            0 <= i < cons_reap(cs, valid).len() && 0 <= k < cons_reap(
                cs,
                valid,
            )[i].windows.len() ==> valid.contains(
                #[trigger] cons_reap(cs, valid)[i].windows[k].hwnd,
            ),
    decreases cs.len(),
{
    if cs.len() > 0 {
        lemma_cons_reap_members(cs.drop_last(), valid);
        lemma_wins_valid_members(cs.last().windows, valid);
        let out = cons_reap(cs, valid);
        let prefix = cons_reap(cs.drop_last(), valid);
        assert forall|i: int, k: int|
            0 <= i < out.len() && 0 <= k < out[i].windows.len() implies valid.contains(
            #[trigger] out[i].windows[k].hwnd,
        ) by {
            if i < prefix.len() {
                assert(out[i] == prefix[i]);
            } else {
                assert(out[i] == con_reap(cs.last(), valid));
            }
        }
    }
}

/// Removing a handle keeps only handles the originals had.
proof fn lemma_cons_without_valid(cs: Seq<ContainerView>, valid: Seq<isize>, h: isize)
    requires
        forall|i: int, k: int|
            0 <= i < cs.len() && 0 <= k < cs[i].windows.len() ==> valid.contains(
                #[trigger] cs[i].windows[k].hwnd,
            ),
    ensures
        forall|i: int, k: int|
            0 <= i < cons_without(cs, h).len() && 0 <= k < cons_without(
                cs,
                h,
            )[i].windows.len() ==> valid.contains(
                #[trigger] cons_without(cs, h)[i].windows[k].hwnd,
            ),
    decreases cs.len(),
{
    if cs.len() > 0 {
        assert forall|i: int, k: int|
            0 <= i < cs.drop_last().len() && 0 <= k
                < cs.drop_last()[i].windows.len() implies valid.contains(
            #[trigger] cs.drop_last()[i].windows[k].hwnd,
        ) by {
            assert(cs.drop_last()[i] == cs[i]);
        }
        lemma_cons_without_valid(cs.drop_last(), valid, h);
        lemma_wins_without_members(cs.last().windows, h);
        let out = cons_without(cs, h);
        let prefix = cons_without(cs.drop_last(), h);
        assert forall|i: int, k: int|
            0 <= i < out.len() && 0 <= k < out[i].windows.len() implies valid.contains(
            #[trigger] out[i].windows[k].hwnd,
        ) by {
            if i < prefix.len() {
                assert(out[i] == prefix[i]);
            } else {
                assert(out[i] == con_without(cs.last(), h));
                let w = out[i].windows[k];
                assert(cs.last().windows.contains(w));
                let k0 = choose|k0: int|
                    0 <= k0 < cs.last().windows.len() && cs.last().windows[k0] == w;
                assert(valid.contains(cs[cs.len() - 1].windows[k0].hwnd));
            }
        }
    }
}

/// A sequence of well-formed containers stacking only valid handles is
/// left whole by reaping.
proof fn lemma_cons_reap_stable(cs: Seq<ContainerView>, valid: Seq<isize>)
    requires
        forall|i: int| 0 <= i < cs.len() ==> crate::container::con_wf(#[trigger] cs[i]),
        forall|i: int, k: int|
            0 <= i < cs.len() && 0 <= k < cs[i].windows.len() ==> valid.contains(
                #[trigger] cs[i].windows[k].hwnd,
            ),
    ensures
        cons_reap(cs, valid) == cs,
    decreases cs.len(),
{
    if cs.len() > 0 {
        assert forall|i: int| 0 <= i < cs.drop_last().len() implies crate::container::con_wf(
            #[trigger] cs.drop_last()[i],
        ) by {
            assert(cs.drop_last()[i] == cs[i]);
        }
        assert forall|i: int, k: int|
            0 <= i < cs.drop_last().len() && 0 <= k
                < cs.drop_last()[i].windows.len() implies valid.contains(
            #[trigger] cs.drop_last()[i].windows[k].hwnd,
        ) by {
            assert(cs.drop_last()[i] == cs[i]);
        }
        lemma_cons_reap_stable(cs.drop_last(), valid);
        assert forall|k: int| 0 <= k < cs.last().windows.len() implies valid.contains(
            #[trigger] cs.last().windows[k].hwnd,
        ) by {
            assert(cs[cs.len() - 1].windows[k] == cs.last().windows[k]);
        }
        lemma_wins_valid_stable(cs.last().windows, valid);
        assert(crate::container::con_wf(cs[cs.len() - 1]));
        assert(con_reap(cs.last(), valid) == cs.last());
        assert(cons_reap(cs, valid) =~= cs);
    }
}

/// A well-formed workspace holding only valid handles is left whole by
/// the reaping pass, layout recomputation included.
proof fn lemma_ws_stable(ws: WorkspaceView, valid: Seq<isize>)
    requires
        crate::workspace::ws_wf(ws),
        ws_handles_valid(ws, valid),
    ensures
        ws_reap(ws, valid) == ws,
        forall|a: crate::geometry::Rect| ws_reap_update(ws, valid, a) == ws,
{
    lemma_cons_reap_stable(ws.containers, valid);
    lemma_wins_valid_stable(ws.floating, valid);
    assert(clamp_idx(ws.focused_container_idx, ws.containers.len() as int)
        == ws.focused_container_idx);
    assert(ws_reap(ws, valid) == ws);
}

/// A model whose every workspace is well formed and holds only valid
/// handles is left whole by the whole reaping pass.
proof fn lemma_wm_stable(wmx: WmView, valid: Seq<isize>)
    requires
        forall|i: int, j: int|
            0 <= i < wmx.monitors.len() && 0 <= j < wmx.monitors[i].workspaces.len()
                ==> crate::workspace::ws_wf(#[trigger] wmx.monitors[i].workspaces[j])
                && ws_handles_valid(wmx.monitors[i].workspaces[j], valid),
    ensures
        forall|i: int, j: int|
            0 <= i < wmx.monitors.len() && 0 <= j < wmx.monitors[i].workspaces.len() ==> ws_reap(
                #[trigger] wmx.monitors[i].workspaces[j],
                valid,
            ) == wmx.monitors[i].workspaces[j],
        wm_reap(wmx, valid) == wmx,
{
    assert forall|i: int, j: int|
        0 <= i < wmx.monitors.len() && 0 <= j < wmx.monitors[i].workspaces.len() implies ws_reap(
        #[trigger] wmx.monitors[i].workspaces[j],
        valid,
    ) == wmx.monitors[i].workspaces[j] by {
        lemma_ws_stable(wmx.monitors[i].workspaces[j], valid);
    }
    assert forall|i: int| 0 <= i < wmx.monitors.len() implies wm_reap(wmx, valid).monitors[i]
        == wmx.monitors[i] by {
        let m = wmx.monitors[i];
        assert forall|j: int| 0 <= j < m.workspaces.len() implies mon_reap(
            m,
            valid,
        ).workspaces[j] == m.workspaces[j] by {
            lemma_ws_stable(m.workspaces[j], valid);
        }
        assert(mon_reap(m, valid).workspaces =~= m.workspaces);
    }
    assert(wm_reap(wmx, valid).monitors =~= wmx.monitors);
}

/// Whether every workspace of the model is well formed and holds only
/// handles in `valid`.
pub open spec fn wm_grid_valid(wmx: WmView, valid: Seq<isize>) -> bool {
    forall|i: int, j: int|
        0 <= i < wmx.monitors.len() && 0 <= j < wmx.monitors[i].workspaces.len()
            ==> crate::workspace::ws_wf(#[trigger] wmx.monitors[i].workspaces[j])
            && ws_handles_valid(wmx.monitors[i].workspaces[j], valid)
}

/// A model sharing its monitor grid with a stable one, with the focused
/// workspace replaced by a well-formed workspace of valid handles, is
/// left whole by the reaping pass.
proof fn lemma_updated_grid_stable(
    base: WmView,
    valid: Seq<isize>,
    wmy: WmView,
    ws2: WorkspaceView,
)
    requires
        wm_wf(base),
        wm_grid_valid(base, valid),
        crate::workspace::ws_wf(ws2),
        ws_handles_valid(ws2, valid),
        wmy.monitors == with_focused_workspace(base, ws2).monitors,
    ensures
        wm_grid_valid(wmy, valid),
        wm_reap(wmy, valid) == wmy,
{
    let fm = base.focused_monitor_idx;
    let fw = focused_monitor(base).focused_workspace_idx;
    assert forall|i: int, j: int|
        0 <= i < wmy.monitors.len() && 0 <= j
            < wmy.monitors[i].workspaces.len() implies crate::workspace::ws_wf(
        #[trigger] wmy.monitors[i].workspaces[j],
    ) && ws_handles_valid(wmy.monitors[i].workspaces[j], valid) by {
        if i == fm && j == fw {
            assert(wmy.monitors[i].workspaces[j] == ws2);
        } else if i == fm {
            assert(wmy.monitors[i].workspaces[j] == base.monitors[i].workspaces[j]);
        } else {
            assert(wmy.monitors[i] == base.monitors[i]);
        }
    }
    lemma_wm_stable(wmy, valid);
}

/// The reaping pass leaves the state after a processed event whole when
/// the event's own workspace mutation keeps to valid handles.
proof fn lemma_remove_outcome_stable(base: WmView, valid: Seq<isize>, h: isize)
    requires
        wm_wf(base),
        wm_grid_valid(base, valid),
    ensures
        wm_grid_valid(wm_remove_in_focused(base, h).0, valid),
        wm_reap(wm_remove_in_focused(base, h).0, valid) == wm_remove_in_focused(base, h).0,
{
    let fws = focused_workspace(base);
    assert(crate::workspace::ws_wf(fws));
    assert(ws_handles_valid(fws, valid));
    if ws_has(fws, h) {
        let removed = ws_remove(fws, h);
        crate::workspace::lemma_ws_remove_wf(fws, h);
        let mid = with_focused_workspace(base, removed);
        crate::manager::lemma_focused_of_with(base, removed);
        let ws2 = WorkspaceView {
            latest_layout: crate::layout::layout_spec(
                focused_monitor(base).work_area_size,
                removed.containers.len() as nat,
            ),
            ..removed
        };
        assert(wm_update_focused(mid) == with_focused_workspace(mid, ws2));
        crate::manager::lemma_with_with(base, removed, ws2);
        lemma_cons_without_valid(fws.containers, valid, h);
        lemma_wins_without_members(fws.floating, h);
        assert forall|k: int| 0 <= k < ws2.floating.len() implies valid.contains(
            #[trigger] ws2.floating[k].hwnd,
        ) by {
            let w = ws2.floating[k];
            assert(fws.floating.contains(w));
            let k0 = choose|k0: int| 0 <= k0 < fws.floating.len() && fws.floating[k0] == w;
            assert(valid.contains(fws.floating[k0].hwnd));
        }
        lemma_updated_grid_stable(base, valid, wm_remove_in_focused(base, h).0, ws2);
    } else {
        lemma_wm_stable(base, valid);
    }
}

/// No container kept by a removal of handle `h` still stacks `h`.
proof fn lemma_cons_without_no_h(cs: Seq<ContainerView>, h: isize)
    ensures
        forall|i: int|
            0 <= i < cons_without(cs, h).len() ==> !con_has_hwnd(
                #[trigger] cons_without(cs, h)[i],
                h,
            ),
    decreases cs.len(),
{
    if cs.len() > 0 {
        lemma_cons_without_no_h(cs.drop_last(), h);
        let out = cons_without(cs, h);
        let prefix = cons_without(cs.drop_last(), h);
        assert forall|i: int| 0 <= i < out.len() implies !con_has_hwnd(#[trigger] out[i], h) by {
            if i < prefix.len() {
                assert(out[i] == prefix[i]);
            } else {
                assert(out[i] == con_without(cs.last(), h));
                lemma_wins_without_members(cs.last().windows, h);
            }
        }
    }
}

/// A container kept by reaping stacks only handles the original
/// container stacked.
proof fn lemma_cons_reap_reflects(cs: Seq<ContainerView>, valid: Seq<isize>, h: isize)
    ensures
        (exists|i: int|
            0 <= i < cons_reap(cs, valid).len() && con_has_hwnd(
                #[trigger] cons_reap(cs, valid)[i],
                h,
            )) ==> exists|i: int| 0 <= i < cs.len() && con_has_hwnd(#[trigger] cs[i], h),
    decreases cs.len(),
{
    if cs.len() > 0 {
        lemma_cons_reap_reflects(cs.drop_last(), valid, h);
        let out = cons_reap(cs, valid);
        let prefix = cons_reap(cs.drop_last(), valid);
        if exists|i: int| 0 <= i < out.len() && con_has_hwnd(#[trigger] out[i], h) {
            let i = choose|i: int| 0 <= i < out.len() && con_has_hwnd(#[trigger] out[i], h);
            if i < prefix.len() {
                assert(out[i] == prefix[i]);
                let i0 = choose|i0: int|
                    0 <= i0 < cs.drop_last().len() && con_has_hwnd(
                        #[trigger] cs.drop_last()[i0],
                        h,
                    );
                assert(cs[i0] == cs.drop_last()[i0]);
                assert(con_has_hwnd(cs[i0], h));
            } else {
                assert(out[i] == con_reap(cs.last(), valid));
                lemma_wins_valid_members(cs.last().windows, valid);
                let k = choose|k: int|
                    0 <= k < out[i].windows.len() && out[i].windows[k].hwnd == h;
                assert(cs.last().windows.contains(out[i].windows[k]));
                let k0 = choose|k0: int|
                    0 <= k0 < cs.last().windows.len() && cs.last().windows[k0] == out[i].windows[k];
                assert(con_has_hwnd(cs.last(), h)) by {
                    assert(cs.last().windows[k0].hwnd == h);
                }
                assert(cs[cs.len() - 1] == cs.last());
                assert(con_has_hwnd(cs[cs.len() - 1], h));
            }
        }
    }
}

/// Handle `h` is tiled nowhere but possibly at monitor `i0`,
/// workspace `j0`.
pub open spec fn tiled_only_at(wm: WmView, h: isize, i0: int, j0: int) -> bool {
    forall|i: int, j: int|
        0 <= i < wm.monitors.len() && 0 <= j < wm.monitors[i].workspaces.len() && ws_tiled_has(
            #[trigger] wm.monitors[i].workspaces[j],
            h,
        ) ==> i == i0 && j == j0
}

/// Reaping keeps every window whose handle is still valid.
proof fn lemma_wins_valid_keeps(s: Seq<Window>, valid: Seq<isize>, h: isize)
    requires
        valid.contains(h),
        exists|k: int| 0 <= k < s.len() && s[k].hwnd == h,
    ensures
        exists|k: int|
            0 <= k < wins_valid(s, valid).len() && wins_valid(s, valid)[k].hwnd == h,
    decreases s.len(),
{
    let out = wins_valid(s, valid);
    if s.last().hwnd == h {
        assert(out.last().hwnd == h);
        assert(out[out.len() - 1].hwnd == h);
    } else {
        let k = choose|k: int| 0 <= k < s.len() && s[k].hwnd == h;
        assert(s.drop_last()[k] == s[k]);
        lemma_wins_valid_keeps(s.drop_last(), valid, h);
        let prefix = wins_valid(s.drop_last(), valid);
        let k2 = choose|k2: int| 0 <= k2 < prefix.len() && prefix[k2].hwnd == h;
        assert(out[k2].hwnd == h);
    }
}

/// Reaping keeps a tiled window whose handle is still valid.
proof fn lemma_cons_reap_keeps(cs: Seq<ContainerView>, valid: Seq<isize>, h: isize)
    requires
        valid.contains(h),
        exists|i: int| 0 <= i < cs.len() && con_has_hwnd(#[trigger] cs[i], h),
    ensures
        exists|i: int|
            0 <= i < cons_reap(cs, valid).len() && con_has_hwnd(
                #[trigger] cons_reap(cs, valid)[i],
                h,
            ),
    decreases cs.len(),
{
    let out = cons_reap(cs, valid);
    let prefix = cons_reap(cs.drop_last(), valid);
    let c = con_reap(cs.last(), valid);
    if con_has_hwnd(cs.last(), h) {
        lemma_wins_valid_keeps(cs.last().windows, valid, h);
        assert(con_has_hwnd(c, h));
        assert(out[out.len() - 1] == c);
        assert(con_has_hwnd(out[out.len() - 1], h));
    } else {
        let i = choose|i: int| 0 <= i < cs.len() && con_has_hwnd(#[trigger] cs[i], h);
        assert(cs.drop_last()[i] == cs[i]);
        lemma_cons_reap_keeps(cs.drop_last(), valid, h);
        let i2 = choose|i2: int|
            0 <= i2 < prefix.len() && con_has_hwnd(#[trigger] prefix[i2], h);
        assert(out[i2] == prefix[i2]);
        assert(con_has_hwnd(out[i2], h));
    }
}

/// Law: a hide event for a window of an executable known to hide windows
/// spuriously, with the handle still live and not on the manager's own
/// allow-list, is treated as a removal: the window leaves the focused
/// workspace's tiled containers entirely, and the layout is recomputed
/// for the remaining container count.
pub proof fn lemma_hide_of_spurious_exe_removes(wm: WmView, raw: u32, h: isize, p: SnapshotView)
    requires
        wm_wf(wm),
        !wm.is_paused,
        ws_tiled_has(focused_workspace(wm), h),
        p.valid_hwnds.contains(h),
        p.event_window_exe is Some,
        crate::manager::str_list_has(wm.multi_window_exes, p.event_window_exe.unwrap()),
        !wm.hidden_hwnds.contains(h),
    ensures
        wm_step(wm, WindowManagerEvent::Hide(raw, Window { hwnd: h }), p).1 == Result::<
            (),
            WmError,
        >::Ok(()),
        !ws_tiled_has(
            focused_workspace(wm_step(wm, WindowManagerEvent::Hide(raw, Window { hwnd: h }), p).0),
            h,
        ),
        focused_workspace(
            wm_step(wm, WindowManagerEvent::Hide(raw, Window { hwnd: h }), p).0,
        ).latest_layout == crate::layout::layout_spec(
            focused_monitor(wm).work_area_size,
            focused_workspace(
                wm_step(wm, WindowManagerEvent::Hide(raw, Window { hwnd: h }), p).0,
            ).containers.len() as nat,
        ),
{
    let e = WindowManagerEvent::Hide(raw, Window { hwnd: h });
    let base = wm_reap(wm, p.valid_hwnds);
    crate::manager::lemma_wm_reap_wf(wm, p.valid_hwnds);
    let fws = focused_workspace(wm);
    let fws_base = focused_workspace(base);
    assert(fws_base.containers == crate::workspace::cons_reap(fws.containers, p.valid_hwnds));
    lemma_cons_reap_keeps(fws.containers, p.valid_hwnds, h);
    assert(ws_tiled_has(fws_base, h));
    assert(ws_has(fws_base, h));
    let removed = ws_remove(fws_base, h);
    lemma_cons_without_no_h(fws_base.containers, h);
    assert(!ws_tiled_has(removed, h));
    let mid = with_focused_workspace(base, removed);
    crate::manager::lemma_focused_of_with(base, removed);
    let out = wm_step(wm, e, p).0;
    let ws2 = WorkspaceView {
        latest_layout: crate::layout::layout_spec(
            focused_monitor(base).work_area_size,
            removed.containers.len() as nat,
        ),
        ..removed
    };
    assert(wm_update_focused(mid) == with_focused_workspace(mid, ws2));
    crate::manager::lemma_with_with(base, removed, ws2);
    assert(out == with_focused_workspace(base, ws2));
    crate::manager::lemma_focused_of_with(base, ws2);
    assert(focused_workspace(out) == ws2);
}

/// Whenever handle `h` is tiled at all, it is tiled only in the focused
/// workspace.
pub open spec fn tiled_only_in_focused(wm: WmView, h: isize) -> bool {
    tiled_only_at(
        wm,
        h,
        wm.focused_monitor_idx,
        wm.monitors[wm.focused_monitor_idx].focused_workspace_idx,
    )
}

/// Reaping reflects tiled containment back to the original workspace.
proof fn lemma_ws_reap_update_reflects(ws: WorkspaceView, valid: Seq<isize>, area: crate::geometry::Rect, h: isize)
    ensures
        ws_tiled_has(ws_reap_update(ws, valid, area), h) ==> ws_tiled_has(ws, h),
{
    lemma_cons_reap_reflects(ws.containers, valid, h);
}

/// Reaping keeps a window localised, wherever it was.
proof fn lemma_reap_preserves_only_at(wm: WmView, valid: Seq<isize>, h: isize, i0: int, j0: int)
    requires
        tiled_only_at(wm, h, i0, j0),
    ensures
        tiled_only_at(wm_reap(wm, valid), h, i0, j0),
{
    let out = wm_reap(wm, valid);
    assert forall|i: int, j: int|
        0 <= i < out.monitors.len() && 0 <= j < out.monitors[i].workspaces.len() && ws_tiled_has(
            #[trigger] out.monitors[i].workspaces[j],
            h,
        ) implies i == i0 && j == j0 by {
        lemma_ws_reap_update_reflects(
            wm.monitors[i].workspaces[j],
            valid,
            wm.monitors[i].work_area_size,
            h,
        );
    }
}

/// Reaping keeps a window localised to the focused workspace.
proof fn lemma_reap_preserves_localised(wm: WmView, valid: Seq<isize>, h: isize)
    requires
        tiled_only_in_focused(wm, h),
    ensures
        tiled_only_in_focused(wm_reap(wm, valid), h),
{
    lemma_reap_preserves_only_at(
        wm,
        valid,
        h,
        wm.focused_monitor_idx,
        wm.monitors[wm.focused_monitor_idx].focused_workspace_idx,
    );
}

/// Law (no leaks, destroy side): when a window is tiled nowhere but the
/// focused workspace — as a well-formed model that has only ever shown
/// it keeps it — processing its destroy event leaves no container
/// anywhere referencing it, whether the removal found it or it was
/// already reaped.
pub proof fn lemma_destroy_leaves_no_reference(
    wm: WmView,
    raw: u32,
    h: isize,
    p: SnapshotView,
)
    requires
        wm_wf(wm),
        !wm.is_paused,
        tiled_only_in_focused(wm, h),
    ensures
        !wm_tiled_has(
            wm_step(wm, WindowManagerEvent::Destroy(raw, Window { hwnd: h }), p).0,
            h,
        ),
{
    let e = WindowManagerEvent::Destroy(raw, Window { hwnd: h });
    let base = wm_reap(wm, p.valid_hwnds);
    lemma_reap_preserves_localised(wm, p.valid_hwnds, h);
    crate::manager::lemma_wm_reap_wf(wm, p.valid_hwnds);
    let fm = base.focused_monitor_idx;
    let fws = focused_workspace(base);
    let out = wm_step(wm, e, p).0;
    if ws_has(fws, h) {
        let removed = ws_remove(fws, h);
        lemma_cons_without_no_h(fws.containers, h);
        assert(!ws_tiled_has(removed, h));
        assert forall|i: int, j: int|
            0 <= i < out.monitors.len() && 0 <= j < out.monitors[i].workspaces.len() implies
            !ws_tiled_has(#[trigger] out.monitors[i].workspaces[j], h) by {
            if i == fm && j == focused_monitor(base).focused_workspace_idx {
                assert(out.monitors[i].workspaces[j].containers == removed.containers);
            } else {
                assert(out.monitors[i].workspaces[j] == base.monitors[i].workspaces[j]);
            }
        }
    } else {
        assert(out == base);
        assert forall|i: int, j: int|
            0 <= i < out.monitors.len() && 0 <= j < out.monitors[i].workspaces.len() implies
            !ws_tiled_has(#[trigger] out.monitors[i].workspaces[j], h) by {
            if ws_tiled_has(base.monitors[i].workspaces[j], h) {
                assert(i == fm && j == base.monitors[i].focused_workspace_idx);
            }
        }
    }
}

/// A found last-match position really holds the window (soundness), and
/// a tiled window is always found (completeness).
proof fn lemma_last_mon_ws_with_found(ms: Seq<MonitorView>, h: isize)
    ensures
        match last_mon_ws_with(ms, h) {
            Some(ij) => 0 <= ij.0 < ms.len() && 0 <= ij.1 < ms[ij.0].workspaces.len()
                && ws_tiled_has(ms[ij.0].workspaces[ij.1], h),
            None => forall|i: int, j: int|
                0 <= i < ms.len() && 0 <= j < ms[i].workspaces.len() ==> !ws_tiled_has(
                    #[trigger] ms[i].workspaces[j],
                    h,
                ),
        },
    decreases ms.len(),
{
    lemma_last_mon_ws_with_bounds(ms, h);
    if ms.len() > 0 {
        lemma_last_mon_ws_with_found(ms.drop_last(), h);
        lemma_last_ws_with_found(ms.last().workspaces, h);
        let j = last_ws_with(ms.last().workspaces, h);
        if j >= 0 {
            assert(ms[ms.len() - 1] == ms.last());
        } else {
            match last_mon_ws_with(ms, h) {
                Some(ij) => {
                    assert(ms.drop_last()[ij.0] == ms[ij.0]);
                },
                None => {
                    assert forall|i: int, jj: int|
                        0 <= i < ms.len() && 0 <= jj < ms[i].workspaces.len() implies
                        !ws_tiled_has(#[trigger] ms[i].workspaces[jj], h) by {
                        if i < ms.len() - 1 {
                            assert(ms.drop_last()[i] == ms[i]);
                        } else {
                            assert(ms[i] == ms.last());
                        }
                    }
                },
            }
        }
    }
}

/// The workspace-level analogue of the search lemma above.
proof fn lemma_last_ws_with_found(wss: Seq<WorkspaceView>, h: isize)
    ensures
        last_ws_with(wss, h) >= 0 ==> ws_tiled_has(wss[last_ws_with(wss, h)], h),
        last_ws_with(wss, h) < 0 ==> forall|j: int|
            0 <= j < wss.len() ==> !ws_tiled_has(#[trigger] wss[j], h),
    decreases wss.len(),
{
    lemma_last_ws_with_bounds(wss, h);
    if wss.len() > 0 {
        lemma_last_ws_with_found(wss.drop_last(), h);
        if !ws_tiled_has(wss.last(), h) {
            let r = last_ws_with(wss.drop_last(), h);
            lemma_last_ws_with_bounds(wss.drop_last(), h);
            if r >= 0 {
                assert(wss.drop_last()[r] == wss[r]);
            } else {
                assert forall|j: int| 0 <= j < wss.len() implies !ws_tiled_has(
                    #[trigger] wss[j],
                    h,
                ) by {
                    if j < wss.len() - 1 {
                        assert(wss.drop_last()[j] == wss[j]);
                    } else {
                        assert(wss[j] == wss.last());
                    }
                }
            }
        }
    }
}

/// Replacing the focused workspace by a well-formed one and recomputing
/// its layout yields a well-formed manager.
proof fn lemma_update_after_with_wf(wm: WmView, ws: WorkspaceView)
    requires
        wm_wf(wm),
        crate::workspace::ws_wf(ws),
    ensures
        wm_wf(wm_update_focused(with_focused_workspace(wm, ws))),
{
    let mid = with_focused_workspace(wm, ws);
    crate::manager::lemma_focused_of_with(wm, ws);
    let ws2 = WorkspaceView {
        latest_layout: crate::layout::layout_spec(
            focused_monitor(mid).work_area_size,
            ws.containers.len() as nat,
        ),
        ..ws
    };
    assert(wm_update_focused(mid) == with_focused_workspace(mid, ws2));
    crate::manager::lemma_with_with(wm, ws, ws2);
    crate::manager::lemma_with_focused_workspace_wf(wm, ws2);
}

/// One show step keeps the manager well formed, and does not flip the
/// pause flag.
proof fn lemma_show_step_wf(wm: WmView, raw: u32, h: isize, p: SnapshotView)
    requires
        wm_wf(wm),
    ensures
        wm_wf(wm_step(wm, WindowManagerEvent::Show(raw, Window { hwnd: h }), p).0),
        wm_step(wm, WindowManagerEvent::Show(raw, Window { hwnd: h }), p).0.is_paused
            == wm.is_paused,
{
    let e = WindowManagerEvent::Show(raw, Window { hwnd: h });
    let out = wm_step(wm, e, p).0;
    if wm.is_paused {
    } else if p.event_window_monitor is None {
    } else if p.event_window_monitor.unwrap() as int >= wm.monitors.len() {
    } else {
        let mi = p.event_window_monitor.unwrap() as int;
        let resynced = WmView { focused_monitor_idx: mi, ..wm };
        let base = wm_reap(resynced, p.valid_hwnds);
        crate::manager::lemma_wm_reap_wf(resynced, p.valid_hwnds);
        lemma_last_mon_ws_with_bounds(base.monitors, h);
        let fws = focused_workspace(base);
        match last_mon_ws_with(base.monitors, h) {
            Some(ij) => {
                if base.focused_monitor_idx != ij.0 || focused_monitor(base).focused_workspace_idx
                    != ij.1 {
                    assert forall|k: int| 0 <= k < out.monitors.len() implies crate::monitor::mon_wf(
                        #[trigger] out.monitors[k],
                    ) by {
                        if k != ij.0 {
                            assert(out.monitors[k] == base.monitors[k]);
                        }
                    }
                } else {
                    lemma_show_insert_wf(base, h);
                }
            },
            None => {
                lemma_show_insert_wf(base, h);
            },
        }
    }
}

/// The insert half of the show step keeps the manager well formed.
proof fn lemma_show_insert_wf(base: WmView, h: isize)
    requires
        wm_wf(base),
    ensures
        wm_wf(wm_show_insert(base, Window { hwnd: h }).0),
        wm_show_insert(base, Window { hwnd: h }).0.is_paused == base.is_paused,
{
    let fws = focused_workspace(base);
    if fws.containers.len() == 0 || !ws_tiled_has(fws, h) {
        let pushed = crate::manager::ws_push_container(fws, Window { hwnd: h });
        assert(crate::workspace::ws_wf(pushed)) by {
            assert forall|k: int| 0 <= k < pushed.containers.len() implies crate::container::con_wf(
                #[trigger] pushed.containers[k],
            ) by {
                if k < fws.containers.len() {
                    assert(pushed.containers[k] == fws.containers[k]);
                } else {
                    assert(pushed.containers[k] == ContainerView {
                        windows: seq![Window { hwnd: h }],
                        focused_window_idx: 0,
                    });
                }
            }
        }
        lemma_update_after_with_wf(base, pushed);
    }
}

/// Law (no leaks, show side): processing a show event keeps the window
/// localised to the focused workspace, whatever monitor the platform
/// resolves for it: when the switch test finds the window tracked
/// elsewhere, focus moves to it and nothing is inserted. Together with
/// the destroy-side law this gives: any sequence of shows for a window
/// followed by its destroy leaves zero containers referencing it.
pub proof fn lemma_show_keeps_window_localised(
    wm: WmView,
    raw: u32,
    h: isize,
    p: SnapshotView,
)
    requires
        wm_wf(wm),
        !wm.is_paused,
        tiled_only_in_focused(wm, h),
    ensures
        tiled_only_in_focused(
            wm_step(wm, WindowManagerEvent::Show(raw, Window { hwnd: h }), p).0,
            h,
        ),
{
    let e = WindowManagerEvent::Show(raw, Window { hwnd: h });
    let out = wm_step(wm, e, p).0;
    if p.event_window_monitor is None {
        assert(out == wm);
    } else if p.event_window_monitor.unwrap() as int >= wm.monitors.len() {
        assert(out == wm);
    } else {
        let mi = p.event_window_monitor.unwrap() as int;
        let fm0 = wm.focused_monitor_idx;
        let fw0 = wm.monitors[fm0].focused_workspace_idx;
        let resynced = WmView { focused_monitor_idx: mi, ..wm };
        let base = wm_reap(resynced, p.valid_hwnds);
        assert(tiled_only_at(resynced, h, fm0, fw0));
        lemma_reap_preserves_only_at(resynced, p.valid_hwnds, h, fm0, fw0);
        crate::manager::lemma_wm_reap_wf(resynced, p.valid_hwnds);
        lemma_last_mon_ws_with_found(base.monitors, h);
        let fm = base.focused_monitor_idx;
        let fw = focused_monitor(base).focused_workspace_idx;
        match last_mon_ws_with(base.monitors, h) {
            Some(ij) => {
                assert(ij.0 == fm0 && ij.1 == fw0);
                if fm != ij.0 || fw != ij.1 {
                    assert forall|i: int, j: int|
                        0 <= i < out.monitors.len() && 0 <= j < out.monitors[i].workspaces.len()
                            && ws_tiled_has(#[trigger] out.monitors[i].workspaces[j], h) implies i
                        == out.focused_monitor_idx && j
                        == out.monitors[i].focused_workspace_idx by {
                        assert(out.monitors[i].workspaces == base.monitors[i].workspaces);
                        assert(ws_tiled_has(base.monitors[i].workspaces[j], h));
                    }
                } else {
                    assert(out == wm_show_insert(base, Window { hwnd: h }).0);
                    assert(ws_tiled_has(focused_workspace(base), h));
                    assert(out == base);
                }
            },
            None => {
                let fws = focused_workspace(base);
                assert(!ws_tiled_has(fws, h));
                if fws.containers.len() == 0 || !ws_tiled_has(fws, h) {
                    let pushed = crate::manager::ws_push_container(fws, Window { hwnd: h });
                    let mid = with_focused_workspace(base, pushed);
                    crate::manager::lemma_focused_of_with(base, pushed);
                    assert(out == wm_update_focused(mid));
                    assert forall|i: int, j: int|
                        0 <= i < out.monitors.len() && 0 <= j < out.monitors[i].workspaces.len()
                            && ws_tiled_has(#[trigger] out.monitors[i].workspaces[j], h) implies i
                        == out.focused_monitor_idx && j
                        == out.monitors[i].focused_workspace_idx by {
                        if i != fm || j != fw {
                            assert(out.monitors[i].workspaces[j] == base.monitors[i].workspaces[j]);
                        }
                    }
                }
            },
        }
    }
}

/// Law: the reaping pass after a processed event removes nothing. When
/// `process_event` returns Ok against a consistent snapshot, a further
/// reaping pass against the same set of valid handles leaves every
/// workspace exactly as it stands — so the next event reaps zero windows
/// and zero containers everywhere, as long as no tracked handle changed
/// platform validity in between.
pub proof fn lemma_after_ok_reap_removes_nothing(wm: WmView, e: WindowManagerEvent, p: SnapshotView)
    requires
        wm_wf(wm),
        !wm.is_paused,
        crate::events::snapshot_consistent(e, p),
        wm_step(wm, e, p).1 == Result::<(), WmError>::Ok(()),
    ensures
        wm_grid_valid(wm_step(wm, e, p).0, p.valid_hwnds),
        wm_reap(wm_step(wm, e, p).0, p.valid_hwnds) == wm_step(wm, e, p).0,
{
    let out = wm_step(wm, e, p).0;
    let valid = p.valid_hwnds;
    let h = crate::events::event_window(e).hwnd;
    let resynced = if crate::events::event_resyncs_monitor(e) {
        WmView { focused_monitor_idx: p.event_window_monitor.unwrap() as int, ..wm }
    } else {
        wm
    };
    assert(wm_wf(resynced));
    let base = wm_reap(resynced, valid);
    crate::manager::lemma_wm_reap_wf(resynced, valid);
    assert forall|i: int, j: int|
        0 <= i < base.monitors.len() && 0 <= j
            < base.monitors[i].workspaces.len() implies crate::workspace::ws_wf(
        #[trigger] base.monitors[i].workspaces[j],
    ) && ws_handles_valid(base.monitors[i].workspaces[j], valid) by {
        let ws0 = resynced.monitors[i].workspaces[j];
        lemma_cons_reap_members(ws0.containers, valid);
        lemma_wins_valid_members(ws0.floating, valid);
        assert(base.monitors[i].workspaces[j].containers == crate::workspace::cons_reap(
            ws0.containers,
            valid,
        ));
        assert(base.monitors[i].workspaces[j].floating == wins_valid(ws0.floating, valid));
    }
    assert(wm_grid_valid(base, valid));
    let fm = base.focused_monitor_idx;
    let fw = focused_monitor(base).focused_workspace_idx;
    let fws = focused_workspace(base);
    match e {
        WindowManagerEvent::MouseCapture(..) => {
            lemma_wm_stable(base, valid);
        },
        WindowManagerEvent::Minimize(..) => {
            lemma_remove_outcome_stable(base, valid, h);
        },
        WindowManagerEvent::Destroy(..) => {
            lemma_remove_outcome_stable(base, valid, h);
        },
        WindowManagerEvent::Hide(..) => {
            if !valid.contains(h) {
                if !base.hidden_hwnds.contains(h) {
                    lemma_remove_outcome_stable(base, valid, h);
                } else {
                    lemma_wm_stable(base, valid);
                }
            } else {
                match p.event_window_exe {
                    None => {},
                    Some(exe) => {
                        if crate::manager::str_list_has(base.multi_window_exes, exe)
                            && !base.hidden_hwnds.contains(h) {
                            lemma_remove_outcome_stable(base, valid, h);
                        } else {
                            lemma_wm_stable(base, valid);
                        }
                    },
                }
            }
        },
        WindowManagerEvent::FocusChange(..) => {
            if ws_floating_has(fws, h) {
                lemma_wm_stable(base, valid);
            } else {
                assert(ws_tiled_has(fws, h));
                let ci = crate::search::first_idx(
                    fws.containers,
                    |c: ContainerView| con_has_hwnd(c, h),
                );
                crate::search::lemma_first_idx_found(
                    fws.containers,
                    |c: ContainerView| con_has_hwnd(c, h),
                );
                let c = fws.containers[ci];
                let wi = crate::search::first_idx(c.windows, |w: Window| w.hwnd == h);
                crate::search::lemma_first_idx_found(c.windows, |w: Window| w.hwnd == h);
                let ws2 = crate::manager::ws_focus_window(fws, h);
                assert(crate::workspace::ws_wf(ws2)) by {
                    assert forall|k: int|
                        0 <= k < ws2.containers.len() implies crate::container::con_wf(
                        #[trigger] ws2.containers[k],
                    ) by {
                        if k != ci {
                            assert(ws2.containers[k] == fws.containers[k]);
                        }
                    }
                }
                assert(ws_handles_valid(ws2, valid)) by {
                    assert forall|i: int, k: int|
                        0 <= i < ws2.containers.len() && 0 <= k
                            < ws2.containers[i].windows.len() implies valid.contains(
                        #[trigger] ws2.containers[i].windows[k].hwnd,
                    ) by {
                        assert(ws2.containers[i].windows == fws.containers[i].windows);
                    }
                }
                lemma_updated_grid_stable(base, valid, out, ws2);
            }
        },
        WindowManagerEvent::Show(_, w) => {
            match last_mon_ws_with(base.monitors, h) {
                Some(ij) => {
                    if fm != ij.0 || fw != ij.1 {
                        lemma_last_mon_ws_with_bounds(base.monitors, h);
                        assert forall|i: int, j: int|
                            0 <= i < out.monitors.len() && 0 <= j
                                < out.monitors[i].workspaces.len() implies crate::workspace::ws_wf(
                            #[trigger] out.monitors[i].workspaces[j],
                        ) && ws_handles_valid(out.monitors[i].workspaces[j], valid) by {
                            assert(out.monitors[i].workspaces == base.monitors[i].workspaces);
                        }
                        lemma_wm_stable(out, valid);
                    } else {
                        lemma_show_outcome_stable(base, valid, w, p);
                    }
                },
                None => {
                    lemma_show_outcome_stable(base, valid, w, p);
                },
            }
        },
        WindowManagerEvent::MoveResizeEnd(..) => {
            if ws_floating_has(fws, h) {
                lemma_wm_stable(base, valid);
            } else {
                let ci = crate::search::first_idx(
                    fws.containers,
                    |c: ContainerView| con_has_hwnd(c, h),
                );
                let raw = p.event_window_rect.unwrap();
                let old_pos = fws.latest_layout[ci];
                if crate::drag::drag_is_move(old_pos, raw) {
                    let t = crate::search::first_idx(
                        fws.latest_layout,
                        |r: Rect| crate::geometry::rect_contains_point(r, p.pointer),
                    );
                    if t >= 0 {
                        crate::search::lemma_first_idx_bounds(
                            fws.latest_layout,
                            |r: Rect| crate::geometry::rect_contains_point(r, p.pointer),
                        );
                        lemma_swapped_stable(base, valid, out, ci, t);
                    } else {
                        lemma_relayout_stable(base, valid, out);
                    }
                } else {
                    lemma_relayout_stable(base, valid, out);
                }
            }
        },
    }
}

/// The show insert, under a consistent snapshot, keeps to valid handles.
proof fn lemma_show_outcome_stable(base: WmView, valid: Seq<isize>, w: Window, p: SnapshotView)
    requires
        wm_wf(base),
        wm_grid_valid(base, valid),
        valid.contains(w.hwnd),
    ensures
        wm_grid_valid(wm_show_insert(base, w).0, valid),
        wm_reap(wm_show_insert(base, w).0, valid) == wm_show_insert(base, w).0,
{
    let fws = focused_workspace(base);
    assert(crate::workspace::ws_wf(fws));
    assert(ws_handles_valid(fws, valid));
    if fws.containers.len() == 0 || !ws_tiled_has(fws, w.hwnd) {
        let pushed = crate::manager::ws_push_container(fws, w);
        lemma_show_insert_wf(base, w.hwnd);
        assert(crate::workspace::ws_wf(pushed)) by {
            assert forall|k: int| 0 <= k < pushed.containers.len() implies crate::container::con_wf(
                #[trigger] pushed.containers[k],
            ) by {
                if k < fws.containers.len() {
                    assert(pushed.containers[k] == fws.containers[k]);
                } else {
                    assert(pushed.containers[k] == ContainerView {
                        windows: seq![w],
                        focused_window_idx: 0,
                    });
                }
            }
        }
        let mid = with_focused_workspace(base, pushed);
        crate::manager::lemma_focused_of_with(base, pushed);
        let ws2 = WorkspaceView {
            latest_layout: crate::layout::layout_spec(
                focused_monitor(base).work_area_size,
                pushed.containers.len() as nat,
            ),
            ..pushed
        };
        assert(wm_update_focused(mid) == with_focused_workspace(mid, ws2));
        crate::manager::lemma_with_with(base, pushed, ws2);
        assert(ws_handles_valid(ws2, valid)) by {
            assert forall|i: int, k: int|
                0 <= i < ws2.containers.len() && 0 <= k
                    < ws2.containers[i].windows.len() implies valid.contains(
                #[trigger] ws2.containers[i].windows[k].hwnd,
            ) by {
                if i < fws.containers.len() {
                    assert(ws2.containers[i] == fws.containers[i]);
                } else {
                    assert(ws2.containers[i].windows == seq![w]);
                }
            }
        }
        lemma_updated_grid_stable(base, valid, wm_show_insert(base, w).0, ws2);
    } else {
        lemma_wm_stable(base, valid);
    }
}

/// A swap of two container slots in the focused workspace, followed by
/// the layout recomputation, keeps to valid handles.
proof fn lemma_swapped_stable(base: WmView, valid: Seq<isize>, out: WmView, a: int, t: int)
    requires
        wm_wf(base),
        wm_grid_valid(base, valid),
        0 <= a < focused_workspace(base).containers.len(),
        0 <= t < focused_workspace(base).latest_layout.len(),
        out == wm_update_focused(
            with_focused_workspace(
                base,
                crate::manager::ws_swap(focused_workspace(base), a, t),
            ),
        ),
    ensures
        wm_grid_valid(out, valid),
        wm_reap(out, valid) == out,
{
    let fws = focused_workspace(base);
    assert(crate::workspace::ws_wf(fws));
    assert(ws_handles_valid(fws, valid));
    assert(t < fws.containers.len());
    let swapped = crate::manager::ws_swap(fws, a, t);
    assert(crate::workspace::ws_wf(swapped)) by {
        assert forall|k: int| 0 <= k < swapped.containers.len() implies crate::container::con_wf(
            #[trigger] swapped.containers[k],
        ) by {
            if k == a {
                assert(swapped.containers[k] == fws.containers[t]);
            } else if k == t {
                assert(swapped.containers[k] == fws.containers[a]);
            } else {
                assert(swapped.containers[k] == fws.containers[k]);
            }
        }
    }
    let mid = with_focused_workspace(base, swapped);
    crate::manager::lemma_focused_of_with(base, swapped);
    let ws2 = WorkspaceView {
        latest_layout: crate::layout::layout_spec(
            focused_monitor(base).work_area_size,
            swapped.containers.len() as nat,
        ),
        ..swapped
    };
    assert(wm_update_focused(mid) == with_focused_workspace(mid, ws2));
    crate::manager::lemma_with_with(base, swapped, ws2);
    assert(ws_handles_valid(ws2, valid)) by {
        assert forall|i: int, k: int|
            0 <= i < ws2.containers.len() && 0 <= k
                < ws2.containers[i].windows.len() implies valid.contains(
            #[trigger] ws2.containers[i].windows[k].hwnd,
        ) by {
            if i == a {
                assert(ws2.containers[i] == fws.containers[t]);
            } else if i == t {
                assert(ws2.containers[i] == fws.containers[a]);
            } else {
                assert(ws2.containers[i] == fws.containers[i]);
            }
        }
    }
    lemma_updated_grid_stable(base, valid, out, ws2);
}

/// Recomputing the focused workspace's layout alone keeps to valid
/// handles.
proof fn lemma_relayout_stable(base: WmView, valid: Seq<isize>, out: WmView)
    requires
        wm_wf(base),
        wm_grid_valid(base, valid),
        out.monitors == wm_update_focused(base).monitors,
    ensures
        wm_grid_valid(out, valid),
        wm_reap(out, valid) == out,
{
    let fws = focused_workspace(base);
    assert(crate::workspace::ws_wf(fws));
    assert(ws_handles_valid(fws, valid));
    let ws2 = WorkspaceView {
        latest_layout: crate::layout::layout_spec(
            focused_monitor(base).work_area_size,
            fws.containers.len() as nat,
        ),
        ..fws
    };
    assert(crate::workspace::ws_wf(ws2));
    assert(ws_handles_valid(ws2, valid));
    lemma_updated_grid_stable(base, valid, out, ws2);
}

/// Law: a drag that translates a tiled window's slot rectangle without
/// changing its size, ending with the pointer inside some slot's
/// rectangle, swaps the window's container with that slot positionally:
/// each container's contents are untouched, the container count is
/// unchanged, and the layout is recomputed for the same count.
pub proof fn lemma_move_drag_swaps_containers(wm: WmView, raw_sig: u32, h: isize, p: SnapshotView)
    requires
        wm_wf(wm),
        !wm.is_paused,
        wm_grid_valid(wm, p.valid_hwnds),
        p.event_window_monitor is Some,
        p.event_window_monitor.unwrap() as int == wm.focused_monitor_idx,
        !ws_floating_has(focused_workspace(wm), h),
        ws_tiled_has(focused_workspace(wm), h),
        p.event_window_rect is Some,
        crate::drag::drag_is_move(
            focused_workspace(wm).latest_layout[crate::search::first_idx(
                focused_workspace(wm).containers,
                |c: ContainerView| con_has_hwnd(c, h),
            )],
            p.event_window_rect.unwrap(),
        ),
        crate::search::first_idx(
            focused_workspace(wm).latest_layout,
            |r: Rect| crate::geometry::rect_contains_point(r, p.pointer),
        ) >= 0,
    ensures
        wm_step(wm, WindowManagerEvent::MoveResizeEnd(raw_sig, Window { hwnd: h }), p).1
            == Result::<(), WmError>::Ok(()),
        ({
            let ws = focused_workspace(wm);
            let ci = crate::search::first_idx(
                ws.containers,
                |c: ContainerView| con_has_hwnd(c, h),
            );
            let t = crate::search::first_idx(
                ws.latest_layout,
                |r: Rect| crate::geometry::rect_contains_point(r, p.pointer),
            );
            let out = wm_step(
                wm,
                WindowManagerEvent::MoveResizeEnd(raw_sig, Window { hwnd: h }),
                p,
            ).0;
            &&& focused_workspace(out).containers == ws.containers.update(
                ci,
                ws.containers[t],
            ).update(t, ws.containers[ci])
            &&& focused_workspace(out).containers.len() == ws.containers.len()
            &&& focused_workspace(out).latest_layout.len() == ws.containers.len()
            &&& focused_workspace(out).floating == ws.floating
        }),
{
    let e = WindowManagerEvent::MoveResizeEnd(raw_sig, Window { hwnd: h });
    let mi = p.event_window_monitor.unwrap() as int;
    let resynced = WmView { focused_monitor_idx: mi, ..wm };
    assert(resynced == wm);
    lemma_wm_stable(wm, p.valid_hwnds);
    let base = wm_reap(wm, p.valid_hwnds);
    assert(base == wm);
    let ws = focused_workspace(wm);
    let ci = crate::search::first_idx(ws.containers, |c: ContainerView| con_has_hwnd(c, h));
    let t = crate::search::first_idx(
        ws.latest_layout,
        |r: Rect| crate::geometry::rect_contains_point(r, p.pointer),
    );
    assert(exists|k: int|
        0 <= k < ws.containers.len() && (|c: ContainerView| con_has_hwnd(c, h))(
            ws.containers[k],
        )) by {
        let k = choose|k: int| 0 <= k < ws.containers.len() && con_has_hwnd(
            #[trigger] ws.containers[k],
            h,
        );
        assert((|c: ContainerView| con_has_hwnd(c, h))(ws.containers[k]));
    }
    crate::search::lemma_first_idx_found(ws.containers, |c: ContainerView| con_has_hwnd(c, h));
    crate::search::lemma_first_idx_bounds(
        ws.latest_layout,
        |r: Rect| crate::geometry::rect_contains_point(r, p.pointer),
    );
    assert(crate::monitor::ws_layout_synced(ws));
    assert(ci < ws.latest_layout.len());
    assert(t < ws.containers.len());
    let swapped = crate::manager::ws_swap(ws, ci, t);
    let mid = with_focused_workspace(wm, swapped);
    crate::manager::lemma_focused_of_with(wm, swapped);
    let ws2 = WorkspaceView {
        latest_layout: crate::layout::layout_spec(
            focused_monitor(wm).work_area_size,
            swapped.containers.len() as nat,
        ),
        ..swapped
    };
    assert(wm_update_focused(mid) == with_focused_workspace(mid, ws2));
    crate::manager::lemma_with_with(wm, swapped, ws2);
    let out = wm_step(wm, e, p).0;
    assert(out == with_focused_workspace(wm, ws2));
    crate::manager::lemma_focused_of_with(wm, ws2);
    assert(focused_workspace(out) == ws2);
}

/// The model after a sequence of show events for handle `h`, one per
/// platform snapshot in `ps`.
pub open spec fn apply_shows(wm: WmView, raw: u32, h: isize, ps: Seq<SnapshotView>) -> WmView
    decreases ps.len(),
{
    if ps.len() == 0 {
        wm
    } else {
        apply_shows(
            wm_step(wm, WindowManagerEvent::Show(raw, Window { hwnd: h }), ps[0]).0,
            raw,
            h,
            ps.subrange(1, ps.len() as int),
        )
    }
}

/// Law (no leaks): from a well-formed, unpaused model that tracks the
/// window only in its focused workspace — a fresh model in particular —
/// any sequence of show events for that window, under any platform
/// snapshots, followed by its destroy event, leaves zero containers
/// referencing it.
pub proof fn lemma_shows_then_destroy_leave_no_reference(
    wm: WmView,
    raw: u32,
    h: isize,
    ps: Seq<SnapshotView>,
    pd: SnapshotView,
)
    requires
        wm_wf(wm),
        !wm.is_paused,
        tiled_only_in_focused(wm, h),
    ensures
        !wm_tiled_has(
            wm_step(
                apply_shows(wm, raw, h, ps),
                WindowManagerEvent::Destroy(raw, Window { hwnd: h }),
                pd,
            ).0,
            h,
        ),
    decreases ps.len(),
{
    if ps.len() == 0 {
        lemma_destroy_leaves_no_reference(wm, raw, h, pd);
    } else {
        let next = wm_step(wm, WindowManagerEvent::Show(raw, Window { hwnd: h }), ps[0]).0;
        lemma_show_step_wf(wm, raw, h, ps[0]);
        lemma_show_keeps_window_localised(wm, raw, h, ps[0]);
        lemma_shows_then_destroy_leave_no_reference(
            next,
            raw,
            h,
            ps.subrange(1, ps.len() as int),
            pd,
        );
    }
}

} // verus!
