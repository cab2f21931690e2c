//! A monitor: one physical display, its work area, and its ordered
//! workspaces.

use vstd::prelude::*;

use crate::errors::WmError;
use crate::geometry::rect_wf;
use crate::geometry::Rect;
use crate::layout::layout_spec;
use crate::workspace::ws_reap;
use crate::workspace::ws_wf;
use crate::workspace::ws_window_count;
use crate::workspace::Workspace;
use crate::workspace::WorkspaceView;

verus! {

/// The mathematical value of a monitor.
pub ghost struct MonitorView {
    /// The physical work area, excluding platform-reserved chrome.
    pub work_area_size: Rect,
    /// The workspaces, in order.
    pub workspaces: Seq<WorkspaceView>,
    /// Which workspace is focused.
    pub focused_workspace_idx: int,
}

/// One physical display and its workspaces.
#[derive(Debug)]
pub struct Monitor {
    pub work_area_size: Rect,
    pub workspaces: Vec<Workspace>,
    pub focused_workspace_idx: usize,
}

/// The views of a sequence of workspaces.
pub open spec fn wss_view(v: Seq<Workspace>) -> Seq<WorkspaceView> {
    v.map_values(|w: Workspace| w@)
}

impl View for Monitor {
    type V = MonitorView;

    open spec fn view(&self) -> MonitorView {
        MonitorView {
            work_area_size: self.work_area_size,
            workspaces: wss_view(self.workspaces@),
            focused_workspace_idx: self.focused_workspace_idx as int,
        }
    }
}

/// A workspace's layout is index-aligned with its containers.
pub open spec fn ws_layout_synced(ws: WorkspaceView) -> bool {
    ws.latest_layout.len() == ws.containers.len()
}

/// A monitor is well formed when it has an ordered work area, at least one
/// workspace, a focused index pointing at one, and well-formed workspaces
/// whose layouts are aligned with their containers.
pub open spec fn mon_wf(m: MonitorView) -> bool {
    &&& rect_wf(m.work_area_size)
    &&& m.workspaces.len() > 0
    &&& 0 <= m.focused_workspace_idx < m.workspaces.len()
    &&& forall|j: int| 0 <= j < m.workspaces.len() ==> ws_wf(#[trigger] m.workspaces[j])
    &&& forall|j: int|
        0 <= j < m.workspaces.len() ==> ws_layout_synced(#[trigger] m.workspaces[j])
}

/// One workspace after an orphan-reaping pass: when anything was reaped,
/// the layout is recomputed for the new container count in `area`.
pub open spec fn ws_reap_update(ws: WorkspaceView, valid: Seq<isize>, area: Rect) -> WorkspaceView {
    let r = ws_reap(ws, valid);
    if ws_window_count(r) != ws_window_count(ws) || r.containers.len() != ws.containers.len() {
        WorkspaceView { latest_layout: layout_spec(area, r.containers.len() as nat), ..r }
    } else {
        r
    }
}

/// A monitor after an orphan-reaping pass over all its workspaces.
pub open spec fn mon_reap(m: MonitorView, valid: Seq<isize>) -> MonitorView {
    MonitorView {
        workspaces: Seq::new(
            m.workspaces.len(),
            |j: int| ws_reap_update(m.workspaces[j], valid, m.work_area_size),
        ),
        ..m
    }
}

/// Reaping, with its conditional layout recomputation, preserves
/// workspace well-formedness and layout alignment.
pub proof fn lemma_ws_reap_update_wf(ws: WorkspaceView, valid: Seq<isize>, area: Rect)
    requires
        ws_wf(ws),
        ws_layout_synced(ws),
    ensures
        ws_wf(ws_reap_update(ws, valid, area)),
        ws_layout_synced(ws_reap_update(ws, valid, area)),
{
    crate::workspace::lemma_ws_reap_wf(ws, valid);
    crate::workspace::lemma_cons_reap_le(ws.containers, valid);
    crate::workspace::lemma_wins_valid_len(ws.floating, valid);
}

/// Reaping preserves monitor well-formedness.
pub proof fn lemma_mon_reap_wf(m: MonitorView, valid: Seq<isize>)
    requires
        mon_wf(m),
    ensures
        mon_wf(mon_reap(m, valid)),
{
    let out = mon_reap(m, valid);
    assert forall|j: int| 0 <= j < out.workspaces.len() implies ws_wf(#[trigger] out.workspaces[j])
        && ws_layout_synced(out.workspaces[j]) by {
        lemma_ws_reap_update_wf(m.workspaces[j], valid, m.work_area_size);
    }
}

impl Monitor {
    /// A new monitor for a display with work area `work_area`, with one
    /// empty workspace, focused.
    pub fn new(work_area: Rect) -> (m: Monitor)
        requires
            rect_wf(work_area),
        ensures
            m@.work_area_size == work_area,
            m@.workspaces.len() == 1,
            m@.workspaces[0].containers.len() == 0,
            m@.workspaces[0].floating.len() == 0,
            m@.focused_workspace_idx == 0,
            mon_wf(m@),
    {
        let mut workspaces: Vec<Workspace> = Vec::new();
        workspaces.push(Workspace::empty());
        let m = Monitor { work_area_size: work_area, workspaces, focused_workspace_idx: 0 };
        proof {
            assert(m@.workspaces =~= seq![m.workspaces@[0]@]);
        }
        m
    }

    /// Focuses workspace `idx`. Fails with `IndexOutOfRange`, changing
    /// nothing, when no such workspace exists.
    pub fn focus_workspace(&mut self, idx: usize) -> (r: Result<(), WmError>)
        ensures
            idx < old(self)@.workspaces.len() ==> r == Result::<(), WmError>::Ok(()) && final(self)@
                == (MonitorView { focused_workspace_idx: idx as int, ..old(self)@ }),
            idx >= old(self)@.workspaces.len() ==> r == Result::<(), WmError>::Err(
                WmError::IndexOutOfRange,
            ) && *final(self) == *old(self),
    {
        if idx < self.workspaces.len() {
            self.focused_workspace_idx = idx;
            Ok(())
        } else {
            Err(WmError::IndexOutOfRange)
        }
    }

    /// Runs one orphan-reaping pass over every workspace, recomputing the
    /// layout of each workspace that lost a window or a container.
    pub fn reap_orphans_all(&mut self, valid: &Vec<isize>)
        requires
            rect_wf(old(self)@.work_area_size),
        ensures
            final(self)@ == mon_reap(old(self)@, valid@),
    {
        let area = self.work_area_size;
        let mut j: usize = 0;
        while j < self.workspaces.len()
            invariant
                j <= self.workspaces@.len(),
                self.workspaces@.len() == old(self).workspaces@.len(),
                self.work_area_size == old(self).work_area_size,
                self.focused_workspace_idx == old(self).focused_workspace_idx,
                area == old(self)@.work_area_size,
                rect_wf(area),
                forall|k: int|
                    0 <= k < j ==> wss_view(self.workspaces@)[k] == ws_reap_update(
                        #[trigger] old(self)@.workspaces[k],
                        valid@,
                        area,
                    ),
                forall|k: int|
                    j <= k < self.workspaces@.len() ==> wss_view(self.workspaces@)[k] == old(
                        self,
                    )@.workspaces[k],
            decreases self.workspaces@.len() - j,
        {
            let ghost prev = self.workspaces@;
            let mut ws = self.workspaces.remove(j);
            let ghost before = ws@;
            let r = ws.reap_orphans(valid);
            proof {
                crate::workspace::lemma_cons_reap_le(before.containers, valid@);
                crate::workspace::lemma_wins_valid_len(before.floating, valid@);
            }
            if r.0 > 0 || r.1 > 0 {
                let result = ws.update(&area);
                proof {
                    assert(ws@ == ws_reap_update(before, valid@, area));
                }
            } else {
                proof {
                    assert(ws@ == ws_reap_update(before, valid@, area));
                }
            }
            self.workspaces.insert(j, ws);
            proof {
                assert forall|k: int| 0 <= k < self.workspaces@.len() implies wss_view(
                    self.workspaces@,
                )[k] == wss_view(prev).update(j as int, ws@)[k] by {
                    if k < j {
                        assert(self.workspaces@[k] == prev[k]);
                    } else if k == j {
                        assert(self.workspaces@[k] == ws);
                    } else {
                        assert(self.workspaces@[k] == prev[k]);
                    }
                }
            }
            j = j + 1;
        }
        proof {
            assert(final(self)@.workspaces =~= mon_reap(old(self)@, valid@).workspaces);
        }
    }

    /// Appends empty workspaces until workspace `idx` exists, as a
    /// workspace switch beyond the current count demands.
    pub fn ensure_workspace_idx(&mut self, idx: usize)
        ensures
            final(self)@.workspaces.len() == if idx < old(self)@.workspaces.len() {
                old(self)@.workspaces.len() as int
            } else {
                idx as int + 1
            },
            forall|j: int|
                0 <= j < old(self)@.workspaces.len() ==> final(self)@.workspaces[j] == old(
                    self,
                )@.workspaces[j],
            forall|j: int|
                old(self)@.workspaces.len() <= j < final(self)@.workspaces.len() ==> ws_wf(
                    #[trigger] final(self)@.workspaces[j],
                ) && ws_layout_synced(final(self)@.workspaces[j])
                    && final(self)@.workspaces[j].containers.len() == 0
                    && final(self)@.workspaces[j].floating.len() == 0,
            final(self)@.work_area_size == old(self)@.work_area_size,
            final(self)@.focused_workspace_idx == old(self)@.focused_workspace_idx,
    {
        while self.workspaces.len() <= idx
            invariant
                old(self).workspaces@.len() <= self.workspaces@.len(),
                self.workspaces@.len() <= idx + 1 || self.workspaces@.len() == old(
                    self,
                ).workspaces@.len(),
                forall|j: int|
                    0 <= j < old(self)@.workspaces.len() ==> wss_view(self.workspaces@)[j] == old(
                        self,
                    )@.workspaces[j],
                forall|j: int|
                    old(self)@.workspaces.len() <= j < self.workspaces@.len() ==> ws_wf(
                        #[trigger] wss_view(self.workspaces@)[j],
                    ) && ws_layout_synced(wss_view(self.workspaces@)[j]) && wss_view(
                        self.workspaces@,
                    )[j].containers.len() == 0 && wss_view(
                        self.workspaces@,
                    )[j].floating.len() == 0,
                self.work_area_size == old(self).work_area_size,
                self.focused_workspace_idx == old(self).focused_workspace_idx,
            decreases idx + 1 - self.workspaces@.len(),
        {
            let ws = Workspace::empty();
            let ghost prev = self.workspaces@;
            self.workspaces.push(ws);
            proof {
                assert forall|j: int|
                    old(self)@.workspaces.len() <= j < self.workspaces@.len() implies ws_wf(
                    #[trigger] wss_view(self.workspaces@)[j],
                ) && ws_layout_synced(wss_view(self.workspaces@)[j]) && wss_view(
                    self.workspaces@,
                )[j].containers.len() == 0 && wss_view(
                    self.workspaces@,
                )[j].floating.len() == 0 by {
                    if j < prev.len() {
                        assert(wss_view(self.workspaces@)[j] == wss_view(prev)[j]);
                    } else {
                        assert(self.workspaces@[j] == ws);
                    }
                }
            }
        }
    }
}

} // verus!
