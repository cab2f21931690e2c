//! The closed vocabulary between the platform's event source and the
//! manager, and the snapshot of platform answers one event is processed
//! against.

use vstd::prelude::*;

use crate::container::Window;
use crate::geometry::Point;
use crate::geometry::Rect;

verus! {

/// One window-lifecycle notification: the raw platform signal code and
/// the affected window.
#[derive(Clone, Copy, Debug, PartialEq, Eq, Structural)]
pub enum WindowManagerEvent {
    FocusChange(u32, Window),
    Show(u32, Window),
    Hide(u32, Window),
    Destroy(u32, Window),
    Minimize(u32, Window),
    MoveResizeEnd(u32, Window),
    MouseCapture(u32, Window),
}

/// The window an event concerns.
pub open spec fn event_window(e: WindowManagerEvent) -> Window {
    match e {
        WindowManagerEvent::FocusChange(_, w) => w,
        WindowManagerEvent::Show(_, w) => w,
        WindowManagerEvent::Hide(_, w) => w,
        WindowManagerEvent::Destroy(_, w) => w,
        WindowManagerEvent::Minimize(_, w) => w,
        WindowManagerEvent::MoveResizeEnd(_, w) => w,
        WindowManagerEvent::MouseCapture(_, w) => w,
    }
}

/// A snapshot is consistent with its event when a resolved monitor
/// implies the event window's handle is among the valid ones: both
/// answers describe the same live window, so the platform cannot place a
/// window it no longer recognises.
pub open spec fn snapshot_consistent(e: WindowManagerEvent, p: SnapshotView) -> bool {
    p.event_window_monitor is Some ==> p.valid_hwnds.contains(event_window(e).hwnd)
}

/// The events whose window drives a focused-monitor resync.
pub open spec fn event_resyncs_monitor(e: WindowManagerEvent) -> bool {
    e matches WindowManagerEvent::FocusChange(..) || e matches WindowManagerEvent::Show(..)
        || e matches WindowManagerEvent::MoveResizeEnd(..)
}

impl WindowManagerEvent {
    /// The window the event concerns.
    pub fn window(&self) -> (w: Window)
        ensures
            w == event_window(*self),
    {
        match self {
            WindowManagerEvent::FocusChange(_, w) => *w,
            WindowManagerEvent::Show(_, w) => *w,
            WindowManagerEvent::Hide(_, w) => *w,
            WindowManagerEvent::Destroy(_, w) => *w,
            WindowManagerEvent::Minimize(_, w) => *w,
            WindowManagerEvent::MoveResizeEnd(_, w) => *w,
            WindowManagerEvent::MouseCapture(_, w) => *w,
        }
    }
}

/// The mathematical value of a platform snapshot.
pub ghost struct SnapshotView {
    /// The handles the platform still recognises as windows.
    pub valid_hwnds: Seq<isize>,
    /// Which monitor the platform places the event's window on, if it
    /// can be resolved at all.
    pub event_window_monitor: Option<usize>,
    /// The live rectangle of the event's window, if the query succeeded.
    pub event_window_rect: Option<Rect>,
    /// The executable name of the event's window, if the query succeeded.
    pub event_window_exe: Option<Seq<char>>,
    /// Where the pointer is.
    pub pointer: Point,
}

/// What the platform answered, queried by the embedding program just
/// before one event is processed: the set of still-valid handles, the
/// monitor, live rectangle and executable of the event's window, and the
/// pointer position. A missing answer records a failed query, a normal
/// condition when the window disappeared meanwhile.
#[derive(Debug)]
pub struct PlatformSnapshot {
    pub valid_hwnds: Vec<isize>,
    pub event_window_monitor: Option<usize>,
    pub event_window_rect: Option<Rect>,
    pub event_window_exe: Option<String>,
    pub pointer: Point,
}

impl View for PlatformSnapshot {
    type V = SnapshotView;

    open spec fn view(&self) -> SnapshotView {
        SnapshotView {
            valid_hwnds: self.valid_hwnds@,
            event_window_monitor: self.event_window_monitor,
            event_window_rect: self.event_window_rect,
            event_window_exe: match self.event_window_exe {
                Some(s) => Some(s@),
                None => None,
            },
            pointer: self.pointer,
        }
    }
}

} // verus!
