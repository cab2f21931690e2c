//! The per-event, recoverable errors the model surfaces. The event loop
//! logs them and moves to the next event; none is fatal.

use vstd::prelude::*;

verus! {

/// Why processing one event, or one command, was abandoned.
#[derive(Clone, Copy, Debug, PartialEq, Eq, Structural)]
pub enum WmError {
    /// The platform resolved no monitor for the event's window; expected
    /// when the window was already destroyed.
    NoOwningMonitor,
    /// The focused monitor or workspace index did not resolve.
    NoFocusedWorkspace,
    /// A layout rectangle was needed before any layout was computed.
    NoLatestLayout,
    /// The platform could not report the window's live rectangle.
    GeometryQueryFailed,
    /// The platform could not report the window's executable name.
    PlatformQueryFailed,
    /// An index was genuinely out of range.
    IndexOutOfRange,
    /// The window was not in the workspace it was expected in; expected
    /// when a notification raced the window's disappearance.
    WindowNotFound,
    /// A manager cannot be built without at least one monitor with a
    /// well-formed work area.
    NoMonitors,
}

impl WmError {
    /// A short description for logs.
    pub fn as_str(&self) -> &'static str {
        match self {
            WmError::NoOwningMonitor => "there is no monitor associated with this window",
            WmError::NoFocusedWorkspace => "there is no focused workspace",
            WmError::NoLatestLayout => "there is no latest layout",
            WmError::GeometryQueryFailed => "the window rectangle could not be queried",
            WmError::PlatformQueryFailed => "the window executable could not be queried",
            WmError::IndexOutOfRange => "the index is out of range",
            WmError::WindowNotFound => "the window is not in the workspace",
            WmError::NoMonitors => "at least one monitor with an ordered work area is required",
        }
    }
}

} // verus!
