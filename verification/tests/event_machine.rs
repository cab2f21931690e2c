use komorebi::container::Container;
use komorebi::container::Window;
use komorebi::drag::OperationDirection;
use komorebi::drag::ResizeOp;
use komorebi::drag::Sizing;
use komorebi::errors::WmError;
use komorebi::events::PlatformSnapshot;
use komorebi::events::WindowManagerEvent;
use komorebi::geometry::Point;
use komorebi::geometry::Rect;
use komorebi::manager::WindowManager;
use komorebi::workspace::Workspace;

fn rect(left: i32, top: i32, right: i32, bottom: i32) -> Rect {
    Rect { left, top, right, bottom }
}

fn snapshot(valid: Vec<isize>, monitor: Option<usize>) -> PlatformSnapshot {
    PlatformSnapshot {
        valid_hwnds: valid,
        event_window_monitor: monitor,
        event_window_rect: None,
        event_window_exe: None,
        pointer: Point { x: 0, y: 0 },
    }
}

fn manager_with_one_monitor() -> WindowManager {
    WindowManager::new(&vec![rect(0, 0, 200, 100)], vec![]).unwrap()
}

fn win(hwnd: isize) -> Window {
    Window { hwnd }
}

#[test]
fn show_creates_container_and_layout_slot() {
    let mut wm = manager_with_one_monitor();
    let shown = wm.process_event(&WindowManagerEvent::Show(0, win(1)), &snapshot(vec![1], Some(0)));
    assert_eq!(shown, Ok(()));
    assert_eq!(wm.monitors[0].workspaces[0].containers.len(), 1);
    assert_eq!(wm.monitors[0].workspaces[0].latest_layout.len(), 1);
    assert_eq!(wm.known_hwnds(), vec![1]);
}

#[test]
fn end_to_end_show_show_drag_swaps_containers() {
    let mut wm = manager_with_one_monitor();
    wm.process_event(&WindowManagerEvent::Show(0, win(1)), &snapshot(vec![1], Some(0))).unwrap();
    wm.process_event(&WindowManagerEvent::Show(0, win(2)), &snapshot(vec![1, 2], Some(0)))
        .unwrap();
    assert_eq!(wm.monitors[0].workspaces[0].containers.len(), 2);
    assert_eq!(wm.monitors[0].workspaces[0].latest_layout.len(), 2);
    assert_eq!(wm.monitors[0].workspaces[0].containers[1].windows[0].hwnd, 2);
    // A pure positional drag of window 1's container: its slot rectangle
    // {0,0,100,100} translated right by 100, size unchanged, with the
    // pointer landing in slot 1's rectangle {100,0,200,100}.
    let drag_end = PlatformSnapshot {
        valid_hwnds: vec![1, 2],
        event_window_monitor: Some(0),
        event_window_rect: Some(rect(112, 0, 224, 112)),
        event_window_exe: None,
        pointer: Point { x: 150, y: 50 },
    };
    let dragged = wm.process_event(&WindowManagerEvent::MoveResizeEnd(0, win(1)), &drag_end);
    assert_eq!(dragged, Ok(()));
    assert_eq!(wm.monitors[0].workspaces[0].containers.len(), 2);
    assert_eq!(wm.monitors[0].workspaces[0].latest_layout.len(), 2);
    assert_eq!(wm.monitors[0].workspaces[0].containers[0].windows[0].hwnd, 2);
    assert_eq!(wm.monitors[0].workspaces[0].containers[1].windows[0].hwnd, 1);
}

#[test]
fn show_then_destroy_leaves_no_reference() {
    let mut wm = manager_with_one_monitor();
    wm.process_event(&WindowManagerEvent::Show(0, win(7)), &snapshot(vec![7], Some(0))).unwrap();
    wm.process_event(&WindowManagerEvent::Show(0, win(7)), &snapshot(vec![7], Some(0))).unwrap();
    assert_eq!(wm.monitors[0].workspaces[0].containers.len(), 1);
    let destroyed = wm.process_event(&WindowManagerEvent::Destroy(0, win(7)), &snapshot(vec![7], None));
    assert_eq!(destroyed, Ok(()));
    assert_eq!(wm.known_hwnds(), Vec::<isize>::new());
    assert_eq!(wm.monitors[0].workspaces[0].containers.len(), 0);
}

#[test]
fn reap_orphans_is_idempotent() {
    let mut ws = Workspace {
        containers: vec![
            Container { windows: vec![win(1), win(2)], focused_window_idx: 1 },
            Container { windows: vec![win(3)], focused_window_idx: 0 },
        ],
        floating_windows: vec![win(4)],
        focused_container_idx: 1,
        latest_layout: vec![],
    };
    let valid = vec![2isize];
    let first = ws.reap_orphans(&valid);
    assert_eq!(first, (3, 1));
    assert_eq!(ws.containers.len(), 1);
    assert_eq!(ws.containers[0].windows.len(), 1);
    assert_eq!(ws.containers[0].windows[0].hwnd, 2);
    let second = ws.reap_orphans(&valid);
    assert_eq!(second, (0, 0));
}

#[test]
fn mouse_capture_only_reaps() {
    let mut wm = manager_with_one_monitor();
    wm.process_event(&WindowManagerEvent::Show(0, win(1)), &snapshot(vec![1], Some(0))).unwrap();
    // The platform no longer recognises handle 1: the mouse-capture
    // event reaps it and recomputes the layout, nothing more.
    let captured = wm.process_event(&WindowManagerEvent::MouseCapture(0, win(9)), &snapshot(vec![], None));
    assert_eq!(captured, Ok(()));
    assert_eq!(wm.monitors[0].workspaces[0].containers.len(), 0);
    assert_eq!(wm.monitors[0].workspaces[0].latest_layout.len(), 0);
}

#[test]
fn reap_after_processed_event_removes_nothing() {
    let mut wm = manager_with_one_monitor();
    wm.process_event(&WindowManagerEvent::Show(0, win(1)), &snapshot(vec![1], Some(0))).unwrap();
    wm.process_event(&WindowManagerEvent::Show(0, win(2)), &snapshot(vec![1, 2], Some(0)))
        .unwrap();
    let hwnds = wm.known_hwnds();
    let layout = wm.monitors[0].workspaces[0].latest_layout.clone();
    // With no validity change since the last event, a further event's
    // reaping pass finds nothing to remove.
    let r = wm.process_event(&WindowManagerEvent::MouseCapture(0, win(9)), &snapshot(vec![1, 2], None));
    assert_eq!(r, Ok(()));
    assert_eq!(wm.known_hwnds(), hwnds);
    assert_eq!(wm.monitors[0].workspaces[0].latest_layout, layout);
    assert_eq!(wm.monitors[0].workspaces[0].containers.len(), 2);
}

#[test]
fn hide_from_multi_window_exe_removes_window() {
    let mut wm =
        WindowManager::new(&vec![rect(0, 0, 200, 100)], vec!["firefox.exe".to_string()]).unwrap();
    wm.process_event(&WindowManagerEvent::Show(0, win(1)), &snapshot(vec![1], Some(0))).unwrap();
    let hide = PlatformSnapshot {
        valid_hwnds: vec![1],
        event_window_monitor: None,
        event_window_rect: None,
        event_window_exe: Some("firefox.exe".to_string()),
        pointer: Point { x: 0, y: 0 },
    };
    let hidden = wm.process_event(&WindowManagerEvent::Hide(0, win(1)), &hide);
    assert_eq!(hidden, Ok(()));
    assert_eq!(wm.known_hwnds(), Vec::<isize>::new());
}

#[test]
fn hide_on_allow_list_changes_nothing() {
    let mut wm =
        WindowManager::new(&vec![rect(0, 0, 200, 100)], vec!["firefox.exe".to_string()]).unwrap();
    wm.process_event(&WindowManagerEvent::Show(0, win(1)), &snapshot(vec![1], Some(0))).unwrap();
    wm.hidden_hwnds.push(1);
    let hide = PlatformSnapshot {
        valid_hwnds: vec![1],
        event_window_monitor: None,
        event_window_rect: None,
        event_window_exe: Some("firefox.exe".to_string()),
        pointer: Point { x: 0, y: 0 },
    };
    let hidden = wm.process_event(&WindowManagerEvent::Hide(0, win(1)), &hide);
    assert_eq!(hidden, Ok(()));
    assert_eq!(wm.known_hwnds(), vec![1]);
}

#[test]
fn hide_of_ordinary_valid_window_is_ignored() {
    let mut wm =
        WindowManager::new(&vec![rect(0, 0, 200, 100)], vec!["firefox.exe".to_string()]).unwrap();
    wm.process_event(&WindowManagerEvent::Show(0, win(1)), &snapshot(vec![1], Some(0))).unwrap();
    let hide = PlatformSnapshot {
        valid_hwnds: vec![1],
        event_window_monitor: None,
        event_window_rect: None,
        event_window_exe: Some("notepad.exe".to_string()),
        pointer: Point { x: 0, y: 0 },
    };
    assert_eq!(wm.process_event(&WindowManagerEvent::Hide(0, win(1)), &hide), Ok(()));
    assert_eq!(wm.known_hwnds(), vec![1]);
}

#[test]
fn pause_leaves_model_untouched() {
    let mut wm = manager_with_one_monitor();
    wm.process_event(&WindowManagerEvent::Show(0, win(1)), &snapshot(vec![1], Some(0))).unwrap();
    let before_hwnds = wm.known_hwnds();
    let before_layout = wm.monitors[0].workspaces[0].latest_layout.clone();
    wm.toggle_pause();
    // Even a destroy with an empty valid set (which would otherwise
    // reap) must change nothing while paused.
    let r = wm.process_event(&WindowManagerEvent::Destroy(0, win(1)), &snapshot(vec![], None));
    assert_eq!(r, Ok(()));
    assert_eq!(wm.known_hwnds(), before_hwnds);
    assert_eq!(wm.monitors[0].workspaces[0].latest_layout, before_layout);
    assert_eq!(wm.monitors[0].workspaces[0].containers.len(), 1);
    assert!(wm.is_paused);
}

#[test]
fn resize_drag_issues_pending_operations() {
    let mut wm = manager_with_one_monitor();
    wm.process_event(&WindowManagerEvent::Show(0, win(1)), &snapshot(vec![1], Some(0))).unwrap();
    // Focused slot is {0,0,200,100}; adjusted post-drag {-10,0,200,90}:
    // the left edge grows the tile, the bottom edge shrinks it.
    let drag_end = PlatformSnapshot {
        valid_hwnds: vec![1],
        event_window_monitor: Some(0),
        event_window_rect: Some(rect(2, 0, 224, 102)),
        event_window_exe: None,
        pointer: Point { x: 0, y: 0 },
    };
    let dragged = wm.process_event(&WindowManagerEvent::MoveResizeEnd(0, win(1)), &drag_end);
    assert_eq!(dragged, Ok(()));
    assert_eq!(
        wm.pending_resize_ops,
        vec![
            ResizeOp { direction: OperationDirection::Left, sizing: Sizing::Increase, step: 20 },
            ResizeOp { direction: OperationDirection::Down, sizing: Sizing::Decrease, step: 20 },
        ]
    );
}

#[test]
fn show_of_window_tracked_elsewhere_switches_focus_without_inserting() {
    let mut wm =
        WindowManager::new(&vec![rect(0, 0, 200, 100), rect(200, 0, 400, 100)], vec![]).unwrap();
    // The window appears on monitor 1 and is tiled there.
    wm.process_event(&WindowManagerEvent::Show(0, win(1)), &snapshot(vec![1], Some(1))).unwrap();
    assert_eq!(wm.monitors[1].workspaces[0].containers.len(), 1);
    wm.focus_monitor(0).unwrap();
    // A further show resolved to monitor 0: the window is found on
    // monitor 1, workspace 0 — a different pair than the focused
    // (monitor 0, workspace 0) — so focus switches there and no second
    // container is opened anywhere.
    let shown = wm.process_event(&WindowManagerEvent::Show(0, win(1)), &snapshot(vec![1], Some(0)));
    assert_eq!(shown, Ok(()));
    assert_eq!(wm.focused_monitor_idx, 1);
    assert_eq!(wm.monitors[1].focused_workspace_idx, 0);
    assert_eq!(wm.monitors[0].workspaces[0].containers.len(), 0);
    assert_eq!(wm.monitors[1].workspaces[0].containers.len(), 1);
    assert_eq!(wm.known_hwnds(), vec![1]);
}

#[test]
fn drag_of_unfocused_window_swaps_its_own_slot() {
    let mut wm = manager_with_one_monitor();
    wm.process_event(&WindowManagerEvent::Show(0, win(1)), &snapshot(vec![1], Some(0))).unwrap();
    wm.process_event(&WindowManagerEvent::Show(0, win(2)), &snapshot(vec![1, 2], Some(0)))
        .unwrap();
    assert_eq!(wm.monitors[0].workspaces[0].focused_container_idx, 0);
    // Window 2 sits in slot 1 ({100,0,200,100}); its adjusted post-drag
    // rectangle is that slot translated left and down, size unchanged,
    // so this is a move of window 2's own container, not of the focused
    // one, and the pointer lands in slot 0.
    let drag_end = PlatformSnapshot {
        valid_hwnds: vec![1, 2],
        event_window_monitor: Some(0),
        event_window_rect: Some(rect(32, 20, 144, 132)),
        event_window_exe: None,
        pointer: Point { x: 50, y: 50 },
    };
    let dragged = wm.process_event(&WindowManagerEvent::MoveResizeEnd(0, win(2)), &drag_end);
    assert_eq!(dragged, Ok(()));
    assert_eq!(wm.monitors[0].workspaces[0].containers[0].windows[0].hwnd, 2);
    assert_eq!(wm.monitors[0].workspaces[0].containers[1].windows[0].hwnd, 1);
    assert_eq!(wm.pending_resize_ops, vec![]);
}

#[test]
fn unresolved_monitor_is_no_owning_monitor() {
    let mut wm = manager_with_one_monitor();
    let r = wm.process_event(&WindowManagerEvent::Show(0, win(1)), &snapshot(vec![1], None));
    assert_eq!(r, Err(WmError::NoOwningMonitor));
    assert_eq!(wm.monitors[0].workspaces[0].containers.len(), 0);
}

#[test]
fn out_of_range_monitor_is_index_out_of_range() {
    let mut wm = manager_with_one_monitor();
    let r = wm.process_event(&WindowManagerEvent::Show(0, win(1)), &snapshot(vec![1], Some(4)));
    assert_eq!(r, Err(WmError::IndexOutOfRange));
}

#[test]
fn destroy_of_unknown_window_is_window_not_found() {
    let mut wm = manager_with_one_monitor();
    let r = wm.process_event(&WindowManagerEvent::Destroy(0, win(9)), &snapshot(vec![], None));
    assert_eq!(r, Err(WmError::WindowNotFound));
}

#[test]
fn drag_end_for_untracked_window_is_window_not_found() {
    let mut wm = manager_with_one_monitor();
    let r = wm.process_event(&WindowManagerEvent::MoveResizeEnd(0, win(1)), &snapshot(vec![1], Some(0)));
    assert_eq!(r, Err(WmError::WindowNotFound));
}

#[test]
fn drag_end_without_rectangle_is_geometry_query_failed() {
    let mut wm = manager_with_one_monitor();
    wm.process_event(&WindowManagerEvent::Show(0, win(1)), &snapshot(vec![1], Some(0))).unwrap();
    let r = wm.process_event(&WindowManagerEvent::MoveResizeEnd(0, win(1)), &snapshot(vec![1], Some(0)));
    assert_eq!(r, Err(WmError::GeometryQueryFailed));
}

#[test]
fn hide_without_exe_answer_is_platform_query_failed() {
    let mut wm = manager_with_one_monitor();
    wm.process_event(&WindowManagerEvent::Show(0, win(1)), &snapshot(vec![1], Some(0))).unwrap();
    let r = wm.process_event(&WindowManagerEvent::Hide(0, win(1)), &snapshot(vec![1], None));
    assert_eq!(r, Err(WmError::PlatformQueryFailed));
}

#[test]
fn manager_needs_at_least_one_ordered_work_area() {
    assert_eq!(WindowManager::new(&vec![], vec![]).err(), Some(WmError::NoMonitors));
    assert_eq!(
        WindowManager::new(&vec![rect(10, 0, 0, 10)], vec![]).err(),
        Some(WmError::NoMonitors)
    );
}

#[test]
fn focus_change_focuses_the_containing_container() {
    let mut wm = manager_with_one_monitor();
    wm.process_event(&WindowManagerEvent::Show(0, win(1)), &snapshot(vec![1], Some(0))).unwrap();
    wm.process_event(&WindowManagerEvent::Show(0, win(2)), &snapshot(vec![1, 2], Some(0)))
        .unwrap();
    assert_eq!(wm.monitors[0].workspaces[0].focused_container_idx, 0);
    let r = wm.process_event(&WindowManagerEvent::FocusChange(0, win(2)), &snapshot(vec![1, 2], Some(0)));
    assert_eq!(r, Ok(()));
    assert_eq!(wm.monitors[0].workspaces[0].focused_container_idx, 1);
}

#[test]
fn focus_change_ignores_floating_windows() {
    let mut wm = manager_with_one_monitor();
    wm.process_event(&WindowManagerEvent::Show(0, win(1)), &snapshot(vec![1], Some(0))).unwrap();
    wm.monitors[0].workspaces[0].floating_windows.push(win(5));
    let r = wm.process_event(
        &WindowManagerEvent::FocusChange(0, win(5)),
        &snapshot(vec![1, 5], Some(0)),
    );
    assert_eq!(r, Ok(()));
    assert_eq!(wm.monitors[0].workspaces[0].focused_container_idx, 0);
}

#[test]
fn known_hwnds_json_is_a_pretty_array() {
    let mut wm = manager_with_one_monitor();
    assert_eq!(wm.known_hwnds_json(), "[]");
    wm.process_event(&WindowManagerEvent::Show(0, win(1)), &snapshot(vec![1], Some(0))).unwrap();
    wm.process_event(&WindowManagerEvent::Show(0, win(2)), &snapshot(vec![1, 2], Some(0)))
        .unwrap();
    assert_eq!(wm.known_hwnds_json(), "[\n  1,\n  2\n]");
}

#[test]
fn workspace_switch_beyond_count_creates_workspaces() {
    let mut wm = manager_with_one_monitor();
    assert_eq!(wm.focus_workspace(2), Ok(()));
    assert_eq!(wm.monitors[0].workspaces.len(), 3);
    assert_eq!(wm.monitors[0].focused_workspace_idx, 2);
}

#[test]
fn monitor_focus_workspace_rejects_out_of_range() {
    let mut wm = manager_with_one_monitor();
    let r = wm.monitors[0].focus_workspace(3);
    assert_eq!(r, Err(WmError::IndexOutOfRange));
    assert_eq!(wm.monitors[0].focused_workspace_idx, 0);
}

#[test]
fn error_descriptions_are_distinct() {
    assert_ne!(WmError::NoOwningMonitor.as_str(), WmError::WindowNotFound.as_str());
    assert_ne!(WmError::NoLatestLayout.as_str(), WmError::GeometryQueryFailed.as_str());
}
