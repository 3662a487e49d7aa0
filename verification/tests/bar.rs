use disturbar::bar::{loop_sleep_ms, BarState, MonitorState, PollSchedule, StatusText};
use disturbar::constants::{BAR_HEIGHT, SIGNAL_DETAIL_OFF, SIGNAL_DETAIL_ON, SIGNAL_HIDE, SIGNAL_SHOW};
use disturbar::status::{BarStatus, HyprMonitorInfo, WorkspaceReadings};

fn status_with(active: i64) -> BarStatus {
    let readings = WorkspaceReadings {
        active_raw: format!("{{\"id\":{active}}}"),
        list_raw: "[{\"id\":1},{\"id\":2}]".to_string(),
        monitors: vec![HyprMonitorInfo {
            name: "DP-1".to_string(),
            active_workspace_id: Some(active),
        }],
        workspaces: vec![],
    };
    BarStatus {
        workspaces: BarStatus::gather_workspaces(&readings),
        song: String::new(),
        battery: "BAT 50%".to_string(),
        volume: "VOL 20%".to_string(),
        datetime: "MON 01 JAN 00:00".to_string(),
    }
}

fn configured_bar() -> BarState<(), u32> {
    let mut bar: BarState<(), u32> = BarState::new(status_with(1));
    let mut a = MonitorState::new(7, ());
    a.configure(1920, 0);
    a.store_visible_buffer(Some(1));
    a.store_hidden_buffer(Some(2));
    a.needs_redraw = false;
    let mut b = MonitorState::new(9, ());
    b.set_output_name("HDMI-A-1".to_string(), false);
    bar.monitors.push(a);
    bar.monitors.push(b);
    bar
}

#[test]
fn configure_defaults_height_and_requests_redraw() {
    let mut m: MonitorState<(), u32> = MonitorState::new(1, ());
    assert!(!m.wants_redraw());
    m.configure(800, 0);
    assert_eq!(m.height, BAR_HEIGHT);
    assert!(m.wants_redraw());
    assert!(m.visible_buffer_stale());
    m.configure(0, 30);
    assert_eq!(m.height, 30);
    assert!(!m.wants_redraw());
}

#[test]
fn stored_buffers_are_reused_until_marked_dirty() {
    let mut m: MonitorState<(), u32> = MonitorState::new(1, ());
    m.configure(800, 24);
    m.store_visible_buffer(Some(5));
    assert!(!m.visible_buffer_stale());
    m.needs_redraw = false;
    m.mark_visible_dirty(true);
    assert!(m.visible_buffer_stale());
    assert!(m.needs_redraw);
    assert_eq!(m.visible_buffer, None);
    m.store_hidden_buffer(None);
    assert!(m.hidden_buffer_stale());
}

#[test]
fn same_output_name_keeps_buffers() {
    let mut m: MonitorState<(), u32> = MonitorState::new(1, ());
    m.configure(800, 24);
    m.set_output_name("DP-1".to_string(), true);
    m.store_visible_buffer(Some(3));
    m.needs_redraw = false;
    m.set_output_name("DP-1".to_string(), true);
    assert_eq!(m.visible_buffer, Some(3));
    assert!(!m.needs_redraw);
    m.set_output_name("DP-2".to_string(), true);
    assert_eq!(m.visible_buffer, None);
    assert!(m.needs_redraw);
}

#[test]
fn show_signal_redraws_configured_monitors_only() {
    let mut bar = configured_bar();
    assert!(bar.has_unconfigured_monitors());
    let refresh = bar.apply_visibility_signal(SIGNAL_SHOW);
    assert!(!refresh);
    assert!(bar.visible);
    assert!(bar.monitors[0].needs_redraw);
    assert!(!bar.monitors[1].needs_redraw);
    let refresh = bar.apply_visibility_signal(SIGNAL_SHOW | SIGNAL_HIDE);
    assert!(!refresh);
    assert!(!bar.visible);
}

#[test]
fn detail_signals_ask_for_refresh() {
    let mut bar = configured_bar();
    assert!(bar.apply_visibility_signal(SIGNAL_DETAIL_ON));
    assert!(bar.detail_mode);
    assert!(!bar.apply_visibility_signal(SIGNAL_DETAIL_ON));
    assert!(bar.apply_visibility_signal(SIGNAL_DETAIL_ON | SIGNAL_DETAIL_OFF));
    assert!(!bar.detail_mode);
    assert!(!bar.apply_visibility_signal(0));
}

#[test]
fn remove_output_takes_the_named_monitor() {
    let mut bar = configured_bar();
    assert_eq!(bar.find_monitor(9), Some(1));
    let removed = bar.remove_output(7).expect("monitor");
    assert_eq!(removed.global_name, 7);
    assert_eq!(bar.monitors.len(), 1);
    assert!(bar.remove_output(7).is_none());
    assert_eq!(bar.find_monitor(7), None);
}

#[test]
fn workspace_update_dirties_only_changed_labels() {
    let mut bar = configured_bar();
    bar.visible = true;
    bar.apply_workspace_update(status_with(1).workspaces);
    assert_eq!(bar.monitors[0].visible_buffer, Some(1));
    bar.apply_workspace_update(status_with(2).workspaces);
    assert_eq!(bar.monitors[0].visible_buffer, None);
    assert!(bar.monitors[0].needs_redraw);
    assert_eq!(bar.status.workspaces.label_for_monitor(None), "1 [2]");
}

#[test]
fn status_text_updates_dirty_buffers_on_change() {
    let mut bar = configured_bar();
    bar.update_status_text(StatusText::Volume, "VOL 20%".to_string());
    assert_eq!(bar.monitors[0].visible_buffer, Some(1));
    bar.update_status_text(StatusText::Volume, "VOL 30%".to_string());
    assert_eq!(bar.monitors[0].visible_buffer, None);
    assert_eq!(bar.right_text(), "BAT 50%  VOL 30%  MON 01 JAN 00:00");
    bar.refresh_detail_status("BAT 01:00".to_string(), "VOL Pods".to_string());
    assert_eq!(bar.status.battery, "BAT 01:00");
    assert_eq!(bar.status.volume, "VOL Pods");
}

#[test]
fn polls_wait_for_their_interval() {
    let mut s = PollSchedule::new();
    let d = s.due_polls(1000, true, false);
    assert!(d.workspaces && d.volume && d.song && d.battery && d.datetime);
    let d = s.due_polls(1100, true, false);
    assert!(!d.workspaces && !d.volume && !d.song && !d.battery && !d.datetime);
    let d = s.due_polls(1120, true, false);
    assert!(d.workspaces && !d.volume);
    let d = s.due_polls(1300, true, true);
    assert!(!d.workspaces && d.volume);
    let d = s.due_polls(500, false, false);
    assert!(!d.workspaces && !d.volume && !d.song && !d.battery && !d.datetime);
}

#[test]
fn marking_twice_equals_marking_once() {
    let mut bar = configured_bar();
    bar.visible = true;
    bar.mark_all_visible_buffers_dirty();
    let first: Vec<(bool, bool, Option<u32>)> = bar
        .monitors
        .iter()
        .map(|m| (m.needs_redraw, m.visible_buffer_dirty, m.visible_buffer))
        .collect();
    bar.mark_all_visible_buffers_dirty();
    let second: Vec<(bool, bool, Option<u32>)> = bar
        .monitors
        .iter()
        .map(|m| (m.needs_redraw, m.visible_buffer_dirty, m.visible_buffer))
        .collect();
    assert_eq!(first, second);
    assert_eq!(first, vec![(true, true, None), (false, true, None)]);
}

#[test]
fn loop_sleeps_briefly_while_shown() {
    assert_eq!(loop_sleep_ms(true), 8);
    assert_eq!(loop_sleep_ms(false), 40);
}
