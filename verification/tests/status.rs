use disturbar::status::{
    find_json_string_field, format_volume_device_label, format_workspace_label,
    gather_battery, gather_datetime, gather_song, gather_volume, is_battery_charging,
    is_volume_muted, is_workspace_event, parse_i64_from, parse_json_i64_field, parse_json_string,
    parse_workspace_ids, parse_wpctl_device_name, sanitize_bar_text, song_title_from_file,
    BarStatus, BatteryState, HyprMonitorInfo, HyprWorkspaceInfo, VolumeReadings,
    WorkspaceReadings, WorkspaceStatus,
};

#[test]
fn parse_i64_from_reads_positive_and_negative() {
    assert_eq!(parse_i64_from("id: 42", 3), Some(42));
    assert_eq!(parse_i64_from("val:-7", 4), Some(-7));
}

#[test]
fn parse_i64_from_handles_missing_digits() {
    assert_eq!(parse_i64_from("id: x", 3), None);
    assert_eq!(parse_i64_from("id:-", 3), None);
}

#[test]
fn parse_i64_from_rejects_overflow_and_reads_extremes() {
    assert_eq!(parse_i64_from("9223372036854775807", 0), Some(i64::MAX));
    assert_eq!(parse_i64_from("-9223372036854775808", 0), Some(i64::MIN));
    assert_eq!(parse_i64_from("9223372036854775808", 0), None);
    assert_eq!(parse_i64_from(" \t 0012x", 0), Some(12));
    assert_eq!(parse_i64_from("12", 5), None);
}

#[test]
fn parse_workspace_ids_collects_all_ids() {
    let raw = r#"[{"id":1},{"id":4},{"id":2}]"#;
    assert_eq!(parse_workspace_ids(raw), vec![1, 4, 2]);
}

#[test]
fn parse_workspace_ids_skips_invalid_entries() {
    let raw = r#"[{"id":"bad"},{"id":9}]"#;
    assert_eq!(parse_workspace_ids(raw), vec![9]);
}

#[test]
fn parse_json_i64_field_reads_first_field() {
    assert_eq!(parse_json_i64_field(r#"{"id":3,"name":"3"}"#, "id"), Some(3));
    assert_eq!(parse_json_i64_field(r#"{"name":"3"}"#, "id"), None);
}

#[test]
fn is_volume_muted_detects_muted_flag() {
    assert!(is_volume_muted("Volume: 0.37 [MUTED]"));
    assert!(!is_volume_muted("Volume: 0.37"));
}

#[test]
fn is_battery_charging_detects_status() {
    assert!(is_battery_charging("Charging\n"));
    assert!(is_battery_charging("charging"));
    assert!(!is_battery_charging("Discharging"));
    assert!(!is_battery_charging("Full"));
}

#[test]
fn find_json_string_field_reads_nested_values() {
    let raw = r#"{"metadata":{"title":"Moonlight Shadow","artist":"No Hero"}}"#;
    assert_eq!(
        find_json_string_field(raw, "title"),
        Some("Moonlight Shadow".to_string())
    );
    assert_eq!(
        find_json_string_field(raw, "artist"),
        Some("No Hero".to_string())
    );
}

#[test]
fn parse_json_string_resolves_escapes() {
    let raw = r#""a\"b\\c\/d\u0041\u00e9\n" tail"#;
    assert_eq!(parse_json_string(raw, 1), Some("a\"b\\c/dA\u{e9}\n".to_string()));
    assert_eq!(parse_json_string(r#""abc"#, 1), None);
    assert_eq!(parse_json_string(r#""a\qb""#, 1), None);
    assert_eq!(parse_json_string(r#""\ud800""#, 1), None);
    assert_eq!(parse_json_string(r#""\u+041""#, 1), Some("A".to_string()));
}

#[test]
fn song_title_from_file_uses_basename_without_extension() {
    let raw = r#"{"file":"No Hero/no hero - moonlight shadow.mp3"}"#;
    assert_eq!(
        song_title_from_file(raw),
        Some("no hero - moonlight shadow".to_string())
    );
}

#[test]
fn sanitize_bar_text_keeps_supported_glyphs() {
    assert_eq!(
        sanitize_bar_text("M83 _ Midnight City (Live)!"),
        "M83 Midnight City Live"
    );
}

#[test]
fn sanitize_bar_text_collapses_and_trims_spaces() {
    assert_eq!(sanitize_bar_text("  Rock & Roll  "), "Rock Roll");
    assert_eq!(sanitize_bar_text("\u{e9}t\u{e9}"), "t");
    assert_eq!(sanitize_bar_text(""), "");
}

#[test]
fn parse_wpctl_device_name_reads_description() {
    let raw = r#"
id 48, type PipeWire:Interface:Node
    node.description = "USB Headset"
"#;
    assert_eq!(
        parse_wpctl_device_name(raw),
        Some("USB Headset".to_string())
    );
}

#[test]
fn parse_wpctl_device_name_prefers_earlier_keys_per_line() {
    let raw = "  node.nick = \"Nick\"  node.description = \"Desc\"\r\nnode.description = \"Later\"";
    assert_eq!(parse_wpctl_device_name(raw), Some("Desc".to_string()));
    assert_eq!(parse_wpctl_device_name("device.nick = \"open"), None);
}

#[test]
fn format_volume_device_label_aliases_airpods() {
    assert_eq!(format_volume_device_label("AirPods Pro"), "Pods");
}

#[test]
fn format_volume_device_label_aliases_speakers() {
    assert_eq!(
        format_volume_device_label("Built-in Audio Analog Stereo"),
        "SPEAKER"
    );
}

#[test]
fn format_volume_device_label_truncates_unknown_names() {
    assert_eq!(format_volume_device_label("USB Headset"), "USB Head");
}

#[test]
fn is_workspace_event_matches_workspace_kinds() {
    assert!(is_workspace_event("workspace>>3"));
    assert!(is_workspace_event("focusedmonv2>>DP-1,2"));
    assert!(!is_workspace_event("activewindow>>kitty"));
    assert!(!is_workspace_event("workspace"));
    assert!(!is_workspace_event("xworkspace>>1"));
}

#[test]
fn format_workspace_label_brackets_active() {
    assert_eq!(format_workspace_label(&[1, 2, 10], Some(2)), "1 [2] 10");
    assert_eq!(format_workspace_label(&[-3], None), "-3");
    assert_eq!(format_workspace_label(&[], Some(1)), "");
}

fn monitor(name: &str, active: Option<i64>) -> HyprMonitorInfo {
    HyprMonitorInfo {
        name: name.to_string(),
        active_workspace_id: active,
    }
}

fn workspace(id: i64, monitor: &str) -> HyprWorkspaceInfo {
    HyprWorkspaceInfo {
        id,
        monitor: monitor.to_string(),
    }
}

#[test]
fn gather_workspaces_labels_each_monitor() {
    let readings = WorkspaceReadings {
        active_raw: r#"{"id":4,"name":"4"}"#.to_string(),
        list_raw: r#"[{"id":4},{"id":2},{"id":4},{"id":7}]"#.to_string(),
        monitors: vec![
            monitor("DP-1", Some(2)),
            monitor("HDMI-A-1", Some(7)),
            monitor("eDP-1", None),
            monitor("DP-2", Some(9)),
        ],
        workspaces: vec![
            workspace(4, "DP-1"),
            workspace(2, "DP-1"),
            workspace(7, "HDMI-A-1"),
            workspace(-98, "HDMI-A-1"),
        ],
    };
    let status = BarStatus::gather_workspaces(&readings);
    assert_eq!(status.label_for_monitor(Some("DP-1")), "[2] 4");
    assert_eq!(status.label_for_monitor(Some("HDMI-A-1")), "[7]");
    assert_eq!(status.label_for_monitor(Some("eDP-1")), "2 [4] 7");
    assert_eq!(status.label_for_monitor(Some("DP-2")), "[9]");
    assert_eq!(status.label_for_monitor(Some("unknown")), "2 [4] 7");
    assert_eq!(status.label_for_monitor(None), "2 [4] 7");
}

#[test]
fn gather_workspaces_falls_back_to_placeholder() {
    let readings = WorkspaceReadings {
        active_raw: String::new(),
        list_raw: String::new(),
        monitors: vec![monitor("DP-1", None)],
        workspaces: vec![],
    };
    let status = BarStatus::gather_workspaces(&readings);
    assert_eq!(status.label_for_monitor(Some("DP-1")), "[1] 2 3 4 5");
    let other = BarStatus::gather_workspaces(&readings);
    assert!(status.same_as(&other));
}

#[test]
fn gather_workspaces_uses_first_monitor_active_when_unreported() {
    let readings = WorkspaceReadings {
        active_raw: String::new(),
        list_raw: r#"[{"id":3},{"id":5}]"#.to_string(),
        monitors: vec![monitor("DP-1", None), monitor("DP-2", Some(5))],
        workspaces: vec![],
    };
    let status = BarStatus::gather_workspaces(&readings);
    assert_eq!(status.label_for_monitor(None), "3 [5]");
    assert_eq!(status.label_for_monitor(Some("DP-1")), "3 [5]");
}

#[test]
fn gather_song_joins_artist_and_title() {
    let raw = r#"{"metadata":{"title":"Moonlight Shadow","artist":"No Hero"}}"#;
    assert_eq!(gather_song(raw), "No Hero - Moonlight Shadow");
    let raw = r#"{"file":"a/b/Track_01.flac"}"#;
    assert_eq!(gather_song(raw), "Track 01");
    assert_eq!(gather_song("  \n"), "");
    assert_eq!(gather_song(r#"{"artist":"Solo"}"#), "Solo");
}

#[test]
fn gather_volume_formats_level_and_device() {
    let level = VolumeReadings {
        volume_raw: "Volume: 0.37 [MUTED]".to_string(),
        percent: Some(37),
        inspect_raw: String::new(),
    };
    assert_eq!(gather_volume(false, &level), "VOL MUT 37%");
    let unknown = VolumeReadings {
        volume_raw: "Volume: unavailable".to_string(),
        percent: None,
        inspect_raw: String::new(),
    };
    assert_eq!(gather_volume(false, &unknown), "VOL --%");
    assert_eq!(gather_volume(true, &unknown), "VOL --");
    let device = VolumeReadings {
        volume_raw: "Volume: 0.50".to_string(),
        percent: Some(50),
        inspect_raw: "  node.description = \"AirPods Pro\"\n".to_string(),
    };
    assert_eq!(gather_volume(true, &device), "VOL Pods");
}

#[test]
fn gather_battery_formats_charge_and_time() {
    let charging = BatteryState {
        capacity: "81".to_string(),
        charging: true,
        remaining_minutes: Some(95),
    };
    assert_eq!(gather_battery(false, Some(&charging)), "BAT CH 81%");
    assert_eq!(gather_battery(true, Some(&charging)), "BAT CH 01:35");
    let draining = BatteryState {
        capacity: "40".to_string(),
        charging: false,
        remaining_minutes: None,
    };
    assert_eq!(gather_battery(false, Some(&draining)), "BAT 40%");
    assert_eq!(gather_battery(true, Some(&draining)), "BAT --:--");
    assert_eq!(gather_battery(false, None), "BAT --%");
    assert_eq!(gather_battery(true, None), "BAT --:--");
    let long = BatteryState {
        capacity: "99".to_string(),
        charging: false,
        remaining_minutes: Some(6000),
    };
    assert_eq!(gather_battery(true, Some(&long)), "BAT 100:00");
    let negative = BatteryState {
        capacity: "99".to_string(),
        charging: true,
        remaining_minutes: Some(-5),
    };
    assert_eq!(gather_battery(true, Some(&negative)), "BAT CH 00:00");
}

#[test]
fn gather_datetime_capitalises() {
    assert_eq!(gather_datetime(Some("Tue 05 Mar 09:07")), "TUE 05 MAR 09:07");
    assert_eq!(gather_datetime(None), "-- -- --- --:--");
}

#[test]
fn sanitize_bar_text_is_stable_and_keeps_allowed_chars_in_order() {
    let input = " [1]:  50%  - a/b.c \t\u{e9}Z9 ";
    let once = sanitize_bar_text(input);
    assert_eq!(once, "[1]: 50% - a/b.c Z9");
    assert_eq!(sanitize_bar_text(&once), once);
    let kept: String = input
        .chars()
        .filter(|c| c.is_ascii_alphanumeric() || "[]:%-./".contains(*c))
        .collect();
    let without_spaces: String = once.chars().filter(|c| *c != ' ').collect();
    assert_eq!(without_spaces, kept);
}

#[test]
fn default_workspace_status_labels_nothing() {
    let status = WorkspaceStatus::default();
    assert_eq!(status.label_for_monitor(None), "");
    assert_eq!(status.label_for_monitor(Some("DP-1")), "");
    assert_eq!(status, WorkspaceStatus::default());
}
