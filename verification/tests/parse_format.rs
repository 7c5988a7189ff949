use monitormenu::backend::HyprlandBackend;
use monitormenu::backend::HyprlandMonitor;
use monitormenu::backend::Mode;
use monitormenu::format_mode_for_display;
use monitormenu::format_monitor_for_display;
use monitormenu::parse_monitor_name_from_selection;
use monitormenu::Action;

fn monitor(name: &str, desc: &str, w: u32, h: u32, mhz: u32, enabled: bool, focused: bool, modes: Vec<&str>) -> HyprlandMonitor {
    HyprlandMonitor {
        name: name.to_string(),
        description: desc.to_string(),
        width: w,
        height: h,
        refresh_mhz: mhz,
        focused,
        dpms_status: enabled,
        available_modes: modes.into_iter().map(|s| s.to_string()).collect(),
    }
}

#[test]
fn parse_modes_valid_strings() {
    let raw = vec!["1920x1080@60.00Hz".to_string(), "2560x1440@144.00Hz".to_string()];
    let modes = HyprlandBackend::parse_modes(&raw);
    assert_eq!(modes.len(), 2);
    assert_eq!(modes[0], Mode { width: 1920, height: 1080, refresh_mhz: 60000 });
    assert_eq!(modes[1], Mode { width: 2560, height: 1440, refresh_mhz: 144000 });
}

#[test]
fn parse_modes_drops_bad_entries_and_keeps_rest() {
    let raw = vec![
        "1920x1080".to_string(),          // missing '@'
        "1920@60.00Hz".to_string(),       // missing 'x' in the resolution
        "1920x1080@60.00".to_string(),    // missing the Hz suffix
        "axb@cHz".to_string(),            // non-numeric fields
        "1920x1080@60.00Hz".to_string(),  // valid, must survive the bad ones
    ];
    let modes = HyprlandBackend::parse_modes(&raw);
    assert_eq!(modes.len(), 1);
    assert_eq!(modes[0], Mode { width: 1920, height: 1080, refresh_mhz: 60000 });
}

#[test]
fn parse_modes_empty_input() {
    let modes = HyprlandBackend::parse_modes(&Vec::new());
    assert!(modes.is_empty());
}

#[test]
fn parse_modes_keeps_duplicates_in_order() {
    let raw = vec![
        "1920x1080@60.00Hz".to_string(),
        "640x480@59.94Hz".to_string(),
        "1920x1080@60.00Hz".to_string(),
    ];
    let modes = HyprlandBackend::parse_modes(&raw);
    assert_eq!(modes.len(), 3);
    assert_eq!(modes[0], modes[2]);
    assert_eq!(modes[1], Mode { width: 640, height: 480, refresh_mhz: 59940 });
}

#[test]
fn parse_modes_integer_and_fraction_shapes() {
    let raw = vec![
        "800x600@60Hz".to_string(),       // no decimal point
        "800x600@.5Hz".to_string(),       // no integer digits
        "800x600@60.Hz".to_string(),      // no fractional digits
        "800x600@59.9499Hz".to_string(),  // fraction past millihertz truncated
    ];
    let modes = HyprlandBackend::parse_modes(&raw);
    assert_eq!(modes.len(), 4);
    assert_eq!(modes[0].refresh_mhz, 60000);
    assert_eq!(modes[1].refresh_mhz, 500);
    assert_eq!(modes[2].refresh_mhz, 60000);
    assert_eq!(modes[3].refresh_mhz, 59949);
}

#[test]
fn parse_modes_width_bounds() {
    let raw = vec![
        "4294967295x1@1Hz".to_string(),  // largest u32 width
        "4294967296x1@1Hz".to_string(),  // one past: dropped
    ];
    let modes = HyprlandBackend::parse_modes(&raw);
    assert_eq!(modes.len(), 1);
    assert_eq!(modes[0].width, u32::MAX);
}

#[test]
fn format_mode_exact_text() {
    let m = Mode { width: 1920, height: 1080, refresh_mhz: 60000 };
    let line = format_mode_for_display(&m, 2560, 1440, 144000);
    assert_eq!(line, "  Set: 1920x1080 @ 60.00 Hz");
}

#[test]
fn format_mode_marks_current() {
    let m = Mode { width: 1920, height: 1080, refresh_mhz: 59940 };
    let line = format_mode_for_display(&m, 1920, 1080, 59940);
    assert_eq!(line, "● Set: 1920x1080 @ 59.94 Hz");
}

#[test]
fn current_marker_boundary_ties() {
    // current state: 1920x1080 @ 59.94 Hz
    // 59.95: the difference is exactly 0.01, not strictly less: no marker
    let line = format_mode_for_display(
        &Mode { width: 1920, height: 1080, refresh_mhz: 59950 },
        1920,
        1080,
        59940,
    );
    assert!(line.starts_with(' '));
    // 59.96: difference 0.02: no marker
    let line = format_mode_for_display(
        &Mode { width: 1920, height: 1080, refresh_mhz: 59960 },
        1920,
        1080,
        59940,
    );
    assert!(line.starts_with(' '));
    // 59.945: difference 0.005, strictly less than 0.01: marked current
    let line = format_mode_for_display(
        &Mode { width: 1920, height: 1080, refresh_mhz: 59945 },
        1920,
        1080,
        59940,
    );
    assert!(line.starts_with('●'));
}

#[test]
fn current_marker_needs_exact_geometry() {
    let line = format_mode_for_display(
        &Mode { width: 1280, height: 1080, refresh_mhz: 59940 },
        1920,
        1080,
        59940,
    );
    assert!(line.starts_with(' '));
}

#[test]
fn mode_line_round_trips_to_set_mode() {
    let m = Mode { width: 2560, height: 1440, refresh_mhz: 144000 };
    let line = format_mode_for_display(&m, 2560, 1440, 144000);
    let action = Action::parse_from_selection(&line);
    assert_eq!(action, Some(Action::SetMode(2560, 1440, 144000)));
}

#[test]
fn mode_line_round_trip_refresh_within_half_centihertz() {
    // 59.945 Hz formats as 59.95; parsing returns 59.950, off by 5 mHz
    let m = Mode { width: 1920, height: 1080, refresh_mhz: 59945 };
    let line = format_mode_for_display(&m, 0, 0, 0);
    match Action::parse_from_selection(&line) {
        Some(Action::SetMode(w, h, mhz)) => {
            assert_eq!(w, 1920);
            assert_eq!(h, 1080);
            assert!(mhz.abs_diff(59945) <= 5);
        }
        other => panic!("expected a set-mode action, got {:?}", other),
    }
}

#[test]
fn action_parse_enable_disable() {
    assert_eq!(Action::parse_from_selection("Enable monitor"), Some(Action::Enable));
    assert_eq!(Action::parse_from_selection("Disable monitor"), Some(Action::Disable));
}

#[test]
fn action_parse_rejects_unrecognized_shapes() {
    assert_eq!(Action::parse_from_selection("garbage"), None);
    assert_eq!(Action::parse_from_selection("Set: 1920x1080"), None);
    assert_eq!(Action::parse_from_selection(""), None);
    assert_eq!(Action::parse_from_selection("enable monitor"), None);
    assert_eq!(Action::parse_from_selection("Set: 1920x1080 @ 60.00"), None);
    assert_eq!(Action::parse_from_selection("Set: x1080 @ 60.00 Hz"), None);
    assert_eq!(Action::parse_from_selection("Set: 1920x @ 60.00 Hz"), None);
}

#[test]
fn action_parse_accepts_bare_and_marked_set_lines() {
    let want = Some(Action::SetMode(1920, 1080, 60000));
    assert_eq!(Action::parse_from_selection("Set: 1920x1080 @ 60.00 Hz"), want);
    assert_eq!(Action::parse_from_selection("  Set: 1920x1080 @ 60.00 Hz"), want);
    assert_eq!(Action::parse_from_selection("● Set: 1920x1080 @ 60.00 Hz"), want);
}

#[test]
fn format_monitor_exact_text() {
    let m = monitor("DP-1", "Dell U2720Q", 2560, 1440, 144000, true, true, vec![]);
    let line = format_monitor_for_display(&m);
    assert_eq!(line, "✓ ● Dell U2720Q - 2560x1440@144.00Hz (DP-1)");
}

#[test]
fn format_monitor_disabled_unfocused() {
    let m = monitor("HDMI-1", "Spare", 1920, 1080, 60000, false, false, vec![]);
    let line = format_monitor_for_display(&m);
    assert_eq!(line, "✗   Spare - 1920x1080@60.00Hz (HDMI-1)");
}

#[test]
fn monitor_line_round_trips_to_name() {
    let m = monitor("DP-1", "Dell U2720Q", 2560, 1440, 144000, true, false, vec![]);
    let line = format_monitor_for_display(&m);
    assert_eq!(parse_monitor_name_from_selection(&line), Some("DP-1".to_string()));
}

#[test]
fn monitor_name_extraction_first_pair_only() {
    assert_eq!(parse_monitor_name_from_selection("desc (a(b)"), Some("a(b".to_string()));
    assert_eq!(parse_monitor_name_from_selection("a (x) b (y)"), Some("x".to_string()));
}

#[test]
fn monitor_name_extraction_failures() {
    assert_eq!(parse_monitor_name_from_selection("no parens"), None);
    assert_eq!(parse_monitor_name_from_selection("open ( only"), None);
    assert_eq!(parse_monitor_name_from_selection("x)y(z"), None);
    assert_eq!(parse_monitor_name_from_selection(""), None);
}

#[test]
fn hyprctl_argument_lists() {
    let b = HyprlandBackend::new();
    assert_eq!(
        b.enable_monitor("DP-1"),
        vec!["keyword".to_string(), "monitor".to_string(), "DP-1,preferred,auto,1".to_string()]
    );
    assert_eq!(
        b.disable_monitor("DP-1"),
        vec!["keyword".to_string(), "monitor".to_string(), "DP-1,disable".to_string()]
    );
    assert_eq!(
        b.set_monitor_mode("DP-1", 1920, 1080, 60000),
        vec!["keyword".to_string(), "monitor".to_string(), "DP-1,1920x1080@60.00,auto,1".to_string()]
    );
}
