use monitormenu::backend::HyprlandMonitor;
use monitormenu::pipeline::action_menu;
use monitormenu::pipeline::action_prompt;
use monitormenu::pipeline::confirmation_message;
use monitormenu::pipeline::monitor_menu;
use monitormenu::pipeline::select_action;
use monitormenu::pipeline::select_monitor;
use monitormenu::pipeline::SelectionError;
use monitormenu::Action;

fn monitor(name: &str, desc: &str, w: u32, h: u32, mhz: u32, enabled: bool, focused: bool, modes: Vec<&str>) -> HyprlandMonitor {
    HyprlandMonitor {
        name: name.to_string(),
        description: desc.to_string(),
        width: w,
        height: h,
        refresh_mhz: mhz,
        focused,
        dpms_status: enabled,
        available_modes: modes.into_iter().map(|s| s.to_string()).collect(),
    }
}

#[test]
fn empty_monitor_list_yields_empty_menu() {
    // the early-exit case: nothing to present, nothing to dispatch
    let menu = monitor_menu(&Vec::new());
    assert!(menu.is_empty());
}

#[test]
fn monitor_menu_one_line_per_monitor() {
    let ms = vec![
        monitor("DP-1", "Dell", 2560, 1440, 144000, true, true, vec![]),
        monitor("HDMI-1", "Spare", 1920, 1080, 60000, false, false, vec![]),
    ];
    let menu = monitor_menu(&ms);
    assert_eq!(menu.len(), 2);
    assert_eq!(menu[0], "✓ ● Dell - 2560x1440@144.00Hz (DP-1)");
    assert_eq!(menu[1], "✗   Spare - 1920x1080@60.00Hz (HDMI-1)");
}

#[test]
fn select_monitor_finds_by_extracted_name() {
    let ms = vec![
        monitor("DP-1", "Dell", 2560, 1440, 144000, true, true, vec![]),
        monitor("HDMI-1", "Spare", 1920, 1080, 60000, false, false, vec![]),
    ];
    let menu = monitor_menu(&ms);
    assert_eq!(select_monitor(&ms, &menu[1]), Ok(1));
    assert_eq!(select_monitor(&ms, &menu[0]), Ok(0));
}

#[test]
fn select_monitor_returns_first_of_equal_names() {
    let ms = vec![
        monitor("DP-1", "First", 2560, 1440, 144000, true, true, vec![]),
        monitor("DP-1", "Second", 1920, 1080, 60000, false, false, vec![]),
    ];
    assert_eq!(select_monitor(&ms, "(DP-1)"), Ok(0));
}

#[test]
fn select_monitor_failures() {
    let ms = vec![monitor("DP-1", "Dell", 2560, 1440, 144000, true, true, vec![])];
    assert_eq!(select_monitor(&ms, "no parens here"), Err(SelectionError::NoMonitorName));
    assert_eq!(select_monitor(&ms, "pick (HDMI-1)"), Err(SelectionError::MonitorNotFound));
}

#[test]
fn action_menu_scenario_with_bogus_entry() {
    // an enabled, focused monitor at 2560x1440@144.00 with one bogus raw mode
    let m = monitor(
        "DP-1",
        "Dell",
        2560,
        1440,
        144000,
        true,
        true,
        vec!["2560x1440@144.00Hz", "1920x1080@60.00Hz", "bogus"],
    );
    let menu = action_menu(&m);
    assert_eq!(menu.len(), 3);
    assert_eq!(menu[0], "● Set: 2560x1440 @ 144.00 Hz");
    assert_eq!(menu[1], "  Set: 1920x1080 @ 60.00 Hz");
    assert_eq!(menu[2], "Disable monitor");
    assert!(menu.iter().all(|line| !line.contains("bogus")));
}

#[test]
fn action_menu_offers_enable_when_disabled() {
    let m = monitor("HDMI-1", "Spare", 1920, 1080, 60000, false, false, vec![]);
    let menu = action_menu(&m);
    assert_eq!(menu.len(), 1);
    assert_eq!(menu[0], "Enable monitor");
}

#[test]
fn action_menu_lines_parse_back() {
    let m = monitor(
        "DP-1",
        "Dell",
        2560,
        1440,
        144000,
        true,
        true,
        vec!["2560x1440@144.00Hz", "1920x1080@60.00Hz"],
    );
    for line in action_menu(&m) {
        assert!(select_action(&line).is_ok());
    }
}

#[test]
fn select_action_results() {
    assert_eq!(select_action("Enable monitor"), Ok(Action::Enable));
    assert_eq!(select_action("Disable monitor"), Ok(Action::Disable));
    assert_eq!(
        select_action("● Set: 2560x1440 @ 144.00 Hz"),
        Ok(Action::SetMode(2560, 1440, 144000))
    );
    assert_eq!(select_action("nonsense"), Err(SelectionError::UnrecognizedAction));
}

#[test]
fn action_prompt_text() {
    assert_eq!(action_prompt("DP-1"), "Action for DP-1:");
}

#[test]
fn confirmation_messages() {
    assert_eq!(
        confirmation_message(&Action::SetMode(1920, 1080, 60000), "DP-1"),
        "Set monitor DP-1 to 1920x1080@60.00Hz"
    );
    assert_eq!(confirmation_message(&Action::Enable, "DP-1"), "Enabled monitor DP-1");
    assert_eq!(confirmation_message(&Action::Disable, "DP-1"), "Disabled monitor DP-1");
}

#[test]
fn selection_error_messages() {
    assert_eq!(
        SelectionError::NoMonitorName.message(),
        "Failed to parse monitor name from selection"
    );
    assert_eq!(SelectionError::MonitorNotFound.message(), "Selected monitor not found");
    assert_eq!(
        SelectionError::UnrecognizedAction.message(),
        "Failed to parse action from selection"
    );
}
