use gjtv::catalog::{from_entries, AppEntry};
use gjtv::launch::{launch_plan, launch_selected, WmCommand, SETTLE_DELAY_MS};
use gjtv::state::LaunchState;

fn entry(name: &str, command: &str, category: &str) -> AppEntry {
    AppEntry {
        name: name.to_string(),
        command: command.to_string(),
        icon: String::new(),
        category: category.to_string(),
    }
}

#[test]
fn launch_plan_keeps_the_fixed_order() {
    let plan = launch_plan(&"firefox".to_string(), 3);
    assert_eq!(plan.len(), 4);
    assert!(matches!(plan[0], WmCommand::ToggleSpecial));
    assert!(matches!(plan[1], WmCommand::SwitchWorkspace(3)));
    assert!(matches!(plan[2], WmCommand::SettleDelay));
    match &plan[3] {
        WmCommand::RunShell(cmd) => assert_eq!(cmd, "firefox"),
        other => panic!("unexpected step: {:?}", other),
    }
    assert_eq!(SETTLE_DELAY_MS, 100);
}

#[test]
fn launch_selected_uses_the_free_workspace() {
    let entries = vec![entry("A", "run-a", "Games"), entry("B", "run-b", "Games")];
    let catalog = from_entries(&entries);
    let state = LaunchState { current_tab: 0, current_selection: 1 };
    let report = b"\"id\": 1,\n\"id\": 2,\n\"id\": 4,\n".to_vec();
    let plan = launch_selected(&catalog, &state, Some(&report)).unwrap();
    assert!(matches!(plan[1], WmCommand::SwitchWorkspace(3)));
    match &plan[3] {
        WmCommand::RunShell(cmd) => assert_eq!(cmd, "run-b"),
        other => panic!("unexpected step: {:?}", other),
    }
}

#[test]
fn launch_selected_defaults_without_a_report() {
    let entries = vec![entry("A", "run-a", "Games")];
    let catalog = from_entries(&entries);
    let state = LaunchState { current_tab: 0, current_selection: 0 };
    let plan = launch_selected(&catalog, &state, None).unwrap();
    assert!(matches!(plan[1], WmCommand::SwitchWorkspace(1)));
}

#[test]
fn launch_selected_refuses_an_out_of_range_selection() {
    let entries = vec![entry("A", "run-a", "Games")];
    let catalog = from_entries(&entries);
    let past_rows = LaunchState { current_tab: 0, current_selection: 1 };
    assert!(launch_selected(&catalog, &past_rows, None).is_none());
    let past_tabs = LaunchState { current_tab: 1, current_selection: 0 };
    assert!(launch_selected(&catalog, &past_tabs, None).is_none());
}
