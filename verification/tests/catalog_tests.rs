use gjtv::catalog::{from_entries, AppEntry};
use gjtv::state::{FrameInput, LaunchState};

fn entry(name: &str, command: &str, icon: &str, category: &str) -> AppEntry {
    AppEntry {
        name: name.to_string(),
        command: command.to_string(),
        icon: icon.to_string(),
        category: category.to_string(),
    }
}

fn sample_entries() -> Vec<AppEntry> {
    vec![
        entry("A", "a-cmd", "", "Games"),
        entry("B", "b-cmd", "", "Games"),
        entry("C", "c-cmd", "", "Media"),
    ]
}

#[test]
fn tab_names_are_sorted_distinct() {
    let entries = vec![
        entry("m", "m", "", "Media"),
        entry("g", "g", "", "Games"),
        entry("t", "t", "", "Tools"),
        entry("g2", "g2", "", "Games"),
    ];
    let catalog = from_entries(&entries);
    assert_eq!(catalog.tab_count(), 3);
    assert_eq!(catalog.tab_name(0), "Games");
    assert_eq!(catalog.tab_name(1), "Media");
    assert_eq!(catalog.tab_name(2), "Tools");
}

#[test]
fn grouping_keeps_configuration_order() {
    let entries = sample_entries();
    let catalog = from_entries(&entries);
    assert_eq!(catalog.tab_app_count(0), 2);
    assert_eq!(catalog.tab_app_count(1), 1);
    let a = catalog.entry_at(0, 0).unwrap();
    let b = catalog.entry_at(0, 1).unwrap();
    let c = catalog.entry_at(1, 0).unwrap();
    assert_eq!(a.name, "A");
    assert_eq!(b.name, "B");
    assert_eq!(c.name, "C");
    assert!(catalog.entry_at(0, 2).is_none());
    assert!(catalog.entry_at(2, 0).is_none());
}

#[test]
fn loading_twice_gives_the_same_catalog() {
    let entries = vec![
        entry("x", "x", "", "Zeta"),
        entry("y", "y", "", "Alpha"),
        entry("z", "z", "", "Zeta"),
    ];
    let c1 = from_entries(&entries);
    let c2 = from_entries(&entries);
    assert_eq!(c1.tab_count(), c2.tab_count());
    for t in 0..c1.tab_count() {
        assert_eq!(c1.tab_name(t), c2.tab_name(t));
        assert_eq!(c1.tab_app_count(t), c2.tab_app_count(t));
        for s in 0..c1.tab_app_count(t) {
            assert_eq!(c1.entry_at(t, s).unwrap().name, c2.entry_at(t, s).unwrap().name);
        }
    }
}

#[test]
fn case_sensitive_ordering() {
    // Upper-case letters sort before lower-case ones, by code point.
    let entries = vec![entry("a", "a", "", "media"), entry("b", "b", "", "Zulu")];
    let catalog = from_entries(&entries);
    assert_eq!(catalog.tab_name(0), "Zulu");
    assert_eq!(catalog.tab_name(1), "media");
}

#[test]
fn end_to_end_navigation() {
    // Config with categories {"Games": [A, B], "Media": [C]}.
    let entries = sample_entries();
    let catalog = from_entries(&entries);
    assert_eq!(catalog.tab_name(0), "Games");
    assert_eq!(catalog.tab_name(1), "Media");

    let mut state = LaunchState::init();
    assert_eq!(state.current_tab, 0);
    assert_eq!(state.current_selection, 0);
    assert_eq!(catalog.entry_at(state.current_tab, state.current_selection).unwrap().name, "A");

    let down = FrameInput {
        previous_tab: false,
        next_tab: false,
        next_item: true,
        previous_item: false,
        confirm: false,
    };
    let o = state.handle_frame(down, &catalog);
    assert!(o.redraw);
    assert!(!o.launch);
    assert_eq!(state.current_selection, 1);
    assert_eq!(catalog.entry_at(state.current_tab, state.current_selection).unwrap().name, "B");

    let right = FrameInput {
        previous_tab: false,
        next_tab: true,
        next_item: false,
        previous_item: false,
        confirm: false,
    };
    let o = state.handle_frame(right, &catalog);
    assert!(o.redraw);
    assert_eq!(state.current_tab, 1);
    assert_eq!(state.current_selection, 0);
    assert_eq!(catalog.entry_at(state.current_tab, state.current_selection).unwrap().name, "C");
}

#[test]
fn single_category_catalog() {
    let entries = vec![entry("only", "only", "", "Apps")];
    let catalog = from_entries(&entries);
    assert_eq!(catalog.tab_count(), 1);
    assert_eq!(catalog.tab_name(0), "Apps");
    assert_eq!(catalog.tab_app_count(0), 1);
}
