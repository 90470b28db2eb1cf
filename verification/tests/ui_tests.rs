use gjtv::catalog::AppEntry;
use gjtv::ui::{build_rows, icon_cache_step, icon_source, path_extension, placeholder_icon_path,
    plan_icon_cache, IconDirective, IconSource};

fn entry(name: &str, command: &str, icon: &str) -> AppEntry {
    AppEntry {
        name: name.to_string(),
        command: command.to_string(),
        icon: icon.to_string(),
        category: "Apps".to_string(),
    }
}

#[test]
fn explicit_icon_never_asks_for_a_lookup() {
    let e = entry("A", "run-a", "icons/custom.png");
    match icon_source(&e) {
        IconSource::Direct(path) => assert_eq!(path, "icons/custom.png"),
        IconSource::Lookup(name) => panic!("explicit icon looked up as {:?}", name),
    }
}

#[test]
fn empty_icon_is_looked_up_by_command() {
    let e = entry("A", "run-a", "");
    match icon_source(&e) {
        IconSource::Lookup(name) => assert_eq!(name, "run-a"),
        IconSource::Direct(path) => panic!("empty icon loaded directly as {:?}", path),
    }
}

#[test]
fn rows_highlight_exactly_the_selection() {
    let apps = vec![entry("A", "a", ""), entry("B", "b", "b.png"), entry("C", "c", "")];
    let rows = build_rows(&apps, 1);
    assert_eq!(rows.len(), 3);
    assert!(!rows[0].selected);
    assert!(rows[1].selected);
    assert!(!rows[2].selected);
    assert_eq!(rows[0].label, "A");
    assert_eq!(rows[1].label, "B");
    assert_eq!(rows[2].label, "C");
    assert!(matches!(&rows[0].icon, IconSource::Lookup(_)));
    assert!(matches!(&rows[1].icon, IconSource::Direct(_)));
}

#[test]
fn selection_past_the_rows_highlights_nothing() {
    let apps = vec![entry("A", "a", ""), entry("B", "b", "")];
    let rows = build_rows(&apps, 5);
    assert!(rows.iter().all(|r| !r.selected));
}

#[test]
fn extension_of_a_path() {
    assert_eq!(path_extension("/usr/share/icons/firefox.png").unwrap(), "png");
    assert_eq!(path_extension("archive.tar.gz").unwrap(), "gz");
    assert!(path_extension("/usr/share/icons/noext").is_none());
    assert!(path_extension("/home/user/.hidden").is_none());
}

#[test]
fn cache_paths_come_from_name_and_extension() {
    let found = Some("/usr/share/icons/hicolor/48x48/apps/web.svg".to_string());
    let located = plan_icon_cache("firefox", found).unwrap();
    assert_eq!(located.source_path, "/usr/share/icons/hicolor/48x48/apps/web.svg");
    assert_eq!(located.cache_file, "assets/icons/firefox.svg");
    assert_eq!(located.asset_path, "icons/firefox.svg");
}

#[test]
fn nothing_to_cache_without_a_file_or_extension() {
    assert!(plan_icon_cache("firefox", None).is_none());
    assert!(plan_icon_cache("firefox", Some("/opt/icons/plain".to_string())).is_none());
}

#[test]
fn cached_icon_is_never_copied_again() {
    let located = plan_icon_cache("firefox", Some("/opt/icons/f.png".to_string())).unwrap();
    match icon_cache_step(&located, true) {
        IconDirective::UseCached(asset) => assert_eq!(asset, "icons/firefox.png"),
        IconDirective::CopyThenUse(_) => panic!("cached icon copied again"),
    }
    match icon_cache_step(&located, false) {
        IconDirective::CopyThenUse(l) => {
            assert_eq!(l.source_path, "/opt/icons/f.png");
            assert_eq!(l.cache_file, "assets/icons/firefox.png");
        },
        IconDirective::UseCached(_) => panic!("fresh icon not copied"),
    }
}

#[test]
fn placeholder_is_the_fallback_asset() {
    assert_eq!(placeholder_icon_path(), "icons/testcat.png");
}
