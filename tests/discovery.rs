use launcher::locate::{descriptor_paths, ConfigError, LauncherConfig};

fn strings(items: &[&str]) -> Vec<String> {
    items.iter().map(|s| s.to_string()).collect()
}

#[test]
fn missing_setting_is_an_error() {
    assert_eq!(LauncherConfig::from_env_value(None).err(), Some(ConfigError::MissingDataDirs));
    let config = LauncherConfig::from_env_value(Some("/usr/share".to_string())).unwrap();
    assert_eq!(config.data_dirs, "/usr/share");
}

#[test]
fn search_dirs_join_applications() {
    let config = LauncherConfig { data_dirs: "/usr/share:/home/me/.local/share/::rel".to_string() };
    assert_eq!(
        config.search_dirs(),
        strings(&[
            "/usr/share/applications",
            "/home/me/.local/share/applications",
            "applications",
            "rel/applications",
        ])
    );
}

#[test]
fn unreadable_directories_contribute_nothing() {
    let listings = vec![
        None,
        Some(strings(&["/a/applications/x.desktop", "/a/applications/readme.txt"])),
        None,
        Some(strings(&["/b/applications/x.desktop", "/b/applications/y.desktop"])),
    ];
    assert_eq!(
        descriptor_paths(&listings),
        strings(&["/a/applications/x.desktop", "/b/applications/x.desktop", "/b/applications/y.desktop"])
    );
    assert!(descriptor_paths(&vec![None, None]).is_empty());
}

#[test]
fn only_desktop_suffix_counts() {
    let listings = vec![Some(strings(&["desktop", ".desktop", "a.desktop.bak", "b.Desktop", "c.desktop"]))];
    assert_eq!(descriptor_paths(&listings), strings(&[".desktop", "c.desktop"]));
}
