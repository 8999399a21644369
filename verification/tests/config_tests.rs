use lovshot::config::{
    get_watermark_position, set_image_export_format, set_watermark_position, ConfigError,
    WatermarkPosition,
};
use lovshot::config::{
    add_shortcut, complete_config, contains_binding, default_autostart,
    default_screenshot_preview, ensure_stop_recording_defaults, merge_missing_shortcuts,
    remove_shortcut, same_strings, update_shortcuts, AppConfig, OldAppConfig, ShortcutConfig,
    ShortcutTable, StoredConfig,
};

fn shortcut(modifiers: &[&str], key: &str) -> ShortcutConfig {
    ShortcutConfig {
        modifiers: modifiers.iter().map(|m| m.to_string()).collect(),
        key: key.to_string(),
        enabled: true,
    }
}

fn actions(config: &AppConfig) -> Vec<String> {
    (0..config.shortcuts.len())
        .map(|i| config.shortcuts.entry(i).unwrap().action.clone())
        .collect()
}

#[test]
fn shortcut_string_without_modifiers_is_the_key() {
    assert_eq!(shortcut(&[], "Escape").to_shortcut_string(), "Escape");
}

#[test]
fn shortcut_string_joins_with_plus() {
    assert_eq!(shortcut(&["Alt"], "A").to_shortcut_string(), "Alt+A");
    assert_eq!(shortcut(&["Ctrl", "Shift"], "K").to_shortcut_string(), "Ctrl+Shift+K");
}

#[test]
fn shortcut_from_string_splits_at_plus() {
    let s = ShortcutConfig::from_shortcut_string("Ctrl+Shift+K").unwrap();
    assert_eq!(s, shortcut(&["Ctrl", "Shift"], "K"));
    let s = ShortcutConfig::from_shortcut_string("Escape").unwrap();
    assert_eq!(s, shortcut(&[], "Escape"));
}

#[test]
fn shortcut_from_string_keeps_empty_parts() {
    assert_eq!(ShortcutConfig::from_shortcut_string("").unwrap(), shortcut(&[], ""));
    assert_eq!(ShortcutConfig::from_shortcut_string("+").unwrap(), shortcut(&[""], ""));
    assert_eq!(ShortcutConfig::from_shortcut_string("Alt+").unwrap(), shortcut(&["Alt"], ""));
    assert_eq!(ShortcutConfig::from_shortcut_string("A++B").unwrap(), shortcut(&["A", ""], "B"));
}

#[test]
fn shortcut_from_string_handles_wide_characters() {
    let s = ShortcutConfig::from_shortcut_string("Ctrl+é+ß").unwrap();
    assert_eq!(s, shortcut(&["Ctrl", "é"], "ß"));
}

#[test]
fn shortcut_string_round_trip() {
    for text in ["Alt+A", "Shift+Alt+A", "Escape", "", "+", "a+b+c+d"] {
        let s = ShortcutConfig::from_shortcut_string(text).unwrap();
        assert!(s.enabled);
        assert_eq!(s.to_shortcut_string(), text);
    }
}

#[test]
fn same_strings_compares_in_order() {
    let a = vec!["Alt".to_string(), "Shift".to_string()];
    let b = vec!["Shift".to_string(), "Alt".to_string()];
    assert!(same_strings(&a, &a.clone()));
    assert!(!same_strings(&a, &b));
    assert!(!same_strings(&a, &a[..1].to_vec()));
}

#[test]
fn contains_binding_ignores_enabled() {
    let mut off = shortcut(&["Alt"], "A");
    off.enabled = false;
    let list = vec![shortcut(&["Alt"], "G"), off];
    assert!(contains_binding(&list, &shortcut(&["Alt"], "A")));
    assert!(!contains_binding(&list, &shortcut(&["Shift"], "A")));
    assert!(!contains_binding(&list, &shortcut(&[], "A")));
}

#[test]
fn default_config_has_all_actions() {
    let c = AppConfig::default();
    assert_eq!(c.version, "2.0.0");
    assert!(!c.developer_mode);
    assert!(c.autostart_enabled);
    assert!(!c.scroll_capture_enabled);
    assert!(c.screenshot_preview_enabled);
    assert_eq!(
        actions(&c),
        vec![
            "screenshot_static",
            "screenshot",
            "gif",
            "video",
            "scroll",
            "stop_recording",
            "stop_scroll",
            "show_main"
        ]
    );
    assert_eq!(c.shortcuts.get("screenshot_static").unwrap(), &vec![shortcut(&["Alt"], "A")]);
    assert_eq!(c.shortcuts.get("screenshot").unwrap(), &vec![shortcut(&["Shift", "Alt"], "A")]);
    assert_eq!(c.shortcuts.get("gif").unwrap(), &vec![shortcut(&["Alt"], "G")]);
    assert_eq!(c.shortcuts.get("video").unwrap(), &vec![shortcut(&["Alt"], "V")]);
    assert_eq!(c.shortcuts.get("scroll").unwrap(), &vec![shortcut(&["Alt"], "S")]);
    assert_eq!(c.shortcuts.get("stop_recording").unwrap(), &vec![shortcut(&[], "Escape")]);
    assert_eq!(c.shortcuts.get("stop_scroll").unwrap(), &vec![shortcut(&[], "Escape")]);
    assert_eq!(c.shortcuts.get("show_main").unwrap(), &vec![shortcut(&["Alt"], "O")]);
    assert!(c.shortcuts.get("other").is_none());
}

#[test]
fn default_switches() {
    assert!(default_autostart());
    assert!(default_screenshot_preview());
}

#[test]
fn table_insert_replaces_and_appends() {
    let mut t = ShortcutTable::new();
    assert_eq!(t.len(), 0);
    assert!(!t.contains_key("a"));
    t.insert("a".to_string(), vec![shortcut(&[], "1")]);
    t.insert("b".to_string(), vec![shortcut(&[], "2")]);
    t.insert("a".to_string(), vec![shortcut(&[], "3")]);
    assert_eq!(t.len(), 2);
    assert!(t.contains_key("a") && t.contains_key("b"));
    assert_eq!(t.entry(0).unwrap().action, "a");
    assert!(t.entry(2).is_none());
    assert_eq!(t.get("a").unwrap(), &vec![shortcut(&[], "3")]);
    assert_eq!(t.get("b").unwrap(), &vec![shortcut(&[], "2")]);
    let copy = t.clone();
    assert_eq!(copy.len(), 2);
    assert_eq!(copy.get("a").unwrap(), &vec![shortcut(&[], "3")]);
}

#[test]
fn update_replaces_all_shortcuts_of_action() {
    let mut c = AppConfig::default();
    update_shortcuts(&mut c, "gif", vec![shortcut(&["Ctrl"], "G"), shortcut(&[], "F9")]);
    assert_eq!(c.shortcuts.get("gif").unwrap(), &vec![shortcut(&["Ctrl"], "G"), shortcut(&[], "F9")]);
    assert_eq!(c.shortcuts.get("video").unwrap(), &vec![shortcut(&["Alt"], "V")]);
    assert_eq!(c.shortcuts.len(), 8);
    update_shortcuts(&mut c, "new_action", vec![]);
    assert_eq!(c.shortcuts.len(), 9);
    assert!(c.shortcuts.get("new_action").unwrap().is_empty());
}

#[test]
fn add_appends_new_binding() {
    let mut c = AppConfig::default();
    add_shortcut(&mut c, "gif", shortcut(&["Ctrl"], "G"));
    assert_eq!(c.shortcuts.get("gif").unwrap(), &vec![shortcut(&["Alt"], "G"), shortcut(&["Ctrl"], "G")]);
}

#[test]
fn add_skips_existing_binding() {
    let mut c = AppConfig::default();
    let mut dup = shortcut(&["Alt"], "G");
    dup.enabled = false;
    add_shortcut(&mut c, "gif", dup);
    assert_eq!(c.shortcuts.get("gif").unwrap(), &vec![shortcut(&["Alt"], "G")]);
}

#[test]
fn add_creates_entry_for_new_action() {
    let mut c = AppConfig::default();
    add_shortcut(&mut c, "custom", shortcut(&["Alt"], "X"));
    assert_eq!(c.shortcuts.len(), 9);
    assert_eq!(c.shortcuts.get("custom").unwrap(), &vec![shortcut(&["Alt"], "X")]);
}

#[test]
fn remove_takes_out_by_index() {
    let mut c = AppConfig::default();
    add_shortcut(&mut c, "gif", shortcut(&["Ctrl"], "G"));
    add_shortcut(&mut c, "gif", shortcut(&[], "F9"));
    remove_shortcut(&mut c, "gif", 1);
    assert_eq!(c.shortcuts.get("gif").unwrap(), &vec![shortcut(&["Alt"], "G"), shortcut(&[], "F9")]);
    remove_shortcut(&mut c, "gif", 0);
    assert_eq!(c.shortcuts.get("gif").unwrap(), &vec![shortcut(&[], "F9")]);
}

#[test]
fn remove_keeps_last_shortcut() {
    let mut c = AppConfig::default();
    remove_shortcut(&mut c, "gif", 0);
    assert_eq!(c.shortcuts.get("gif").unwrap(), &vec![shortcut(&["Alt"], "G")]);
}

#[test]
fn remove_ignores_bad_index_and_unknown_action() {
    let mut c = AppConfig::default();
    add_shortcut(&mut c, "gif", shortcut(&["Ctrl"], "G"));
    remove_shortcut(&mut c, "gif", 2);
    assert_eq!(c.shortcuts.get("gif").unwrap().len(), 2);
    remove_shortcut(&mut c, "nothing", 0);
    assert_eq!(c.shortcuts.len(), 8);
    assert!(c.shortcuts.get("nothing").is_none());
}

#[test]
fn merge_adds_only_missing_actions() {
    let defaults = AppConfig::default();
    let mut c = AppConfig::default();
    assert!(!merge_missing_shortcuts(&mut c, &defaults));
    let mut c = AppConfig {
        version: "2.0.0".to_string(),
        shortcuts: ShortcutTable::new(),
        developer_mode: true,
        autostart_enabled: false,
        scroll_capture_enabled: true,
        screenshot_preview_enabled: false,
    };
    c.shortcuts.insert("gif".to_string(), vec![shortcut(&["Ctrl"], "G")]);
    assert!(merge_missing_shortcuts(&mut c, &defaults));
    assert_eq!(c.shortcuts.len(), 8);
    assert_eq!(c.shortcuts.get("gif").unwrap(), &vec![shortcut(&["Ctrl"], "G")]);
    assert_eq!(c.shortcuts.get("video").unwrap(), &vec![shortcut(&["Alt"], "V")]);
    assert_eq!(actions(&c)[0], "gif");
    assert!(c.developer_mode && !c.autostart_enabled);
}

#[test]
fn stop_recording_gets_missing_defaults() {
    let defaults = AppConfig::default();
    let mut c = AppConfig::default();
    assert!(!ensure_stop_recording_defaults(&mut c, &defaults));
    update_shortcuts(&mut c, "stop_recording", vec![shortcut(&["Alt"], "Q")]);
    assert!(ensure_stop_recording_defaults(&mut c, &defaults));
    assert_eq!(
        c.shortcuts.get("stop_recording").unwrap(),
        &vec![shortcut(&["Alt"], "Q"), shortcut(&[], "Escape")]
    );
    assert!(!ensure_stop_recording_defaults(&mut c, &defaults));
}

#[test]
fn stop_recording_entry_is_created() {
    let defaults = AppConfig::default();
    let mut c = AppConfig::default();
    c.shortcuts = ShortcutTable::new();
    assert!(ensure_stop_recording_defaults(&mut c, &defaults));
    assert_eq!(c.shortcuts.len(), 1);
    assert_eq!(c.shortcuts.get("stop_recording").unwrap(), &vec![shortcut(&[], "Escape")]);
}

fn old_config() -> OldAppConfig {
    OldAppConfig {
        version: "1.0.0".to_string(),
        shortcuts: vec![
            ("gif".to_string(), shortcut(&["Ctrl"], "G")),
            ("screenshot".to_string(), shortcut(&["Alt"], "A")),
        ],
        developer_mode: true,
        autostart_enabled: false,
        scroll_capture_enabled: true,
        screenshot_preview_enabled: false,
    }
}

#[test]
fn old_config_is_migrated() {
    let c = AppConfig::from_old(old_config());
    assert_eq!(c.version, "2.0.0");
    assert_eq!(c.shortcuts.len(), 2);
    assert_eq!(c.shortcuts.get("gif").unwrap(), &vec![shortcut(&["Ctrl"], "G")]);
    assert_eq!(c.shortcuts.get("screenshot").unwrap(), &vec![shortcut(&["Alt"], "A")]);
    assert!(c.developer_mode);
    assert!(!c.autostart_enabled);
    assert!(c.scroll_capture_enabled);
    assert!(!c.screenshot_preview_enabled);
}

#[test]
fn missing_config_becomes_default() {
    let (c, save) = complete_config(StoredConfig::Missing);
    assert!(save);
    assert_eq!(c.shortcuts.len(), 8);
    assert_eq!(c.version, "2.0.0");
}

#[test]
fn old_config_is_completed_and_saved() {
    let (c, save) = complete_config(StoredConfig::Old(old_config()));
    assert!(save);
    assert_eq!(c.shortcuts.len(), 8);
    assert_eq!(c.shortcuts.get("gif").unwrap(), &vec![shortcut(&["Ctrl"], "G")]);
    assert_eq!(c.shortcuts.get("stop_recording").unwrap(), &vec![shortcut(&[], "Escape")]);
    assert!(c.developer_mode);
}

#[test]
fn complete_current_config_is_not_saved() {
    let (c, save) = complete_config(StoredConfig::Current(AppConfig::default()));
    assert!(!save);
    assert_eq!(c.shortcuts.len(), 8);
}

#[test]
fn incomplete_current_config_is_completed_and_saved() {
    let mut stored = AppConfig::default();
    stored.shortcuts = ShortcutTable::new();
    stored.shortcuts.insert("stop_recording".to_string(), vec![shortcut(&["Alt"], "Q")]);
    stored.developer_mode = true;
    let (c, save) = complete_config(StoredConfig::Current(stored));
    assert!(save);
    assert_eq!(c.shortcuts.len(), 8);
    assert_eq!(
        c.shortcuts.get("stop_recording").unwrap(),
        &vec![shortcut(&["Alt"], "Q"), shortcut(&[], "Escape")]
    );
    assert!(c.developer_mode);
    // Only a binding is missing: still saved.
    let mut stored = AppConfig::default();
    update_shortcuts(&mut stored, "stop_recording", vec![shortcut(&["Alt"], "Q")]);
    let (_, save) = complete_config(StoredConfig::Current(stored));
    assert!(save);
}

#[test]
fn export_formats() {
    for f in ["markdown", "writing", "html", "url_only"] {
        assert_eq!(set_image_export_format(f), Ok(f.to_string()));
    }
    assert_eq!(set_image_export_format("pdf"), Err(ConfigError::InvalidFormat));
    assert_eq!(set_image_export_format(""), Err(ConfigError::InvalidFormat));
    assert_eq!(
        ConfigError::InvalidFormat.message(),
        "Invalid format. Must be 'markdown', 'writing', 'html', or 'url_only'"
    );
}

#[test]
fn watermark_positions() {
    let all = [
        (WatermarkPosition::Off, "none"),
        (WatermarkPosition::Brand, "brand"),
        (WatermarkPosition::TopLeft, "top_left"),
        (WatermarkPosition::TopRight, "top_right"),
        (WatermarkPosition::BottomLeft, "bottom_left"),
        (WatermarkPosition::BottomRight, "bottom_right"),
    ];
    for (position, name) in all {
        assert_eq!(get_watermark_position(position), name);
        assert_eq!(set_watermark_position(name), Ok(position));
    }
    assert_eq!(set_watermark_position("center"), Err(ConfigError::InvalidPosition));
    assert_eq!(ConfigError::InvalidPosition.message(), "Invalid position");
}
