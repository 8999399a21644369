use lovshot::titlebar::{
    contains_text, titlebar_height, titlebar_rule, titlebar_rule_for_name, TitlebarRule,
};

#[test]
fn contains_text_finds_runs() {
    assert!(contains_text("google chrome", "chrome"));
    assert!(contains_text("chrome", "chrome"));
    assert!(contains_text("abc", ""));
    assert!(contains_text("", ""));
    assert!(!contains_text("chrom", "chrome"));
    assert!(!contains_text("", "a"));
    assert!(contains_text("aab", "ab"));
    assert!(contains_text("日本語のメモ", "メモ"));
    assert!(!contains_text("日本語", "本日"));
}

#[test]
fn browsers_have_presets() {
    assert_eq!(titlebar_rule_for_name("google chrome"), TitlebarRule::Preset(87));
    assert_eq!(titlebar_rule_for_name("chromium"), TitlebarRule::Preset(87));
    assert_eq!(titlebar_rule_for_name("microsoft edge"), TitlebarRule::Preset(87));
    assert_eq!(titlebar_rule_for_name("firefox"), TitlebarRule::Preset(75));
    assert_eq!(titlebar_rule_for_name("safari"), TitlebarRule::Preset(52));
    assert_eq!(titlebar_rule_for_name("arc"), TitlebarRule::Preset(50));
}

#[test]
fn self_drawn_applications_have_presets() {
    assert_eq!(titlebar_rule_for_name("code"), TitlebarRule::Preset(87));
    assert_eq!(titlebar_rule_for_name("slack"), TitlebarRule::Preset(38));
    assert_eq!(titlebar_rule_for_name("discord"), TitlebarRule::Preset(22));
    assert_eq!(titlebar_rule_for_name("notion"), TitlebarRule::Preset(45));
}

#[test]
fn first_name_that_occurs_decides() {
    // "search" holds "arc", which comes before the standard applications.
    assert_eq!(titlebar_rule_for_name("search in finder"), TitlebarRule::Preset(50));
    assert_eq!(titlebar_rule_for_name("safari in chrome"), TitlebarRule::Preset(87));
}

#[test]
fn standard_applications_are_measured() {
    for name in ["finder", "preview", "notes", "mail", "messages", "terminal", "iterm2"] {
        assert_eq!(titlebar_rule_for_name(name), TitlebarRule::Detect { fallback: 52 });
    }
}

#[test]
fn unknown_applications_are_measured_with_plain_fallback() {
    assert_eq!(titlebar_rule_for_name("photoshop"), TitlebarRule::Detect { fallback: 28 });
    assert_eq!(titlebar_rule_for_name(""), TitlebarRule::Detect { fallback: 28 });
    assert_eq!(titlebar_rule(None), TitlebarRule::Detect { fallback: 28 });
}

#[test]
fn names_are_compared_in_lowercase() {
    assert_eq!(titlebar_rule(Some("Google Chrome")), TitlebarRule::Preset(87));
    assert_eq!(titlebar_rule(Some("FIREFOX")), TitlebarRule::Preset(75));
    assert_eq!(titlebar_rule(Some("Finder")), TitlebarRule::Detect { fallback: 52 });
    // Without lowering the name nothing would be found in it.
    assert_eq!(titlebar_rule_for_name("Google Chrome"), TitlebarRule::Detect { fallback: 28 });
}

#[test]
fn height_follows_rule() {
    assert_eq!(titlebar_height(TitlebarRule::Preset(87), None), 87);
    assert_eq!(titlebar_height(TitlebarRule::Preset(87), Some(40)), 87);
    assert_eq!(titlebar_height(TitlebarRule::Detect { fallback: 52 }, Some(40)), 40);
    assert_eq!(titlebar_height(TitlebarRule::Detect { fallback: 52 }, None), 52);
    assert_eq!(titlebar_height(TitlebarRule::Detect { fallback: 28 }, None), 28);
}
