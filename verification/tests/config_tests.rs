use limen::config::{Config, ShortcutPreferences};

#[test]
fn default_primary_is_a_valid_shortcut() {
    let prefs = ShortcutPreferences::default();
    assert!(ShortcutPreferences::validate(&prefs.primary).is_ok());
    assert_eq!(prefs.bindings(), vec![prefs.primary.clone()]);
}

#[test]
fn update_primary_accepts_valid_combo() {
    let mut prefs = ShortcutPreferences::default();
    prefs.update_primary("Command+Shift+P").expect("update");
    assert_eq!(prefs.primary, "Command+Shift+P");
}

#[test]
fn update_primary_rejects_invalid_input() {
    let mut prefs = ShortcutPreferences::default();
    assert!(prefs.update_primary("").is_err());
    assert!(prefs.update_primary("K").is_err());
    assert!(prefs.update_primary("NotAKey+Q").is_err());
    assert_eq!(prefs.primary, ShortcutPreferences::default().primary);
}

#[test]
fn reset_restores_defaults() {
    let mut prefs = ShortcutPreferences::default();
    prefs.update_primary("Command+Shift+P").expect("update");
    prefs.reset_to_defaults();
    assert_eq!(prefs.primary, ShortcutPreferences::default().primary);
}

#[test]
fn onboarded_defaults_to_false() {
    assert!(!Config::default().onboarded);
}

fn prefs(primary: &str, fallback: &[&str]) -> ShortcutPreferences {
    ShortcutPreferences {
        primary: primary.to_string(),
        fallback: fallback.iter().map(|s| s.to_string()).collect(),
    }
}

#[test]
fn default_primary_is_option_space() {
    let p = ShortcutPreferences::default();
    assert_eq!(p.primary, "Option+Space");
    assert!(p.fallback.is_empty());
}

#[test]
fn update_primary_error_messages() {
    let mut p = ShortcutPreferences::default();
    assert_eq!(p.update_primary("   ").unwrap_err(), "shortcut cannot be empty");
    assert_eq!(
        p.update_primary("K").unwrap_err(),
        "shortcut must include at least one modifier key"
    );
    let err = p.update_primary("NotAKey+Q").unwrap_err();
    assert!(err.starts_with("invalid shortcut: "), "{err}");
    assert_eq!(p.primary, "Option+Space");
}

#[test]
fn update_primary_trims_and_dedups_fallbacks() {
    let mut p = prefs("Option+Space", &["command+shift+p", "Alt+K", " alt+k ", "Alt+K"]);
    p.update_primary("  Command+Shift+P  ").expect("update");
    assert_eq!(p.primary, "Command+Shift+P");
    assert_eq!(p.fallback, vec!["Alt+K".to_string()]);
}

#[test]
fn bindings_trim_skip_blank_and_ignore_case() {
    let p = prefs(" Option+Space ", &["", "  ", "option+space", "Alt+K", "ALT+k", " Ctrl+J"]);
    assert_eq!(
        p.bindings(),
        vec!["Option+Space".to_string(), "Alt+K".to_string(), "Ctrl+J".to_string()]
    );
}

#[test]
fn bindings_of_blank_primary_start_with_fallbacks() {
    let p = prefs("   ", &["Alt+K"]);
    assert_eq!(p.bindings(), vec!["Alt+K".to_string()]);
}

#[test]
fn normalize_removes_primary_and_repeats() {
    let mut p = prefs("Alt+K", &["alt+k", "Ctrl+J", " ctrl+j", "Shift+L"]);
    p.normalize();
    assert_eq!(p.primary, "Alt+K");
    assert_eq!(p.fallback, vec!["Ctrl+J".to_string(), "Shift+L".to_string()]);
    let before = p.fallback.clone();
    p.normalize();
    assert_eq!(p.fallback, before);
}

#[test]
fn normalize_compares_untrimmed_primary() {
    // The primary is compared as stored (untrimmed) against each fallback.
    let mut p = prefs("Alt+K", &[" Alt+K "]);
    p.normalize();
    assert_eq!(p.fallback, vec![" Alt+K ".to_string()]);
}

#[test]
fn validate_reports_parser_error() {
    assert!(ShortcutPreferences::validate("Command+Shift+P").is_ok());
    assert!(ShortcutPreferences::validate("Option+Space").is_ok());
    let err = ShortcutPreferences::validate("Ctrl+NotAKey").unwrap_err();
    assert!(err.starts_with("invalid shortcut: "));
    assert!(err.contains("NotAKey"), "{err}");
}

#[test]
fn validation_outcome_prefixes_message() {
    assert_eq!(limen::config::validation_outcome(Ok(())), Ok(()));
    assert_eq!(
        limen::config::validation_outcome(Err("bad".to_string())),
        Err("invalid shortcut: bad".to_string())
    );
}

#[test]
fn update_primary_checked_follows_the_check() {
    let mut p = prefs("Option+Space", &["Alt+K"]);
    assert_eq!(
        p.update_primary_checked("Alt+K", Err("invalid shortcut: x".to_string())),
        Err("invalid shortcut: x".to_string())
    );
    assert_eq!(p.primary, "Option+Space");
    assert!(p.update_primary_checked("K", Ok(())).is_err());
    assert_eq!(p.update_primary_checked("Alt+K", Ok(())), Ok(()));
    assert_eq!(p.primary, "Alt+K");
    assert!(p.fallback.is_empty());
}

#[test]
fn migrations_replace_blank_or_invalid_primary() {
    let cfg = Config { shortcuts: prefs("  ", &["Alt+K"]), onboarded: true };
    let m = cfg.with_migrations();
    assert_eq!(m.shortcuts.primary, "Option+Space");
    assert!(m.shortcuts.fallback.is_empty());
    assert!(m.onboarded);

    let cfg = Config { shortcuts: prefs("NotAKey+Q", &[]), onboarded: false };
    assert_eq!(cfg.with_migrations().shortcuts.primary, "Option+Space");

    let cfg = Config { shortcuts: prefs("Command+Shift+P", &["command+shift+p", "Alt+K"]), onboarded: false };
    let m = cfg.with_migrations();
    assert_eq!(m.shortcuts.primary, "Command+Shift+P");
    assert_eq!(m.shortcuts.fallback, vec!["Alt+K".to_string()]);
}

#[test]
fn migrated_uses_the_given_check() {
    let cfg = Config { shortcuts: prefs("Alt+K", &["Ctrl+J"]), onboarded: false };
    let m = cfg.migrated(Err("invalid shortcut: no".to_string()));
    assert_eq!(m.shortcuts.primary, "Option+Space");
    assert!(m.shortcuts.fallback.is_empty());
    let cfg = Config { shortcuts: prefs("Alt+K", &["Ctrl+J"]), onboarded: false };
    let m = cfg.migrated(Ok(()));
    assert_eq!(m.shortcuts.primary, "Alt+K");
    assert_eq!(m.shortcuts.fallback, vec!["Ctrl+J".to_string()]);
}

#[test]
fn duplicate_copies_all_strings() {
    let p = prefs("Alt+K", &["Ctrl+J", "Shift+L"]);
    let q = p.duplicate();
    assert_eq!(q.primary, p.primary);
    assert_eq!(q.fallback, p.fallback);
}

#[test]
fn migration_leaves_a_valid_primary_and_is_stable() {
    for (primary, fallback) in [("", vec!["Alt+K"]), ("Ctrl+NotAKey", vec![]), ("Alt+K", vec!["alt+k", "Ctrl+J", "ctrl+j"])] {
        let cfg = Config { shortcuts: prefs(primary, &fallback), onboarded: true };
        let once = cfg.with_migrations();
        assert!(ShortcutPreferences::validate(&once.shortcuts.primary).is_ok());
        let again = once.clone().with_migrations();
        assert_eq!(again.shortcuts.primary, once.shortcuts.primary);
        assert_eq!(again.shortcuts.fallback, once.shortcuts.fallback);
        assert_eq!(again.onboarded, once.onboarded);
    }
}

#[test]
fn default_shortcut_validates() {
    assert_eq!(ShortcutPreferences::validate("Option+Space"), Ok(()));
}
