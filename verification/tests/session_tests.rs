use limen::config::{Config, ShortcutPreferences};
use limen::session::{
    after_shortcut_apply, after_shortcut_save, begin_shortcut_change, launch_plan,
    registration_decision, registration_step, should_open_settings_on_launch, toggle_action,
    ChangeOutcome, Registration, ShortcutChange, ShortcutSuspension, SuspendPlan, ToggleGate,
    WindowToggle,
};

#[test]
fn opens_for_first_run_regardless_of_permission() {
    assert!(should_open_settings_on_launch(false, false, true));
    assert!(should_open_settings_on_launch(false, true, true));
}

#[test]
fn opens_when_accessibility_missing() {
    assert!(should_open_settings_on_launch(true, false, true));
}

#[test]
fn opens_when_no_space_shortcut_works() {
    assert!(should_open_settings_on_launch(true, true, false));
}

#[test]
fn stays_closed_when_switching_works() {
    assert!(!should_open_settings_on_launch(true, true, true));
}

#[test]
fn launch_marks_first_run_onboarded() {
    let p = launch_plan(false, true, true);
    assert!(p.open_settings && p.mark_onboarded);
    let p = launch_plan(true, false, true);
    assert!(p.open_settings && !p.mark_onboarded);
    let p = launch_plan(true, true, true);
    assert!(!p.open_settings && !p.mark_onboarded);
}

#[test]
fn toggle_hides_visible_and_unknown_windows() {
    assert_eq!(toggle_action(Some(true)), WindowToggle::Hide);
    assert_eq!(toggle_action(None), WindowToggle::Hide);
    assert_eq!(toggle_action(Some(false)), WindowToggle::Show);
}

#[test]
fn registration_steps() {
    assert!(matches!(registration_step("   "), Registration::Skip));
    match registration_step("  Alt+K ") {
        Registration::Register(s) => assert_eq!(s, "Alt+K"),
        _ => panic!("expected registration"),
    }
    match registration_step("Alt+NotAKey") {
        Registration::Reject(e) => assert!(e.starts_with("invalid shortcut: ")),
        _ => panic!("expected rejection"),
    }
    match registration_decision("Alt+K".to_string(), Err("invalid shortcut: x".to_string())) {
        Registration::Reject(e) => assert_eq!(e, "invalid shortcut: x"),
        _ => panic!("expected rejection"),
    }
}

#[test]
fn toggle_gate_debounces_until_reopened() {
    let mut g = ToggleGate::new();
    assert!(g.press());
    assert!(!g.press());
    g.reopen();
    assert!(g.press());
}

#[test]
fn nested_suspension_unregisters_and_restores_once() {
    let mut s = ShortcutSuspension::new();
    assert!(matches!(s.plan_suspend(), SuspendPlan::UnregisterFirst));
    s.commit_suspend();
    assert!(matches!(s.plan_suspend(), SuspendPlan::Nest));
    s.commit_suspend();
    assert!(!s.resume());
    assert!(s.resume());
    assert_eq!(s.depth, 0);
    assert!(!s.resume());
    assert_eq!(s.depth, 0);
}

#[test]
fn suspension_refuses_at_maximum_depth() {
    let s = ShortcutSuspension { depth: u32::MAX };
    match s.plan_suspend() {
        SuspendPlan::Refuse(m) => assert_eq!(m, "shortcut suspend depth exceeded"),
        _ => panic!("expected refusal"),
    }
}

fn config(primary: &str) -> Config {
    Config {
        shortcuts: ShortcutPreferences { primary: primary.to_string(), fallback: vec![] },
        onboarded: true,
    }
}

#[test]
fn change_succeeds_through_save_and_apply() {
    let mut cfg = config("Option+Space");
    let pending = begin_shortcut_change(&mut cfg, &ShortcutChange::SetPrimary(" Alt+K ".to_string()))
        .expect("change");
    assert_eq!(cfg.shortcuts.primary, "Alt+K");
    let bindings = after_shortcut_save(&mut cfg, &pending, Ok(())).expect("saved");
    assert_eq!(bindings, vec!["Alt+K".to_string()]);
    match after_shortcut_apply(&mut cfg, pending, Ok(())) {
        ChangeOutcome::Applied(p) => assert_eq!(p.primary, "Alt+K"),
        _ => panic!("expected success"),
    }
    assert_eq!(cfg.shortcuts.primary, "Alt+K");
}

#[test]
fn refused_change_leaves_config() {
    let mut cfg = config("Option+Space");
    let err = begin_shortcut_change(&mut cfg, &ShortcutChange::SetPrimary("K".to_string()));
    assert!(err.is_err());
    assert_eq!(cfg.shortcuts.primary, "Option+Space");
}

#[test]
fn failed_save_rolls_back() {
    let mut cfg = config("Option+Space");
    let pending = begin_shortcut_change(&mut cfg, &ShortcutChange::SetPrimary("Alt+K".to_string()))
        .expect("change");
    let r = after_shortcut_save(&mut cfg, &pending, Err("disk full".to_string()));
    assert_eq!(r, Err("disk full".to_string()));
    assert_eq!(cfg.shortcuts.primary, "Option+Space");
}

#[test]
fn failed_registration_rolls_back() {
    let mut cfg = config("Ctrl+J");
    let pending = begin_shortcut_change(&mut cfg, &ShortcutChange::Reset).expect("reset");
    assert_eq!(cfg.shortcuts.primary, "Option+Space");
    after_shortcut_save(&mut cfg, &pending, Ok(())).expect("saved");
    match after_shortcut_apply(&mut cfg, pending, Err("busy".to_string())) {
        ChangeOutcome::RolledBack { error, restore_bindings } => {
            assert_eq!(error, "busy");
            assert_eq!(restore_bindings, vec!["Ctrl+J".to_string()]);
        }
        _ => panic!("expected rollback"),
    }
    assert_eq!(cfg.shortcuts.primary, "Ctrl+J");
}
