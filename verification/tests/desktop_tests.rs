use std::collections::HashMap;

use limen::desktop::{
    available_desktop_indices, desktop_hotkey_id, digit_key_code, switch_key_for_space,
    symbolic_hotkey, PromptAction, PromptState, SymbolicHotkey, CONTROL_FLAG, DIGIT_KEY_CODES,
};

fn ctrl_digit(index: u32) -> SymbolicHotkey {
    SymbolicHotkey {
        enabled: true,
        key_code: i64::from(DIGIT_KEY_CODES[(index - 1) as usize]),
        modifiers: CONTROL_FLAG,
    }
}

fn hotkeys(entries: &[(u32, SymbolicHotkey)]) -> HashMap<u32, SymbolicHotkey> {
    entries.iter().copied().collect()
}

#[test]
fn available_desktops_are_enabled_and_bound_to_control_digit() {
    let map = hotkeys(&[(118, ctrl_digit(1)), (119, ctrl_digit(2)), (126, ctrl_digit(9))]);
    assert_eq!(available_desktop_indices(&map), vec![1, 2, 9]);
}

#[test]
fn missing_entry_is_unavailable() {
    assert_eq!(available_desktop_indices(&HashMap::new()), Vec::<u32>::new());
}

#[test]
fn disabled_hotkey_is_unavailable() {
    let map = hotkeys(&[(118, SymbolicHotkey { enabled: false, ..ctrl_digit(1) })]);
    assert_eq!(available_desktop_indices(&map), Vec::<u32>::new());
}

#[test]
fn remapped_modifier_is_unavailable() {
    let map = hotkeys(&[(
        118,
        SymbolicHotkey {
            modifiers: CONTROL_FLAG | 0x80000, // Ctrl+Option
            ..ctrl_digit(1)
        },
    )]);
    assert_eq!(available_desktop_indices(&map), Vec::<u32>::new());
}

#[test]
fn remapped_key_code_is_unavailable() {
    let map = hotkeys(&[(118, SymbolicHotkey { key_code: 42, ..ctrl_digit(1) })]);
    assert_eq!(available_desktop_indices(&map), Vec::<u32>::new());
}

#[test]
fn unrelated_hotkeys_are_ignored() {
    let map = hotkeys(&[(79, ctrl_digit(1)), (127, ctrl_digit(1))]);
    assert_eq!(available_desktop_indices(&map), Vec::<u32>::new());
}

#[test]
fn all_nine_desktops_available() {
    let map: HashMap<u32, SymbolicHotkey> =
        (1..=9).map(|i| (desktop_hotkey_id(i), ctrl_digit(i))).collect();
    assert_eq!(available_desktop_indices(&map), (1..=9).collect::<Vec<u32>>());
}

#[test]
fn digit_key_codes_and_hotkey_ids() {
    assert_eq!(digit_key_code(1), 18);
    assert_eq!(digit_key_code(5), 23);
    assert_eq!(digit_key_code(9), 25);
    assert_eq!(desktop_hotkey_id(1), 118);
    assert_eq!(desktop_hotkey_id(9), 126);
}

#[test]
fn symbolic_hotkey_from_parameters() {
    let h = symbolic_hotkey(1, 18, 0x40000);
    assert_eq!(h, ctrl_digit(1));
    let h = symbolic_hotkey(0, 19, -5);
    assert!(!h.enabled);
    assert_eq!(h.modifiers, 0);
}

#[test]
fn switch_key_checks_permission_then_range() {
    assert_eq!(
        switch_key_for_space(false, 3),
        Err("Accessibility permission not granted".to_string())
    );
    assert_eq!(switch_key_for_space(true, 0), Err("Space index 0 out of range (1-9)".to_string()));
    assert_eq!(switch_key_for_space(true, 12), Err("Space index 12 out of range (1-9)".to_string()));
    assert_eq!(switch_key_for_space(true, 6), Ok(22));
}

#[test]
fn accessibility_prompt_and_pane_shown_once() {
    let mut s = PromptState::new();
    assert_eq!(s.begin_request(), PromptAction::ShowSystemPrompt);
    assert_eq!(s.begin_request(), PromptAction::CheckOnly);
    assert!(s.after_check(false));
    assert_eq!(s.begin_request(), PromptAction::CheckOnly);
    assert!(!s.after_check(false));
    let mut t = PromptState::new();
    t.begin_request();
    assert!(!t.after_check(true));
    assert!(t.after_check(false));
}
