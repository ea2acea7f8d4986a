//! Space switching through the Mission Control "Switch to Desktop N"
//! hotkeys: which Spaces can be reached, which key a switch injects, and
//! when the Accessibility prompt or its settings pane is shown.

use std::collections::HashMap;
use vstd::prelude::*;

verus! {

broadcast use vstd::std_specs::hash::group_hash_axioms;

/// Virtual key codes of the digits 1-9, indexed by `space_index - 1`.
pub const DIGIT_KEY_CODES: [u16; 9] = [18, 19, 20, 21, 23, 22, 26, 28, 25];

/// The Control modifier, both in event flags and in the hotkey parameters.
pub const CONTROL_FLAG: u64 = 0x40000;

/// "Switch to Desktop 1".."Switch to Desktop 9" are symbolic hotkeys
/// 118..126.
pub const DESKTOP_HOTKEY_BASE: u32 = 118;

/// One entry of the `AppleSymbolicHotKeys` preference.
#[derive(Debug, Clone, Copy, PartialEq, Eq, Structural)]
pub struct SymbolicHotkey {
    pub enabled: bool,
    pub key_code: i64,
    pub modifiers: u64,
}

/// The key code of the digit of Space `index` (1-9).
pub open spec fn digit_key(index: int) -> u16 {
    if index == 1 {
        18
    } else if index == 2 {
        19
    } else if index == 3 {
        20
    } else if index == 4 {
        21
    } else if index == 5 {
        23
    } else if index == 6 {
        22
    } else if index == 7 {
        26
    } else if index == 8 {
        28
    } else {
        25
    }
}

/// The symbolic hotkey id of "Switch to Desktop `index`".
pub open spec fn desktop_hotkey(index: int) -> u32 {
    (DESKTOP_HOTKEY_BASE + index - 1) as u32
}

/// Space `index` is reachable: its hotkey exists, is enabled and is still
/// bound to Control + the digit.
pub open spec fn desktop_reachable(hotkeys: Map<u32, SymbolicHotkey>, index: int) -> bool {
    &&& hotkeys.contains_key(desktop_hotkey(index))
    &&& hotkeys[desktop_hotkey(index)].enabled
    &&& hotkeys[desktop_hotkey(index)].key_code == digit_key(index) as i64
    &&& hotkeys[desktop_hotkey(index)].modifiers == CONTROL_FLAG
}

/// The reachable Spaces among 1..=n, in ascending order.
pub open spec fn reachable_upto(hotkeys: Map<u32, SymbolicHotkey>, n: int) -> Seq<u32>
    decreases n,
{
    if n <= 0 {
        Seq::empty()
    } else {
        let rest = reachable_upto(hotkeys, n - 1);
        if desktop_reachable(hotkeys, n) {
            rest.push(n as u32)
        } else {
            rest
        }
    }
}

/// The key code of the digit of Space `index`.
pub fn digit_key_code(index: u32) -> (k: u16)
    requires
        1 <= index <= 9,
    ensures
        k == digit_key(index as int),
{
    let codes = DIGIT_KEY_CODES;
    assert(codes@ =~= seq![18u16, 19, 20, 21, 23, 22, 26, 28, 25]);
    codes[(index - 1) as usize]
}

/// The symbolic hotkey id of "Switch to Desktop `index`".
pub fn desktop_hotkey_id(index: u32) -> (id: u32)
    requires
        1 <= index <= 9,
    ensures
        id == desktop_hotkey(index as int),
{
    DESKTOP_HOTKEY_BASE + index - 1
}

/// Spaces that a switch can reach: the "Switch to Desktop N" hotkey must be
/// enabled and still bound to the Control+N that is injected.
pub fn available_desktop_indices(hotkeys: &HashMap<u32, SymbolicHotkey>) -> (r: Vec<u32>)
    ensures
        r@ == reachable_upto(hotkeys@, 9),
{
    let mut r: Vec<u32> = Vec::new();
    let mut index: u32 = 1;
    while index <= 9
        invariant
            1 <= index <= 10,
            r@ == reachable_upto(hotkeys@, index - 1),
        decreases 10 - index,
    {
        let id = desktop_hotkey_id(index);
        let reachable = match hotkeys.get(&id) {
            Some(hotkey) => hotkey.enabled && hotkey.key_code == digit_key_code(index) as i64
                && hotkey.modifiers == CONTROL_FLAG,
            None => false,
        };
        if reachable {
            r.push(index);
        }
        index += 1;
    }
    r
}

/// The hotkey an `AppleSymbolicHotKeys` entry describes, from its
/// `enabled` flag and its key-code and modifier parameters.
pub fn symbolic_hotkey(enabled: i64, key_code: i64, modifiers: i64) -> (h: SymbolicHotkey)
    ensures
        h.enabled == (enabled != 0),
        h.key_code == key_code,
        h.modifiers == (if modifiers < 0 {
            0
        } else {
            modifiers
        }),
{
    let m: u64 = if modifiers < 0 {
        0
    } else {
        modifiers as u64
    };
    SymbolicHotkey { enabled: enabled != 0, key_code, modifiers: m }
}

pub open spec fn accessibility_message() -> Seq<char> {
    "Accessibility permission not granted"@
}

/// The message for a Space index outside 1-9.
pub open spec fn out_of_range_message(index: nat) -> Seq<char> {
    "Space index "@ + crate::text::decimal(index) + " out of range (1-9)"@
}

/// The key that switching to `space_index` injects (with Control), or why
/// the switch is refused: Accessibility is checked first, then the index.
pub fn switch_key_for_space(accessibility_granted: bool, space_index: u32) -> (r: Result<
    u16,
    String,
>)
    ensures
        !accessibility_granted ==> r is Err && r->Err_0@ == accessibility_message(),
        accessibility_granted && !(1 <= space_index <= 9) ==> r is Err && r->Err_0@
            == out_of_range_message(space_index as nat),
        accessibility_granted && 1 <= space_index <= 9 ==> r == Ok::<u16, String>(
            digit_key(space_index as int),
        ),
{
    if !accessibility_granted {
        return Err("Accessibility permission not granted".to_string());
    }
    if space_index < 1 || space_index > 9 {
        let mut m = "Space index ".to_string();
        crate::text::push_decimal(&mut m, space_index as u64);
        m.append(" out of range (1-9)");
        return Err(m);
    }
    Ok(digit_key_code(space_index))
}

/// What asking for the Accessibility permission does on this call.
#[derive(Debug, Clone, Copy, PartialEq, Eq, Structural)]
pub enum PromptAction {
    /// Ask with the system prompt (the first request of the process).
    ShowSystemPrompt,
    /// Only check; the system prompt has been shown already.
    CheckOnly,
}

/// Per-process memory of the Accessibility prompt: the system dialog is
/// requested at most once, and the settings pane opened at most once.
#[derive(Debug, Clone, Copy, PartialEq, Eq, Structural)]
pub struct PromptState {
    pub prompt_requested: bool,
    pub settings_pane_opened: bool,
}

impl PromptState {
    pub fn new() -> (s: Self)
        ensures
            !s.prompt_requested,
            !s.settings_pane_opened,
    {
        PromptState { prompt_requested: false, settings_pane_opened: false }
    }

    /// Starts a permission request: the first one shows the system prompt.
    pub fn begin_request(&mut self) -> (a: PromptAction)
        ensures
            !old(self).prompt_requested ==> *final(self) == request_outcome(*old(self), true).0,
            a == (if old(self).prompt_requested {
                PromptAction::CheckOnly
            } else {
                PromptAction::ShowSystemPrompt
            }),
            final(self).prompt_requested,
            final(self).settings_pane_opened == old(self).settings_pane_opened,
    {
        if self.prompt_requested {
            PromptAction::CheckOnly
        } else {
            self.prompt_requested = true;
            PromptAction::ShowSystemPrompt
        }
    }

    /// After a check-only request answered `trusted`: whether to open the
    /// Accessibility settings pane, which happens once per process.
    pub fn after_check(&mut self, trusted: bool) -> (open_pane: bool)
        ensures
            old(self).prompt_requested ==> *final(self) == request_outcome(*old(self), trusted).0
                && open_pane == request_outcome(*old(self), trusted).2,
            open_pane == (!trusted && !old(self).settings_pane_opened),
            final(self).settings_pane_opened == (old(self).settings_pane_opened || open_pane),
            final(self).prompt_requested == old(self).prompt_requested,
    {
        if !trusted && !self.settings_pane_opened {
            self.settings_pane_opened = true;
            true
        } else {
            false
        }
    }
}

/// One permission request from state `s` when the system would answer
/// `trusted`: the state after it, whether the system prompt was shown, and
/// whether the settings pane was opened.
pub open spec fn request_outcome(s: PromptState, trusted: bool) -> (PromptState, bool, bool) {
    if !s.prompt_requested {
        (PromptState { prompt_requested: true, settings_pane_opened: s.settings_pane_opened }, true, false)
    } else {
        let open = !trusted && !s.settings_pane_opened;
        (
            PromptState {
                prompt_requested: true,
                settings_pane_opened: s.settings_pane_opened || open,
            },
            false,
            open,
        )
    }
}

/// A run of permission requests, answered `trusts[0]`, `trusts[1]`, ...:
/// the final state, how many system prompts were shown and how many times
/// the settings pane was opened.
pub open spec fn request_run(s: PromptState, trusts: Seq<bool>) -> (PromptState, nat, nat)
    decreases trusts.len(),
{
    if trusts.len() == 0 {
        (s, 0, 0)
    } else {
        let before = request_run(s, trusts.drop_last());
        let step = request_outcome(before.0, trusts.last());
        (
            step.0,
            before.1 + if step.1 {
                1nat
            } else {
                0nat
            },
            before.2 + if step.2 {
                1nat
            } else {
                0nat
            },
        )
    }
}

proof fn lemma_request_run_counts(trusts: Seq<bool>)
    ensures
        ({
            let r = request_run(PromptState { prompt_requested: false, settings_pane_opened: false }, trusts);
            &&& r.1 == (if r.0.prompt_requested { 1nat } else { 0nat })
            &&& r.2 == (if r.0.settings_pane_opened { 1nat } else { 0nat })
        }),
    decreases trusts.len(),
{
    if trusts.len() > 0 {
        lemma_request_run_counts(trusts.drop_last());
    }
}

/// However many times the permission is requested in one process, the
/// system prompt is shown at most once and the settings pane opened at most
/// once.
pub proof fn law_prompt_and_pane_at_most_once(trusts: Seq<bool>)
    ensures
        request_run(PromptState { prompt_requested: false, settings_pane_opened: false }, trusts).1 <= 1,
        request_run(PromptState { prompt_requested: false, settings_pane_opened: false }, trusts).2 <= 1,
{
    lemma_request_run_counts(trusts);
}

/// Switching to Space `index` (1-9) injects Control with the key of digit
/// `index` (the virtual key codes 18, 19, 20, 21, 23, 22, 26, 28, 25 of the
/// digits 1-9, as `DIGIT_KEY_CODES` lists them); and Space `index` counts
/// as reachable exactly when "Switch to Desktop `index`" (symbolic hotkey
/// `117 + index`) is enabled and bound to Control with that same key.
pub proof fn law_switch_key_is_the_bound_digit(hotkeys: Map<u32, SymbolicHotkey>, index: int)
    requires
        1 <= index <= 9,
    ensures
        digit_key(index) == seq![18u16, 19, 20, 21, 23, 22, 26, 28, 25][index - 1],
        digit_key(index) == DIGIT_KEY_CODES@[index - 1],
        desktop_reachable(hotkeys, index) <==> {
            let id = (117 + index) as u32;
            &&& hotkeys.contains_key(id)
            &&& hotkeys[id].enabled
            &&& hotkeys[id].key_code == digit_key(index) as i64
            &&& hotkeys[id].modifiers == 0x40000
        },
{
    assert(DIGIT_KEY_CODES@ =~= seq![18u16, 19, 20, 21, 23, 22, 26, 28, 25]);
}

} // verus!
