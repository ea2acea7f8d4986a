//! The decisions behind the app's commands: opening settings at launch,
//! toggling the ring window, registering global shortcuts (with their
//! debounce latch and the nested suspension used while a new shortcut is
//! recorded), and changing the shortcut configuration as a transaction
//! that is rolled back when saving or registering fails.

use vstd::prelude::*;

use crate::config::{
    bindings_of, default_prefs, default_primary, first_by_key, normalized, primary_update, result_view, validation, views, Config,
    PrefsView, ShortcutPreferences, without_primary,
};
use crate::text::{trim, trimmed};

verus! {

broadcast use vstd::string::group_string_axioms;

/// Whether the settings window opens at launch. It doubles as onboarding:
/// shown to new users, and again whenever a prerequisite of Space switching
/// is missing (Accessibility, or every Desktop shortcut being off).
pub fn should_open_settings_on_launch(
    onboarded: bool,
    accessibility_granted: bool,
    space_switching_available: bool,
) -> (open: bool)
    ensures
        open == (!onboarded || !accessibility_granted || !space_switching_available),
{
    !onboarded || !accessibility_granted || !space_switching_available
}

/// What launch does with the settings window and the onboarding flag.
#[derive(Debug, Clone, Copy, PartialEq, Eq, Structural)]
pub struct LaunchPlan {
    pub open_settings: bool,
    /// Record that onboarding happened (the first run only).
    pub mark_onboarded: bool,
}

/// The launch plan: settings open as `should_open_settings_on_launch`
/// says, and a first run is recorded as onboarded once settings opened.
pub fn launch_plan(onboarded: bool, accessibility_granted: bool, space_switching_available: bool) -> (p:
    LaunchPlan)
    ensures
        p.open_settings == (!onboarded || !accessibility_granted || !space_switching_available),
        p.mark_onboarded == !onboarded,
{
    let open_settings = should_open_settings_on_launch(
        onboarded,
        accessibility_granted,
        space_switching_available,
    );
    LaunchPlan { open_settings, mark_onboarded: open_settings && !onboarded }
}

/// What toggling the ring window does.
#[derive(Debug, Clone, Copy, PartialEq, Eq, Structural)]
pub enum WindowToggle {
    Hide,
    Show,
}

/// Toggling hides a visible window and shows a hidden one; a window whose
/// visibility cannot be read counts as visible.
pub fn toggle_action(visible: Option<bool>) -> (t: WindowToggle)
    ensures
        t == (if visible == Some(false) {
            WindowToggle::Show
        } else {
            WindowToggle::Hide
        }),
{
    match visible {
        Some(false) => WindowToggle::Show,
        _ => WindowToggle::Hide,
    }
}

/// What registering one configured combination comes to.
pub enum Registration {
    /// A blank combination is skipped.
    Skip,
    /// Register this (trimmed) combination.
    Register(String),
    /// The combination does not parse: stop with this error.
    Reject(String),
}

/// The registration of a trimmed, non-blank combination, given what
/// `ShortcutPreferences::validate` said of it.
pub fn registration_decision(trimmed: String, check: Result<(), String>) -> (r: Registration)
    ensures
        match result_view(check) {
            Ok(_) => r matches Registration::Register(t) && t@ == trimmed@,
            Err(m) => r matches Registration::Reject(e) && e@ == m,
        },
{
    match check {
        Ok(()) => Registration::Register(trimmed),
        Err(e) => Registration::Reject(e),
    }
}

/// The registration of one configured combination: trimmed; blank ones are
/// skipped; the rest are checked with the shortcut parser again.
pub fn registration_step(combo: &str) -> (r: Registration)
    ensures
        ({
            let t = trim(combo@);
            if t.len() == 0 {
                r is Skip
            } else {
                match validation(t) {
                    Ok(_) => r matches Registration::Register(s) && s@ == t,
                    Err(m) => r matches Registration::Reject(e) && e@ == m,
                }
            }
        }),
{
    let t = trimmed(combo);
    if t.as_str().is_empty() {
        return Registration::Skip;
    }
    let check = ShortcutPreferences::validate(t.as_str());
    registration_decision(t, check)
}

/// The debounce latch of the shortcut handler: a press toggles the ring only
/// while the latch is open, and shuts it until the debounce interval has
/// passed.
#[derive(Debug, Clone, Copy, PartialEq, Eq, Structural)]
pub struct ToggleGate {
    pub ready: bool,
}

impl ToggleGate {
    pub fn new() -> (g: Self)
        ensures
            g.ready,
    {
        ToggleGate { ready: true }
    }

    /// A shortcut press: whether it toggles the ring.
    pub fn press(&mut self) -> (fire: bool)
        ensures
            (fire, final(self).ready) == press_step(old(self).ready),
    {
        let fire = self.ready;
        self.ready = false;
        fire
    }

    /// The debounce interval has passed.
    pub fn reopen(&mut self)
        ensures
            final(self).ready,
    {
        self.ready = true;
    }
}

/// A press, with the latch open or shut: whether it toggles the ring, and
/// whether the latch stays open.
pub open spec fn press_step(ready: bool) -> (bool, bool) {
    (ready, false)
}

/// Two presses with no reopening in between toggle the ring at most once.
pub proof fn law_debounce_fires_once(ready: bool)
    ensures
        !(press_step(ready).0 && press_step(press_step(ready).1).0),
{
}

/// `n` presses in a row, with no reopening, from a latch that is open
/// (`ready`) or shut: how many of them toggle the ring, and whether the
/// latch is open afterwards.
pub open spec fn press_run(ready: bool, n: nat) -> (nat, bool)
    decreases n,
{
    if n == 0 {
        (0, ready)
    } else {
        let before = press_run(ready, (n - 1) as nat);
        let step = press_step(before.1);
        (
            before.0 + if step.0 {
                1nat
            } else {
                0nat
            },
            step.1,
        )
    }
}

/// A press never opens the latch: after any press it is shut. So a burst of
/// presses with no reopening toggles the ring once if the latch was open
/// and not at all if it was shut, and a press toggles exactly when the
/// latch was open.
pub proof fn law_press_shuts_the_latch(ready: bool, n: nat)
    ensures
        !press_step(ready).1,
        press_step(ready).0 == ready,
        n >= 1 ==> !press_run(ready, n).1,
        press_run(ready, n).0 == (if ready && n >= 1 {
            1nat
        } else {
            0nat
        }),
    decreases n,
{
    if n > 0 {
        law_press_shuts_the_latch(ready, (n - 1) as nat);
    }
}

/// What suspending the global shortcuts does.
pub enum SuspendPlan {
    /// The nesting depth is at its maximum: refuse with this message.
    Refuse(String),
    /// The outermost suspension: unregister every shortcut, then count it.
    UnregisterFirst,
    /// Already suspended: only count it.
    Nest,
}

pub open spec fn depth_exceeded_message() -> Seq<char> {
    "shortcut suspend depth exceeded"@
}

/// The nesting depth of shortcut suspension (while a new shortcut is being
/// recorded, the global shortcuts are unregistered).
#[derive(Debug, Clone, Copy, PartialEq, Eq, Structural)]
pub struct ShortcutSuspension {
    pub depth: u32,
}

/// The depth after a resume, and whether the shortcuts are registered again.
pub open spec fn resume_step(depth: u32) -> (u32, bool) {
    if depth == 0 {
        (0, false)
    } else {
        ((depth - 1) as u32, depth == 1)
    }
}

impl ShortcutSuspension {
    pub fn new() -> (s: Self)
        ensures
            s.depth == 0,
    {
        ShortcutSuspension { depth: 0 }
    }

    /// What a suspend request does at the current depth.
    pub fn plan_suspend(&self) -> (p: SuspendPlan)
        ensures
            self.depth == u32::MAX ==> (p matches SuspendPlan::Refuse(m) && m@
                == depth_exceeded_message()),
            self.depth == 0 ==> p is UnregisterFirst,
            0 < self.depth < u32::MAX ==> p is Nest,
    {
        if self.depth == u32::MAX {
            SuspendPlan::Refuse("shortcut suspend depth exceeded".to_string())
        } else if self.depth == 0 {
            SuspendPlan::UnregisterFirst
        } else {
            SuspendPlan::Nest
        }
    }

    /// Counts a suspension that took effect.
    pub fn commit_suspend(&mut self)
        requires
            old(self).depth < u32::MAX,
        ensures
            final(self).depth == old(self).depth + 1,
    {
        self.depth = self.depth + 1;
    }

    /// A resume request: one level less, and whether that was the outermost
    /// level so the shortcuts are registered again. At depth 0 nothing
    /// happens.
    pub fn resume(&mut self) -> (reapply: bool)
        ensures
            (final(self).depth, reapply) == resume_step(old(self).depth),
    {
        if self.depth == 0 {
            return false;
        }
        self.depth = self.depth - 1;
        self.depth == 0
    }
}

/// A suspension followed by a resume returns to the same depth; the
/// shortcuts are unregistered by it and registered again by the resume
/// exactly when it is the outermost one.
pub proof fn law_suspend_then_resume(depth: u32)
    requires
        depth < u32::MAX,
    ensures
        resume_step((depth + 1) as u32) == (depth, depth == 0),
{
}

/// A change of the shortcut configuration requested by the user.
pub enum ShortcutChange {
    /// A new primary shortcut (trimmed before use).
    SetPrimary(String),
    /// Back to the defaults.
    Reset,
}

/// The model of a change.
pub enum ChangeSpec {
    SetPrimary(Seq<char>),
    Reset,
}

pub open spec fn change_view(c: ShortcutChange) -> ChangeSpec {
    match c {
        ShortcutChange::SetPrimary(p) => ChangeSpec::SetPrimary(p@),
        ShortcutChange::Reset => ChangeSpec::Reset,
    }
}

/// What a change answers and the preferences it produces.
pub open spec fn change_outcome(p: PrefsView, c: ChangeSpec) -> (Result<(), Seq<char>>, PrefsView) {
    match c {
        ChangeSpec::SetPrimary(req) => primary_update(p, trim(req)),
        ChangeSpec::Reset => (Ok(()), normalized(default_prefs())),
    }
}

/// A change that was applied in memory and awaits saving and registering.
pub struct PendingChange {
    pub previous: ShortcutPreferences,
    pub updated: ShortcutPreferences,
}

/// What applying change `c` in memory to preferences `before` answers as
/// `r` and leaves as `after`: the change's outcome, with the preferences
/// before and after it kept for the later steps; or its refusal, with the
/// preferences unchanged.
pub open spec fn change_begun(
    before: PrefsView,
    c: ChangeSpec,
    r: Result<PendingChange, String>,
    after: PrefsView,
) -> bool {
    let (res, changed) = change_outcome(before, c);
    match r {
        Ok(pending) => res is Ok && pending.previous@ == before && pending.updated@ == changed
            && after == changed,
        Err(e) => res == Err::<(), Seq<char>>(e@) && after == before,
    }
}

/// Applies a change to the configuration in memory. A refused change
/// leaves the configuration as it was.
pub fn begin_shortcut_change(cfg: &mut Config, change: &ShortcutChange) -> (r: Result<
    PendingChange,
    String,
>)
    ensures
        final(cfg).onboarded == old(cfg).onboarded,
        change_begun(old(cfg).shortcuts@, change_view(*change), r, final(cfg).shortcuts@),
{
    let previous = cfg.shortcuts.duplicate();
    match change {
        ShortcutChange::SetPrimary(p) => {
            let t = trimmed(p.as_str());
            cfg.shortcuts.update_primary(t.as_str())?;
        },
        ShortcutChange::Reset => {
            cfg.shortcuts.reset_to_defaults();
            cfg.shortcuts.normalize();
        },
    }
    let updated = cfg.shortcuts.duplicate();
    Ok(PendingChange { previous, updated })
}

/// What the step after saving answers as `r` and leaves as `after`, from
/// preferences `before`: a failed save undoes the change and passes its
/// error on; a successful one keeps the preferences and gives the bindings
/// to register.
pub open spec fn change_saved(
    before: PrefsView,
    pending: PendingChange,
    saved: Result<(), String>,
    r: Result<Vec<String>, String>,
    after: PrefsView,
) -> bool {
    match saved {
        Err(e) => r is Err && r->Err_0@ == e@ && after == pending.previous@,
        Ok(_) => r is Ok && views(r->Ok_0@) == bindings_of(pending.updated@) && after == before,
    }
}

/// After saving the changed configuration: on failure the change is undone
/// and the error returned; on success the bindings to register are
/// returned.
pub fn after_shortcut_save(cfg: &mut Config, pending: &PendingChange, saved: Result<(), String>) -> (r:
    Result<Vec<String>, String>)
    ensures
        final(cfg).onboarded == old(cfg).onboarded,
        change_saved(old(cfg).shortcuts@, *pending, saved, r, final(cfg).shortcuts@),
{
    match saved {
        Err(e) => {
            cfg.shortcuts = pending.previous.duplicate();
            Err(e)
        },
        Ok(()) => Ok(pending.updated.bindings()),
    }
}

/// How a shortcut change ends.
pub enum ChangeOutcome {
    /// Saved and registered: the new preferences.
    Applied(ShortcutPreferences),
    /// Registering failed: the change was undone in memory; save the
    /// configuration again, register `restore_bindings`, and report `error`.
    RolledBack { error: String, restore_bindings: Vec<String> },
}

/// What the step after registering answers as `r` and leaves as `after`,
/// from preferences `before`: success gives the new preferences and keeps
/// the configuration; failure undoes the change and names the previous
/// bindings to register again.
pub open spec fn change_registered(
    before: PrefsView,
    pending: PendingChange,
    applied: Result<(), String>,
    r: ChangeOutcome,
    after: PrefsView,
) -> bool {
    match applied {
        Ok(_) => r matches ChangeOutcome::Applied(p) && p@ == pending.updated@ && after == before,
        Err(e) => r matches ChangeOutcome::RolledBack { error, restore_bindings } && error@ == e@
            && views(restore_bindings@) == bindings_of(pending.previous@) && after
            == pending.previous@,
    }
}

/// After registering the changed bindings: on failure the change is undone
/// and the previous bindings are to be registered again.
pub fn after_shortcut_apply(cfg: &mut Config, pending: PendingChange, applied: Result<(), String>) -> (r:
    ChangeOutcome)
    ensures
        final(cfg).onboarded == old(cfg).onboarded,
        change_registered(old(cfg).shortcuts@, pending, applied, r, final(cfg).shortcuts@),
{
    match applied {
        Ok(()) => ChangeOutcome::Applied(pending.updated),
        Err(error) => {
            let restore_bindings = pending.previous.bindings();
            cfg.shortcuts = pending.previous;
            ChangeOutcome::RolledBack { error, restore_bindings }
        },
    }
}

/// A shortcut change either takes full effect or leaves the preferences
/// exactly as they were. Run as its three steps (apply in memory, then
/// save, then register, each on what the step before left), the change
/// takes effect exactly when it is accepted and both the save and the
/// registration succeed, and it then leaves the change's outcome; a refused
/// change, a failed save and a failed registration each end at the starting
/// preferences.
pub proof fn law_change_is_all_or_nothing(
    start: PrefsView,
    c: ChangeSpec,
    begun: Result<PendingChange, String>,
    in_memory: PrefsView,
    saved: Result<(), String>,
    to_register: Result<Vec<String>, String>,
    after_save: PrefsView,
    applied: Result<(), String>,
    outcome: ChangeOutcome,
    after_register: PrefsView,
)
    requires
        change_begun(start, c, begun, in_memory),
        begun is Ok ==> change_saved(in_memory, begun->Ok_0, saved, to_register, after_save),
        begun is Ok && to_register is Ok ==> change_registered(
            after_save,
            begun->Ok_0,
            applied,
            outcome,
            after_register,
        ),
    ensures
        ({
            let last = if begun is Err {
                in_memory
            } else if to_register is Err {
                after_save
            } else {
                after_register
            };
            let took_effect = begun is Ok && to_register is Ok && outcome is Applied;
            &&& took_effect <==> (change_outcome(start, c).0 is Ok && saved is Ok && applied is Ok)
            &&& took_effect ==> last == change_outcome(start, c).1 && outcome->Applied_0@
                == change_outcome(start, c).1
            &&& !took_effect ==> last == start
        }),
{
}

/// An accepted reset leaves exactly the default preferences, whatever they
/// were before: the primary `Option+Space` and no fallbacks.
pub proof fn law_reset_leaves_exact_defaults(
    before: PrefsView,
    r: Result<PendingChange, String>,
    after: PrefsView,
)
    requires
        change_begun(before, ChangeSpec::Reset, r, after),
    ensures
        r is Ok,
        after.primary == "Option+Space"@,
        after.fallback == Seq::<Seq<char>>::empty(),
        r->Ok_0.updated@ == after,
{
    assert(without_primary(Seq::<Seq<char>>::empty(), default_primary()) == Seq::<
        Seq<char>,
    >::empty());
    assert(first_by_key(Seq::<Seq<char>>::empty()) == Seq::<Seq<char>>::empty());
}

} // verus!
