//! Which running applications are shown for a Space: the filter for system
//! and background processes, the choice of the visible apps, and the files
//! their icons are cached in.

use base64::Engine;
use vstd::prelude::*;

use crate::text::{
    chars_contain, chars_end_with, chars_of, chars_start_with, contains_seq, ends_with, lower,
    lower_chars, occurs_at, push_chars, same_chars, starts_with,
};

verus! {

broadcast use vstd::string::group_string_axioms;

/// A running application shown in the ring: bundle identifier, display
/// name, and the PNG icon in base64 when one could be rendered.
#[derive(Debug, Clone)]
pub struct AppInfo {
    pub bundle_id: String,
    pub name: String,
    pub icon_b64: Option<String>,
}

/// Bundle identifiers that are always system processes.
pub open spec fn blocked_bundle_ids() -> Seq<Seq<char>> {
    seq![
        "com.apple.dock"@,
        "com.apple.windowserver"@,
        "com.apple.systemuiserver"@,
        "com.apple.notificationcenterui"@,
        "com.apple.notificationcenter"@,
        "com.apple.loginwindow"@,
        "com.apple.controlcenter"@,
        "com.apple.spindump"@,
        "com.apple.reportcrash"@,
        "com.apple.screensaver.engine"@,
        "com.apple.spotlight"@,
    ]
}

/// Endings of Apple identifiers that mark background processes.
pub open spec fn background_suffixes() -> Seq<Seq<char>> {
    seq!["agent"@, "daemon"@, "service"@, "helper"@, "ui"@]
}

/// Window owner names that belong to system processes.
pub open spec fn system_owner_names() -> Seq<Seq<char>> {
    seq!["dock"@, "window server"@, "notification center"@, "control center"@]
}

/// An application is a system or background process: a blocked bundle
/// identifier, an Apple identifier with a background ending, or a window
/// owned by a system process (all compared in ASCII lowercase).
pub open spec fn is_system_app(bundle_id: Seq<char>, owner_name: Option<Seq<char>>) -> bool {
    let bid = lower(bundle_id);
    let owner = lower(
        match owner_name {
            Some(o) => o,
            None => Seq::empty(),
        },
    );
    ||| blocked_bundle_ids().contains(bid)
    ||| (starts_with(bid, "com.apple."@) && exists|i: int|
        0 <= i < background_suffixes().len() && ends_with(bid, #[trigger] background_suffixes()[i]))
    ||| (owner.len() > 0 && exists|i: int|
        0 <= i < system_owner_names().len() && contains_seq(owner, #[trigger] system_owner_names()[i]))
}

/// The views of a list of string literals.
pub open spec fn str_views(v: Seq<&str>) -> Seq<Seq<char>> {
    v.map_values(|s: &str| s@)
}

fn equals_any(s: &Vec<char>, pats: &Vec<&str>) -> (r: bool)
    ensures
        r == str_views(pats@).contains(s@),
{
    let mut i: usize = 0;
    while i < pats.len()
        invariant
            i <= pats.len(),
            forall|k: int| 0 <= k < i ==> pats@[k]@ != s@,
        decreases pats.len() - i,
    {
        let p = chars_of(pats[i]);
        if same_chars(s, &p) {
            assert(str_views(pats@)[i as int] == s@);
            return true;
        }
        i += 1;
    }
    assert forall|k: int| 0 <= k < str_views(pats@).len() implies str_views(pats@)[k] != s@ by {
        assert(str_views(pats@)[k] == pats@[k]@);
    }
    false
}

fn ends_with_any(s: &Vec<char>, pats: &Vec<&str>) -> (r: bool)
    ensures
        r == exists|i: int| 0 <= i < pats@.len() && ends_with(s@, #[trigger] str_views(pats@)[i]),
{
    let mut i: usize = 0;
    while i < pats.len()
        invariant
            i <= pats.len(),
            forall|k: int| 0 <= k < i ==> !ends_with(s@, #[trigger] str_views(pats@)[k]),
        decreases pats.len() - i,
    {
        let p = chars_of(pats[i]);
        assert(str_views(pats@)[i as int] == p@);
        if chars_end_with(s, &p) {
            return true;
        }
        i += 1;
    }
    false
}

fn contains_any(s: &Vec<char>, pats: &Vec<&str>) -> (r: bool)
    ensures
        r == exists|i: int| 0 <= i < pats@.len() && contains_seq(s@, #[trigger] str_views(pats@)[i]),
{
    let mut i: usize = 0;
    while i < pats.len()
        invariant
            i <= pats.len(),
            forall|k: int| 0 <= k < i ==> !contains_seq(s@, #[trigger] str_views(pats@)[k]),
        decreases pats.len() - i,
    {
        let p = chars_of(pats[i]);
        assert(str_views(pats@)[i as int] == p@);
        if chars_contain(s, &p) {
            return true;
        }
        i += 1;
    }
    false
}

/// Whether an application is a system or background process that the ring
/// leaves out.
pub fn is_system_or_background(bundle_id: &str, owner_name: Option<&str>) -> (r: bool)
    ensures
        r == is_system_app(
            bundle_id@,
            match owner_name {
                Some(o) => Some(o@),
                None => None,
            },
        ),
{
    let bid = lower_chars(&chars_of(bundle_id));
    let owner_chars = match owner_name {
        Some(o) => chars_of(o),
        None => Vec::new(),
    };
    let owner = lower_chars(&owner_chars);
    proof {
        assert(owner_chars@ == match owner_name {
            Some(o) => o@,
            None => Seq::<char>::empty(),
        });
    }
    let blocked_ids = vec![
        "com.apple.dock",
        "com.apple.windowserver",
        "com.apple.systemuiserver",
        "com.apple.notificationcenterui",
        "com.apple.notificationcenter",
        "com.apple.loginwindow",
        "com.apple.controlcenter",
        "com.apple.spindump",
        "com.apple.reportcrash",
        "com.apple.screensaver.engine",
        "com.apple.spotlight",
    ];
    assert(str_views(blocked_ids@) =~= blocked_bundle_ids());
    if equals_any(&bid, &blocked_ids) {
        return true;
    }
    let blocked_suffixes = vec!["agent", "daemon", "service", "helper", "ui"];
    assert(str_views(blocked_suffixes@) =~= background_suffixes());
    let apple = chars_of("com.apple.");
    if chars_start_with(&bid, &apple) && ends_with_any(&bid, &blocked_suffixes) {
        return true;
    }
    if owner.len() > 0 {
        let owner_block = vec!["dock", "window server", "notification center", "control center"];
        assert(str_views(owner_block@) =~= system_owner_names());
        if contains_any(&owner, &owner_block) {
            return true;
        }
    }
    false
}

/// What the window list and the running-application lookup report of one
/// on-screen window, front to back.
pub struct VisibleWindow {
    /// The window layer, when reported.
    pub layer: Option<i64>,
    /// Whether the window reports an owner process id.
    pub has_pid: bool,
    /// The running application that owns the window, when found.
    pub app: Option<WindowApp>,
    /// The window owner's name, when reported.
    pub owner_name: Option<String>,
}

/// The running application behind a window.
pub struct WindowApp {
    pub hidden: bool,
    pub bundle_id: Option<String>,
    pub localized_name: Option<String>,
}

/// The owner name used by the system filter: absent or empty counts as none.
pub open spec fn owner_of(w: VisibleWindow) -> Option<Seq<char>> {
    match w.owner_name {
        Some(o) => if o@.len() > 0 {
            Some(o@)
        } else {
            None
        },
        None => None,
    }
}

/// The bundle identifier of a window that may be shown: a normal-layer,
/// visible window of an application with a non-empty bundle identifier
/// that is not a system process.
pub open spec fn eligible_bundle(w: VisibleWindow) -> Option<Seq<char>> {
    if w.layer matches Some(l) && l != 0 {
        None
    } else if !w.has_pid {
        None
    } else {
        match w.app {
            None => None,
            Some(a) => if a.hidden {
                None
            } else {
                match a.bundle_id {
                    None => None,
                    Some(b) => if b@.len() == 0 || is_system_app(b@, owner_of(w)) {
                        None
                    } else {
                        Some(b@)
                    },
                }
            },
        }
    }
}

/// Some chosen window shows bundle `b`.
pub open spec fn bundle_taken(ws: Seq<VisibleWindow>, chosen: Seq<int>, b: Seq<char>) -> bool {
    exists|k: int| 0 <= k < chosen.len() && eligible_bundle(ws[#[trigger] chosen[k]]) == Some(b)
}

/// The windows chosen from the whole list: each eligible window whose
/// application was not chosen already, front to back.
pub open spec fn chosen_windows(ws: Seq<VisibleWindow>) -> Seq<int>
    decreases ws.len(),
{
    if ws.len() == 0 {
        Seq::empty()
    } else {
        let prev = chosen_windows(ws.drop_last());
        let i = ws.len() - 1;
        match eligible_bundle(ws[i]) {
            Some(b) => if bundle_taken(ws, prev, b) {
                prev
            } else {
                prev.push(i)
            },
            None => prev,
        }
    }
}

/// The windows whose applications are shown: the first `limit` chosen.
pub open spec fn visible_app_windows(ws: Seq<VisibleWindow>, limit: int) -> Seq<int> {
    let c = chosen_windows(ws);
    if c.len() <= limit {
        c
    } else {
        c.take(limit)
    }
}

proof fn lemma_chosen_indices(ws: Seq<VisibleWindow>)
    ensures
        forall|k: int|
            0 <= k < chosen_windows(ws).len() ==> 0 <= #[trigger] chosen_windows(ws)[k] < ws.len(),
    decreases ws.len(),
{
    if ws.len() > 0 {
        let prev = chosen_windows(ws.drop_last());
        lemma_chosen_indices(ws.drop_last());
        assert forall|k: int| 0 <= k < chosen_windows(ws).len() implies 0 <= #[trigger] chosen_windows(ws)[k] < ws.len() by {
            if k < prev.len() {
                assert(chosen_windows(ws)[k] == prev[k]);
            }
        }
    }
}

proof fn lemma_bundle_taken_prefix(ws: Seq<VisibleWindow>, n: int, chosen: Seq<int>, b: Seq<char>)
    requires
        0 <= n <= ws.len(),
        forall|k: int| 0 <= k < chosen.len() ==> 0 <= #[trigger] chosen[k] < n,
    ensures
        bundle_taken(ws.take(n), chosen, b) == bundle_taken(ws, chosen, b),
{
    if bundle_taken(ws, chosen, b) {
        let k = choose|k: int| 0 <= k < chosen.len() && eligible_bundle(ws[#[trigger] chosen[k]]) == Some(b);
        assert(ws.take(n)[chosen[k]] == ws[chosen[k]]);
    }
    if bundle_taken(ws.take(n), chosen, b) {
        let k = choose|k: int|
            0 <= k < chosen.len() && eligible_bundle(ws.take(n)[#[trigger] chosen[k]]) == Some(b);
        assert(ws.take(n)[chosen[k]] == ws[chosen[k]]);
    }
}

proof fn lemma_chosen_prefix(ws: Seq<VisibleWindow>, k: int)
    requires
        0 <= k <= ws.len(),
    ensures
        chosen_windows(ws.take(k)).len() <= chosen_windows(ws).len(),
        forall|i: int|
            0 <= i < chosen_windows(ws.take(k)).len() ==> chosen_windows(ws)[i]
                == #[trigger] chosen_windows(ws.take(k))[i],
    decreases ws.len() - k,
{
    if k == ws.len() {
        assert(ws.take(k) =~= ws);
    } else {
        lemma_chosen_prefix(ws.drop_last(), k);
        assert(ws.drop_last().take(k) =~= ws.take(k));
    }
}

/// The indices of the windows whose applications are shown, at most
/// `limit`, front to back.
pub fn select_visible_apps(windows: &Vec<VisibleWindow>, limit: usize) -> (r: Vec<usize>)
    ensures
        r@.map_values(|i: usize| i as int) == visible_app_windows(windows@, limit as int),
{
    let ghost ws = windows@;
    let mut r: Vec<usize> = Vec::new();
    let mut seen: Vec<Vec<char>> = Vec::new();
    let mut i: usize = 0;
    assert(ws.take(0) =~= Seq::<VisibleWindow>::empty());
    assert(r@.map_values(|i: usize| i as int) =~= Seq::<int>::empty());
    while i < windows.len() && r.len() < limit
        invariant
            i <= windows.len(),
            ws == windows@,
            r@.map_values(|j: usize| j as int) == chosen_windows(ws.take(i as int)),
            r@.len() <= limit,
            seen@.len() == r@.len(),
            forall|k: int|
                0 <= k < r@.len() ==> eligible_bundle(ws[#[trigger] r@[k] as int]) == Some(
                    seen@[k]@,
                ),
            forall|k: int| 0 <= k < r@.len() ==> #[trigger] r@[k] < i,
        decreases windows.len() - i,
    {
        let ghost prev = r@.map_values(|j: usize| j as int);
        proof {
            assert(ws.take(i + 1).drop_last() =~= ws.take(i as int));
            assert(ws.take(i + 1)[i as int] == ws[i as int]);
            lemma_bundle_taken_prefix(ws.take(i + 1), i as int, prev, Seq::empty());
        }
        let candidate = self::window_bundle(&windows[i]);
        match candidate {
            Some(b) => {
                let bc = chars_of(b.as_str());
                let ghost bs = bc@;
                let mut taken = false;
                let mut k: usize = 0;
                while k < seen.len()
                    invariant
                        k <= seen.len(),
                        taken == exists|m: int| 0 <= m < k && seen@[m]@ == bs,
                        bc@ == bs,
                    decreases seen.len() - k,
                {
                    if same_chars(&seen[k], &bc) {
                        taken = true;
                    }
                    k += 1;
                }
                proof {
                    let t = ws.take(i + 1);
                    assert(forall|m: int| 0 <= m < prev.len() ==> prev[m] == r@[m] as int);
                    assert(forall|m: int| 0 <= m < prev.len() ==> t[#[trigger] prev[m]] == ws[prev[m]]);
                    assert(taken == bundle_taken(t, prev, bs)) by {
                        if taken {
                            let m = choose|m: int| 0 <= m < seen@.len() && seen@[m]@ == bs;
                            assert(eligible_bundle(t[prev[m]]) == Some(bs));
                        }
                        if bundle_taken(t, prev, bs) {
                            let m = choose|m: int|
                                0 <= m < prev.len() && eligible_bundle(t[#[trigger] prev[m]])
                                    == Some(bs);
                            assert(seen@[m]@ == bs);
                        }
                    }
                }
                if !taken {
                    r.push(i);
                    seen.push(bc);
                    proof {
                        assert(r@.map_values(|j: usize| j as int) =~= prev.push(i as int));
                    }
                }
            },
            None => {},
        }
        i += 1;
    }
    proof {
        let c = chosen_windows(ws);
        if i == windows.len() {
            assert(ws.take(i as int) =~= ws);
        } else {
            lemma_chosen_prefix(ws, i as int);
            assert(r@.map_values(|j: usize| j as int) =~= c.take(limit as int));
        }
    }
    r
}

/// The bundle identifier a window would show, when it may be shown.
fn window_bundle(w: &VisibleWindow) -> (r: Option<String>)
    ensures
        match r {
            Some(b) => eligible_bundle(*w) == Some(b@),
            None => eligible_bundle(*w) is None,
        },
{
    if let Some(l) = w.layer {
        if l != 0 {
            return None;
        }
    }
    if !w.has_pid {
        return None;
    }
    let app = match &w.app {
        Some(a) => a,
        None => return None,
    };
    if app.hidden {
        return None;
    }
    let bundle = match &app.bundle_id {
        Some(b) => b,
        None => return None,
    };
    if bundle.as_str().is_empty() {
        return None;
    }
    let owner: Option<&str> = match &w.owner_name {
        Some(o) => if o.as_str().is_empty() {
            None
        } else {
            Some(o.as_str())
        },
        None => None,
    };
    if is_system_or_background(bundle.as_str(), owner) {
        return None;
    }
    Some(bundle.clone())
}

/// The name shown for an application: its localized name, else its bundle
/// identifier.
pub fn app_display_name(localized_name: &Option<String>, bundle_id: &String) -> (r: String)
    ensures
        r@ == match localized_name {
            Some(n) => n@,
            None => bundle_id@,
        },
{
    match localized_name {
        Some(n) => n.clone(),
        None => bundle_id.clone(),
    }
}

/// The frontmost application as `(bundle id, name)`, unless it has no
/// bundle identifier or is a system process.
pub fn frontmost_app(bundle_id: Option<String>, localized_name: Option<String>) -> (r: Option<
    (String, String),
>)
    ensures
        match bundle_id {
            None => r is None,
            Some(b) => if is_system_app(b@, None) {
                r is None
            } else {
                r is Some && r.unwrap().0@ == b@ && r.unwrap().1@ == match localized_name {
                    Some(n) => n@,
                    None => b@,
                }
            },
        },
{
    let b = match bundle_id {
        Some(b) => b,
        None => return None,
    };
    let name = app_display_name(&localized_name, &b);
    if is_system_or_background(b.as_str(), None) {
        return None;
    }
    Some((b, name))
}

/// The cache file name of an application's icon: its bundle identifier with
/// `/` replaced by `_`, then `.png`.
pub open spec fn icon_file_name_spec(bundle_id: Seq<char>) -> Seq<char> {
    bundle_id.map_values(|c: char| if c == '/' { '_' } else { c }) + ".png"@
}

/// The cache file name of an application's icon.
pub fn icon_file_name(bundle_id: &str) -> (r: String)
    ensures
        r@ == icon_file_name_spec(bundle_id@),
{
    let cs = chars_of(bundle_id);
    let mut safe: Vec<char> = Vec::new();
    let mut i: usize = 0;
    while i < cs.len()
        invariant
            i <= cs.len(),
            safe@ == cs@.take(i as int).map_values(|c: char| if c == '/' { '_' } else { c }),
        decreases cs.len() - i,
    {
        let c = cs[i];
        safe.push(if c == '/' { '_' } else { c });
        i += 1;
        assert(safe@ =~= cs@.take(i as int).map_values(|c: char| if c == '/' { '_' } else { c }));
    }
    assert(cs@.take(cs.len() as int) =~= cs@);
    let mut r = String::new();
    push_chars(&mut r, &safe, 0, safe.len());
    assert(safe@.subrange(0, safe.len() as int) =~= safe@);
    r.append(".png");
    assert(Seq::<char>::empty() + safe@ =~= safe@);
    r
}

/// What the standard base64 engine (`base64::engine::general_purpose::STANDARD`)
/// decodes from a text: the bytes, or the text of its error.
pub uninterp spec fn base64_standard_decode(input: Seq<char>) -> Result<Seq<u8>, Seq<char>>;

/// A decoding result seen through its bytes and its error text.
pub open spec fn decoded_view(r: Result<Vec<u8>, String>) -> Result<Seq<u8>, Seq<char>> {
    match r {
        Ok(v) => Ok(v@),
        Err(e) => Err(e@),
    }
}

/// Decodes base64 with the standard engine of the `base64` crate
/// (`Engine::decode`). Claimed: the outcome, with the error's display text,
/// is `base64_standard_decode(input@)`.
#[verifier::external_body]
fn decode_base64(input: &str) -> (r: Result<Vec<u8>, String>)
    ensures
        decoded_view(r) == base64_standard_decode(input@),
{
    base64::engine::general_purpose::STANDARD.decode(input.as_bytes()).map_err(|e| e.to_string())
}

/// What caching one application's icon comes to.
pub enum IconSave {
    /// The application has no icon.
    NoIcon,
    /// Its icon file exists already and is left alone.
    AlreadyCached,
    /// Write these PNG bytes to this file name in the icon directory.
    Write { file_name: String, png: Vec<u8> },
    /// The icon is not valid base64; nothing is written.
    Undecodable { error: String },
}

/// What caching the icon of application `bundle_id` does, given what
/// decoding its base64 gave: the decoded bytes are written to its icon
/// file; a decoding error is reported and nothing is written.
pub fn icon_save_from_decoded(bundle_id: &str, decoded: Result<Vec<u8>, String>) -> (r: IconSave)
    ensures
        match decoded_view(decoded) {
            Ok(bytes) => r matches IconSave::Write { file_name, png } && file_name@
                == icon_file_name_spec(bundle_id@) && png@ == bytes,
            Err(e) => r matches IconSave::Undecodable { error } && error@ == e,
        },
{
    match decoded {
        Ok(png) => IconSave::Write { file_name: icon_file_name(bundle_id), png },
        Err(error) => IconSave::Undecodable { error },
    }
}

/// Decides what caching `app`'s icon does, given whether its icon file
/// (named by `icon_file_name`) exists already.
pub fn plan_icon_save(app: &AppInfo, already_cached: bool) -> (r: IconSave)
    ensures
        match app.icon_b64 {
            None => r is NoIcon,
            Some(b64) => if already_cached {
                r is AlreadyCached
            } else {
                match base64_standard_decode(b64@) {
                    Ok(bytes) => r matches IconSave::Write { file_name, png } && file_name@
                        == icon_file_name_spec(app.bundle_id@) && png@ == bytes,
                    Err(e) => r matches IconSave::Undecodable { error } && error@ == e,
                }
            },
        },
{
    match &app.icon_b64 {
        None => IconSave::NoIcon,
        Some(b64) => {
            if already_cached {
                return IconSave::AlreadyCached;
            }
            icon_save_from_decoded(app.bundle_id.as_str(), decode_base64(b64.as_str()))
        },
    }
}

/// An Apple identifier (`com.apple.` at its start, in any ASCII case) that
/// ends in `agent`, `daemon`, `service`, `helper` or `ui` is a background
/// process: the ring leaves it out, whatever owns its windows.
pub proof fn law_apple_background_endings_are_left_out(
    bundle_id: Seq<char>,
    owner_name: Option<Seq<char>>,
    ending: Seq<char>,
)
    requires
        ending == "agent"@ || ending == "daemon"@ || ending == "service"@ || ending == "helper"@
            || ending == "ui"@,
        bundle_id.len() >= 10,
        lower(bundle_id).subrange(0, 10) == "com.apple."@,
        ending.len() <= bundle_id.len(),
        lower(bundle_id).subrange(bundle_id.len() - ending.len(), bundle_id.len() as int) == ending,
    ensures
        is_system_app(bundle_id, owner_name),
{
    reveal_strlit("com.apple.");
    reveal_strlit("agent");
    reveal_strlit("daemon");
    reveal_strlit("service");
    reveal_strlit("helper");
    reveal_strlit("ui");
    let bid = lower(bundle_id);
    let k: int = if ending == "agent"@ {
        0
    } else if ending == "daemon"@ {
        1
    } else if ending == "service"@ {
        2
    } else if ending == "helper"@ {
        3
    } else {
        4
    };
    assert(background_suffixes()[k] == ending);
    assert(ends_with(bid, background_suffixes()[k]));
    assert(starts_with(bid, "com.apple."@));
}

/// A window owned by the Dock, the window server, Notification Center or
/// Control Center (its owner name holding one of these, in any ASCII case)
/// belongs to a system process, whatever its bundle identifier.
pub proof fn law_system_owners_are_left_out(
    bundle_id: Seq<char>,
    owner: Seq<char>,
    name: Seq<char>,
    at: int,
)
    requires
        name == "dock"@ || name == "window server"@ || name == "notification center"@ || name
            == "control center"@,
        0 <= at,
        at + name.len() <= owner.len(),
        lower(owner).subrange(at, at + name.len()) == name,
    ensures
        is_system_app(bundle_id, Some(owner)),
{
    reveal_strlit("dock");
    reveal_strlit("window server");
    reveal_strlit("notification center");
    reveal_strlit("control center");
    let k: int = if name == "dock"@ {
        0
    } else if name == "window server"@ {
        1
    } else if name == "notification center"@ {
        2
    } else {
        3
    };
    assert(system_owner_names()[k] == name);
    assert(occurs_at(lower(owner), name, at));
    assert(lower(owner).len() > 0);
}

} // verus!
