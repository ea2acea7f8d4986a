//! Shortcut preferences and the persisted configuration.
//!
//! A shortcut string is checked by the global-hotkey parser; everything else
//! here (trimming, the modifier rule, case-insensitive de-duplication, the
//! migration of stored configurations) is stated and proved below.

use vstd::prelude::*;

use crate::text::{
    chars_eq_ignore_case, chars_of, eq_ignore_case, has_char, is_whitespace,
    lemma_trim_idempotent, lemma_trim_of_trimmed, lower, lower_chars, same_chars, trim, trimmed,
};

verus! {

broadcast use vstd::string::group_string_axioms;

/// Runs the global-hotkey parser, `HotKey::from_str`, on `candidate`.
/// Claimed: the outcome, with the error's display text, is
/// `shortcut_parse(candidate@)`; and the default shortcut, `Option+Space`,
/// is accepted (the parser reads `OPTION` as the Alt modifier and `SPACE`
/// as the space key).
#[verifier::external_body]
fn parse_shortcut(candidate: &str) -> (r: Result<(), String>)
    ensures
        result_view(r) == shortcut_parse(candidate@),
        candidate@ == default_primary() ==> r is Ok,
{
    candidate.parse::<global_hotkey::hotkey::HotKey>().map(|_| ()).map_err(|e| e.to_string())
}

/// The characters of each string, in order.
pub open spec fn views(v: Seq<String>) -> Seq<Seq<char>> {
    v.map_values(|s: String| s@)
}

/// The user's global shortcut: one primary combination and optional
/// fallbacks.
#[derive(Debug, Clone)]
pub struct ShortcutPreferences {
    pub primary: String,
    pub fallback: Vec<String>,
}

/// The model of [`ShortcutPreferences`]: its strings as character sequences.
pub struct PrefsView {
    pub primary: Seq<char>,
    pub fallback: Seq<Seq<char>>,
}

impl View for ShortcutPreferences {
    type V = PrefsView;

    open spec fn view(&self) -> PrefsView {
        PrefsView { primary: self.primary@, fallback: views(self.fallback@) }
    }
}

/// The persisted application configuration.
#[derive(Debug, Clone)]
pub struct Config {
    pub shortcuts: ShortcutPreferences,
    /// True once the first-run settings window has been shown.
    pub onboarded: bool,
}

/// The shortcut installed when the user has chosen none: Option+Space.
pub open spec fn default_primary() -> Seq<char> {
    "Option+Space"@
}

pub open spec fn default_prefs() -> PrefsView {
    PrefsView { primary: default_primary(), fallback: Seq::empty() }
}

/// What the global-hotkey parser (`HotKey::from_str`) answers for a
/// shortcut string: `Ok` when it is a valid shortcut, else the text of the
/// parse error.
pub uninterp spec fn shortcut_parse(s: Seq<char>) -> Result<(), Seq<char>>;

/// The message `validate` gives for a shortcut the parser refuses.
pub open spec fn invalid_message(parse_error: Seq<char>) -> Seq<char> {
    "invalid shortcut: "@ + parse_error
}

/// The result of `ShortcutPreferences::validate` on `s`.
pub open spec fn validation(s: Seq<char>) -> Result<(), Seq<char>> {
    match shortcut_parse(s) {
        Ok(_) => Ok(()),
        Err(e) => Err(invalid_message(e)),
    }
}

/// A `Result<(), String>` seen through the characters of its message.
pub open spec fn result_view(r: Result<(), String>) -> Result<(), Seq<char>> {
    match r {
        Ok(_) => Ok(()),
        Err(m) => Err(m@),
    }
}

pub open spec fn empty_message() -> Seq<char> {
    "shortcut cannot be empty"@
}

pub open spec fn modifier_message() -> Seq<char> {
    "shortcut must include at least one modifier key"@
}

/// A shortcut has a modifier when splitting it at `+` gives at least two
/// parts, that is when it holds a `+`.
pub open spec fn has_modifier(s: Seq<char>) -> bool {
    s.contains('+')
}

/// The fallbacks that do not equal the primary, ignoring ASCII case.
pub open spec fn without_primary(fallback: Seq<Seq<char>>, primary: Seq<char>) -> Seq<Seq<char>>
    decreases fallback.len(),
{
    if fallback.len() == 0 {
        Seq::empty()
    } else {
        let rest = without_primary(fallback.drop_last(), primary);
        if eq_ignore_case(fallback.last(), primary) {
            rest
        } else {
            rest.push(fallback.last())
        }
    }
}

/// The key under which fallbacks are de-duplicated.
pub open spec fn fallback_key(s: Seq<char>) -> Seq<char> {
    lower(trim(s))
}

pub open spec fn has_key(s: Seq<Seq<char>>, k: Seq<char>) -> bool {
    exists|i: int| 0 <= i < s.len() && fallback_key(#[trigger] s[i]) == k
}

/// The first fallback of each key, in the order they appear.
pub open spec fn first_by_key(s: Seq<Seq<char>>) -> Seq<Seq<char>>
    decreases s.len(),
{
    if s.len() == 0 {
        Seq::empty()
    } else {
        let rest = first_by_key(s.drop_last());
        if has_key(rest, fallback_key(s.last())) {
            rest
        } else {
            rest.push(s.last())
        }
    }
}

/// The fallbacks after de-duplication against the primary and each other.
pub open spec fn dedup_fallback(primary: Seq<char>, fallback: Seq<Seq<char>>) -> Seq<Seq<char>> {
    first_by_key(without_primary(fallback, primary))
}

/// The preferences after `normalize`.
pub open spec fn normalized(p: PrefsView) -> PrefsView {
    PrefsView { primary: p.primary, fallback: dedup_fallback(p.primary, p.fallback) }
}

pub open spec fn has_lower(s: Seq<Seq<char>>, k: Seq<char>) -> bool {
    exists|i: int| 0 <= i < s.len() && lower(#[trigger] s[i]) == k
}

/// The trimmed, non-empty candidates, each kept only the first time its
/// ASCII-lowercase form appears.
pub open spec fn collect_bindings(cands: Seq<Seq<char>>) -> Seq<Seq<char>>
    decreases cands.len(),
{
    if cands.len() == 0 {
        Seq::empty()
    } else {
        let rest = collect_bindings(cands.drop_last());
        let t = trim(cands.last());
        if t.len() > 0 && !has_lower(rest, lower(t)) {
            rest.push(t)
        } else {
            rest
        }
    }
}

/// The shortcuts to register: the primary, then the fallbacks.
pub open spec fn bindings_of(p: PrefsView) -> Seq<Seq<char>> {
    collect_bindings(seq![p.primary] + p.fallback)
}

proof fn lemma_views_push(v: Seq<String>, s: String)
    ensures
        views(v.push(s)) == views(v).push(s@),
{
    assert(views(v.push(s)) =~= views(v).push(s@));
}

/// A copy of each string.
fn clone_strings(v: &Vec<String>) -> (r: Vec<String>)
    ensures
        views(r@) == views(v@),
{
    let mut r: Vec<String> = Vec::new();
    let mut i: usize = 0;
    while i < v.len()
        invariant
            i <= v.len(),
            views(r@) == views(v@.take(i as int)),
        decreases v.len() - i,
    {
        let s = v[i].clone();
        assert(s@ == v@[i as int]@);
        let ghost before = r@;
        r.push(s);
        proof {
            lemma_views_push(before, s);
            assert(v@.take(i + 1) =~= v@.take(i as int).push(v@[i as int]));
            lemma_views_push(v@.take(i as int), v@[i as int]);
        }
        i += 1;
    }
    assert(v@.take(v.len() as int) =~= v@);
    r
}

/// Whether some key in `seen` equals `k`.
fn seen_key(seen: &Vec<Vec<char>>, k: &Vec<char>) -> (r: bool)
    ensures
        r == exists|i: int| 0 <= i < seen@.len() && (#[trigger] seen@[i])@ == k@,
{
    let mut i: usize = 0;
    while i < seen.len()
        invariant
            i <= seen.len(),
            forall|j: int| 0 <= j < i ==> (#[trigger] seen@[j])@ != k@,
        decreases seen.len() - i,
    {
        if same_chars(&seen[i], k) {
            return true;
        }
        i += 1;
    }
    false
}

/// The views of a vector of character vectors.
pub open spec fn char_views(v: Seq<Vec<char>>) -> Seq<Seq<char>> {
    v.map_values(|c: Vec<char>| c@)
}

/// What `update_primary` answers, and the preferences it leaves, once the
/// requested shortcut `t` is trimmed and non-empty and `check` is what the
/// validation said of it.
pub open spec fn checked_update(p: PrefsView, t: Seq<char>, check: Result<(), Seq<char>>) -> (
    Result<(), Seq<char>>,
    PrefsView,
) {
    match check {
        Err(m) => (Err(m), p),
        Ok(_) => if has_modifier(t) {
            (Ok(()), normalized(PrefsView { primary: t, fallback: p.fallback }))
        } else {
            (Err(modifier_message()), p)
        },
    }
}

/// What `update_primary(requested)` answers, and the preferences it leaves.
pub open spec fn primary_update(p: PrefsView, requested: Seq<char>) -> (
    Result<(), Seq<char>>,
    PrefsView,
) {
    let t = trim(requested);
    if t.len() == 0 {
        (Err(empty_message()), p)
    } else {
        checked_update(p, t, validation(t))
    }
}

/// The shortcut preferences a stored configuration is migrated to, given
/// what the validation said of its primary: the defaults when the primary
/// is blank or invalid, then normalized.
pub open spec fn migrate_prefs(p: PrefsView, check: Result<(), Seq<char>>) -> PrefsView {
    let base = if trim(p.primary).len() == 0 || check is Err {
        default_prefs()
    } else {
        p
    };
    normalized(base)
}

impl Default for ShortcutPreferences {
    /// The default preferences: Option+Space and no fallbacks.
    fn default() -> (p: Self)
        ensures
            p@ == default_prefs(),
    {
        let p = ShortcutPreferences { primary: "Option+Space".to_string(), fallback: Vec::new() };
        assert(views(p.fallback@) =~= Seq::<Seq<char>>::empty());
        p
    }
}

impl Default for Config {
    fn default() -> (c: Self)
        ensures
            c.shortcuts@ == default_prefs(),
            !c.onboarded,
    {
        Config { shortcuts: ShortcutPreferences::default(), onboarded: false }
    }
}

/// Keeps `cand` unless an earlier kept fallback has its key.
fn push_first(result: &mut Vec<String>, keys: &mut Vec<Vec<char>>, cand: &String)
    requires
        char_views(old(keys)@) == views(old(result)@).map_values(|s: Seq<char>| fallback_key(s)),
    ensures
        char_views(final(keys)@) == views(final(result)@).map_values(
            |s: Seq<char>| fallback_key(s),
        ),
        views(final(result)@) == ({
            let rest = views(old(result)@);
            if has_key(rest, fallback_key(cand@)) {
                rest
            } else {
                rest.push(cand@)
            }
        }),
{
    let t = trimmed(cand.as_str());
    let tc = chars_of(t.as_str());
    let key = lower_chars(&tc);
    let ghost rest = views(result@);
    proof {
        assert(char_views(keys@).len() == keys@.len());
        assert(rest.map_values(|s: Seq<char>| fallback_key(s)).len() == rest.len());
        assert(rest.len() == result@.len());
        assert((exists|i: int| 0 <= i < keys@.len() && (#[trigger] keys@[i])@ == key@) == has_key(
            rest,
            fallback_key(cand@),
        )) by {
            if exists|i: int| 0 <= i < keys@.len() && (#[trigger] keys@[i])@ == key@ {
                let i = choose|i: int| 0 <= i < keys@.len() && (#[trigger] keys@[i])@ == key@;
                assert(char_views(keys@)[i] == fallback_key(rest[i]));
            }
            if has_key(rest, fallback_key(cand@)) {
                let i = choose|i: int|
                    0 <= i < rest.len() && fallback_key(#[trigger] rest[i]) == fallback_key(cand@);
                assert(char_views(keys@)[i] == keys@[i]@);
            }
        }
    }
    if seen_key(keys, &key) {
        return;
    }
    let c = cand.clone();
    let ghost old_result = result@;
    let ghost old_keys = keys@;
    result.push(c);
    keys.push(key);
    proof {
        lemma_views_push(old_result, c);
        assert(char_views(keys@) =~= char_views(old_keys).push(key@));
        assert(views(result@).map_values(|s: Seq<char>| fallback_key(s)) =~= rest.map_values(
            |s: Seq<char>| fallback_key(s),
        ).push(fallback_key(cand@)));
    }
    assert(char_views(keys@) =~= views(result@).map_values(|s: Seq<char>| fallback_key(s)));
}

/// The fallbacks other than `primary` (ignoring ASCII case).
fn fallbacks_without(fallback: &Vec<String>, primary: &String) -> (r: Vec<String>)
    ensures
        views(r@) == without_primary(views(fallback@), primary@),
{
    let pc = chars_of(primary.as_str());
    let ghost fb = views(fallback@);
    let mut r: Vec<String> = Vec::new();
    assert(views(r@) =~= Seq::<Seq<char>>::empty());
    assert(fb.take(0) =~= Seq::<Seq<char>>::empty());
    let mut i: usize = 0;
    while i < fallback.len()
        invariant
            i <= fallback.len(),
            fb == views(fallback@),
            pc@ == primary@,
            views(r@) == without_primary(fb.take(i as int), primary@),
        decreases fallback.len() - i,
    {
        let fc = chars_of(fallback[i].as_str());
        assert(fb.take(i + 1).drop_last() =~= fb.take(i as int));
        assert(fb.take(i + 1).last() == fallback@[i as int]@);
        if !chars_eq_ignore_case(&fc, &pc) {
            let c = fallback[i].clone();
            let ghost before = r@;
            r.push(c);
            proof {
                lemma_views_push(before, c);
            }
        }
        i += 1;
    }
    assert(fb.take(fallback.len() as int) =~= fb);
    r
}

/// The first fallback of each key.
fn first_of_each_key(v: &Vec<String>) -> (r: Vec<String>)
    ensures
        views(r@) == first_by_key(views(v@)),
{
    let ghost s = views(v@);
    let mut r: Vec<String> = Vec::new();
    let mut keys: Vec<Vec<char>> = Vec::new();
    assert(views(r@) =~= Seq::<Seq<char>>::empty());
    assert(char_views(keys@) =~= views(r@).map_values(|x: Seq<char>| fallback_key(x)));
    assert(s.take(0) =~= Seq::<Seq<char>>::empty());
    let mut i: usize = 0;
    while i < v.len()
        invariant
            i <= v.len(),
            s == views(v@),
            char_views(keys@) == views(r@).map_values(|x: Seq<char>| fallback_key(x)),
            views(r@) == first_by_key(s.take(i as int)),
        decreases v.len() - i,
    {
        push_first(&mut r, &mut keys, &v[i]);
        assert(s.take(i + 1).drop_last() =~= s.take(i as int));
        assert(s.take(i + 1).last() == v@[i as int]@);
        i += 1;
    }
    assert(s.take(v.len() as int) =~= s);
    r
}

/// Whether a shortcut names at least one modifier, i.e. splits at `+` into
/// two or more parts.
fn ensure_modifier(candidate: &str) -> (r: Result<(), String>)
    ensures
        result_view(r) == (if has_modifier(candidate@) {
            Ok::<(), Seq<char>>(())
        } else {
            Err(modifier_message())
        }),
{
    let cs = chars_of(candidate);
    if !has_char(&cs, '+') {
        return Err("shortcut must include at least one modifier key".to_string());
    }
    Ok(())
}

/// The answer of `validate`, from what the shortcut parser said.
pub fn validation_outcome(parsed: Result<(), String>) -> (r: Result<(), String>)
    ensures
        result_view(r) == match result_view(parsed) {
            Ok(_) => Ok::<(), Seq<char>>(()),
            Err(e) => Err(invalid_message(e)),
        },
{
    match parsed {
        Ok(()) => Ok(()),
        Err(e) => {
            let mut m = "invalid shortcut: ".to_string();
            m.append(e.as_str());
            Err(m)
        },
    }
}

impl ShortcutPreferences {

    /// A copy with the same strings.
    pub fn duplicate(&self) -> (r: Self)
        ensures
            r@ == self@,
    {
        let r = ShortcutPreferences {
            primary: self.primary.clone(),
            fallback: clone_strings(&self.fallback),
        };
        r
    }

    /// Considers one candidate binding: kept, trimmed, unless it is blank or
    /// its lowercase form was already kept.
    fn push_binding(all: &mut Vec<String>, seen: &mut Vec<Vec<char>>, cand: &String)
        requires
            char_views(old(seen)@) == views(old(all)@).map_values(|s: Seq<char>| lower(s)),
        ensures
            char_views(final(seen)@) == views(final(all)@).map_values(|s: Seq<char>| lower(s)),
            views(final(all)@) == ({
                let rest = views(old(all)@);
                let t = trim(cand@);
                if t.len() > 0 && !has_lower(rest, lower(t)) {
                    rest.push(t)
                } else {
                    rest
                }
            }),
    {
        let t = trimmed(cand.as_str());
        let tc = chars_of(t.as_str());
        if tc.len() == 0 {
            return;
        }
        let key = lower_chars(&tc);
        let ghost rest = views(all@);
        proof {
            assert(char_views(seen@).len() == seen@.len());
            assert(rest.map_values(|s: Seq<char>| lower(s)).len() == rest.len());
            assert(rest.len() == all@.len());
            assert((exists|i: int| 0 <= i < seen@.len() && (#[trigger] seen@[i])@ == key@) == has_lower(
                rest,
                lower(t@),
            )) by {
                if exists|i: int| 0 <= i < seen@.len() && (#[trigger] seen@[i])@ == key@ {
                    let i = choose|i: int| 0 <= i < seen@.len() && (#[trigger] seen@[i])@ == key@;
                    assert(char_views(seen@)[i] == lower(rest[i]));
                }
                if has_lower(rest, lower(t@)) {
                    let i = choose|i: int| 0 <= i < rest.len() && lower(#[trigger] rest[i]) == lower(t@);
                    assert(char_views(seen@)[i] == seen@[i]@);
                }
            }
        }
        if seen_key(seen, &key) {
            return;
        }
        let ghost old_all = all@;
        let ghost old_seen = seen@;
        all.push(t);
        seen.push(key);
        proof {
            lemma_views_push(old_all, t);
            assert(char_views(seen@) =~= char_views(old_seen).push(key@));
            assert(views(all@).map_values(|s: Seq<char>| lower(s)) =~= rest.map_values(
                |s: Seq<char>| lower(s),
            ).push(lower(t@)));
        }
        assert(views(all@) =~= rest.push(tc@));
        assert(char_views(seen@) =~= views(all@).map_values(|s: Seq<char>| lower(s)));
    }

    /// The shortcuts to register, in order: the primary, then each fallback,
    /// trimmed, without blanks and without repeats that differ only in ASCII
    /// case.
    pub fn bindings(&self) -> (all: Vec<String>)
        ensures
            views(all@) == bindings_of(self@),
    {
        let mut all: Vec<String> = Vec::new();
        let mut seen: Vec<Vec<char>> = Vec::new();
        let ghost cands = seq![self.primary@] + views(self.fallback@);
        assert(char_views(seen@) =~= views(all@).map_values(|s: Seq<char>| lower(s)));
        assert(views(all@) =~= Seq::<Seq<char>>::empty());
        assert(collect_bindings(Seq::<Seq<char>>::empty()) == Seq::<Seq<char>>::empty());
        Self::push_binding(&mut all, &mut seen, &self.primary);
        assert(cands.take(1).drop_last() =~= Seq::<Seq<char>>::empty());
        assert(cands.take(1).last() == self.primary@);
        let mut i: usize = 0;
        while i < self.fallback.len()
            invariant
                i <= self.fallback.len(),
                cands == seq![self.primary@] + views(self.fallback@),
                char_views(seen@) == views(all@).map_values(|s: Seq<char>| lower(s)),
                views(all@) == collect_bindings(cands.take(i + 1)),
            decreases self.fallback.len() - i,
        {
            Self::push_binding(&mut all, &mut seen, &self.fallback[i]);
            assert(cands.take(i + 2).drop_last() =~= cands.take(i + 1));
            assert(cands.take(i + 2).last() == self.fallback@[i as int]@);
            i += 1;
        }
        assert(cands.take(self.fallback.len() + 1) =~= cands);
        all
    }

    /// Checks a shortcut string with the global-hotkey parser.
    pub fn validate(candidate: &str) -> (r: Result<(), String>)
        ensures
            result_view(r) == validation(candidate@),
            candidate@ == default_primary() ==> r is Ok,
    {
        validation_outcome(parse_shortcut(candidate))
    }

    /// Replaces the primary with `normalized`, given `check`, the answer of
    /// `validate` on it: refused when `check` is an error or `normalized`
    /// names no modifier, else the primary is set and the preferences are
    /// normalized.
    pub fn update_primary_checked(&mut self, normalized: &str, check: Result<(), String>) -> (r:
        Result<(), String>)
        ensures
            (result_view(r), final(self)@) == checked_update(
                old(self)@,
                normalized@,
                result_view(check),
            ),
    {
        check?;
        ensure_modifier(normalized)?;
        self.primary = normalized.to_string();
        self.normalize();
        Ok(())
    }

    /// Sets a new primary shortcut. It is trimmed first; a blank one, one
    /// the parser refuses and one without a modifier are refused and leave
    /// the preferences as they were.
    pub fn update_primary(&mut self, primary: &str) -> (r: Result<(), String>)
        ensures
            (result_view(r), final(self)@) == primary_update(old(self)@, primary@),
    {
        let normalized = trimmed(primary);
        if normalized.as_str().is_empty() {
            return Err("shortcut cannot be empty".to_string());
        }
        let check = Self::validate(normalized.as_str());
        self.update_primary_checked(normalized.as_str(), check)
    }

    /// Back to the default preferences.
    pub fn reset_to_defaults(&mut self)
        ensures
            final(self)@ == default_prefs(),
    {
        *self = Self::default();
    }

    /// De-duplicates the fallbacks against the primary and each other.
    pub fn normalize(&mut self)
        ensures
            final(self)@ == normalized(old(self)@),
    {
        self.ensure_platform_defaults();
        self.dedup();
    }

    fn dedup(&mut self)
        ensures
            final(self)@ == normalized(old(self)@),
    {
        let kept = fallbacks_without(&self.fallback, &self.primary);
        self.fallback = first_of_each_key(&kept);
    }

    /// No platform adds a fallback of its own.
    fn ensure_platform_defaults(&mut self)
        ensures
            final(self)@ == old(self)@,
    {
    }
}

impl Config {
    /// The configuration a stored one is migrated to, given `primary_check`,
    /// the answer of `validate` on its primary.
    pub fn migrated(self, primary_check: Result<(), String>) -> (c: Config)
        ensures
            c.shortcuts@ == migrate_prefs(self.shortcuts@, result_view(primary_check)),
            c.onboarded == self.onboarded,
    {
        let mut cfg = self;
        let blank = trimmed(cfg.shortcuts.primary.as_str()).as_str().is_empty();
        if blank || primary_check.is_err() {
            cfg.shortcuts = ShortcutPreferences::default();
        }
        cfg.shortcuts.ensure_platform_defaults();
        cfg.shortcuts.dedup();
        cfg
    }

    /// Repairs a configuration read from disk: a blank or unparsable
    /// primary falls back to the defaults, then the fallbacks are
    /// de-duplicated.
    pub fn with_migrations(self) -> (c: Config)
        ensures
            c.shortcuts@ == migrate_prefs(self.shortcuts@, validation(self.shortcuts.primary@)),
            c.onboarded == self.onboarded,
            validation(c.shortcuts.primary@) is Ok,
            migrate_prefs(c.shortcuts@, validation(c.shortcuts.primary@)) == c.shortcuts@,
    {
        let blank = trimmed(self.shortcuts.primary.as_str()).as_str().is_empty();
        let check = if blank {
            Ok(())
        } else {
            ShortcutPreferences::validate(self.shortcuts.primary.as_str())
        };
        if blank || check.is_err() {
            default_shortcut_parses();
        }
        proof {
            law_migration_idempotent(self.shortcuts@);
        }
        self.migrated(check)
    }
}

/// Asks the parser about the default shortcut, which it accepts.
fn default_shortcut_parses()
    ensures
        shortcut_parse(default_primary()) is Ok,
{
    let r = parse_shortcut("Option+Space");
    proof {
        reveal_strlit("Option+Space");
    }
}

proof fn lemma_without_primary_excludes(s: Seq<Seq<char>>, primary: Seq<char>)
    ensures
        forall|i: int|
            0 <= i < without_primary(s, primary).len() ==> !eq_ignore_case(
                #[trigger] without_primary(s, primary)[i],
                primary,
            ),
    decreases s.len(),
{
    if s.len() > 0 {
        let rest = without_primary(s.drop_last(), primary);
        lemma_without_primary_excludes(s.drop_last(), primary);
        let w = without_primary(s, primary);
        assert forall|i: int| 0 <= i < w.len() implies !eq_ignore_case(#[trigger] w[i], primary) by {
            if i < rest.len() {
                assert(w[i] == rest[i]);
            }
        }
    }
}

proof fn lemma_without_primary_keeps_all(s: Seq<Seq<char>>, primary: Seq<char>)
    requires
        forall|i: int| 0 <= i < s.len() ==> !eq_ignore_case(#[trigger] s[i], primary),
    ensures
        without_primary(s, primary) == s,
    decreases s.len(),
{
    if s.len() > 0 {
        lemma_without_primary_keeps_all(s.drop_last(), primary);
        assert(s.drop_last().push(s.last()) =~= s);
    }
}

proof fn lemma_first_by_key_from(s: Seq<Seq<char>>)
    ensures
        forall|i: int|
            0 <= i < first_by_key(s).len() ==> s.contains(#[trigger] first_by_key(s)[i]),
        forall|i: int, j: int|
            0 <= i < j < first_by_key(s).len() ==> fallback_key(#[trigger] first_by_key(s)[i])
                != fallback_key(#[trigger] first_by_key(s)[j]),
    decreases s.len(),
{
    if s.len() > 0 {
        let rest = first_by_key(s.drop_last());
        lemma_first_by_key_from(s.drop_last());
        assert forall|i: int| 0 <= i < first_by_key(s).len() implies s.contains(
            #[trigger] first_by_key(s)[i],
        ) by {
            if i < rest.len() {
                let k = choose|k: int| 0 <= k < s.drop_last().len() && s.drop_last()[k] == rest[i];
                assert(s[k] == rest[i]);
            } else {
                assert(s[s.len() - 1] == s.last());
            }
        }
        if !has_key(rest, fallback_key(s.last())) {
            assert forall|i: int, j: int|
                0 <= i < j < first_by_key(s).len() implies fallback_key(
                #[trigger] first_by_key(s)[i],
            ) != fallback_key(#[trigger] first_by_key(s)[j]) by {
                if j == rest.len() {
                    assert(first_by_key(s)[i] == rest[i]);
                }
            }
        }
    }
}

proof fn lemma_first_by_key_distinct_keeps_all(s: Seq<Seq<char>>)
    requires
        forall|i: int, j: int|
            0 <= i < j < s.len() ==> fallback_key(#[trigger] s[i]) != fallback_key(#[trigger] s[j]),
    ensures
        first_by_key(s) == s,
    decreases s.len(),
{
    if s.len() > 0 {
        lemma_first_by_key_distinct_keeps_all(s.drop_last());
        assert(!has_key(s.drop_last(), fallback_key(s.last()))) by {
            if has_key(s.drop_last(), fallback_key(s.last())) {
                let i = choose|i: int|
                    0 <= i < s.drop_last().len() && fallback_key(#[trigger] s.drop_last()[i])
                        == fallback_key(s.last());
                assert(fallback_key(s[i]) != fallback_key(s[s.len() - 1]));
            }
        }
        assert(s.drop_last().push(s.last()) =~= s);
    }
}

/// Normalizing twice is normalizing once: after `normalize` no fallback
/// equals the primary and no two fallbacks share a key.
pub proof fn law_normalize_idempotent(p: PrefsView)
    ensures
        normalized(normalized(p)) == normalized(p),
{
    let w = without_primary(p.fallback, p.primary);
    let f = first_by_key(w);
    lemma_without_primary_excludes(p.fallback, p.primary);
    lemma_first_by_key_from(w);
    assert forall|i: int| 0 <= i < f.len() implies !eq_ignore_case(#[trigger] f[i], p.primary) by {
        let k = choose|k: int| 0 <= k < w.len() && w[k] == f[i];
        assert(!eq_ignore_case(w[k], p.primary));
    }
    lemma_without_primary_keeps_all(f, p.primary);
    lemma_first_by_key_distinct_keeps_all(f);
}

proof fn lemma_collect_bindings_well_formed(c: Seq<Seq<char>>)
    ensures
        forall|i: int|
            0 <= i < collect_bindings(c).len() ==> (#[trigger] collect_bindings(c)[i]).len() > 0
                && trim(collect_bindings(c)[i]) == collect_bindings(c)[i],
        forall|i: int, j: int|
            0 <= i < j < collect_bindings(c).len() ==> lower(#[trigger] collect_bindings(c)[i])
                != lower(#[trigger] collect_bindings(c)[j]),
    decreases c.len(),
{
    if c.len() > 0 {
        let rest = collect_bindings(c.drop_last());
        let t = trim(c.last());
        lemma_collect_bindings_well_formed(c.drop_last());
        lemma_trim_idempotent(c.last());
        if t.len() > 0 && !has_lower(rest, lower(t)) {
            assert forall|i: int, j: int|
                0 <= i < j < collect_bindings(c).len() implies lower(
                #[trigger] collect_bindings(c)[i],
            ) != lower(#[trigger] collect_bindings(c)[j]) by {
                if j == rest.len() {
                    assert(collect_bindings(c)[i] == rest[i]);
                }
            }
        }
    }
}

/// Every binding is trimmed and non-empty, and no two bindings differ only
/// in ASCII case.
pub proof fn law_bindings_well_formed(p: PrefsView)
    ensures
        forall|i: int|
            0 <= i < bindings_of(p).len() ==> (#[trigger] bindings_of(p)[i]).len() > 0 && trim(
                bindings_of(p)[i],
            ) == bindings_of(p)[i],
        forall|i: int, j: int|
            0 <= i < j < bindings_of(p).len() ==> lower(#[trigger] bindings_of(p)[i]) != lower(
                #[trigger] bindings_of(p)[j],
            ),
{
    lemma_collect_bindings_well_formed(seq![p.primary] + p.fallback);
}

proof fn lemma_collect_bindings_prefix(c: Seq<Seq<char>>, k: int)
    requires
        0 <= k <= c.len(),
    ensures
        collect_bindings(c.take(k)).len() <= collect_bindings(c).len(),
        forall|i: int|
            0 <= i < collect_bindings(c.take(k)).len() ==> collect_bindings(c)[i]
                == #[trigger] collect_bindings(c.take(k))[i],
    decreases c.len() - k,
{
    if k == c.len() {
        assert(c.take(k) =~= c);
    } else {
        lemma_collect_bindings_prefix(c.drop_last(), k);
        assert(c.drop_last().take(k) =~= c.take(k));
    }
}

/// Once `update_primary` succeeds, the new primary, trimmed, is the first
/// shortcut registered.
pub proof fn law_updated_primary_binds_first(p: PrefsView, requested: Seq<char>)
    requires
        primary_update(p, requested).0 is Ok,
    ensures
        bindings_of(primary_update(p, requested).1).len() > 0,
        bindings_of(primary_update(p, requested).1)[0] == trim(requested),
{
    let t = trim(requested);
    let q = primary_update(p, requested).1;
    let c = seq![q.primary] + q.fallback;
    assert(q.primary == t);
    lemma_trim_idempotent(requested);
    assert(c.take(1) =~= seq![t]);
    assert(seq![t].drop_last() =~= Seq::<Seq<char>>::empty());
    assert(collect_bindings(Seq::<Seq<char>>::empty()) == Seq::<Seq<char>>::empty());
    assert(collect_bindings(c.take(1)) =~= seq![t]);
    lemma_collect_bindings_prefix(c, 1);
    assert(collect_bindings(c.take(1))[0] == t);
}

/// A refused `update_primary` leaves the preferences as they were.
pub proof fn law_refused_update_changes_nothing(p: PrefsView, requested: Seq<char>)
    requires
        primary_update(p, requested).0 is Err,
    ensures
        primary_update(p, requested).1 == p,
{
}

proof fn lemma_default_primary_trimmed()
    ensures
        trim(default_primary()) == default_primary(),
        default_primary().len() > 0,
{
    reveal_strlit("Option+Space");
    let s = default_primary();
    assert(!is_whitespace(s[0]));
    assert(!is_whitespace(s.last()));
    lemma_trim_of_trimmed(s);
}

/// After `reset_to_defaults` the only binding is the default shortcut.
pub proof fn law_defaults_bind_only_default(p: PrefsView)
    requires
        p == default_prefs(),
    ensures
        bindings_of(p) == seq![default_primary()],
{
    lemma_default_primary_trimmed();
    let c = seq![p.primary] + p.fallback;
    assert(c =~= seq![default_primary()]);
    assert(c.drop_last() =~= Seq::<Seq<char>>::empty());
    assert(collect_bindings(Seq::<Seq<char>>::empty()) == Seq::<Seq<char>>::empty());
    assert(collect_bindings(c) =~= seq![default_primary()]);
}

/// Migrating a migrated configuration changes nothing more, and leaves a
/// primary shortcut that validates. Where migration falls back to the
/// defaults this rests on the parser accepting the default shortcut, which
/// `Config::with_migrations` establishes by asking it.
pub proof fn law_migration_idempotent(p: PrefsView)
    requires
        trim(p.primary).len() == 0 || validation(p.primary) is Err ==> shortcut_parse(
            default_primary(),
        ) is Ok,
    ensures
        ({
            let once = migrate_prefs(p, validation(p.primary));
            &&& validation(once.primary) is Ok
            &&& migrate_prefs(once, validation(once.primary)) == once
        }),
{
    let once = migrate_prefs(p, validation(p.primary));
    lemma_default_primary_trimmed();
    law_normalize_idempotent(p);
    law_normalize_idempotent(default_prefs());
    if trim(p.primary).len() == 0 || validation(p.primary) is Err {
        assert(once == normalized(default_prefs()));
        assert(without_primary(Seq::<Seq<char>>::empty(), default_primary()) == Seq::<
            Seq<char>,
        >::empty());
        assert(first_by_key(Seq::<Seq<char>>::empty()) == Seq::<Seq<char>>::empty());
        assert(once == default_prefs());
    } else {
        assert(once == normalized(p));
    }
}

} // verus!
