//! Active-Space inference. macOS exposes no index for the current Space, so
//! the visible windows are hashed into a fingerprint, and each fingerprint
//! is remembered with the Space index it was seen on after a switch.

use std::collections::HashMap;
use vstd::prelude::*;
use vstd::utf8::encode_utf8;
use vstd::wrapping::u64_specs;

verus! {

broadcast use vstd::std_specs::hash::group_hash_axioms;

/// The multiplier of `hash_mix`.
pub const MIX_MULTIPLIER: u64 = 0x9E3779B185EBCA87;

/// The starting value of a screen fingerprint (the FNV offset basis).
pub const FINGERPRINT_SEED: u64 = 0xCBF29CE484222325;

/// How many windows, from the front, a Space fingerprint looks at.
pub const FINGERPRINT_WINDOWS: usize = 6;

/// `x.rotate_left(27)`.
pub open spec fn rotl27(x: u64) -> u64 {
    (x << 27u64) | (x >> 37u64)
}

/// One mixing step: `(h ^ v * MIX_MULTIPLIER).rotate_left(27)`, with a
/// wrapping multiplication.
pub open spec fn mix(h: u64, v: u64) -> u64 {
    rotl27(h ^ u64_specs::wrapping_mul(v, MIX_MULTIPLIER))
}

/// The polynomial hash (base 131, wrapping) of a window owner's name bytes.
pub open spec fn name_hash(bytes: Seq<u8>) -> u64
    decreases bytes.len(),
{
    if bytes.len() == 0 {
        0
    } else {
        u64_specs::wrapping_add(
            u64_specs::wrapping_mul(name_hash(bytes.drop_last()), 131),
            bytes.last() as u64,
        )
    }
}

/// What the fingerprint reads of one on-screen window. A field the window
/// list does not report is 0 (layer, pid) or empty (owner name).
pub struct WindowSample {
    pub layer: i64,
    pub pid: i32,
    pub owner_name: String,
}

/// The contribution of one normal (layer 0) window: its name hash mixed
/// with its pid, sign-extended to 64 bits.
pub open spec fn window_hash(w: WindowSample) -> u64 {
    mix(name_hash(encode_utf8(w.owner_name@)), w.pid as u64)
}

/// The fingerprint of a window list: the seed, mixed with the hash of each
/// layer-0 window in order. Missing entries and other layers are skipped.
pub open spec fn fingerprint_of(ws: Seq<Option<WindowSample>>) -> u64
    decreases ws.len(),
{
    if ws.len() == 0 {
        FINGERPRINT_SEED
    } else {
        let h = fingerprint_of(ws.drop_last());
        match ws.last() {
            Some(w) => if w.layer == 0 {
                mix(h, window_hash(w))
            } else {
                h
            },
            None => h,
        }
    }
}

/// The fingerprint of the first `limit` entries of the window list.
pub open spec fn screen_fingerprint_spec(ws: Seq<Option<WindowSample>>, limit: int) -> u64 {
    fingerprint_of(ws.take(if limit < ws.len() { limit } else { ws.len() as int }))
}

/// One mixing step of the fingerprint hash.
pub fn hash_mix(h: u64, v: u64) -> (r: u64)
    ensures
        r == mix(h, v),
{
    let x = h ^ v.wrapping_mul(MIX_MULTIPLIER);
    (x << 27u64) | (x >> 37u64)
}

/// The hash of a window owner's name.
fn owner_name_hash(name: &String) -> (r: u64)
    ensures
        r == name_hash(encode_utf8(name@)),
{
    let bytes = name.as_str().as_bytes();
    let mut local: u64 = 0;
    let mut i: usize = 0;
    while i < bytes.len()
        invariant
            i <= bytes@.len(),
            bytes@ == encode_utf8(name@),
            local == name_hash(bytes@.take(i as int)),
        decreases bytes@.len() - i,
    {
        assert(bytes@.take(i + 1).drop_last() =~= bytes@.take(i as int));
        local = local.wrapping_mul(131).wrapping_add(bytes[i] as u64);
        i += 1;
    }
    assert(bytes@.take(bytes@.len() as int) =~= bytes@);
    local
}

/// The fingerprint of the first `limit` entries of a window list (front
/// to back); `None` stands for an entry that could not be read.
pub fn screen_fingerprint(windows: &Vec<Option<WindowSample>>, limit: usize) -> (h: u64)
    ensures
        h == screen_fingerprint_spec(windows@, limit as int),
{
    let n = if limit < windows.len() {
        limit
    } else {
        windows.len()
    };
    let mut h: u64 = FINGERPRINT_SEED;
    let mut i: usize = 0;
    assert(windows@.take(0) =~= Seq::<Option<WindowSample>>::empty());
    while i < n
        invariant
            i <= n <= windows@.len(),
            h == fingerprint_of(windows@.take(i as int)),
        decreases n - i,
    {
        assert(windows@.take(i + 1).drop_last() =~= windows@.take(i as int));
        assert(windows@.take(i + 1).last() == windows@[i as int]);
        match &windows[i] {
            Some(w) => {
                if w.layer == 0 {
                    let local = hash_mix(owner_name_hash(&w.owner_name), w.pid as u64);
                    h = hash_mix(h, local);
                }
            },
            None => {},
        }
        i += 1;
    }
    h
}

/// The fingerprint of the current Space: the front few windows.
pub fn current_space_fingerprint(windows: &Vec<Option<WindowSample>>) -> (h: u64)
    ensures
        h == screen_fingerprint_spec(windows@, FINGERPRINT_WINDOWS as int),
{
    screen_fingerprint(windows, FINGERPRINT_WINDOWS)
}

/// The remembered fingerprint → Space index pairs.
pub struct SpaceFingerprints {
    map: HashMap<u64, u32>,
}

impl View for SpaceFingerprints {
    type V = Map<u64, u32>;

    closed spec fn view(&self) -> Map<u64, u32> {
        self.map@
    }
}

/// The index remembered for `fp`, if any.
pub open spec fn remembered(m: Map<u64, u32>, fp: u64) -> Option<u32> {
    if m.contains_key(fp) {
        Some(m[fp])
    } else {
        None
    }
}

impl SpaceFingerprints {
    pub fn new() -> (s: Self)
        ensures
            s@ == Map::<u64, u32>::empty(),
            s@.dom().finite(),
    {
        SpaceFingerprints { map: HashMap::new() }
    }

    /// Remembers that `fp` was seen on Space `index`, replacing an earlier
    /// index for the same fingerprint.
    pub fn remember(&mut self, fp: u64, index: u32)
        ensures
            final(self)@ == old(self)@.insert(fp, index),
            final(self)@.dom().finite(),
    {
        self.map.insert(fp, index);
    }

    /// The Space index remembered for `fp`.
    pub fn recall(&self, fp: u64) -> (r: Option<u32>)
        ensures
            r == remembered(self@, fp),
    {
        match self.map.get(&fp) {
            Some(i) => Some(*i),
            None => None,
        }
    }

    /// How many fingerprints are remembered.
    pub fn size(&self) -> (n: usize)
        ensures
            n == self@.len(),
            self@.dom().finite(),
    {
        self.map.len()
    }
}

/// Learns the fingerprint of the windows seen after a switch to `index`.
pub fn record_current_space_index(
    fingerprints: &mut SpaceFingerprints,
    windows: &Vec<Option<WindowSample>>,
    index: u32,
)
    ensures
        final(fingerprints)@ == old(fingerprints)@.insert(
            screen_fingerprint_spec(windows@, FINGERPRINT_WINDOWS as int),
            index,
        ),
        final(fingerprints)@.dom().finite(),
{
    let fp = current_space_fingerprint(windows);
    fingerprints.remember(fp, index);
}

/// The Space index last learned for the fingerprint of these windows.
pub fn infer_active_space_index(
    fingerprints: &SpaceFingerprints,
    windows: &Vec<Option<WindowSample>>,
) -> (r: Option<u32>)
    ensures
        r == remembered(fingerprints@, screen_fingerprint_spec(windows@, FINGERPRINT_WINDOWS as int)),
{
    let fp = current_space_fingerprint(windows);
    fingerprints.recall(fp)
}

/// How many fingerprints have been learned.
pub fn fp_map_size(fingerprints: &SpaceFingerprints) -> (n: usize)
    ensures
        n == fingerprints@.len(),
        fingerprints@.dom().finite(),
{
    fingerprints.size()
}

/// Remembers `fp` directly (for tests).
pub fn insert_fingerprint_for_test(fingerprints: &mut SpaceFingerprints, fp: u64, idx: u32)
    ensures
        final(fingerprints)@ == old(fingerprints)@.insert(fp, idx),
        final(fingerprints)@.dom().finite(),
{
    fingerprints.remember(fp, idx);
}

/// The index remembered for `fp` (for tests).
pub fn lookup_fingerprint_for_test(fingerprints: &SpaceFingerprints, fp: u64) -> (r: Option<u32>)
    ensures
        r == remembered(fingerprints@, fp),
{
    fingerprints.recall(fp)
}

/// A Space recorded for the current windows is what inference gives back
/// for the same windows, whatever was remembered before.
pub proof fn law_recorded_space_is_inferred(
    m: Map<u64, u32>,
    windows: Seq<Option<WindowSample>>,
    index: u32,
)
    ensures
        ({
            let fp = screen_fingerprint_spec(windows, FINGERPRINT_WINDOWS as int);
            remembered(m.insert(fp, index), fp) == Some(index)
        }),
{
}

/// Recording a fingerprint twice keeps the later index; other fingerprints
/// keep theirs.
pub proof fn law_latest_record_wins(m: Map<u64, u32>, fp: u64, first: u32, second: u32, other: u64)
    requires
        other != fp,
    ensures
        remembered(m.insert(fp, first).insert(fp, second), fp) == Some(second),
        remembered(m.insert(fp, first), other) == remembered(m, other),
{
}

/// The remembered pairs are always finitely many.
pub proof fn lemma_fingerprints_finite(fingerprints: &SpaceFingerprints)
    ensures
        fingerprints@.dom().finite(),
{
}

/// Remembering a fingerprint grows the memory by one exactly when that
/// fingerprint was not remembered before; otherwise the size stays.
pub proof fn law_size_after_remember(m: Map<u64, u32>, fp: u64, index: u32)
    requires
        m.dom().finite(),
    ensures
        m.insert(fp, index).dom().finite(),
        m.insert(fp, index).len() == m.len() + if m.contains_key(fp) {
            0int
        } else {
            1int
        },
{
    if m.contains_key(fp) {
        assert(m.insert(fp, index).dom() =~= m.dom());
    }
}

} // verus!
