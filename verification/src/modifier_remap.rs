//! Configurable modifier key remapping.
//!
//! Rewrites the four modifier keys (Ctrl, Meta, Alt, Shift) in *local* key
//! space, before any peer scancode translation happens. Every local modifier
//! is sent as the peer modifier its slot is mapped to, on the same side of the
//! keyboard; AltGr (and the synthetic left Control Windows injects ahead of
//! it) is never remapped.
use crate::json_text::{json_object_of, json_string_object};
use vstd::prelude::*;

verus! {

/// One of the four remappable modifiers.
#[derive(Clone, Copy, PartialEq, Eq, Structural, Debug)]
pub enum Slot {
    Ctrl,
    Meta,
    Alt,
    Shift,
}

/// Which side of the keyboard a modifier key sits on.
#[derive(Clone, Copy, PartialEq, Eq, Structural, Debug)]
pub enum Side {
    Left,
    Right,
}

/// A local key as the remapping reads it. The modifiers (and AltGr, which
/// occupies the right-hand Alt position and is never remapped) are named;
/// every other key is carried through as `Other`, identified by a code of
/// the caller's choosing.
#[derive(Clone, Copy, PartialEq, Eq, Structural, Debug)]
pub enum Key {
    ControlLeft,
    ControlRight,
    MetaLeft,
    MetaRight,
    Alt,
    AltGr,
    ShiftLeft,
    ShiftRight,
    Other(u32),
}

/// A control key of the wire protocol as the remapping reads it. `RAlt` is
/// AltGr; every key that is not a modifier is carried through as `Other`,
/// identified by its protocol number.
#[derive(Clone, Copy, PartialEq, Eq, Structural, Debug)]
pub enum ControlKey {
    Control,
    RControl,
    Meta,
    RWin,
    Alt,
    RAlt,
    Shift,
    RShift,
    Other(i32),
}

/// The canonical storage name of a slot.
pub open spec fn slot_name(s: Slot) -> Seq<char> {
    match s {
        Slot::Ctrl => "ctrl"@,
        Slot::Meta => "meta"@,
        Slot::Alt => "alt"@,
        Slot::Shift => "shift"@,
    }
}

/// The slot a storage name denotes, if any.
pub open spec fn slot_from_name(s: Seq<char>) -> Option<Slot> {
    if s == "ctrl"@ {
        Some(Slot::Ctrl)
    } else if s == "meta"@ {
        Some(Slot::Meta)
    } else if s == "alt"@ {
        Some(Slot::Alt)
    } else if s == "shift"@ {
        Some(Slot::Shift)
    } else {
        None
    }
}

/// The slots in their storage order.
pub open spec fn slot_at(i: int) -> Slot {
    if i == 0 {
        Slot::Ctrl
    } else if i == 1 {
        Slot::Meta
    } else if i == 2 {
        Slot::Alt
    } else {
        Slot::Shift
    }
}

pub open spec fn slot_index(s: Slot) -> int {
    match s {
        Slot::Ctrl => 0,
        Slot::Meta => 1,
        Slot::Alt => 2,
        Slot::Shift => 3,
    }
}

/// The four storage names are pairwise distinct, and each names its slot.
pub proof fn law_slot_names_round_trip()
    ensures
        forall|s: Slot| #[trigger] slot_from_name(slot_name(s)) == Some(s),
        forall|a: Slot, b: Slot| #[trigger] slot_name(a) == #[trigger] slot_name(b) ==> a == b,
{
    reveal_strlit("ctrl");
    reveal_strlit("meta");
    reveal_strlit("alt");
    reveal_strlit("shift");
    assert("ctrl"@[0] != "meta"@[0]);
    assert("ctrl"@.len() != "alt"@.len());
    assert("ctrl"@.len() != "shift"@.len());
    assert("meta"@.len() != "alt"@.len());
    assert("meta"@.len() != "shift"@.len());
    assert("alt"@.len() != "shift"@.len());
}

/// Whether two strings hold the same characters.
pub(crate) fn str_equal(a: &str, b: &str) -> (r: bool)
    ensures
        r == (a@ == b@),
{
    let n = a.unicode_len();
    if n != b.unicode_len() {
        return false;
    }
    let mut i: usize = 0;
    while i < n
        invariant
            n == a@.len(),
            n == b@.len(),
            i <= n,
            forall|j: int| 0 <= j < i ==> a@[j] == b@[j],
        decreases n - i,
    {
        if a.get_char(i) != b.get_char(i) {
            return false;
        }
        i = i + 1;
    }
    assert(a@ =~= b@);
    true
}

impl Slot {
    /// The slot a storage name denotes; `None` for any other string.
    pub fn from_name(s: &str) -> (r: Option<Slot>)
        ensures
            r == slot_from_name(s@),
    {
        if str_equal(s, "ctrl") {
            Some(Slot::Ctrl)
        } else if str_equal(s, "meta") {
            Some(Slot::Meta)
        } else if str_equal(s, "alt") {
            Some(Slot::Alt)
        } else if str_equal(s, "shift") {
            Some(Slot::Shift)
        } else {
            None
        }
    }

    /// The canonical storage name of the slot.
    pub fn name(&self) -> (r: &'static str)
        ensures
            r@ == slot_name(*self),
    {
        match self {
            Slot::Ctrl => "ctrl",
            Slot::Meta => "meta",
            Slot::Alt => "alt",
            Slot::Shift => "shift",
        }
    }

    /// The position of the slot in the storage order.
    fn index(&self) -> (r: usize)
        ensures
            r == slot_index(*self),
            slot_at(r as int) == *self,
    {
        match self {
            Slot::Ctrl => 0,
            Slot::Meta => 1,
            Slot::Alt => 2,
            Slot::Shift => 3,
        }
    }
}

/// The slot in storage position `i` (`i < 4`).
fn slot_of_index(i: usize) -> (r: Slot)
    requires
        i < 4,
    ensures
        r == slot_at(i as int),
        slot_index(r) == i,
{
    if i == 0 {
        Slot::Ctrl
    } else if i == 1 {
        Slot::Meta
    } else if i == 2 {
        Slot::Alt
    } else {
        Slot::Shift
    }
}

/// Which peer modifier each local modifier sends.
#[derive(Clone, Copy, PartialEq, Eq, Structural, Debug)]
pub struct ModifierMap {
    ctrl: Slot,
    meta: Slot,
    alt: Slot,
    shift: Slot,
}

/// The modifier a local key stands for, with its side. The physical right Alt
/// is `Key::AltGr`, absent on purpose: it must never be remapped.
pub open spec fn key_parts(key: Key) -> Option<(Slot, Side)> {
    match key {
        Key::ControlLeft => Some((Slot::Ctrl, Side::Left)),
        Key::ControlRight => Some((Slot::Ctrl, Side::Right)),
        Key::MetaLeft => Some((Slot::Meta, Side::Left)),
        Key::MetaRight => Some((Slot::Meta, Side::Right)),
        Key::Alt => Some((Slot::Alt, Side::Left)),
        Key::ShiftLeft => Some((Slot::Shift, Side::Left)),
        Key::ShiftRight => Some((Slot::Shift, Side::Right)),
        _ => None,
    }
}

/// The local key for a modifier on a side. There is no right-hand Alt
/// target, so a right-hand source aimed at Alt collapses onto `Key::Alt`.
pub open spec fn key_of_parts(slot: Slot, side: Side) -> Key {
    match (slot, side) {
        (Slot::Ctrl, Side::Left) => Key::ControlLeft,
        (Slot::Ctrl, Side::Right) => Key::ControlRight,
        (Slot::Meta, Side::Left) => Key::MetaLeft,
        (Slot::Meta, Side::Right) => Key::MetaRight,
        (Slot::Alt, _) => Key::Alt,
        (Slot::Shift, Side::Left) => Key::ShiftLeft,
        (Slot::Shift, Side::Right) => Key::ShiftRight,
    }
}

/// The modifier a control key stands for, with its side. `RAlt` is AltGr.
pub open spec fn control_key_parts(ck: ControlKey) -> Option<(Slot, Side)> {
    match ck {
        ControlKey::Control => Some((Slot::Ctrl, Side::Left)),
        ControlKey::RControl => Some((Slot::Ctrl, Side::Right)),
        ControlKey::Meta => Some((Slot::Meta, Side::Left)),
        ControlKey::RWin => Some((Slot::Meta, Side::Right)),
        ControlKey::Alt => Some((Slot::Alt, Side::Left)),
        ControlKey::Shift => Some((Slot::Shift, Side::Left)),
        ControlKey::RShift => Some((Slot::Shift, Side::Right)),
        _ => None,
    }
}

/// The control key for a modifier on a side; right-hand Alt collapses onto
/// `ControlKey::Alt`.
pub open spec fn control_key_of_parts(slot: Slot, side: Side) -> ControlKey {
    match (slot, side) {
        (Slot::Ctrl, Side::Left) => ControlKey::Control,
        (Slot::Ctrl, Side::Right) => ControlKey::RControl,
        (Slot::Meta, Side::Left) => ControlKey::Meta,
        (Slot::Meta, Side::Right) => ControlKey::RWin,
        (Slot::Alt, _) => ControlKey::Alt,
        (Slot::Shift, Side::Left) => ControlKey::Shift,
        (Slot::Shift, Side::Right) => ControlKey::RShift,
    }
}

/// Windows injects a synthetic left Control ahead of AltGr, distinguishable
/// only by the extended-scancode prefix `0xE0`.
pub open spec fn is_altgr_synthetic(key: Key, position_code: u32) -> bool {
    key == Key::ControlLeft && position_code / 256 == 0xE0
}

fn split_key(key: Key) -> (r: Option<(Slot, Side)>)
    ensures
        r == key_parts(key),
{
    match key {
        Key::ControlLeft => Some((Slot::Ctrl, Side::Left)),
        Key::ControlRight => Some((Slot::Ctrl, Side::Right)),
        Key::MetaLeft => Some((Slot::Meta, Side::Left)),
        Key::MetaRight => Some((Slot::Meta, Side::Right)),
        Key::Alt => Some((Slot::Alt, Side::Left)),
        Key::ShiftLeft => Some((Slot::Shift, Side::Left)),
        Key::ShiftRight => Some((Slot::Shift, Side::Right)),
        _ => None,
    }
}

fn join_key(slot: Slot, side: Side) -> (r: Key)
    ensures
        r == key_of_parts(slot, side),
{
    match (slot, side) {
        (Slot::Ctrl, Side::Left) => Key::ControlLeft,
        (Slot::Ctrl, Side::Right) => Key::ControlRight,
        (Slot::Meta, Side::Left) => Key::MetaLeft,
        (Slot::Meta, Side::Right) => Key::MetaRight,
        (Slot::Alt, _) => Key::Alt,
        (Slot::Shift, Side::Left) => Key::ShiftLeft,
        (Slot::Shift, Side::Right) => Key::ShiftRight,
    }
}

fn split_control_key(ck: ControlKey) -> (r: Option<(Slot, Side)>)
    ensures
        r == control_key_parts(ck),
{
    match ck {
        ControlKey::Control => Some((Slot::Ctrl, Side::Left)),
        ControlKey::RControl => Some((Slot::Ctrl, Side::Right)),
        ControlKey::Meta => Some((Slot::Meta, Side::Left)),
        ControlKey::RWin => Some((Slot::Meta, Side::Right)),
        ControlKey::Alt => Some((Slot::Alt, Side::Left)),
        ControlKey::Shift => Some((Slot::Shift, Side::Left)),
        ControlKey::RShift => Some((Slot::Shift, Side::Right)),
        _ => None,
    }
}

fn join_control_key(slot: Slot, side: Side) -> (r: ControlKey)
    ensures
        r == control_key_of_parts(slot, side),
{
    match (slot, side) {
        (Slot::Ctrl, Side::Left) => ControlKey::Control,
        (Slot::Ctrl, Side::Right) => ControlKey::RControl,
        (Slot::Meta, Side::Left) => ControlKey::Meta,
        (Slot::Meta, Side::Right) => ControlKey::RWin,
        (Slot::Alt, _) => ControlKey::Alt,
        (Slot::Shift, Side::Left) => ControlKey::Shift,
        (Slot::Shift, Side::Right) => ControlKey::RShift,
    }
}

fn is_altgr_synthetic_ctrl(key: Key, position_code: u32) -> (r: bool)
    ensures
        r == is_altgr_synthetic(key, position_code),
{
    proof {
        assert(position_code >> 8u32 == position_code / 256) by (bit_vector);
    }
    key == Key::ControlLeft && (position_code >> 8u32) == 0xE0u32
}

impl ModifierMap {
    /// The peer modifier the local modifier `from` sends.
    pub closed spec fn target_of(self, from: Slot) -> Slot {
        match from {
            Slot::Ctrl => self.ctrl,
            Slot::Meta => self.meta,
            Slot::Alt => self.alt,
            Slot::Shift => self.shift,
        }
    }

    /// The map with the given four targets.
    pub closed spec fn from_targets(ctrl: Slot, meta: Slot, alt: Slot, shift: Slot) -> ModifierMap {
        ModifierMap { ctrl, meta, alt, shift }
    }

    pub proof fn lemma_from_targets(ctrl: Slot, meta: Slot, alt: Slot, shift: Slot)
        ensures
            Self::from_targets(ctrl, meta, alt, shift).target_of(Slot::Ctrl) == ctrl,
            Self::from_targets(ctrl, meta, alt, shift).target_of(Slot::Meta) == meta,
            Self::from_targets(ctrl, meta, alt, shift).target_of(Slot::Alt) == alt,
            Self::from_targets(ctrl, meta, alt, shift).target_of(Slot::Shift) == shift,
    {
    }

    /// Every modifier sends itself.
    pub open spec fn spec_is_identity(self) -> bool {
        forall|s: Slot| #[trigger] self.target_of(s) == s
    }

    /// A map is determined by its four targets.
    pub proof fn lemma_ext_equal(a: ModifierMap, b: ModifierMap)
        requires
            forall|s: Slot| #[trigger] a.target_of(s) == b.target_of(s),
        ensures
            a == b,
    {
        assert(a.target_of(Slot::Ctrl) == b.target_of(Slot::Ctrl));
        assert(a.target_of(Slot::Meta) == b.target_of(Slot::Meta));
        assert(a.target_of(Slot::Alt) == b.target_of(Slot::Alt));
        assert(a.target_of(Slot::Shift) == b.target_of(Slot::Shift));
    }

    /// The map that changes nothing, as a value.
    pub open spec fn spec_identity() -> ModifierMap {
        Self::from_targets(Slot::Ctrl, Slot::Meta, Slot::Alt, Slot::Shift)
    }

    /// The map that changes nothing.
    pub fn identity() -> (r: Self)
        ensures
            r.spec_is_identity(),
            r == Self::spec_identity(),
    {
        ModifierMap { ctrl: Slot::Ctrl, meta: Slot::Meta, alt: Slot::Alt, shift: Slot::Shift }
    }

    /// Whether every modifier sends itself.
    pub fn is_identity(&self) -> (r: bool)
        ensures
            r == self.spec_is_identity(),
    {
        let r = self.ctrl == Slot::Ctrl && self.meta == Slot::Meta && self.alt == Slot::Alt
            && self.shift == Slot::Shift;
        proof {
            if !r {
                if self.ctrl != Slot::Ctrl {
                    assert(self.target_of(Slot::Ctrl) != Slot::Ctrl);
                } else if self.meta != Slot::Meta {
                    assert(self.target_of(Slot::Meta) != Slot::Meta);
                } else if self.alt != Slot::Alt {
                    assert(self.target_of(Slot::Alt) != Slot::Alt);
                } else {
                    assert(self.target_of(Slot::Shift) != Slot::Shift);
                }
            }
        }
        r
    }

    /// Make the local modifier `from` send `to`; the other three are kept.
    pub fn set(&mut self, from: Slot, to: Slot)
        ensures
            final(self).target_of(from) == to,
            forall|s: Slot| s != from ==> #[trigger] final(self).target_of(s) == old(self).target_of(s),
    {
        match from {
            Slot::Ctrl => self.ctrl = to,
            Slot::Meta => self.meta = to,
            Slot::Alt => self.alt = to,
            Slot::Shift => self.shift = to,
        }
    }

    fn target(&self, from: Slot) -> (r: Slot)
        ensures
            r == self.target_of(from),
    {
        match from {
            Slot::Ctrl => self.ctrl,
            Slot::Meta => self.meta,
            Slot::Alt => self.alt,
            Slot::Shift => self.shift,
        }
    }

    /// What `map_key` sends for a local key.
    pub open spec fn spec_map_key(self, key: Key, position_code: u32) -> Key {
        if is_altgr_synthetic(key, position_code) {
            key
        } else {
            match key_parts(key) {
                Some((slot, side)) => key_of_parts(self.target_of(slot), side),
                None => key,
            }
        }
    }

    /// Remap a local key. `position_code` is the raw local scancode, needed
    /// only for the AltGr test.
    pub fn map_key(&self, key: Key, position_code: u32) -> (r: Key)
        ensures
            r == self.spec_map_key(key, position_code),
    {
        if self.is_identity() || is_altgr_synthetic_ctrl(key, position_code) {
            proof {
                if self.spec_is_identity() {
                    lemma_identity_targets(*self);
                }
            }
            return key;
        }
        match split_key(key) {
            Some((slot, side)) => join_key(self.target(slot), side),
            None => key,
        }
    }

    /// What `map_control_key` sends for a control key.
    pub open spec fn spec_map_control_key(self, ck: ControlKey) -> ControlKey {
        match control_key_parts(ck) {
            Some((slot, side)) => control_key_of_parts(self.target_of(slot), side),
            None => ck,
        }
    }

    /// Remap a control key of the wire protocol (the mouse-modifier path).
    pub fn map_control_key(&self, ck: ControlKey) -> (r: ControlKey)
        ensures
            r == self.spec_map_control_key(ck),
    {
        if self.is_identity() {
            proof {
                lemma_identity_targets(*self);
            }
            return ck;
        }
        match split_control_key(ck) {
            Some((slot, side)) => join_control_key(self.target(slot), side),
            None => ck,
        }
    }

    /// Whether the peer modifier `to` is held: some held local modifier
    /// targets it. Colliding targets union.
    pub open spec fn held_after(
        self,
        to: Slot,
        alt: bool,
        ctrl: bool,
        shift: bool,
        command: bool,
    ) -> bool {
        ||| ctrl && self.target_of(Slot::Ctrl) == to
        ||| command && self.target_of(Slot::Meta) == to
        ||| alt && self.target_of(Slot::Alt) == to
        ||| shift && self.target_of(Slot::Shift) == to
    }

    /// Remap the held-modifier state. Argument and return order is
    /// (alt, ctrl, shift, command).
    pub fn map_state(&self, alt: bool, ctrl: bool, shift: bool, command: bool) -> (r: (
        bool,
        bool,
        bool,
        bool,
    ))
        ensures
            r.0 == self.held_after(Slot::Alt, alt, ctrl, shift, command),
            r.1 == self.held_after(Slot::Ctrl, alt, ctrl, shift, command),
            r.2 == self.held_after(Slot::Shift, alt, ctrl, shift, command),
            r.3 == self.held_after(Slot::Meta, alt, ctrl, shift, command),
    {
        if self.is_identity() {
            proof {
                lemma_identity_targets(*self);
            }
            return (alt, ctrl, shift, command);
        }
        let mut held = [false; 4];
        held[Slot::Ctrl.index()] = ctrl;
        held[Slot::Meta.index()] = command;
        held[Slot::Alt.index()] = alt;
        held[Slot::Shift.index()] = shift;
        let ghost h = held@;
        let mut out = [false; 4];
        for i in 0..4usize
            invariant
                held@ == h,
                h[0] == ctrl,
                h[1] == command,
                h[2] == alt,
                h[3] == shift,
                out@.len() == 4,
                forall|t: int|
                    0 <= t < 4 ==> #[trigger] out@[t] == exists|f: int|
                        0 <= f < i && #[trigger] h[f] && slot_index(
                            self.target_of(slot_at(f)),
                        ) == t,
        {
            let from = slot_of_index(i);
            if held[i] {
                let t = self.target(from).index();
                out[t] = true;
            }
            assert forall|t: int| 0 <= t < 4 implies #[trigger] out@[t] == exists|f: int|
                0 <= f < i + 1 && #[trigger] h[f] && slot_index(self.target_of(slot_at(f))) == t by {
                if out@[t] && !(exists|f: int| 0 <= f < i && #[trigger] h[f] && slot_index(
                    self.target_of(slot_at(f)),
                ) == t) {
                    assert(h[i as int]);
                }
            }
        }
        let r = (out[2], out[0], out[3], out[1]);
        proof {
            assert forall|t: Slot| #![auto]
                out@[slot_index(t)] == self.held_after(t, alt, ctrl, shift, command) by {
                let ti = slot_index(t);
                if out@[ti] {
                    let f = choose|f: int|
                        0 <= f < 4 && #[trigger] h[f] && slot_index(self.target_of(slot_at(f)))
                            == ti;
                    assert(self.target_of(slot_at(f)) == t);
                } else {
                    if ctrl && self.target_of(Slot::Ctrl) == t {
                        assert(h[0] && slot_index(self.target_of(slot_at(0))) == ti);
                    }
                    if command && self.target_of(Slot::Meta) == t {
                        assert(h[1] && slot_index(self.target_of(slot_at(1))) == ti);
                    }
                    if alt && self.target_of(Slot::Alt) == t {
                        assert(h[2] && slot_index(self.target_of(slot_at(2))) == ti);
                    }
                    if shift && self.target_of(Slot::Shift) == t {
                        assert(h[3] && slot_index(self.target_of(slot_at(3))) == ti);
                    }
                }
            }
            assert(out@[slot_index(Slot::Alt)] == self.held_after(Slot::Alt, alt, ctrl, shift, command));
            assert(out@[slot_index(Slot::Ctrl)] == self.held_after(Slot::Ctrl, alt, ctrl, shift, command));
            assert(out@[slot_index(Slot::Shift)] == self.held_after(Slot::Shift, alt, ctrl, shift, command));
            assert(out@[slot_index(Slot::Meta)] == self.held_after(Slot::Meta, alt, ctrl, shift, command));
        }
        r
    }
}

impl ModifierMap {
    /// The entries this map is stored as: each slot's name with the name of
    /// the slot it sends, in storage order.
    pub open spec fn json_entries_view(self) -> Seq<(Seq<char>, Seq<char>)> {
        seq![
            (slot_name(Slot::Ctrl), slot_name(self.target_of(Slot::Ctrl))),
            (slot_name(Slot::Meta), slot_name(self.target_of(Slot::Meta))),
            (slot_name(Slot::Alt), slot_name(self.target_of(Slot::Alt))),
            (slot_name(Slot::Shift), slot_name(self.target_of(Slot::Shift))),
        ]
    }

    pub(crate) fn json_entries(&self) -> (r: Vec<(String, String)>)
        ensures
            r.deep_view() == self.json_entries_view(),
    {
        let mut v: Vec<(String, String)> = Vec::new();
        v.push((String::from_str(Slot::Ctrl.name()), String::from_str(self.target(Slot::Ctrl).name())));
        v.push((String::from_str(Slot::Meta.name()), String::from_str(self.target(Slot::Meta).name())));
        v.push((String::from_str(Slot::Alt.name()), String::from_str(self.target(Slot::Alt).name())));
        v.push(
            (String::from_str(Slot::Shift.name()), String::from_str(self.target(Slot::Shift).name())),
        );
        assert(v.deep_view() =~= self.json_entries_view());
        v
    }

    /// The map as a JSON object from each slot name to the name of the slot
    /// it sends.
    pub fn to_json_value(&self) -> (r: serde_json::Value)
        ensures
            r == json_object_of(self.json_entries_view()),
    {
        json_string_object(self.json_entries())
    }
}

impl Default for ModifierMap {
    /// The identity map.
    fn default() -> (r: Self)
        ensures
            r.spec_is_identity(),
    {
        Self::identity()
    }
}

/// The Ctrl/Meta swap, as a value.
pub open spec fn spec_swap_ctrl_cmd() -> ModifierMap {
    ModifierMap::from_targets(Slot::Meta, Slot::Ctrl, Slot::Alt, Slot::Shift)
}

/// The mapping the retired "Swap control-command key" checkbox produced.
pub fn swap_ctrl_cmd_map() -> (r: ModifierMap)
    ensures
        r == spec_swap_ctrl_cmd(),
        r.target_of(Slot::Ctrl) == Slot::Meta,
        r.target_of(Slot::Meta) == Slot::Ctrl,
        r.target_of(Slot::Alt) == Slot::Alt,
        r.target_of(Slot::Shift) == Slot::Shift,
{
    let mut m = ModifierMap::identity();
    m.set(Slot::Ctrl, Slot::Meta);
    m.set(Slot::Meta, Slot::Ctrl);
    proof {
        ModifierMap::lemma_from_targets(Slot::Meta, Slot::Ctrl, Slot::Alt, Slot::Shift);
        assert forall|s: Slot| #[trigger] m.target_of(s) == spec_swap_ctrl_cmd().target_of(s) by {
            match s {
                Slot::Ctrl => {},
                Slot::Meta => {},
                Slot::Alt => {},
                Slot::Shift => {},
            }
        }
        ModifierMap::lemma_ext_equal(m, spec_swap_ctrl_cmd());
    }
    m
}

/// The identity map changes nothing: every key, every control key and every
/// held-modifier state passes through unchanged.
pub proof fn law_identity_changes_nothing(
    m: ModifierMap,
    key: Key,
    position_code: u32,
    ck: ControlKey,
    alt: bool,
    ctrl: bool,
    shift: bool,
    command: bool,
)
    requires
        m.spec_is_identity(),
    ensures
        m.spec_map_key(key, position_code) == key,
        m.spec_map_control_key(ck) == ck,
        m.held_after(Slot::Alt, alt, ctrl, shift, command) == alt,
        m.held_after(Slot::Ctrl, alt, ctrl, shift, command) == ctrl,
        m.held_after(Slot::Shift, alt, ctrl, shift, command) == shift,
        m.held_after(Slot::Meta, alt, ctrl, shift, command) == command,
{
    lemma_identity_targets(m);
}

/// The identity map sends every slot to itself.
proof fn lemma_identity_targets(m: ModifierMap)
    requires
        m.spec_is_identity(),
    ensures
        forall|s: Slot| #[trigger] m.target_of(s) == s,
{
    assert(m.target_of(Slot::Ctrl) == Slot::Ctrl);
    assert(m.target_of(Slot::Meta) == Slot::Meta);
    assert(m.target_of(Slot::Alt) == Slot::Alt);
    assert(m.target_of(Slot::Shift) == Slot::Shift);
    assert forall|s: Slot| #[trigger] m.target_of(s) == s by {
        match s {
            Slot::Ctrl => {},
            Slot::Meta => {},
            Slot::Alt => {},
            Slot::Shift => {},
        }
    }
}

/// Side is preserved: a remapped modifier becomes the instance of its target
/// on the same side of the keyboard; a target of Alt, which has no
/// right-hand key, is always `Key::Alt`.
pub proof fn law_side_is_preserved(m: ModifierMap, key: Key, position_code: u32)
    requires
        key_parts(key) is Some,
        !is_altgr_synthetic(key, position_code),
    ensures
        ({
            let (slot, side) = key_parts(key)->0;
            let to = m.target_of(slot);
            &&& to != Slot::Alt ==> key_parts(m.spec_map_key(key, position_code)) == Some((to, side))
            &&& to == Slot::Alt ==> m.spec_map_key(key, position_code) == Key::Alt
        }),
{
}

/// AltGr is never remapped and never produced, and neither is the synthetic
/// left Control Windows injects ahead of it; on the wire `RAlt` (AltGr)
/// likewise passes through and is never produced.
pub proof fn law_altgr_is_never_remapped(m: ModifierMap, key: Key, position_code: u32, ck: ControlKey)
    ensures
        m.spec_map_key(Key::AltGr, position_code) == Key::AltGr,
        is_altgr_synthetic(key, position_code) ==> m.spec_map_key(key, position_code) == key,
        m.spec_map_key(key, position_code) == Key::AltGr ==> key == Key::AltGr,
        m.spec_map_control_key(ControlKey::RAlt) == ControlKey::RAlt,
        m.spec_map_control_key(ck) == ControlKey::RAlt ==> ck == ControlKey::RAlt,
{
}

/// Keys that are not modifiers pass through unchanged, and modifiers stay
/// modifiers.
pub proof fn law_non_modifiers_pass_through(m: ModifierMap, key: Key, position_code: u32, ck: ControlKey)
    ensures
        key_parts(key) is None ==> m.spec_map_key(key, position_code) == key,
        key_parts(key) is Some ==> key_parts(m.spec_map_key(key, position_code)) is Some,
        control_key_parts(ck) is None ==> m.spec_map_control_key(ck) == ck,
        control_key_parts(ck) is Some ==> control_key_parts(m.spec_map_control_key(ck)) is Some,
{
}

/// The key path and the mouse-modifier path agree: a modifier key and the
/// control key for the same modifier on the same side are sent as the same
/// modifier on the same side.
pub proof fn law_key_and_control_key_agree(m: ModifierMap, slot: Slot, side: Side, position_code: u32)
    requires
        !is_altgr_synthetic(key_of_parts(slot, side), position_code),
    ensures
        key_parts(m.spec_map_key(key_of_parts(slot, side), position_code)) == control_key_parts(
            m.spec_map_control_key(control_key_of_parts(slot, side)),
        ),
{
}

/// Holding a single local modifier reports exactly its target as held.
pub proof fn law_held_state_follows_targets(m: ModifierMap, from: Slot, to: Slot)
    ensures
        m.held_after(
            to,
            from == Slot::Alt,
            from == Slot::Ctrl,
            from == Slot::Shift,
            from == Slot::Meta,
        ) == (m.target_of(from) == to),
{
}

} // verus!
