use rustdesk::modifier_remap::{swap_ctrl_cmd_map, ControlKey, Key, ModifierMap, Slot};

/// The mapping the whole feature exists for: a Windows keyboard driving a
/// Mac, matching physical key position (Mac reads Ctrl · Option · Cmd).
fn mac_positional() -> ModifierMap {
    let mut m = ModifierMap::identity();
    m.set(Slot::Ctrl, Slot::Ctrl);
    m.set(Slot::Meta, Slot::Alt);
    m.set(Slot::Alt, Slot::Meta);
    m
}

fn swap_ctrl_cmd() -> ModifierMap {
    let mut m = ModifierMap::identity();
    m.set(Slot::Ctrl, Slot::Meta);
    m.set(Slot::Meta, Slot::Ctrl);
    m
}

// Keys that are not modifiers, identified by their scancodes.
const KEY_A: Key = Key::Other(0x1E);
const KEY_TAB: Key = Key::Other(0x0F);
// A control key that is not a modifier, identified by its protocol number.
const CONTROL_RETURN: ControlKey = ControlKey::Other(27);

#[test]
fn identity_changes_nothing() {
    let m = ModifierMap::identity();
    assert!(m.is_identity());
    assert_eq!(m.map_key(Key::ControlLeft, 0x1D), Key::ControlLeft);
    assert_eq!(m.map_key(Key::MetaLeft, 0xE05B), Key::MetaLeft);
    assert_eq!(m.map_control_key(ControlKey::Control), ControlKey::Control);
    assert_eq!(m.map_state(true, true, true, true), (true, true, true, true));
}

#[test]
fn mac_positional_maps_keys() {
    let m = mac_positional();
    assert!(!m.is_identity());
    assert_eq!(m.map_key(Key::ControlLeft, 0x1D), Key::ControlLeft);
    assert_eq!(m.map_key(Key::MetaLeft, 0xE05B), Key::Alt);
    assert_eq!(m.map_key(Key::Alt, 0x38), Key::MetaLeft);
    assert_eq!(m.map_key(Key::ShiftLeft, 0x2A), Key::ShiftLeft);
}

#[test]
fn side_is_preserved() {
    let m = swap_ctrl_cmd();
    assert_eq!(m.map_key(Key::ControlLeft, 0x1D), Key::MetaLeft);
    assert_eq!(m.map_key(Key::ControlRight, 0xE01D), Key::MetaRight);
    assert_eq!(m.map_key(Key::MetaLeft, 0xE05B), Key::ControlLeft);
    assert_eq!(m.map_key(Key::MetaRight, 0xE05C), Key::ControlRight);
}

/// There is no right-hand Alt (AltGr occupies that slot and must never be
/// produced), so a right-hand source targeting Alt collapses to Key::Alt.
#[test]
fn right_side_targeting_alt_collapses_to_left_alt() {
    let mut m = ModifierMap::identity();
    m.set(Slot::Ctrl, Slot::Alt);
    assert_eq!(m.map_key(Key::ControlLeft, 0x1D), Key::Alt);
    assert_eq!(m.map_key(Key::ControlRight, 0xE01D), Key::Alt);
    assert_ne!(m.map_key(Key::ControlRight, 0xE01D), Key::AltGr);
}

#[test]
fn altgr_is_never_remapped() {
    let mut m = mac_positional();
    m.set(Slot::Ctrl, Slot::Meta);
    // The physical right Alt.
    assert_eq!(m.map_key(Key::AltGr, 0xE038), Key::AltGr);
    // The synthetic ControlLeft Windows injects ahead of AltGr: extended
    // scancode prefix 0xE0 on a key reported as ControlLeft.
    assert_eq!(m.map_key(Key::ControlLeft, 0xE01D), Key::ControlLeft);
    // A genuine left Control has no 0xE0 prefix and IS remapped.
    assert_eq!(m.map_key(Key::ControlLeft, 0x001D), Key::MetaLeft);
}

#[test]
fn non_modifier_keys_pass_through() {
    let m = mac_positional();
    assert_eq!(m.map_key(KEY_A, 0x1E), KEY_A);
    assert_eq!(m.map_key(KEY_TAB, 0x0F), KEY_TAB);
}

#[test]
fn control_keys_map_with_side() {
    let m = mac_positional();
    assert_eq!(m.map_control_key(ControlKey::Meta), ControlKey::Alt);
    assert_eq!(m.map_control_key(ControlKey::RWin), ControlKey::Alt);
    assert_eq!(m.map_control_key(ControlKey::Alt), ControlKey::Meta);
    assert_eq!(m.map_control_key(ControlKey::Control), ControlKey::Control);
    assert_eq!(m.map_control_key(ControlKey::Shift), ControlKey::Shift);
    // RAlt is AltGr.
    assert_eq!(m.map_control_key(ControlKey::RAlt), ControlKey::RAlt);
    // Anything that is not a modifier is untouched.
    assert_eq!(m.map_control_key(CONTROL_RETURN), CONTROL_RETURN);
}

#[test]
fn control_key_side_preserved_on_swap() {
    let m = swap_ctrl_cmd();
    assert_eq!(m.map_control_key(ControlKey::Control), ControlKey::Meta);
    assert_eq!(m.map_control_key(ControlKey::RControl), ControlKey::RWin);
    assert_eq!(m.map_control_key(ControlKey::Meta), ControlKey::Control);
    assert_eq!(m.map_control_key(ControlKey::RWin), ControlKey::RControl);
}

/// Argument and return order is (alt, ctrl, shift, command).
#[test]
fn held_modifier_state_is_remapped() {
    let m = mac_positional();
    // Holding local Alt must report `command`, not `alt`.
    assert_eq!(m.map_state(true, false, false, false), (false, false, false, true));
    // Holding local Win/Meta must report `alt`.
    assert_eq!(m.map_state(false, false, false, true), (true, false, false, false));
    // Ctrl maps to itself.
    assert_eq!(m.map_state(false, true, false, false), (false, true, false, false));
    // Shift is untouched.
    assert_eq!(m.map_state(false, false, true, false), (false, false, true, false));
}

/// Two sources may legitimately share one target; the result is a union.
#[test]
fn held_state_unions_colliding_targets() {
    let mut m = ModifierMap::identity();
    m.set(Slot::Ctrl, Slot::Meta);
    m.set(Slot::Meta, Slot::Meta);
    assert_eq!(m.map_state(false, true, false, false), (false, false, false, true));
    assert_eq!(m.map_state(false, false, false, true), (false, false, false, true));
    assert_eq!(m.map_state(false, true, false, true), (false, false, false, true));
}

#[test]
fn swap_preset_matches_the_retired_checkbox() {
    let m = swap_ctrl_cmd_map();
    assert_eq!(m.map_key(Key::ControlLeft, 0x1D), Key::MetaLeft);
    assert_eq!(m.map_key(Key::MetaLeft, 0xE05B), Key::ControlLeft);
    assert_eq!(m.map_key(Key::Alt, 0x38), Key::Alt);
    assert_eq!(m.map_control_key(ControlKey::RControl), ControlKey::RWin);
}

#[test]
fn slot_names_round_trip() {
    for s in [Slot::Ctrl, Slot::Meta, Slot::Alt, Slot::Shift] {
        assert_eq!(Slot::from_name(s.name()), Some(s));
    }
    assert_eq!(Slot::Ctrl.name(), "ctrl");
    assert_eq!(Slot::Shift.name(), "shift");
    assert_eq!(Slot::from_name("Ctrl"), None);
    assert_eq!(Slot::from_name(""), None);
    assert_eq!(Slot::from_name("banana"), None);
}

#[test]
fn default_map_is_identity() {
    assert!(ModifierMap::default().is_identity());
    assert_eq!(ModifierMap::default(), ModifierMap::identity());
}

#[test]
fn setting_a_slot_back_restores_identity() {
    let mut m = swap_ctrl_cmd_map();
    m.set(Slot::Ctrl, Slot::Ctrl);
    assert!(!m.is_identity());
    m.set(Slot::Meta, Slot::Meta);
    assert!(m.is_identity());
}

#[test]
fn key_and_control_key_paths_agree() {
    let m = mac_positional();
    // Left Win/Meta becomes Alt on both paths; right Win collapses to Alt.
    assert_eq!(m.map_key(Key::MetaRight, 0xE05C), Key::Alt);
    assert_eq!(m.map_control_key(ControlKey::RWin), ControlKey::Alt);
    assert_eq!(m.map_key(Key::ShiftRight, 0x36), Key::ShiftRight);
    assert_eq!(m.map_control_key(ControlKey::RShift), ControlKey::RShift);
}

#[test]
fn full_rotation_of_all_four_slots() {
    let mut m = ModifierMap::identity();
    m.set(Slot::Ctrl, Slot::Meta);
    m.set(Slot::Meta, Slot::Alt);
    m.set(Slot::Alt, Slot::Shift);
    m.set(Slot::Shift, Slot::Ctrl);
    assert_eq!(m.map_key(Key::ShiftRight, 0x36), Key::ControlRight);
    assert_eq!(m.map_key(Key::Alt, 0x38), Key::ShiftLeft);
    assert_eq!(m.map_state(true, true, true, true), (true, true, true, true));
    assert_eq!(m.map_state(false, false, true, false), (false, true, false, false));
}
