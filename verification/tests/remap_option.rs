use rustdesk::modifier_remap::{swap_ctrl_cmd_map, ModifierMap, Slot};
use rustdesk::remap_option::{
    invalidate_cache, maps_of_tables, merge_into, migrated_option, migration_pending, parse_all, seed_targets,
    seeded_raw, should_seed, RemapCache,
};

fn mac_positional() -> ModifierMap {
    let mut m = ModifierMap::identity();
    m.set(Slot::Ctrl, Slot::Ctrl);
    m.set(Slot::Meta, Slot::Alt);
    m.set(Slot::Alt, Slot::Meta);
    m
}

fn swap_ctrl_cmd() -> ModifierMap {
    let mut m = ModifierMap::identity();
    m.set(Slot::Ctrl, Slot::Meta);
    m.set(Slot::Meta, Slot::Ctrl);
    m
}

#[test]
fn parses_a_full_table() {
    let raw = r#"{"macos":{"ctrl":"ctrl","meta":"alt","alt":"meta","shift":"shift"}}"#;
    let all = parse_all(raw);
    assert_eq!(all.len(), 1);
    assert_eq!(*all.get("macos").unwrap(), mac_positional());
}

#[test]
fn parses_a_partial_table_as_identity_for_missing_slots() {
    let raw = r#"{"macos":{"meta":"alt","alt":"meta"}}"#;
    let all = parse_all(raw);
    assert_eq!(*all.get("macos").unwrap(), mac_positional());
}

#[test]
fn bad_input_falls_back_to_identity() {
    for raw in [
        "",
        "not json",
        "[]",
        "null",
        r#"{"macos": "nonsense"}"#,
        r#"{"macos": {"ctrl": "banana"}}"#,
        r#"{"macos": {"banana": "ctrl"}}"#,
        r#"{"macos": {"ctrl": 7}}"#,
    ] {
        let all = parse_all(raw);
        let m = all.get("macos").copied().unwrap_or_default();
        assert!(m.is_identity(), "expected identity for input {raw:?}");
    }
}

#[test]
fn os_keys_are_normalised_to_lowercase() {
    let raw = r#"{"MacOS":{"alt":"meta"}}"#;
    let all = parse_all(raw);
    assert!(all.contains_key("macos"));
}

#[test]
fn json_round_trips() {
    let m = mac_positional();
    let v = m.to_json_value();
    let raw = format!(r#"{{"macos":{}}}"#, v);
    assert_eq!(*parse_all(&raw).get("macos").unwrap(), m);
}

#[test]
fn merge_into_adds_updates_and_removes_entries() {
    let raw = merge_into("", "macos", mac_positional());
    assert_eq!(*parse_all(&raw).get("macos").unwrap(), mac_positional());

    // A second OS is added alongside, not replacing.
    let raw = merge_into(&raw, "windows", swap_ctrl_cmd());
    let all = parse_all(&raw);
    assert_eq!(all.len(), 2);
    assert_eq!(*all.get("macos").unwrap(), mac_positional());
    assert_eq!(*all.get("windows").unwrap(), swap_ctrl_cmd());

    // Writing identity removes that entry rather than storing a no-op table.
    let raw = merge_into(&raw, "macos", ModifierMap::identity());
    let all = parse_all(&raw);
    assert_eq!(all.len(), 1);
    assert!(!all.contains_key("macos"));

    // Removing the last entry collapses back to empty, not "{}".
    let raw = merge_into(&raw, "windows", ModifierMap::identity());
    assert!(raw.is_empty());
}

/// The old checkbox only ever appeared when exactly one side was macOS, so
/// which OS it applied to is fully determined by the local platform.
#[test]
fn seeding_writes_the_swap_for_the_opposite_platform() {
    for local_is_macos in [true, false] {
        let raw = seeded_raw("", local_is_macos);
        let all = parse_all(&raw);
        for os in seed_targets(local_is_macos) {
            assert_eq!(
                all.get(os).copied().unwrap_or_default(),
                swap_ctrl_cmd_map(),
                "expected the swap map seeded for {os}"
            );
        }
        if local_is_macos {
            assert!(!all.contains_key("macos"));
            assert_eq!(all.len(), 2);
        } else {
            assert!(!all.contains_key("windows"));
            assert_eq!(all.len(), 1);
        }
    }
}

#[test]
fn seeding_only_when_untouched_and_a_peer_had_the_flag() {
    assert!(should_seed("", true));
    // The user already configured something: never overwrite it.
    assert!(!should_seed(r#"{"macos":{"alt":"meta"}}"#, true));
    // Nobody had the old flag on: nothing to carry forward.
    assert!(!should_seed("", false));
    assert!(!should_seed(r#"{"macos":{"alt":"meta"}}"#, false));
}

#[test]
fn unknown_os_is_always_identity() {
    let mut cache = RemapCache::new();
    assert!(cache.load_for_peer("", "definitely-not-an-os").is_identity());
    assert!(cache.cached_for_peer("").unwrap().is_identity());
}

#[test]
fn write_then_read_round_trips_through_the_cache() {
    let mut stored = String::new();
    let mut cache = RemapCache::new();

    stored = merge_into(&stored, "macos", mac_positional());
    invalidate_cache(&mut cache);
    assert_eq!(cache.cached_for_peer("macos"), None);
    assert_eq!(cache.load_for_peer(&stored, "macos"), mac_positional());
    assert!(cache.cached_for_peer("windows").unwrap().is_identity());

    stored = merge_into(&stored, "macos", ModifierMap::identity());
    invalidate_cache(&mut cache);
    assert!(cache.load_for_peer(&stored, "macos").is_identity());
    assert!(stored.is_empty());
}

#[test]
fn migration_is_one_shot() {
    // Unset marker: the migration runs and seeds the swap for a peer that had it.
    assert!(migration_pending(""));
    let seeded = migrated_option("", true, false).unwrap();
    assert_eq!(*parse_all(&seeded).get("macos").unwrap(), swap_ctrl_cmd_map());
    // Once the marker is written it never runs again.
    assert!(!migration_pending("Y"));
    // A table the user has since edited is never overwritten.
    let edited = merge_into("", "macos", mac_positional());
    assert_eq!(migrated_option(&edited, true, false), None);
    assert_eq!(migrated_option("", false, true), None);
}

#[test]
fn cache_serves_the_loaded_maps_until_invalidated() {
    let mut cache = RemapCache::new();
    assert_eq!(cache.cached_for_peer("macos"), None);
    let raw = r#"{"macos":{"meta":"alt","alt":"meta"}}"#;
    assert_eq!(cache.load_for_peer(raw, "windows"), ModifierMap::identity());
    assert_eq!(cache.cached_for_peer("macos"), Some(mac_positional()));
    invalidate_cache(&mut cache);
    assert_eq!(cache.cached_for_peer("macos"), None);
}

#[test]
fn later_duplicate_os_names_win_after_lowercasing() {
    // serde_json hands out object keys in sorted order, so "MacOS" comes
    // before "macos" and the lowercase entry is applied last.
    let raw = r#"{"macos":{"alt":"meta"},"MacOS":{"ctrl":"shift"}}"#;
    let all = parse_all(raw);
    assert_eq!(all.len(), 1);
    let mut expected = ModifierMap::identity();
    expected.set(Slot::Alt, Slot::Meta);
    assert_eq!(*all.get("macos").unwrap(), expected);
}

#[test]
fn non_object_tables_are_skipped_but_others_kept() {
    let raw = r#"{"linux":[1,2],"windows":{"ctrl":"meta","meta":"ctrl","shift":null}}"#;
    let all = parse_all(raw);
    assert_eq!(all.len(), 1);
    assert!(!all.contains_key("linux"));
    assert_eq!(*all.get("windows").unwrap(), swap_ctrl_cmd());
}

#[test]
fn merge_keeps_unrelated_entries_and_replaces_the_target() {
    let raw = merge_into("", "linux", mac_positional());
    let raw = merge_into(&raw, "linux", swap_ctrl_cmd());
    let all = parse_all(&raw);
    assert_eq!(all.len(), 1);
    assert_eq!(*all.get("linux").unwrap(), swap_ctrl_cmd());
    // Seeding on top keeps the existing entry.
    let raw = seeded_raw(&raw, true);
    let all = parse_all(&raw);
    assert_eq!(all.len(), 2);
    assert_eq!(*all.get("windows").unwrap(), swap_ctrl_cmd_map());
}

#[test]
fn migrated_option_is_the_seeded_empty_option() {
    for local_is_macos in [false, true] {
        assert_eq!(
            migrated_option("", true, local_is_macos),
            Some(seeded_raw("", local_is_macos))
        );
    }
}

#[test]
fn merged_text_is_serde_json_with_sorted_keys() {
    let raw = merge_into("", "macos", mac_positional());
    assert_eq!(
        raw,
        r#"{"macos":{"alt":"meta","ctrl":"ctrl","meta":"alt","shift":"shift"}}"#
    );
    assert_eq!(merge_into("", "macos", mac_positional()), raw);
    let raw = merge_into(&raw, "linux", swap_ctrl_cmd());
    assert_eq!(
        raw,
        r#"{"linux":{"alt":"alt","ctrl":"meta","meta":"ctrl","shift":"shift"},"macos":{"alt":"meta","ctrl":"ctrl","meta":"alt","shift":"shift"}}"#
    );
}

#[test]
fn parsed_tables_become_lowercased_maps() {
    let root = vec![
        (
            "Linux".to_string(),
            Some(vec![
                ("ctrl".to_string(), Some("meta".to_string())),
                ("meta".to_string(), Some("ctrl".to_string())),
                ("shift".to_string(), None),
            ]),
        ),
        ("windows".to_string(), None),
    ];
    let all = maps_of_tables(&root);
    assert_eq!(all.len(), 1);
    assert_eq!(*all.get("linux").unwrap(), swap_ctrl_cmd());
    assert!(!all.contains_key("windows"));
}
