use arcanaeum::app_state::{convert_plugins_to_skui, edition_key, load_savegame_file, AppState,
    UIValueType};
use arcanaeum::decode::decode_save;
use arcanaeum::error::DecodeError;
use arcanaeum::installed::{build_installed_set, InstalledSet};
use arcanaeum::inventory::{build_mod_inventory, ModEntry, ModInventory};
use arcanaeum::resolve::{resolve, PluginStatus};
use arcanaeum::save::{Generation, PluginManifest};

fn b(s: &str) -> Vec<u8> {
    s.as_bytes().to_vec()
}

fn manifest(plugins: &[&str], lights: &[&str]) -> PluginManifest {
    PluginManifest {
        plugins: plugins.iter().map(|s| b(s)).collect(),
        light_plugins: lights.iter().map(|s| b(s)).collect(),
    }
}

fn mod_entry(identity: &str, plugins: &[&str]) -> ModEntry {
    ModEntry { identity: b(identity), plugins: plugins.iter().map(|s| b(s)).collect() }
}

#[test]
fn resolution_statuses_follow_membership() {
    let mut installed = InstalledSet::new();
    installed.insert(b("a.esp"));
    let mut inventory = ModInventory::new();
    inventory.insert(b("b.esp"), b("modX"));
    let annotated = resolve(&manifest(&["a.esp", "b.esp", "c.esp"], &[]), &inventory, &installed);
    let statuses: Vec<PluginStatus> = annotated.iter().map(|a| a.status).collect();
    assert_eq!(
        statuses,
        vec![
            PluginStatus::InstalledUnknownMod,
            PluginStatus::MissingKnownMod,
            PluginStatus::MissingUnmanaged,
        ]
    );
    let names: Vec<Vec<u8>> = annotated.iter().map(|a| a.name.clone()).collect();
    assert_eq!(names, vec![b("a.esp"), b("b.esp"), b("c.esp")]);
}

#[test]
fn all_four_statuses_appear() {
    let mut installed = InstalledSet::new();
    installed.insert(b("known_on.esp"));
    installed.insert(b("unknown_on.esp"));
    let mut inventory = ModInventory::new();
    inventory.insert(b("known_on.esp"), b("modA"));
    inventory.insert(b("known_off.esp"), b("modB"));
    let m = manifest(&["known_on.esp", "unknown_on.esp", "known_off.esp", "stray.esp"], &[]);
    let annotated = resolve(&m, &inventory, &installed);
    let statuses: Vec<PluginStatus> = annotated.iter().map(|a| a.status).collect();
    assert_eq!(
        statuses,
        vec![
            PluginStatus::InstalledKnownMod,
            PluginStatus::InstalledUnknownMod,
            PluginStatus::MissingKnownMod,
            PluginStatus::MissingUnmanaged,
        ]
    );
}

#[test]
fn light_plugins_follow_standard_plugins_in_order() {
    let installed = InstalledSet::new();
    let inventory = ModInventory::new();
    let annotated = resolve(&manifest(&["a.esp", "b.esp"], &["x.esl", "y.esl"]), &inventory, &installed);
    let names: Vec<Vec<u8>> = annotated.iter().map(|a| a.name.clone()).collect();
    assert_eq!(names, vec![b("a.esp"), b("b.esp"), b("x.esl"), b("y.esl")]);
}

#[test]
fn matching_is_case_insensitive() {
    let mut installed = InstalledSet::new();
    installed.insert(b("Update.esm"));
    let mut inventory = ModInventory::new();
    inventory.insert(b("UPDATE.ESM"), b("modX"));
    assert!(installed.contains(&b("update.esm")));
    assert!(installed.contains(&b("UPDATE.ESM")));
    assert_eq!(inventory.lookup(&b("update.esm")), Some(&b("modX")));
    assert_eq!(inventory.lookup(&b("Update.esm")), Some(&b("modX")));
    let one = resolve(&manifest(&["Update.esm"], &[]), &inventory, &installed);
    let other = resolve(&manifest(&["update.esm"], &[]), &inventory, &installed);
    assert_eq!(one[0].status, PluginStatus::InstalledKnownMod);
    assert_eq!(other[0].status, one[0].status);
}

#[test]
fn empty_inventory_degrades_every_known_entry() {
    let mut installed = InstalledSet::new();
    installed.insert(b("a.esp"));
    let mut inventory = ModInventory::new();
    inventory.insert(b("a.esp"), b("modA"));
    inventory.insert(b("b.esp"), b("modB"));
    let m = manifest(&["a.esp", "b.esp"], &[]);
    let with = resolve(&m, &inventory, &installed);
    assert_eq!(with[0].status, PluginStatus::InstalledKnownMod);
    assert_eq!(with[1].status, PluginStatus::MissingKnownMod);
    let empty = build_mod_inventory(&Vec::new());
    assert_eq!(empty.claim_count(), 0);
    let without = resolve(&m, &empty, &installed);
    assert_eq!(without[0].status, PluginStatus::InstalledUnknownMod);
    assert_eq!(without[1].status, PluginStatus::MissingUnmanaged);
}

#[test]
fn later_enumerated_mod_wins_a_conflict() {
    let mods = vec![
        mod_entry("First Mod", &["shared.esp", "only_first.esp"]),
        mod_entry("Second Mod", &["Shared.esp"]),
    ];
    let inventory = build_mod_inventory(&mods);
    assert_eq!(inventory.lookup(&b("shared.esp")), Some(&b("Second Mod")));
    assert_eq!(inventory.lookup(&b("only_first.esp")), Some(&b("First Mod")));
    assert_eq!(inventory.lookup(&b("absent.esp")), None);
}

#[test]
fn installed_set_parses_the_load_order_source() {
    let source = b("Update.esm\r\nDawnguard.esm\n\nHearthFires.esm");
    let set = build_installed_set(&source);
    assert_eq!(set.name_count(), 3);
    assert!(set.contains(&b("update.esm")));
    assert!(set.contains(&b("DAWNGUARD.ESM")));
    assert!(set.contains(&b("HearthFires.esm")));
    assert!(!set.contains(&b("Skyrim.esm")));
}

#[test]
fn missing_sources_yield_empty_collections() {
    let set = build_installed_set(&Vec::new());
    assert_eq!(set.name_count(), 0);
    assert!(!set.contains(&b("update.esm")));
    let inventory = build_mod_inventory(&Vec::new());
    assert_eq!(inventory.claim_count(), 0);
    assert_eq!(inventory.lookup(&b("update.esm")), None);
}

#[test]
fn convert_plugins_builds_one_row_per_name() {
    let rows = convert_plugins_to_skui(vec!["skyrim.esm".to_string(), "update.esm".to_string()]);
    assert_eq!(rows.len(), 2);
    assert_eq!(rows[0].name, "skyrim.esm");
    assert_eq!(rows[0].value, "skyrim.esm");
    assert_eq!(rows[0].value_type, UIValueType::Plugin);
    assert_eq!(rows[1].name, "update.esm");
}

fn fresh_state() -> AppState {
    AppState {
        file_path: "saves/quicksave.ess".to_string(),
        save_info: None,
        mod_map: ModInventory::new(),
        installed: InstalledSet::new(),
        error: None,
        plugins: None,
        folder_path: "saves".to_string(),
        save_file_list: vec!["saves/quicksave.ess".to_string()],
    }
}

fn save_buffer() -> Vec<u8> {
    let mut buf = b"TESV_SAVEGAME".to_vec();
    buf.extend_from_slice(&8u32.to_le_bytes());
    buf.extend_from_slice(&12u32.to_le_bytes());
    buf.extend_from_slice(&74u32.to_le_bytes());
    buf.push(1);
    buf.extend_from_slice(&10u16.to_le_bytes());
    buf.extend_from_slice(b"Skyrim.esm");
    buf.extend_from_slice(&0u16.to_le_bytes());
    buf
}

#[test]
fn successful_load_replaces_the_session_atomically() {
    let mut inventory = ModInventory::new();
    inventory.insert(b("skyrim.esm"), b("Base Game"));
    let mut installed = InstalledSet::new();
    installed.insert(b("skyrim.esm"));
    let loaded = decode_save(&save_buffer());
    let state = load_savegame_file(fresh_state(), loaded, inventory, installed);
    assert!(state.error.is_none());
    let info = state.save_info.expect("save info kept");
    assert_eq!(info.header.generation, Generation::SpecialEdition);
    let rows = state.plugins.expect("display rows built");
    assert_eq!(rows.len(), 1);
    assert_eq!(rows[0].name, "skyrim.esm");
    assert_eq!(rows[0].value, "skyrim.esm");
    assert!(state.mod_map.contains(&b("skyrim.esm")));
    assert!(state.installed.contains(&b("skyrim.esm")));
    assert_eq!(state.file_path, "saves/quicksave.ess");
}

#[test]
fn failed_load_sets_the_error_and_keeps_the_previous_save() {
    let mut inventory = ModInventory::new();
    inventory.insert(b("skyrim.esm"), b("Base Game"));
    let loaded = decode_save(&save_buffer());
    let prev = load_savegame_file(fresh_state(), loaded, inventory, InstalledSet::new());
    let prev_info = prev.save_info.clone().expect("first load succeeds");

    let failed = decode_save(&b"not a save".to_vec());
    let state = load_savegame_file(prev, failed, ModInventory::new(), InstalledSet::new());
    assert_eq!(state.error, Some(DecodeError::NotASaveFile));
    assert_eq!(state.save_info, Some(prev_info));
    let rows = state.plugins.expect("previous rows still displayed");
    assert_eq!(rows.len(), 1);
    assert_eq!(rows[0].name, "skyrim.esm");
    assert!(state.mod_map.contains(&b("skyrim.esm")));
}

#[test]
fn edition_key_names_the_roots() {
    assert_eq!(edition_key(Generation::SpecialEdition), "skyrimse");
    assert_eq!(edition_key(Generation::LegacyEngine), "skyrim");
}

#[test]
fn app_state_has_its_display_name() {
    assert_eq!(fresh_state().name(), "Arcanaeum");
}
