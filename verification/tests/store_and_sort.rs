//! Tests of the options store, path guards, string helpers, sorting and
//! registry lookups.

use rumm::config::{Config, SortType};
use rumm::errors::Error;
use rumm::options::{LocalModOptions, ModOptions};
use rumm::paths::{join, path_is_descendant};
use rumm::registry::{Mod, ModList, Version};
use rumm::text::{str_eq, str_le};

fn version(number: &str, full_name: &str, date: &str) -> Version {
    Version {
        date_created: date.to_string(),
        dependencies: vec![],
        description: String::new(),
        download_url: format!("https://example.invalid/{}.zip", number),
        downloads: 0,
        file_size: 0,
        full_name: full_name.to_string(),
        icon: String::new(),
        is_active: true,
        name: full_name.to_string(),
        uuid4: "00000000-0000-0000-0000-000000000000".to_string(),
        version_number: number.to_string(),
        website_url: String::new(),
    }
}

fn mod_record(uuid: &str, name: &str, versions: Vec<Version>) -> Mod {
    Mod {
        uuid: uuid.to_string(),
        name: name.to_string(),
        full_name: format!("Owner-{}", name),
        owner: "Owner".to_string(),
        package_url: String::new(),
        donation_link: None,
        date_created: "2024-01-01".to_string(),
        date_updated: "2024-01-02".to_string(),
        rating_score: 0,
        is_pinned: false,
        is_deprecated: false,
        has_nsfw_content: false,
        categories: vec![],
        versions,
    }
}

// Setting a version or lock for an id with no row succeeds and creates no
// row.
#[test]
fn setters_on_unknown_id_are_no_ops() {
    let mut store = LocalModOptions::new();
    let unknown = "id-unknown".to_string();
    let v = "1.2.3".to_string();
    store.set_mod_version(&unknown, &v).unwrap();
    store.set_version_lock(&unknown, true).unwrap();
    assert!(store.rows().is_empty());
    assert!(store.get_mod_options(unknown.clone()).is_none());
    assert_eq!(store.get_version_lock(&unknown), None);
}

// Enabling inserts a row selecting the most recent version; disabling
// keeps the row for a later re-enable.
#[test]
fn enable_then_disable_keeps_row() {
    let m = mod_record(
        "id-a",
        "ModA",
        vec![
            version("2.0.0", "Owner-ModA", "2024-02-01"),
            version("1.0.0", "Owner-ModA", "2024-01-01"),
        ],
    );
    let mut store = LocalModOptions::new();
    assert_eq!(store.is_mod_enabled(&m), Ok(false));
    store.enable_mod(&m).unwrap();
    assert_eq!(store.is_mod_enabled(&m), Ok(true));
    let row = store.get_mod_options("id-a".to_string()).unwrap();
    assert_eq!(row.version, "2.0.0");
    assert!(!row.version_lock);

    store.disable_mod(&m).unwrap();
    assert_eq!(store.is_mod_enabled(&m), Ok(false));
    let row = store.get_mod_options("id-a".to_string()).unwrap();
    assert_eq!(row.version, "2.0.0");

    store.set_mod_enabled(&m, true).unwrap();
    assert_eq!(store.is_mod_enabled(&m), Ok(true));
}

#[test]
fn setters_on_existing_row_mutate_it() {
    let m = mod_record("id-a", "ModA", vec![version("1.0.0", "Owner-ModA", "2024-01-01")]);
    let mut store = LocalModOptions::new();
    store.enable_mod(&m).unwrap();
    let id = "id-a".to_string();
    let picked = "0.9.0".to_string();
    store.set_mod_version(&id, &picked).unwrap();
    store.set_version_lock(&id, true).unwrap();
    let row = store.get_mod_options(id.clone()).unwrap();
    assert_eq!(row.version, "0.9.0");
    assert!(row.version_lock);
    assert_eq!(store.get_version_lock(&id), Some(true));
}

#[test]
fn enabled_ids_lists_only_enabled_rows() {
    let a = mod_record("id-a", "ModA", vec![version("1.0.0", "Owner-ModA", "d")]);
    let b = mod_record("id-b", "ModB", vec![version("1.0.0", "Owner-ModB", "d")]);
    let mut store = LocalModOptions::new();
    store.enable_mod(&a).unwrap();
    store.enable_mod(&b).unwrap();
    store.disable_mod(&a).unwrap();
    assert_eq!(store.get_enabled_mod_ids(), vec!["id-b".to_string()]);
}

#[test]
fn mutable_row_access_updates_in_place() {
    let m = mod_record("id-a", "ModA", vec![version("1.0.0", "Owner-ModA", "d")]);
    let mut store = LocalModOptions::new();
    store.enable_mod(&m).unwrap();
    if let Some(row) = store.get_mod_options_mut("id-a".to_string()) {
        row.enabled = false;
    }
    assert_eq!(store.is_mod_enabled(&m), Ok(false));
    assert!(store.get_mod_options_mut("id-unknown".to_string()).is_none());
}

// A tampered document with duplicate ids loads keeping the first row per
// id; a well-formed one loads unchanged.
#[test]
fn load_drops_duplicate_rows() {
    let rows = vec![
        ModOptions {
            id: "id-a".to_string(),
            version: "1.0.0".to_string(),
            version_lock: false,
            enabled: true,
        },
        ModOptions {
            id: "id-a".to_string(),
            version: "9.9.9".to_string(),
            version_lock: true,
            enabled: false,
        },
        ModOptions {
            id: "id-b".to_string(),
            version: "2.0.0".to_string(),
            version_lock: false,
            enabled: false,
        },
    ];
    let store = LocalModOptions::from_rows(&rows);
    assert_eq!(store.rows().len(), 2);
    assert_eq!(store.rows()[0].version, "1.0.0");
    assert_eq!(store.rows()[1].id, "id-b");
}

#[test]
fn default_config_paths() {
    let config = Config::new();
    assert_eq!(config.rumble_directory, "");
    assert_eq!(config.mod_cache_directory, "config/mod_cache");
    assert_eq!(config.config_file, "config/enabled_mods.json");
    assert!(config.should_auto_update);
    assert_eq!(config.thunderstore_browser_sort, SortType::UpdateDate);
}

#[test]
fn sort_labels_round_trip() {
    for metric in [SortType::Alphabetically, SortType::ReleaseDate, SortType::UpdateDate] {
        assert_eq!(SortType::parse(metric.as_str()), Ok(metric));
    }
}

#[test]
fn path_join_and_descendant_guard() {
    let joined = join("config/mod_cache", "id-a");
    assert_eq!(joined, "config/mod_cache/id-a");
    assert!(path_is_descendant(&joined, "config/mod_cache"));
    assert!(path_is_descendant("config/mod_cache", "config/mod_cache"));
    assert!(!path_is_descendant("config/mod_cachex/id", "config/mod_cache"));
    assert!(!path_is_descendant("config", "config/mod_cache"));
    assert!(!path_is_descendant("elsewhere/id-a", "config/mod_cache"));
}

#[test]
fn string_helpers_compare_exactly() {
    assert!(str_eq("same", "same"));
    assert!(!str_eq("same", "sane"));
    assert!(!str_eq("same", "sameish"));
    assert!(str_le("abc", "abd"));
    assert!(str_le("abc", "abc"));
    assert!(str_le("ab", "abc"));
    assert!(!str_le("abd", "abc"));
    assert!(!str_le("abc", "ab"));
}

#[test]
fn sort_alphabetically_orders_by_name() {
    let list = ModList {
        mods: vec![
            mod_record("id-c", "Cherry", vec![version("1", "Owner-Cherry", "2024-03-01")]),
            mod_record("id-a", "Apple", vec![version("1", "Owner-Apple", "2024-01-01")]),
            mod_record("id-b", "Banana", vec![version("1", "Owner-Banana", "2024-02-01")]),
        ],
    };
    let sorted = list.sort(&SortType::Alphabetically);
    let names: Vec<&str> = sorted.mods.iter().map(|m| m.name.as_str()).collect();
    assert_eq!(names, vec!["Apple", "Banana", "Cherry"]);
    // The original list is untouched.
    assert_eq!(list.mods[0].name, "Cherry");
}

#[test]
fn sort_by_update_date_puts_newest_first() {
    let mut list = ModList {
        mods: vec![
            mod_record("id-a", "Old", vec![version("1", "Owner-Old", "2024-01-05")]),
            mod_record("id-b", "New", vec![version("1", "Owner-New", "2024-03-05")]),
            mod_record("id-c", "Mid", vec![version("1", "Owner-Mid", "2024-02-05")]),
        ],
    };
    list.sort_self(&SortType::UpdateDate);
    let names: Vec<&str> = list.mods.iter().map(|m| m.name.as_str()).collect();
    assert_eq!(names, vec!["New", "Mid", "Old"]);
}

#[test]
fn sort_by_release_date_uses_oldest_version() {
    let list = ModList {
        mods: vec![
            mod_record(
                "id-a",
                "First",
                vec![
                    version("2", "Owner-First", "2024-04-01"),
                    version("1", "Owner-First", "2024-01-01"),
                ],
            ),
            mod_record(
                "id-b",
                "Second",
                vec![
                    version("2", "Owner-Second", "2024-04-02"),
                    version("1", "Owner-Second", "2024-02-01"),
                ],
            ),
        ],
    };
    let sorted = list.sort(&SortType::ReleaseDate);
    let names: Vec<&str> = sorted.mods.iter().map(|m| m.name.as_str()).collect();
    assert_eq!(names, vec!["Second", "First"]);
}

#[test]
fn registry_lookups_find_records() {
    let a = mod_record("id-a", "ModA", vec![version("1.0.0", "Owner-ModA", "d")]);
    let b = mod_record(
        "id-b",
        "ModB",
        vec![version("2.0.0", "Owner-ModB", "d"), version("1.0.0", "Owner-ModB", "d")],
    );
    let list = ModList { mods: vec![a, b] };
    let cache = rumm::mod_cache::ModCache::new(&list, rumm::fs_model::CacheDir::absent());

    let b_id = "id-b".to_string();
    assert_eq!(cache.resolve_mod_version(&b_id, None).unwrap(), "2.0.0");
    let wanted = "1.0.0".to_string();
    assert_eq!(cache.resolve_mod_version(&b_id, Some(&wanted)).unwrap(), "1.0.0");
    let missing = "7.7.7".to_string();
    assert!(cache.resolve_mod_version(&b_id, Some(&missing)).is_err());

    let owner_name = "Owner-ModB".to_string();
    let found = cache.get_mod_from_full_mod_name(&owner_name).unwrap();
    assert_eq!(found.uuid, "id-b");

    let record = mod_record(
        "id-b",
        "ModB",
        vec![version("2.0.0", "Owner-ModB", "d"), version("1.0.0", "Owner-ModB", "d")],
    );
    assert_eq!(cache.does_mod_have_version(&record, &wanted), Some(true));
    assert_eq!(cache.does_mod_have_version(&record, &missing), Some(false));
}

#[test]
fn dependencies_resolve_to_registry_records() {
    let a = mod_record("id-a", "ModA", vec![version("1.0.0", "Owner-ModA", "d")]);
    let mut dep_version = version("1.0.0", "Owner-ModB", "d");
    dep_version.dependencies = vec!["Owner-ModA".to_string()];
    let b = mod_record("id-b", "ModB", vec![dep_version]);
    let list = ModList { mods: vec![a, b.duplicate()] };
    let cache = rumm::mod_cache::ModCache::new(&list, rumm::fs_model::CacheDir::absent());

    let deps = cache.get_mod_dependencies(&b, None).unwrap();
    assert_eq!(deps.len(), 1);
    assert_eq!(deps[0].uuid, "id-a");
}

#[test]
fn refreshing_a_record_reports_changes() {
    let mut m = mod_record("id-a", "ModA", vec![version("1.0.0", "Owner-ModA", "d")]);
    let same = vec![version("1.0.0", "Owner-ModA", "d")];
    assert!(!m.update(same));
    let newer = vec![version("2.0.0", "Owner-ModA", "d"), version("1.0.0", "Owner-ModA", "d")];
    assert!(m.update(newer));
    assert_eq!(m.versions.len(), 2);
    assert_eq!(m.versions[0].version_number, "2.0.0");
}

#[test]
fn error_descriptions_are_nonempty() {
    for e in [
        Error::NotFound,
        Error::NetworkFailure,
        Error::ArchiveError,
        Error::FilesystemError,
        Error::StateInconsistency,
        Error::ConfigError,
    ] {
        assert!(!e.describe().is_empty());
    }
}

#[test]
fn steam_discovery_helpers() {
    assert_eq!(
        Config::get_rumble_directory("/home/player/.steam/steam"),
        "/home/player/.steam/steam/steamapps/common/RUMBLE"
    );
    let candidates = Config::steam_path_candidates("/home/player");
    assert_eq!(candidates.len(), 7);
    assert_eq!(candidates[0], "/home/player/.steam/steam");
    assert_eq!(candidates[4], "/usr/lib/steam");
    assert_eq!(
        Config::find_steam_path_windows(Some("C:/Steam".to_string()), true),
        Some("C:/Steam".to_string())
    );
    assert_eq!(Config::find_steam_path_windows(Some("C:/Steam".to_string()), false), None);
    assert_eq!(Config::find_steam_path_windows(None, true), None);
}
