//! End-to-end tests of the mod cache engine: caching with dependencies,
//! the pruned view, removal, updating, and synchronisation.

use rumm::commands::{apply_command, Command};
use rumm::config::SortType;
use rumm::errors::Error;
use rumm::fs_model::{CacheDir, CacheEntryDir, FileEntry, VersionDir};
use rumm::mod_cache::ModCache;
use rumm::options::LocalModOptions;
use rumm::registry::{Mod, ModList, Version};
use rumm::resolver::{FetchedPackage, PackagePayload, PlanItem};

fn version(number: &str, full_name: &str, deps: &[&str]) -> Version {
    Version {
        date_created: format!("2024-01-{:02}T00:00:00Z", (number.len() % 27) + 1),
        dependencies: deps.iter().map(|d| d.to_string()).collect(),
        description: "a mod version".to_string(),
        download_url: format!("https://example.invalid/{}/{}.zip", full_name, number),
        downloads: 7,
        file_size: 1024,
        full_name: full_name.to_string(),
        icon: "icon.png".to_string(),
        is_active: true,
        name: full_name.to_string(),
        uuid4: "00000000-0000-0000-0000-000000000000".to_string(),
        version_number: number.to_string(),
        website_url: String::new(),
    }
}

fn mod_record(uuid: &str, name: &str, versions: Vec<Version>) -> Mod {
    Mod {
        uuid: uuid.to_string(),
        name: name.to_string(),
        full_name: format!("Owner-{}", name),
        owner: "Owner".to_string(),
        package_url: format!("https://example.invalid/{}", name),
        donation_link: None,
        date_created: "2024-01-01T00:00:00Z".to_string(),
        date_updated: "2024-02-01T00:00:00Z".to_string(),
        rating_score: 5,
        is_pinned: false,
        is_deprecated: false,
        has_nsfw_content: false,
        categories: vec!["gameplay".to_string()],
        versions,
    }
}

fn file(name: &str, data: &[u8]) -> FileEntry {
    FileEntry { name: name.to_string(), data: data.to_vec() }
}

fn version_dir(
    number: &str,
    mod_files: Vec<FileEntry>,
    user_files: Vec<FileEntry>,
) -> VersionDir {
    VersionDir { version_number: number.to_string(), mod_files, user_files }
}

fn entry(mod_id: &str, info: Option<Mod>, versions: Vec<VersionDir>) -> CacheEntryDir {
    CacheEntryDir { mod_id: mod_id.to_string(), mod_info: info, versions }
}

fn payload_for(items: &[PlanItem]) -> Vec<FetchedPackage> {
    items
        .iter()
        .map(|it| FetchedPackage {
            mod_id: it.mod_id.clone(),
            version: it.version.clone(),
            result: Ok(PackagePayload {
                mod_files: vec![file("plugin.dll", b"code")],
                user_files: vec![file("settings.json", b"{}")],
            }),
        })
        .collect()
}

fn entry_has_version(cache: &ModCache, id: &str, number: &str) -> bool {
    cache
        .disk
        .entries
        .iter()
        .find(|e| e.mod_id == id)
        .map(|e| e.versions.iter().any(|d| d.version_number == number))
        .unwrap_or(false)
}

// Scenario: registry has ModA (no dependencies) and ModB depending on
// ModA's full name; caching B pulls A in and enables both.
#[test]
fn cache_mod_with_dependency() {
    let a = mod_record("id-a", "ModA", vec![version("1.0.0", "Owner-ModA", &[])]);
    let b = mod_record(
        "id-b",
        "ModB",
        vec![version("1.0.0", "Owner-ModB", &["Owner-ModA"])],
    );
    let list = ModList { mods: vec![a, b] };
    let mut cache = ModCache::new(&list, CacheDir::absent());
    let mut options = LocalModOptions::new();

    let b_id = "id-b".to_string();
    let v1 = "1.0.0".to_string();
    let plan = cache.plan_cache(&b_id, Some(&v1)).unwrap();
    assert_eq!(plan.len(), 2);
    assert_eq!(plan[0].mod_id, "id-b");
    assert_eq!(plan[1].mod_id, "id-a");

    let fetched = payload_for(&cache.pending_fetches(&plan));
    let root = cache
        .cache_mod_by_mod_id(&mut options, &b_id, Some(&v1), &fetched)
        .unwrap();
    assert_eq!(root.name, "ModB");

    assert!(entry_has_version(&cache, "id-a", "1.0.0"));
    assert!(entry_has_version(&cache, "id-b", "1.0.0"));
    assert!(options.get_mod_options("id-a".to_string()).unwrap().enabled);
    assert!(options.get_mod_options("id-b".to_string()).unwrap().enabled);
    assert_eq!(cache.cache_mod_list.len(), 2);
}

// Scenario: an absent cache root is created and reported as an empty
// cache, not as an error.
#[test]
fn refresh_creates_absent_root() {
    let list = ModList { mods: vec![] };
    let mut cache = ModCache::new(&list, CacheDir::absent());
    let errors = cache.update_self_from_cache().unwrap();
    assert!(cache.disk.present);
    assert!(errors.is_empty());
    assert!(cache.cache_mod_list.is_empty());
}

// Scenario: removing the only cached version leaves the pruned view empty
// while the registry record keeps declaring the version.
#[test]
fn remove_only_version_empties_pruned_view() {
    let m = mod_record("id-a", "ModA", vec![version("v1", "Owner-ModA", &[])]);
    let list = ModList { mods: vec![m.duplicate()] };
    let disk = CacheDir {
        present: true,
        entries: vec![entry(
            "id-a",
            Some(m.duplicate()),
            vec![version_dir("v1", vec![file("a.dll", b"a")], vec![])],
        )],
    };
    let mut cache = ModCache::new(&list, disk);

    let doomed = version("v1", "Owner-ModA", &[]);
    cache.remove_version_from_cache(&m, doomed).unwrap();

    let pruned = cache.prune_extra_versions_from_mod(&m).unwrap();
    assert_eq!(pruned.versions.len(), 0);
    assert_eq!(m.versions.len(), 1);
    assert_eq!(list.mods[0].versions.len(), 1);
}

// Caching the same version twice leaves one version directory and asks for
// no second download.
#[test]
fn materialize_twice_is_idempotent() {
    let a = mod_record("id-a", "ModA", vec![version("1.0.0", "Owner-ModA", &[])]);
    let list = ModList { mods: vec![a] };
    let mut cache = ModCache::new(&list, CacheDir::absent());
    let mut options = LocalModOptions::new();

    let a_id = "id-a".to_string();
    let plan = cache.plan_cache(&a_id, None).unwrap();
    let fetched = payload_for(&cache.pending_fetches(&plan));
    cache.cache_mod_by_mod_id(&mut options, &a_id, None, &fetched).unwrap();

    let second_plan = cache.plan_cache(&a_id, None).unwrap();
    assert!(cache.pending_fetches(&second_plan).is_empty());
    // No downloads handed over: succeeds because everything is cached.
    cache.cache_mod_by_mod_id(&mut options, &a_id, None, &vec![]).unwrap();

    let dirs = &cache.disk.entries.iter().find(|e| e.mod_id == "id-a").unwrap().versions;
    assert_eq!(dirs.len(), 1);
    assert_eq!(dirs[0].version_number, "1.0.0");
}

// The pruned view is exactly the declared versions whose subdirectories
// exist on disk.
#[test]
fn pruned_view_is_declared_intersect_disk() {
    let m = mod_record(
        "id-a",
        "ModA",
        vec![version("v2", "Owner-ModA", &[]), version("v1", "Owner-ModA", &[])],
    );
    let disk = CacheDir {
        present: true,
        entries: vec![entry(
            "id-a",
            Some(m.duplicate()),
            vec![
                version_dir("v1", vec![], vec![]),
                version_dir("v9", vec![], vec![]),
            ],
        )],
    };
    let list = ModList { mods: vec![m.duplicate()] };
    let cache = ModCache::new(&list, disk);

    let pruned = cache.prune_extra_versions_from_mod(&m).unwrap();
    assert_eq!(pruned.versions.len(), 1);
    assert_eq!(pruned.versions[0].version_number, "v1");
    assert_eq!(pruned.name, "ModA");
}

// A locked mod is not updated: selected version and cache stay unchanged.
#[test]
fn update_respects_version_lock() {
    let m = mod_record(
        "id-a",
        "ModA",
        vec![version("2.0.0", "Owner-ModA", &[]), version("1.0.0", "Owner-ModA", &[])],
    );
    let disk = CacheDir {
        present: true,
        entries: vec![entry(
            "id-a",
            Some(m.duplicate()),
            vec![version_dir("1.0.0", vec![], vec![])],
        )],
    };
    let list = ModList { mods: vec![m.duplicate()] };
    let mut cache = ModCache::new(&list, disk);
    let mut options = LocalModOptions::new();
    let a_id = "id-a".to_string();
    let old_version = "1.0.0".to_string();
    options.enable_mod_at_version(&a_id, &old_version);
    options.set_version_lock(&a_id, true).unwrap();

    cache.update_mod(&mut options, &m, &vec![]).unwrap();

    assert_eq!(options.get_mod_options(a_id.clone()).unwrap().version, "1.0.0");
    assert!(!entry_has_version(&cache, "id-a", "2.0.0"));
    assert!(entry_has_version(&cache, "id-a", "1.0.0"));
}

// An unlocked mod is brought to the most recent version and its selection
// is updated.
#[test]
fn update_unlocked_mod_fetches_latest() {
    let m = mod_record(
        "id-a",
        "ModA",
        vec![version("2.0.0", "Owner-ModA", &[]), version("1.0.0", "Owner-ModA", &[])],
    );
    let disk = CacheDir {
        present: true,
        entries: vec![entry(
            "id-a",
            Some(m.duplicate()),
            vec![version_dir("1.0.0", vec![], vec![])],
        )],
    };
    let list = ModList { mods: vec![m.duplicate()] };
    let mut cache = ModCache::new(&list, disk);
    let mut options = LocalModOptions::new();
    let a_id = "id-a".to_string();
    let old_version = "1.0.0".to_string();
    options.enable_mod_at_version(&a_id, &old_version);

    let plan = cache.plan_cache(&a_id, None).unwrap();
    let fetched = payload_for(&cache.pending_fetches(&plan));
    cache.update_mod(&mut options, &m, &fetched).unwrap();

    assert_eq!(options.get_mod_options(a_id.clone()).unwrap().version, "2.0.0");
    assert!(entry_has_version(&cache, "id-a", "2.0.0"));
    assert!(entry_has_version(&cache, "id-a", "1.0.0"));
}

// update_all walks the cached-mod list in order.
#[test]
fn update_all_mods_updates_each() {
    let a = mod_record("id-a", "ModA", vec![version("2.0.0", "Owner-ModA", &[])]);
    let b = mod_record("id-b", "ModB", vec![version("3.0.0", "Owner-ModB", &[])]);
    let disk = CacheDir {
        present: true,
        entries: vec![
            entry("id-a", Some(a.duplicate()), vec![version_dir("1.0.0", vec![], vec![])]),
            entry("id-b", Some(b.duplicate()), vec![version_dir("1.0.0", vec![], vec![])]),
        ],
    };
    let list = ModList { mods: vec![a.duplicate(), b.duplicate()] };
    let mut cache = ModCache::new(&list, disk);
    let mut options = LocalModOptions::new();
    options.enable_mod_at_version(&"id-a".to_string(), &"1.0.0".to_string());
    options.enable_mod_at_version(&"id-b".to_string(), &"1.0.0".to_string());

    let plan_a = cache.plan_cache(&"id-a".to_string(), None).unwrap();
    let plan_b = cache.plan_cache(&"id-b".to_string(), None).unwrap();
    let mut fetched = payload_for(&cache.pending_fetches(&plan_a));
    fetched.extend(payload_for(&cache.pending_fetches(&plan_b)));

    cache.update_all_mods(&mut options, &fetched).unwrap();

    assert!(entry_has_version(&cache, "id-a", "2.0.0"));
    assert!(entry_has_version(&cache, "id-b", "3.0.0"));
    assert_eq!(options.get_mod_options("id-a".to_string()).unwrap().version, "2.0.0");
    assert_eq!(options.get_mod_options("id-b".to_string()).unwrap().version, "3.0.0");
}

// Mod files always overwrite; user data never clobbers an existing file.
#[test]
fn push_overwrites_mods_but_not_user_data() {
    let m = mod_record("id-a", "ModA", vec![version("v1", "Owner-ModA", &[])]);
    let disk = CacheDir {
        present: true,
        entries: vec![entry(
            "id-a",
            Some(m.duplicate()),
            vec![version_dir(
                "v1",
                vec![file("plugin.dll", b"new-code"), file("extra.dll", b"extra")],
                vec![file("save.json", b"fresh"), file("readme.txt", b"hello")],
            )],
        )],
    };
    let list = ModList { mods: vec![m.duplicate()] };
    let cache = ModCache::new(&list, disk);
    let mut options = LocalModOptions::new();
    options.enable_mod_at_version(&"id-a".to_string(), &"v1".to_string());

    let mut rumble_mods = vec![file("plugin.dll", b"old-code")];
    let mut rumble_user = vec![file("save.json", b"precious")];
    cache
        .push_mod_to_rumble(&options, &m, &mut rumble_mods, &mut rumble_user)
        .unwrap();

    assert_eq!(rumble_mods.len(), 2);
    assert_eq!(rumble_mods[0].name, "plugin.dll");
    assert_eq!(rumble_mods[0].data, b"new-code".to_vec());
    assert_eq!(rumble_mods[1].name, "extra.dll");

    assert_eq!(rumble_user.len(), 2);
    assert_eq!(rumble_user[0].name, "save.json");
    assert_eq!(rumble_user[0].data, b"precious".to_vec());
    assert_eq!(rumble_user[1].name, "readme.txt");
    assert_eq!(rumble_user[1].data, b"hello".to_vec());
}

// The by-id variant pushes a resolved version with the same rules.
#[test]
fn add_mod_to_rumble_by_id_pushes_payload() {
    let m = mod_record("id-a", "ModA", vec![version("v1", "Owner-ModA", &[])]);
    let disk = CacheDir {
        present: true,
        entries: vec![entry(
            "id-a",
            Some(m.duplicate()),
            vec![version_dir("v1", vec![file("plugin.dll", b"code")], vec![])],
        )],
    };
    let list = ModList { mods: vec![m.duplicate()] };
    let cache = ModCache::new(&list, disk);

    let mut rumble_mods = vec![];
    let mut rumble_user = vec![];
    let record = cache
        .add_mod_to_rumble_by_id(&"id-a".to_string(), None, &mut rumble_mods, &mut rumble_user)
        .unwrap();
    assert_eq!(record.name, "ModA");
    assert_eq!(rumble_mods.len(), 1);
    assert_eq!(rumble_mods[0].data, b"code".to_vec());
    assert!(rumble_user.is_empty());
}

// Error cases, one per taxonomy entry that the engine itself produces.
#[test]
fn unknown_mod_is_not_found() {
    let list = ModList { mods: vec![] };
    let cache = ModCache::new(&list, CacheDir::absent());
    let unknown_id = "id-ghost".to_string();
    assert_eq!(cache.resolve_mod_version(&unknown_id, None), Err(Error::NotFound));
    let m = mod_record("id-ghost", "Ghost", vec![]);
    assert_eq!(cache.prune_extra_versions_from_mod(&m).unwrap_err(), Error::NotFound);
}

#[test]
fn missing_download_is_network_failure() {
    let a = mod_record("id-a", "ModA", vec![version("1.0.0", "Owner-ModA", &[])]);
    let list = ModList { mods: vec![a] };
    let mut cache = ModCache::new(&list, CacheDir::absent());
    let mut options = LocalModOptions::new();
    let a_id = "id-a".to_string();
    let err = cache
        .cache_mod_by_mod_id(&mut options, &a_id, None, &vec![])
        .unwrap_err();
    assert_eq!(err, Error::NetworkFailure);
}

#[test]
fn corrupt_archive_aborts_with_archive_error() {
    let a = mod_record("id-a", "ModA", vec![version("1.0.0", "Owner-ModA", &[])]);
    let list = ModList { mods: vec![a] };
    let mut cache = ModCache::new(&list, CacheDir::absent());
    let mut options = LocalModOptions::new();
    let a_id = "id-a".to_string();
    let fetched = vec![FetchedPackage {
        mod_id: "id-a".to_string(),
        version: "1.0.0".to_string(),
        result: Err(Error::ArchiveError),
    }];
    let err = cache
        .cache_mod_by_mod_id(&mut options, &a_id, None, &fetched)
        .unwrap_err();
    assert_eq!(err, Error::ArchiveError);
}

#[test]
fn unreadable_snapshot_is_soft_filesystem_error() {
    let readable = mod_record("id-a", "ModA", vec![version("v1", "Owner-ModA", &[])]);
    let disk = CacheDir {
        present: true,
        entries: vec![
            entry("id-a", Some(readable.duplicate()), vec![]),
            entry("id-broken", None, vec![]),
        ],
    };
    let list = ModList { mods: vec![readable] };
    let mut cache = ModCache::new(&list, disk);
    let errors = cache.update_self_from_cache().unwrap();
    assert_eq!(errors, vec![Error::FilesystemError]);
    // The scan continued past the broken entry.
    assert_eq!(cache.cache_mod_list.len(), 1);
    assert_eq!(cache.cache_mod_list[0].name, "ModA");
}

#[test]
fn push_with_uncached_selection_is_state_inconsistency() {
    let m = mod_record("id-a", "ModA", vec![version("v1", "Owner-ModA", &[])]);
    let disk = CacheDir {
        present: true,
        entries: vec![entry("id-a", Some(m.duplicate()), vec![])],
    };
    let list = ModList { mods: vec![m.duplicate()] };
    let cache = ModCache::new(&list, disk);
    let mut options = LocalModOptions::new();
    options.enable_mod_at_version(&"id-a".to_string(), &"v1".to_string());

    let mut rumble_mods = vec![];
    let mut rumble_user = vec![];
    let err = cache
        .push_mod_to_rumble(&options, &m, &mut rumble_mods, &mut rumble_user)
        .unwrap_err();
    assert_eq!(err, Error::StateInconsistency);
    assert!(rumble_mods.is_empty() && rumble_user.is_empty());
}

#[test]
fn malformed_sort_label_is_config_error() {
    assert_eq!(SortType::parse("Alphabetical"), Ok(SortType::Alphabetically));
    assert_eq!(SortType::parse("Last Released"), Ok(SortType::ReleaseDate));
    assert_eq!(SortType::parse("Last Updated"), Ok(SortType::UpdateDate));
    assert_eq!(SortType::parse("bogus"), Err(Error::ConfigError));
}

// A dependency name missing from the registry fails the whole plan.
#[test]
fn missing_dependency_fails_plan() {
    let b = mod_record(
        "id-b",
        "ModB",
        vec![version("1.0.0", "Owner-ModB", &["Owner-Nowhere"])],
    );
    let list = ModList { mods: vec![b] };
    let cache = ModCache::new(&list, CacheDir::absent());
    let b_id = "id-b".to_string();
    assert_eq!(cache.plan_cache(&b_id, None).unwrap_err(), Error::NotFound);
}

// A dependency cycle terminates: each mod is planned once.
#[test]
fn dependency_cycle_terminates() {
    let a = mod_record(
        "id-a",
        "ModA",
        vec![version("1.0.0", "Owner-ModA", &["Owner-ModB"])],
    );
    let b = mod_record(
        "id-b",
        "ModB",
        vec![version("1.0.0", "Owner-ModB", &["Owner-ModA"])],
    );
    let list = ModList { mods: vec![a, b] };
    let cache = ModCache::new(&list, CacheDir::absent());
    let plan = cache.plan_cache(&"id-a".to_string(), None).unwrap();
    assert_eq!(plan.len(), 2);
}

// A chain of dependencies is cached transitively.
#[test]
fn transitive_dependencies_are_cached() {
    let a = mod_record("id-a", "ModA", vec![version("1.0.0", "Owner-ModA", &[])]);
    let b = mod_record(
        "id-b",
        "ModB",
        vec![version("1.0.0", "Owner-ModB", &["Owner-ModA"])],
    );
    let c = mod_record(
        "id-c",
        "ModC",
        vec![version("1.0.0", "Owner-ModC", &["Owner-ModB"])],
    );
    let list = ModList { mods: vec![a, b, c] };
    let mut cache = ModCache::new(&list, CacheDir::absent());
    let mut options = LocalModOptions::new();
    let c_id = "id-c".to_string();
    let plan = cache.plan_cache(&c_id, None).unwrap();
    let fetched = payload_for(&cache.pending_fetches(&plan));
    cache.cache_mod_by_mod_id(&mut options, &c_id, None, &fetched).unwrap();
    assert!(entry_has_version(&cache, "id-a", "1.0.0"));
    assert!(entry_has_version(&cache, "id-b", "1.0.0"));
    assert!(entry_has_version(&cache, "id-c", "1.0.0"));
}

// Removing a whole mod deletes its entry but leaves the in-memory list to
// the next refresh.
#[test]
fn remove_mod_deletes_entry() {
    let m = mod_record("id-a", "ModA", vec![version("v1", "Owner-ModA", &[])]);
    let disk = CacheDir {
        present: true,
        entries: vec![entry(
            "id-a",
            Some(m.duplicate()),
            vec![version_dir("v1", vec![], vec![])],
        )],
    };
    let list = ModList { mods: vec![m.duplicate()] };
    let mut cache = ModCache::new(&list, disk);
    let config = rumm::config::Config::new();
    cache.remove_mod_from_cache(&config, &m).unwrap();
    assert!(cache.disk.entries.is_empty());
}

// Only the newest pruned version survives a trim.
#[test]
fn remove_old_versions_keeps_newest() {
    let m = mod_record(
        "id-a",
        "ModA",
        vec![
            version("v3", "Owner-ModA", &[]),
            version("v2", "Owner-ModA", &[]),
            version("v1", "Owner-ModA", &[]),
        ],
    );
    let disk = CacheDir {
        present: true,
        entries: vec![entry(
            "id-a",
            Some(m.duplicate()),
            vec![
                version_dir("v1", vec![], vec![]),
                version_dir("v2", vec![], vec![]),
                version_dir("stray", vec![], vec![]),
            ],
        )],
    };
    let list = ModList { mods: vec![m.duplicate()] };
    let mut cache = ModCache::new(&list, disk);
    cache.remove_old_versions_from_cache(&m).unwrap();

    let dirs = &cache.disk.entries[0].versions;
    let names: Vec<&str> = dirs.iter().map(|d| d.version_number.as_str()).collect();
    // v2 is the first of the pruned view (declared order), so it survives;
    // v1 is trimmed; the stray directory is not declared and is untouched.
    assert_eq!(names, vec!["v2", "stray"]);
}

// The command union drives the same verified operations.
#[test]
fn commands_dispatch_to_engine_operations() {
    let a = mod_record("id-a", "ModA", vec![version("1.0.0", "Owner-ModA", &[])]);
    let list = ModList { mods: vec![a] };
    let mut cache = ModCache::new(&list, CacheDir::absent());
    let mut options = LocalModOptions::new();
    let config = rumm::config::Config::new();
    let mut rumble_mods = vec![];
    let mut rumble_user = vec![file("save.json", b"precious")];

    // Caching through a command materialises and enables the mod.
    let a_id = "id-a".to_string();
    let plan = cache.plan_cache(&a_id, None).unwrap();
    let fetched = payload_for(&cache.pending_fetches(&plan));
    apply_command(
        &mut cache,
        &mut options,
        &config,
        &Command::CacheMod { mod_id: a_id.clone(), version: None },
        &fetched,
        &mut rumble_mods,
        &mut rumble_user,
    )
    .unwrap();
    assert!(entry_has_version(&cache, "id-a", "1.0.0"));
    assert!(options.get_mod_options(a_id.clone()).unwrap().enabled);

    // A version-lock command on an unknown id creates no row.
    apply_command(
        &mut cache,
        &mut options,
        &config,
        &Command::VersionLock { mod_id: "id-unknown".to_string(), lock: true },
        &vec![],
        &mut rumble_mods,
        &mut rumble_user,
    )
    .unwrap();
    assert!(options.get_mod_options("id-unknown".to_string()).is_none());

    // Syncing pushes the enabled mod and leaves pre-existing user data.
    apply_command(
        &mut cache,
        &mut options,
        &config,
        &Command::SyncToRumble,
        &vec![],
        &mut rumble_mods,
        &mut rumble_user,
    )
    .unwrap();
    assert_eq!(rumble_mods.len(), 1);
    assert_eq!(rumble_mods[0].name, "plugin.dll");
    assert_eq!(rumble_user[0].data, b"precious".to_vec());
    assert_eq!(rumble_user.len(), 2);

    // Disabling through a command clears the flag but keeps the row.
    apply_command(
        &mut cache,
        &mut options,
        &config,
        &Command::Enable { mod_id: a_id.clone(), on: false },
        &vec![],
        &mut rumble_mods,
        &mut rumble_user,
    )
    .unwrap();
    let row = options.get_mod_options(a_id.clone()).unwrap();
    assert!(!row.enabled);
    assert_eq!(row.version, "1.0.0");
}

// A failing cache operation never touches previously cached payloads.
#[test]
fn failed_cache_leaves_cached_contents_untouched() {
    let m = mod_record(
        "id-a",
        "ModA",
        vec![version("2.0.0", "Owner-ModA", &[]), version("1.0.0", "Owner-ModA", &[])],
    );
    let disk = CacheDir {
        present: true,
        entries: vec![entry(
            "id-a",
            Some(m.duplicate()),
            vec![version_dir("1.0.0", vec![file("plugin.dll", b"v1-code")], vec![])],
        )],
    };
    let list = ModList { mods: vec![m.duplicate()] };
    let mut cache = ModCache::new(&list, disk);
    let mut options = LocalModOptions::new();

    // The newest version's download is missing, so the operation fails...
    let a_id = "id-a".to_string();
    let err = cache
        .cache_mod_by_mod_id(&mut options, &a_id, None, &vec![])
        .unwrap_err();
    assert_eq!(err, Error::NetworkFailure);

    // ...and the already-cached payload is still there, byte for byte.
    let dirs = &cache.disk.entries.iter().find(|e| e.mod_id == "id-a").unwrap().versions;
    let v1 = dirs.iter().find(|d| d.version_number == "1.0.0").unwrap();
    assert_eq!(v1.mod_files.len(), 1);
    assert_eq!(v1.mod_files[0].name, "plugin.dll");
    assert_eq!(v1.mod_files[0].data, b"v1-code".to_vec());
}
