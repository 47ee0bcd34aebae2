//! The command union consumed by the engine's single worker: every intent a
//! user can issue, dispatched uniformly to the verified operations.
//!
//! The issuing side only builds a [`Command`] and hands it to
//! [`apply_command`] together with the downloads the command may need; the
//! worker executes commands strictly in submission order, which keeps the
//! cache root and the options document free of concurrent mutation.

use vstd::prelude::*;

use crate::errors::Error;
use crate::fs_model::{spec_files_wf, FileEntry};
use crate::mod_cache::ModCache;
use crate::options::{spec_set_lock, spec_set_version, LocalModOptions};
use crate::registry::{find_mod, find_version, spec_find_mod};
use crate::resolver::FetchedPackage;

verus! {

/// One intent, captured away from its execution.
pub enum Command {
    Enable { mod_id: String, on: bool },
    VersionLock { mod_id: String, lock: bool },
    SetVersion { mod_id: String, version: String },
    RemoveVersion { mod_id: String, version: String },
    DeleteMod { mod_id: String },
    CacheMod { mod_id: String, version: Option<String> },
    UpdateMod { mod_id: String },
    UpdateAll,
    SyncToRumble,
}

/// Executes one command against the engine's state. Commands that need the
/// registry record of a mod fail with `NotFound` when the id is unknown;
/// the sync command pushes every enabled cached mod and, like every push,
/// never overwrites a file already in the user-data target.
pub fn apply_command(
    cache: &mut ModCache,
    options: &mut LocalModOptions,
    config: &crate::config::Config,
    cmd: &Command,
    fetched: &Vec<FetchedPackage>,
    rumble_mods: &mut Vec<FileEntry>,
    rumble_user_data: &mut Vec<FileEntry>,
) -> (r: Result<(), Error>)
    requires
        old(cache).wf(),
        old(options).wf(),
        spec_files_wf(old(rumble_mods)@.map_values(|f: FileEntry| f@)),
        spec_files_wf(old(rumble_user_data)@.map_values(|f: FileEntry| f@)),
        forall|j: int|
            0 <= j < fetched@.len() ==> match (#[trigger] fetched@[j])@.result {
                Ok(p) => spec_files_wf(p.mod_files) && spec_files_wf(p.user_files),
                Err(e) => e == Error::NetworkFailure || e == Error::ArchiveError,
            },
    ensures
        final(cache).wf(),
        final(options).wf(),
        spec_files_wf(final(rumble_mods)@.map_values(|f: FileEntry| f@)),
        spec_files_wf(final(rumble_user_data)@.map_values(|f: FileEntry| f@)),
        final(cache).thunderstore_mod_list@ == old(cache).thunderstore_mod_list@,
        // No command ever overwrites a file that already was in the
        // user-data target.
        forall|j: int|
            0 <= j < old(rumble_user_data)@.len() ==> (#[trigger] final(rumble_user_data)@[j])@
                == old(rumble_user_data)@[j]@,
        // Option-store commands perform exactly their verified transition.
        (r is Ok && (cmd matches Command::VersionLock { mod_id, lock } ==> final(options)@
            == spec_set_lock(old(options)@, mod_id@, *lock))) || r is Err,
        (r is Ok && (cmd matches Command::SetVersion { mod_id, version } ==> final(options)@
            == spec_set_version(old(options)@, mod_id@, version@))) || r is Err,
        (cmd matches Command::VersionLock { mod_id, .. } ==> (!crate::options::spec_has_row(
            old(options)@,
            mod_id@,
        ) ==> final(options)@ == old(options)@)),
        (cmd matches Command::SetVersion { mod_id, .. } ==> (!crate::options::spec_has_row(
            old(options)@,
            mod_id@,
        ) ==> final(options)@ == old(options)@)),
        // When a command's inputs are valid, success is owed.
        cmd matches Command::VersionLock { .. } ==> r is Ok,
        cmd matches Command::SetVersion { .. } ==> r is Ok,
        cmd is SyncToRumble ==> r is Ok,
        (cmd matches Command::Enable { mod_id, on } ==> (spec_find_mod(
            old(cache).thunderstore_mod_list@,
            mod_id@,
        ) matches Some(m) && (crate::options::spec_has_row(old(options)@, mod_id@)
            || m.versions.len() > 0) ==> r is Ok)),
        (cmd matches Command::RemoveVersion { mod_id, version } ==> (spec_find_mod(
            old(cache).thunderstore_mod_list@,
            mod_id@,
        ) matches Some(m) && crate::registry::spec_find_version(m.versions, version@) is Some
            && crate::fs_model::spec_version_cached(old(cache).disk@, m.uuid, version@)
            ==> r is Ok)),
        (cmd matches Command::DeleteMod { mod_id } ==> (spec_find_mod(
            old(cache).thunderstore_mod_list@,
            mod_id@,
        ) matches Some(m) && crate::fs_model::spec_has_entry(old(cache).disk@.entries, m.uuid)
            ==> r is Ok)),
        (cmd matches Command::CacheMod { mod_id, version } ==> (
        crate::mod_cache::spec_cache_request_satisfiable(
            old(cache).thunderstore_mod_list@,
            mod_id@,
            match version {
                Some(v) => Some(v@),
                None => None,
            },
            old(cache).disk@,
            fetched@.map_values(|f: FetchedPackage| f@),
        ) ==> r is Ok)),
        (cmd matches Command::UpdateMod { mod_id } ==> (spec_find_mod(
            old(cache).thunderstore_mod_list@,
            mod_id@,
        ) matches Some(m) && crate::options::spec_has_row(old(options)@, m.uuid) && (
        crate::options::spec_row(old(options)@, m.uuid).version_lock || (
        crate::mod_cache::spec_resolve_version(old(cache).thunderstore_mod_list@, m.uuid, None)
            is Ok && crate::mod_cache::spec_cache_request_satisfiable(
            old(cache).thunderstore_mod_list@,
            m.uuid,
            Some(
                crate::mod_cache::spec_resolve_version(
                    old(cache).thunderstore_mod_list@,
                    m.uuid,
                    None,
                )->Ok_0,
            ),
            old(cache).disk@,
            fetched@.map_values(|f: FetchedPackage| f@),
        ))) ==> r is Ok)),
        cmd is UpdateAll && crate::mod_cache::spec_update_all_satisfiable(
            old(cache).thunderstore_mod_list@,
            old(cache).cache_mod_list@.map_values(|m: crate::registry::Mod| m@),
            old(options)@,
            old(cache).disk@,
            fetched@.map_values(|f: FetchedPackage| f@),
        ) ==> r is Ok,
{
    match cmd {
        Command::Enable { mod_id, on } => {
            let record = match find_mod(&cache.thunderstore_mod_list.mods, mod_id) {
                Some(m) => m,
                None => {
                    return Err(Error::NotFound);
                },
            };
            let already_known = match options.get_mod_options(mod_id.clone()) {
                Some(_) => true,
                None => false,
            };
            if *on && record.versions.len() == 0 && !already_known {
                // Enabling a mod with no published versions has no version
                // to select.
                return Err(Error::NotFound);
            }
            proof {
                crate::registry::lemma_find_mod_characterises(
                    cache.thunderstore_mod_list@,
                    mod_id@,
                );
                assert(record@.uuid == spec_find_mod(
                    cache.thunderstore_mod_list@,
                    mod_id@,
                )->0.uuid);
                assert(record@.uuid == mod_id@);
            }
            if *on && !already_known {
                let dup = record.duplicate();
                proof {
                    assert(dup.uuid@ == mod_id@);
                    assert(dup@.versions == record@.versions);
                    assert(dup.versions@.len() == dup@.versions.len());
                    assert(record.versions@.len() == record@.versions.len());
                }
                options.enable_mod(&dup)
            } else {
                let dup = record.duplicate();
                proof {
                    assert(dup.uuid@ == mod_id@);
                    assert(dup@.versions == record@.versions);
                    assert(dup.versions@.len() == dup@.versions.len());
                    assert(record.versions@.len() == record@.versions.len());
                }
                options.set_mod_enabled(&dup, *on)
            }
        },
        Command::VersionLock { mod_id, lock } => options.set_version_lock(mod_id, *lock),
        Command::SetVersion { mod_id, version } => options.set_mod_version(mod_id, version),
        Command::RemoveVersion { mod_id, version } => {
            let record = match find_mod(&cache.thunderstore_mod_list.mods, mod_id) {
                Some(m) => m.duplicate(),
                None => {
                    return Err(Error::NotFound);
                },
            };
            let doomed = match find_version(&record.versions, version) {
                Some(v) => v.duplicate(),
                None => {
                    proof {
                        crate::registry::lemma_find_version_characterises(
                            record@.versions,
                            version@,
                        );
                    }
                    return Err(Error::NotFound);
                },
            };
            proof {
                crate::registry::lemma_find_version_characterises(record@.versions, version@);
                assert(doomed@.version_number == version@);
            }
            cache.remove_version_from_cache(&record, doomed)
        },
        Command::DeleteMod { mod_id } => {
            let record = match find_mod(&cache.thunderstore_mod_list.mods, mod_id) {
                Some(m) => m.duplicate(),
                None => {
                    return Err(Error::NotFound);
                },
            };
            cache.remove_mod_from_cache(config, &record)
        },
        Command::CacheMod { mod_id, version } => {
            let requested = match version {
                Some(v) => Some(v),
                None => None,
            };
            match cache.cache_mod_by_mod_id(options, mod_id, requested, fetched) {
                Ok(_) => Ok(()),
                Err(e) => Err(e),
            }
        },
        Command::UpdateMod { mod_id } => {
            let record = match find_mod(&cache.thunderstore_mod_list.mods, mod_id) {
                Some(m) => m.duplicate(),
                None => {
                    return Err(Error::NotFound);
                },
            };
            cache.update_mod(options, &record, fetched)
        },
        Command::UpdateAll => {
            proof {
                if crate::mod_cache::spec_update_all_satisfiable(
                    cache.thunderstore_mod_list@,
                    cache.cache_mod_list@.map_values(|m: crate::registry::Mod| m@),
                    options@,
                    cache.disk@,
                    fetched@.map_values(|f: FetchedPackage| f@),
                ) {
                    assert forall|j: int| 0 <= j < cache.cache_mod_list@.len() implies
                        crate::options::spec_has_row(
                        options@,
                        (#[trigger] cache.cache_mod_list@[j])@.uuid,
                    ) && (crate::options::spec_row(
                        options@,
                        cache.cache_mod_list@[j]@.uuid,
                    ).version_lock || (crate::mod_cache::spec_resolve_version(
                        cache.thunderstore_mod_list@,
                        cache.cache_mod_list@[j]@.uuid,
                        None,
                    ) is Ok && crate::mod_cache::spec_cache_request_satisfiable(
                        cache.thunderstore_mod_list@,
                        cache.cache_mod_list@[j]@.uuid,
                        Some(
                            crate::mod_cache::spec_resolve_version(
                                cache.thunderstore_mod_list@,
                                cache.cache_mod_list@[j]@.uuid,
                                None,
                            )->Ok_0,
                        ),
                        cache.disk@,
                        fetched@.map_values(|f: FetchedPackage| f@),
                    ))) by {
                        assert(cache.cache_mod_list@.map_values(
                            |m: crate::registry::Mod| m@,
                        )[j] == cache.cache_mod_list@[j]@);
                    }
                }
            }
            cache.update_all_mods(options, fetched)
        },
        Command::SyncToRumble => {
            let ghost user0 = rumble_user_data@;
            let mut i: usize = 0;
            while i < cache.cache_mod_list.len()
                invariant
                    cache.wf(),
                    options.wf(),
                    i <= cache.cache_mod_list.len(),
                    spec_files_wf(rumble_mods@.map_values(|f: FileEntry| f@)),
                    spec_files_wf(rumble_user_data@.map_values(|f: FileEntry| f@)),
                    rumble_user_data@.len() >= user0.len(),
                    forall|j: int|
                        0 <= j < user0.len() ==> (#[trigger] rumble_user_data@[j])@
                            == user0[j]@,
                decreases cache.cache_mod_list.len() - i,
            {
                let enabled = match options.is_mod_enabled(&cache.cache_mod_list[i]) {
                    Ok(b) => b,
                    Err(_) => false,
                };
                if enabled {
                    let ghost user_before = rumble_user_data@;
                    let record = cache.cache_mod_list[i].duplicate();
                    let push_result = cache.push_mod_to_rumble(
                        options,
                        &record,
                        rumble_mods,
                        rumble_user_data,
                    );
                    proof {
                        if push_result is Ok {
                            crate::sync::lemma_push_never_overwrites(
                                user_before.map_values(|f: FileEntry| f@),
                                crate::fs_model::spec_version_dir(
                                    crate::fs_model::spec_entry(
                                        cache.disk@.entries,
                                        record.uuid@,
                                    ).versions,
                                    crate::options::spec_row(options@, record.uuid@).version,
                                ).user_files,
                            );
                            assert forall|j: int| 0 <= j < user0.len() implies (
                            #[trigger] rumble_user_data@[j])@ == user0[j]@ by {
                                assert(rumble_user_data@.map_values(|f: FileEntry| f@)[j]
                                    == user_before.map_values(|f: FileEntry| f@)[j]);
                                assert(user_before[j]@ == user0[j]@);
                            }
                        }
                    }
                    match push_result {
                        Ok(_) => {},
                        Err(_) => {
                            // A mod whose selected version is no longer
                            // cached is skipped; the sync continues.
                        },
                    }
                }
                i = i + 1;
            }
            Ok(())
        },
    }
}

} // verus!
