//! The mod cache store and the engines built on it: materialisation of
//! mod versions into the cache, the pruned (disk-reconciled) view,
//! dependency-closed caching, removal, updating, and synchronisation into
//! the game's directories.
//!
//! Network and filesystem work happens outside: the shell downloads the
//! packages this engine asks for (see [`crate::resolver`]) and mirrors every
//! model mutation onto the real cache directory.

use vstd::prelude::*;

use crate::config::Config;
use crate::errors::Error;
use crate::fs_model::{
    spec_cache_wf, spec_entry, spec_entry_index, spec_entry_wf, spec_has_entry,
    spec_has_version_dir, spec_version_cached, CacheDir, CacheEntryDir,
};
use crate::options::LocalModOptions;
use crate::registry::{
    find_mod, find_version, spec_find_mod, spec_find_mod_by_full_name, spec_find_version,
    spec_mod_has_full_name, Mod, ModList, ModView, Version, VersionView,
};
use crate::resolver::{FetchedPackage, PlanItem};

verus! {

/// The effective version of a request: the requested string when the mod
/// declares it, the most recent version when none was requested, and
/// `NotFound` when the mod is unknown, the requested version is not
/// declared, or the mod has no versions at all.
pub open spec fn spec_resolve_version(
    registry: Seq<ModView>,
    mod_id: Seq<char>,
    requested: Option<Seq<char>>,
) -> Result<Seq<char>, Error> {
    match spec_find_mod(registry, mod_id) {
        None => Err(Error::NotFound),
        Some(m) => match requested {
            Some(v) => if spec_find_version(m.versions, v) is Some {
                Ok(v)
            } else {
                Err(Error::NotFound)
            },
            None => if m.versions.len() > 0 {
                Ok(m.versions[0].version_number)
            } else {
                Err(Error::NotFound)
            },
        },
    }
}

/// What is left of a mod's version subdirectories after trimming to the
/// newest: of the versions both declared by `declared` and present among
/// `dirs` (the pruned view), only the first — the most recent — survives;
/// subdirectories not declared at all are untouched.
pub open spec fn spec_trimmed_versions(
    declared: Seq<VersionView>,
    dirs: Seq<crate::fs_model::VersionDirView>,
) -> Seq<crate::fs_model::VersionDirView> {
    let pruned = declared.filter(
        |v: VersionView| spec_has_version_dir(dirs, v.version_number),
    );
    dirs.filter(
        |d: crate::fs_model::VersionDirView|
            pruned.len() == 0 || d.version_number == pruned[0].version_number
                || spec_find_version(pruned, d.version_number) is None,
    )
}

/// Every dependency name of the list is owned by some registry mod.
pub open spec fn spec_all_deps_owned(registry: Seq<ModView>, deps: Seq<Seq<char>>) -> bool {
    forall|d: int|
        0 <= d < deps.len() ==> spec_find_mod_by_full_name(registry, #[trigger] deps[d]) is Some
}

/// A cache request the engine owes success on: the request resolves, the
/// walk from its root can be planned (every reachable dependency name is
/// owned and resolvable), and every reachable mod's assigned version is
/// already cached or was delivered as a sound package.
pub open spec fn spec_cache_request_satisfiable(
    reg: Seq<ModView>,
    root_id: Seq<char>,
    requested: Option<Seq<char>>,
    disk: crate::fs_model::CacheDirView,
    fetched: Seq<crate::resolver::FetchedPackageView>,
) -> bool {
    &&& spec_resolve_version(reg, root_id, requested) is Ok
    &&& crate::resolver::spec_closure_total(
        reg,
        root_id,
        spec_resolve_version(reg, root_id, requested)->Ok_0,
    )
    &&& forall|mid: Seq<char>, n: nat|
        #![trigger crate::resolver::spec_id_reachable(reg, root_id, spec_resolve_version(reg, root_id, requested)->Ok_0, mid, n)]
        crate::resolver::spec_id_reachable(
            reg,
            root_id,
            spec_resolve_version(reg, root_id, requested)->Ok_0,
            mid,
            n,
        ) ==> spec_version_cached(
            disk,
            mid,
            crate::resolver::spec_canon_version(
                reg,
                root_id,
                spec_resolve_version(reg, root_id, requested)->Ok_0,
                mid,
            ),
        ) || (crate::resolver::spec_find_fetch(
            fetched,
            mid,
            crate::resolver::spec_canon_version(
                reg,
                root_id,
                spec_resolve_version(reg, root_id, requested)->Ok_0,
                mid,
            ),
        ) matches Some(f) && f.result is Ok)
}

/// A request satisfiable against one disk state stays satisfiable against
/// any disk state that caches at least as much.
pub proof fn lemma_satisfiable_monotone(
    reg: Seq<ModView>,
    root_id: Seq<char>,
    requested: Option<Seq<char>>,
    d1: crate::fs_model::CacheDirView,
    d2: crate::fs_model::CacheDirView,
    fetched: Seq<crate::resolver::FetchedPackageView>,
)
    requires
        spec_cache_request_satisfiable(reg, root_id, requested, d1, fetched),
        forall|id: Seq<char>, v: Seq<char>|
            #![trigger spec_version_cached(d1, id, v)]
            spec_version_cached(d1, id, v) ==> spec_version_cached(d2, id, v),
    ensures
        spec_cache_request_satisfiable(reg, root_id, requested, d2, fetched),
{
    let rv = spec_resolve_version(reg, root_id, requested)->Ok_0;
    assert forall|mid: Seq<char>, n: nat|
        crate::resolver::spec_id_reachable(reg, root_id, rv, mid, n) implies spec_version_cached(
        d2,
        mid,
        crate::resolver::spec_canon_version(reg, root_id, rv, mid),
    ) || (crate::resolver::spec_find_fetch(
        fetched,
        mid,
        crate::resolver::spec_canon_version(reg, root_id, rv, mid),
    ) matches Some(f) && f.result is Ok) by {
        if spec_version_cached(d1, mid, crate::resolver::spec_canon_version(reg, root_id, rv, mid)) {
            assert(spec_version_cached(
                d2,
                mid,
                crate::resolver::spec_canon_version(reg, root_id, rv, mid),
            ));
        }
    }
}

/// Every listed mod has an options row and is either locked or has a
/// satisfiable latest-version request: the condition under which updating
/// them all is owed success.
pub open spec fn spec_update_all_satisfiable(
    reg: Seq<ModView>,
    mods: Seq<ModView>,
    rows: Seq<crate::options::ModOptionsView>,
    disk: crate::fs_model::CacheDirView,
    fetched: Seq<crate::resolver::FetchedPackageView>,
) -> bool {
    forall|j: int|
        0 <= j < mods.len() ==> crate::options::spec_has_row(rows, (#[trigger] mods[j]).uuid) && (
        crate::options::spec_row(rows, mods[j].uuid).version_lock || (spec_resolve_version(
            reg,
            mods[j].uuid,
            None,
        ) is Ok && spec_cache_request_satisfiable(
            reg,
            mods[j].uuid,
            Some(spec_resolve_version(reg, mods[j].uuid, None)->Ok_0),
            disk,
            fetched,
        )))
}

/// The requested version as a mathematical value.
pub open spec fn spec_requested(version_name: Option<&String>) -> Option<Seq<char>> {
    match version_name {
        Some(s) => Some(s@),
        None => None,
    }
}

/// The version subdirectory that materialising a payload creates.
pub open spec fn spec_new_version_dir(
    version: Seq<char>,
    payload: crate::resolver::PackagePayloadView,
) -> crate::fs_model::VersionDirView {
    crate::fs_model::VersionDirView {
        version_number: version,
        mod_files: payload.mod_files,
        user_files: payload.user_files,
    }
}

/// The cache entries after materialising `version` of the mod `m`: its
/// entry is created if absent, its metadata snapshot is overwritten, and
/// the version subdirectory is added unless it already exists — an existing
/// subdirectory is never touched, so no other version can be corrupted.
pub open spec fn spec_commit_entries(
    entries: Seq<crate::fs_model::CacheEntryDirView>,
    m: ModView,
    version: Seq<char>,
    payload: crate::resolver::PackagePayloadView,
) -> Seq<crate::fs_model::CacheEntryDirView> {
    if spec_has_entry(entries, m.uuid) {
        entries.update(
            spec_entry_index(entries, m.uuid),
            crate::fs_model::CacheEntryDirView {
                mod_id: spec_entry(entries, m.uuid).mod_id,
                mod_info: Some(m),
                versions: if spec_has_version_dir(spec_entry(entries, m.uuid).versions, version) {
                    spec_entry(entries, m.uuid).versions
                } else {
                    spec_entry(entries, m.uuid).versions.push(
                        spec_new_version_dir(version, payload),
                    )
                },
            },
        )
    } else {
        entries.push(
            crate::fs_model::CacheEntryDirView {
                mod_id: m.uuid,
                mod_info: Some(m),
                versions: seq![spec_new_version_dir(version, payload)],
            },
        )
    }
}

/// Materialising one version never removes or rewrites anything: every
/// version cached before is still cached afterwards with exactly the same
/// files, and the new one is cached.
pub proof fn lemma_commit_preserves_cached(
    entries: Seq<crate::fs_model::CacheEntryDirView>,
    m: ModView,
    version: Seq<char>,
    payload: crate::resolver::PackagePayloadView,
)
    requires
        forall|j: int, k: int|
            0 <= j < k < entries.len() ==> entries[j].mod_id != entries[k].mod_id,
        forall|j: int| 0 <= j < entries.len() ==> spec_entry_wf(#[trigger] entries[j]),
    ensures
        forall|id: Seq<char>, v: Seq<char>|
            #![trigger spec_has_entry(entries, id), spec_has_version_dir(spec_entry(entries, id).versions, v)]
            spec_has_entry(entries, id) && spec_has_version_dir(
                spec_entry(entries, id).versions,
                v,
            ) ==> spec_has_entry(spec_commit_entries(entries, m, version, payload), id)
                && spec_has_version_dir(
                spec_entry(spec_commit_entries(entries, m, version, payload), id).versions,
                v,
            ) && crate::fs_model::spec_version_dir(
                spec_entry(spec_commit_entries(entries, m, version, payload), id).versions,
                v,
            ) == crate::fs_model::spec_version_dir(spec_entry(entries, id).versions, v),
        spec_has_entry(spec_commit_entries(entries, m, version, payload), m.uuid),
        spec_has_version_dir(
            spec_entry(spec_commit_entries(entries, m, version, payload), m.uuid).versions,
            version,
        ),
{
    let out = spec_commit_entries(entries, m, version, payload);
    if spec_has_entry(entries, m.uuid) {
        let ei = spec_entry_index(entries, m.uuid);
        assert(0 <= ei < entries.len() && entries[ei].mod_id == m.uuid);
        assert(out[ei].mod_id == m.uuid);
        assert(spec_has_entry(out, m.uuid));
        let ei2 = spec_entry_index(out, m.uuid);
        assert(0 <= ei2 < out.len() && out[ei2].mod_id == m.uuid);
        if ei2 != ei {
            assert(entries[ei2].mod_id == m.uuid);
            assert(false);
        }
        if spec_has_version_dir(spec_entry(entries, m.uuid).versions, version) {
            assert(spec_has_version_dir(out[ei].versions, version));
        } else {
            assert(out[ei].versions[out[ei].versions.len() - 1].version_number == version);
            assert(spec_has_version_dir(out[ei].versions, version));
        }
        assert forall|id: Seq<char>, v: Seq<char>|
            spec_has_entry(entries, id) && spec_has_version_dir(
                spec_entry(entries, id).versions,
                v,
            ) implies spec_has_entry(out, id) && spec_has_version_dir(
            spec_entry(out, id).versions,
            v,
        ) && crate::fs_model::spec_version_dir(spec_entry(out, id).versions, v)
            == crate::fs_model::spec_version_dir(spec_entry(entries, id).versions, v) by {
            let j = spec_entry_index(entries, id);
            assert(0 <= j < entries.len() && entries[j].mod_id == id);
            assert(out[j].mod_id == id);
            assert(spec_has_entry(out, id));
            let j2 = spec_entry_index(out, id);
            assert(0 <= j2 < out.len() && out[j2].mod_id == id);
            if j2 != j {
                assert(entries[j2].mod_id == id || (j2 == ei && out[j2].mod_id == m.uuid));
                assert(false);
            }
            if j == ei {
                let vi = crate::fs_model::spec_version_dir_index(entries[j].versions, v);
                assert(entries[j].versions[vi].version_number == v);
                if spec_has_version_dir(entries[ei].versions, version) {
                    assert(out[j].versions == entries[j].versions);
                    assert(spec_has_version_dir(out[j].versions, v));
                } else {
                    assert(out[j].versions[vi] == entries[j].versions[vi]);
                    assert(spec_has_version_dir(out[j].versions, v));
                    assert(spec_entry_wf(entries[j]));
                    let vo = crate::fs_model::spec_version_dir_index(out[j].versions, v);
                    assert(0 <= vo < out[j].versions.len() && out[j].versions[vo].version_number
                        == v);
                    if vo == out[j].versions.len() - 1 {
                        assert(out[j].versions[vo].version_number == version);
                        assert(spec_has_version_dir(entries[ei].versions, version));
                        assert(false);
                    }
                    assert(entries[j].versions[vo].version_number == v);
                    if vo != vi {
                        assert(false);
                    }
                }
            } else {
                assert(out[j] == entries[j]);
            }
        }
    } else {
        let ei = entries.len() as int;
        assert(out[ei].mod_id == m.uuid);
        assert(spec_has_entry(out, m.uuid));
        let ei2 = spec_entry_index(out, m.uuid);
        assert(0 <= ei2 < out.len() && out[ei2].mod_id == m.uuid);
        if ei2 != ei {
            assert(entries[ei2].mod_id == m.uuid);
            assert(spec_has_entry(entries, m.uuid));
            assert(false);
        }
        assert(out[ei].versions[0].version_number == version);
        assert(spec_has_version_dir(out[ei].versions, version));
        assert forall|id: Seq<char>, v: Seq<char>|
            spec_has_entry(entries, id) && spec_has_version_dir(
                spec_entry(entries, id).versions,
                v,
            ) implies spec_has_entry(out, id) && spec_has_version_dir(
            spec_entry(out, id).versions,
            v,
        ) && crate::fs_model::spec_version_dir(spec_entry(out, id).versions, v)
            == crate::fs_model::spec_version_dir(spec_entry(entries, id).versions, v) by {
            let j = spec_entry_index(entries, id);
            assert(0 <= j < entries.len() && entries[j].mod_id == id);
            assert(out[j].mod_id == id);
            assert(spec_has_entry(out, id));
            let j2 = spec_entry_index(out, id);
            assert(0 <= j2 < out.len() && out[j2].mod_id == id);
            if j2 != j {
                if j2 < entries.len() {
                    assert(entries[j2].mod_id == id);
                    assert(false);
                } else {
                    assert(out[j2].mod_id == m.uuid);
                    assert(id == m.uuid);
                    assert(spec_has_entry(entries, m.uuid));
                    assert(false);
                }
            }
            assert(out[j] == entries[j]);
        }
    }
}

/// Materialisation is idempotent: after one commit the version's
/// subdirectory exists, and a second commit of the same version leaves the
/// entry's version list exactly as it was — only the metadata snapshot is
/// rewritten. Together with the pending-fetch filter, which drops every
/// cached item, a repeated materialisation issues no second download.
pub proof fn lemma_materialize_idempotent(
    entries: Seq<crate::fs_model::CacheEntryDirView>,
    m: ModView,
    version: Seq<char>,
    first_payload: crate::resolver::PackagePayloadView,
    second_payload: crate::resolver::PackagePayloadView,
)
    requires
        forall|j: int, k: int|
            0 <= j < k < entries.len() ==> entries[j].mod_id != entries[k].mod_id,
        forall|j: int| 0 <= j < entries.len() ==> spec_entry_wf(#[trigger] entries[j]),
    ensures
        spec_has_entry(spec_commit_entries(entries, m, version, first_payload), m.uuid),
        spec_has_version_dir(
            spec_entry(spec_commit_entries(entries, m, version, first_payload), m.uuid).versions,
            version,
        ),
        spec_entry(
            spec_commit_entries(
                spec_commit_entries(entries, m, version, first_payload),
                m,
                version,
                second_payload,
            ),
            m.uuid,
        ).versions == spec_entry(
            spec_commit_entries(entries, m, version, first_payload),
            m.uuid,
        ).versions,
{
    lemma_commit_preserves_cached(entries, m, version, first_payload);
    let after = spec_commit_entries(entries, m, version, first_payload);
    assert forall|j: int, k: int| 0 <= j < k < after.len() implies after[j].mod_id
        != after[k].mod_id by {
        if spec_has_entry(entries, m.uuid) {
            assert(after[j].mod_id == entries[j].mod_id);
            assert(after[k].mod_id == entries[k].mod_id);
        } else {
            if k < entries.len() {
                assert(after[j].mod_id == entries[j].mod_id);
                assert(after[k].mod_id == entries[k].mod_id);
            } else {
                assert(after[j].mod_id == entries[j].mod_id);
                if entries[j].mod_id == m.uuid {
                    assert(spec_has_entry(entries, m.uuid));
                }
            }
        }
    }
    let again = spec_commit_entries(after, m, version, second_payload);
    let ei = spec_entry_index(after, m.uuid);
    assert(0 <= ei < after.len() && after[ei].mod_id == m.uuid);
    assert(again[ei].mod_id == m.uuid);
    assert(spec_has_entry(again, m.uuid));
    let ei2 = spec_entry_index(again, m.uuid);
    assert(0 <= ei2 < again.len() && again[ei2].mod_id == m.uuid);
    if ei2 != ei {
        assert(after[ei2].mod_id == m.uuid);
        assert(false);
    }
}

/// Pruned-view invariant: a version stands in the pruned list exactly when
/// the raw record declares it and its version-named subdirectory exists.
pub proof fn lemma_pruned_view_exact(
    declared: Seq<VersionView>,
    dirs: Seq<crate::fs_model::VersionDirView>,
)
    ensures
        forall|v: VersionView|
            declared.filter(
                |x: VersionView| spec_has_version_dir(dirs, x.version_number),
            ).contains(v) <==> declared.contains(v) && spec_has_version_dir(
                dirs,
                v.version_number,
            ),
    decreases declared.len(),
{
    reveal(Seq::filter);
    let pred = |x: VersionView| spec_has_version_dir(dirs, x.version_number);
    if declared.len() == 0 {
    } else {
        let butlast = declared.drop_last();
        lemma_pruned_view_exact(butlast, dirs);
        let fo = declared.filter(pred);
        let inner = butlast.filter(pred);
        assert forall|v: VersionView| fo.contains(v) implies declared.contains(v) && pred(
            v,
        ) by {
            let i = choose|i: int| 0 <= i < fo.len() && fo[i] == v;
            if pred(declared.last()) && i == fo.len() - 1 {
                assert(declared[declared.len() - 1] == v);
            } else {
                assert(inner[i] == v);
                assert(inner.contains(v));
                assert(butlast.contains(v));
                let j = choose|j: int| 0 <= j < butlast.len() && butlast[j] == v;
                assert(declared[j] == v);
            }
        }
        assert forall|v: VersionView| declared.contains(v) && pred(v) implies fo.contains(
            v,
        ) by {
            let j = choose|j: int| 0 <= j < declared.len() && declared[j] == v;
            if j == declared.len() - 1 {
                assert(fo[fo.len() - 1] == v);
            } else {
                assert(butlast[j] == v);
                assert(butlast.contains(v));
                assert(inner.contains(v));
                let i = choose|i: int| 0 <= i < inner.len() && inner[i] == v;
                assert(fo[i] == v);
            }
        }
    }
}

/// Stores local copies of mods and answers every availability question from
/// the pruned, disk-reconciled state.
///
/// Each cache entry lives at `<cacheRoot>/<modId>/` and holds a metadata
/// snapshot (`mod_info.json`) beside one `versions/<version>` subdirectory
/// per cached version.
#[derive(Debug)]
pub struct ModCache {
    /// The registry snapshot this cache works against.
    pub thunderstore_mod_list: ModList,
    /// The in-memory list of cached mods, rebuilt by
    /// [`ModCache::update_self_from_cache`] from the metadata snapshots.
    pub cache_mod_list: Vec<Mod>,
    /// The model of the on-disk cache root.
    pub disk: CacheDir,
}

impl ModCache {
    /// The structural invariant: entry ids and version names are unique, as
    /// they are for real directories.
    pub open spec fn wf(&self) -> bool {
        spec_cache_wf(self.disk@)
    }

    /// Builds the store over a registry snapshot and the scanned cache
    /// root, and reconciles the in-memory list with it right away.
    pub fn new(mod_list: &ModList, disk: CacheDir) -> (r: ModCache)
        requires
            spec_cache_wf(disk@),
        ensures
            r.wf(),
            r.thunderstore_mod_list@ == mod_list@,
            r.disk@.entries == disk@.entries,
            r.disk@.present,
            r.cache_mod_list@.map_values(|m: Mod| m@) == disk@.entries.filter(
                |e: crate::fs_model::CacheEntryDirView| e.mod_info is Some,
            ).map_values(|e: crate::fs_model::CacheEntryDirView| e.mod_info->0),
    {
        let mut mods: Vec<Mod> = Vec::new();
        let mut i: usize = 0;
        while i < mod_list.mods.len()
            invariant
                i <= mod_list.mods.len(),
                mods@.map_values(|m: Mod| m@) =~= mod_list.mods@.subrange(0, i as int).map_values(
                    |m: Mod| m@,
                ),
            decreases mod_list.mods.len() - i,
        {
            mods.push(mod_list.mods[i].duplicate());
            proof {
                assert(mod_list.mods@.subrange(0, i + 1 as int).map_values(|m: Mod| m@)
                    =~= mod_list.mods@.subrange(0, i as int).map_values(|m: Mod| m@).push(
                    mod_list.mods@[i as int]@,
                ));
            }
            i = i + 1;
        }
        proof {
            assert(mod_list.mods@.subrange(0, mod_list.mods@.len() as int) =~= mod_list.mods@);
        }
        let mut cache = ModCache {
            thunderstore_mod_list: ModList { mods },
            cache_mod_list: Vec::new(),
            disk,
        };
        let _soft_errors = cache.update_self_from_cache();
        cache
    }

    /// Rebuilds the in-memory cached-mod list from the cache root model,
    /// creating the root when it is absent (an empty cache, not an error).
    /// An entry whose metadata snapshot is missing or unreadable is a soft
    /// error: it is collected and the scan continues.
    pub fn update_self_from_cache(&mut self) -> (r: Result<Vec<Error>, Error>)
        requires
            old(self).wf(),
        ensures
            final(self).wf(),
            final(self).thunderstore_mod_list@ == old(self).thunderstore_mod_list@,
            final(self).disk@.present,
            final(self).disk@.entries == old(self).disk@.entries,
            final(self).cache_mod_list@.map_values(|m: Mod| m@) == old(self).disk@.entries.filter(
                |e: crate::fs_model::CacheEntryDirView| e.mod_info is Some,
            ).map_values(|e: crate::fs_model::CacheEntryDirView| e.mod_info->0),
            match r {
                Ok(errs) => errs@.len() == old(self).disk@.entries.filter(
                    |e: crate::fs_model::CacheEntryDirView| e.mod_info is None,
                ).len() && forall|j: int| 0 <= j < errs@.len() ==> errs@[j] == Error::FilesystemError,
                Err(_) => false,
            },
    {
        self.disk.present = true;
        let ghost entries = self.disk@.entries;
        let ghost some_pred = |e: crate::fs_model::CacheEntryDirView| e.mod_info is Some;
        let ghost none_pred = |e: crate::fs_model::CacheEntryDirView| e.mod_info is None;
        let mut mods: Vec<Mod> = Vec::new();
        let mut errors: Vec<Error> = Vec::new();
        let mut i: usize = 0;
        proof {
            assert(entries.take(0) =~= Seq::<crate::fs_model::CacheEntryDirView>::empty());
            reveal(Seq::filter);
        }
        while i < self.disk.entries.len()
            invariant
                i <= self.disk.entries.len(),
                entries == self.disk@.entries,
                some_pred == (|e: crate::fs_model::CacheEntryDirView| e.mod_info is Some),
                none_pred == (|e: crate::fs_model::CacheEntryDirView| e.mod_info is None),
                mods@.map_values(|m: Mod| m@) =~= entries.take(i as int).filter(
                    some_pred,
                ).map_values(|e: crate::fs_model::CacheEntryDirView| e.mod_info->0),
                errors@.len() == entries.take(i as int).filter(none_pred).len(),
                forall|j: int| 0 <= j < errors@.len() ==> errors@[j] == Error::FilesystemError,
            decreases self.disk.entries.len() - i,
        {
            let ghost prev = entries.take(i as int);
            let ghost prior = mods@;
            proof {
                reveal(Seq::filter);
                assert(entries.take(i + 1).drop_last() =~= prev);
                assert(entries.take(i + 1).last() == entries[i as int]);
                if some_pred(entries[i as int]) {
                    assert(entries.take(i + 1).filter(some_pred) == prev.filter(some_pred).push(
                        entries[i as int],
                    ));
                    assert(entries.take(i + 1).filter(none_pred) == prev.filter(none_pred));
                } else {
                    assert(entries.take(i + 1).filter(some_pred) == prev.filter(some_pred));
                    assert(entries.take(i + 1).filter(none_pred) == prev.filter(none_pred).push(
                        entries[i as int],
                    ));
                }
            }
            match &self.disk.entries[i].mod_info {
                Some(m) => {
                    let dup = m.duplicate();
                    mods.push(dup);
                    proof {
                        assert(entries[i as int].mod_info->0 == m@);
                        assert(mods@.map_values(|m2: Mod| m2@) =~= prior.map_values(
                            |m2: Mod| m2@,
                        ).push(entries[i as int].mod_info->0));
                        assert(prev.filter(some_pred).push(entries[i as int]).map_values(
                            |e: crate::fs_model::CacheEntryDirView| e.mod_info->0,
                        ) =~= prev.filter(some_pred).map_values(
                            |e: crate::fs_model::CacheEntryDirView| e.mod_info->0,
                        ).push(entries[i as int].mod_info->0));
                    }
                },
                None => {
                    errors.push(Error::FilesystemError);
                },
            }
            i = i + 1;
        }
        proof {
            assert(entries.take(entries.len() as int) =~= entries);
        }
        self.cache_mod_list = mods;
        Ok(errors)
    }

    /// The metadata snapshot stored in one cache entry directory; a missing
    /// or unreadable snapshot is a filesystem error for that entry.
    pub fn get_mod_from_dir_in_cache(entry: &CacheEntryDir) -> (r: Result<Mod, Error>)
        ensures
            match r {
                Ok(m) => entry@.mod_info == Some(m@),
                Err(e) => e == Error::FilesystemError && entry@.mod_info is None,
            },
    {
        match &entry.mod_info {
            Some(m) => Ok(m.duplicate()),
            None => Err(Error::FilesystemError),
        }
    }

    /// The pruned view of `mod_to_update`: the same record with its version
    /// list cut down to exactly the versions whose subdirectories exist in
    /// this mod's cache entry. Availability decisions must use this view,
    /// never the raw snapshot.
    pub fn prune_extra_versions_from_mod(&self, mod_to_update: &Mod) -> (r: Result<Mod, Error>)
        requires
            self.wf(),
        ensures
            match r {
                Ok(p) => spec_has_entry(self.disk@.entries, mod_to_update.uuid@) && p@ == (ModView {
                    versions: mod_to_update@.versions.filter(
                        |v: VersionView| spec_has_version_dir(
                            spec_entry(self.disk@.entries, mod_to_update.uuid@).versions,
                            v.version_number,
                        ),
                    ),
                    ..mod_to_update@
                }),
                Err(e) => e == Error::NotFound && !spec_has_entry(
                    self.disk@.entries,
                    mod_to_update.uuid@,
                ),
            },
    {
        let idx = match self.disk.find_entry_index(&mod_to_update.uuid) {
            Some(i) => i,
            None => {
                return Err(Error::NotFound);
            },
        };
        let entry = &self.disk.entries[idx];
        let ghost ev = spec_entry(self.disk@.entries, mod_to_update.uuid@);
        let ghost pred = |v: VersionView| spec_has_version_dir(ev.versions, v.version_number);
        let ghost decl = mod_to_update@.versions;
        proof {
            assert(entry@ == ev);
            assert(spec_entry_wf(ev));
            assert(decl.take(0) =~= Seq::<VersionView>::empty());
            reveal(Seq::filter);
        }
        let mut kept: Vec<Version> = Vec::new();
        let mut i: usize = 0;
        while i < mod_to_update.versions.len()
            invariant
                i <= mod_to_update.versions.len(),
                decl == mod_to_update@.versions,
                decl.len() == mod_to_update.versions@.len(),
                ev == spec_entry(self.disk@.entries, mod_to_update.uuid@),
                entry@ == ev,
                spec_entry_wf(ev),
                pred == (|v: VersionView| spec_has_version_dir(ev.versions, v.version_number)),
                kept@.map_values(|v: Version| v@) =~= decl.take(i as int).filter(pred),
            decreases mod_to_update.versions.len() - i,
        {
            let ghost prev = decl.take(i as int);
            let ghost prior = kept@;
            proof {
                reveal(Seq::filter);
                assert(decl.take(i + 1).drop_last() =~= prev);
                assert(decl.take(i + 1).last() == decl[i as int]);
                assert(decl[i as int] == mod_to_update.versions@[i as int]@);
                if pred(decl[i as int]) {
                    assert(decl.take(i + 1).filter(pred) == prev.filter(pred).push(
                        decl[i as int],
                    ));
                } else {
                    assert(decl.take(i + 1).filter(pred) == prev.filter(pred));
                }
            }
            match entry.find_version_index(&mod_to_update.versions[i].version_number) {
                Some(_) => {
                    kept.push(mod_to_update.versions[i].duplicate());
                    proof {
                        assert(kept@.map_values(|v: Version| v@) =~= prior.map_values(
                            |v: Version| v@,
                        ).push(decl[i as int]));
                    }
                },
                None => {
                    proof {
                        assert(!pred(decl[i as int]));
                    }
                },
            }
            i = i + 1;
        }
        proof {
            assert(decl.take(decl.len() as int) =~= decl);
        }
        let pruned = mod_to_update.with_versions(kept);
        Ok(pruned)
    }

    /// Resolves the effective version of a request: a requested version must
    /// be declared by the registry record, and an omitted one means the most
    /// recent release.
    pub fn resolve_mod_version(&self, mod_id: &String, version: Option<&String>) -> (r: Result<
        String,
        Error,
    >)
        ensures
            match r {
                Ok(v) => spec_resolve_version(
                    self.thunderstore_mod_list@,
                    mod_id@,
                    match version {
                        Some(s) => Some(s@),
                        None => None,
                    },
                ) == Ok::<Seq<char>, Error>(v@),
                Err(e) => spec_resolve_version(
                    self.thunderstore_mod_list@,
                    mod_id@,
                    match version {
                        Some(s) => Some(s@),
                        None => None,
                    },
                ) == Err::<Seq<char>, Error>(e),
            },
    {
        let this_mod = match find_mod(&self.thunderstore_mod_list.mods, mod_id) {
            Some(m) => m,
            None => {
                return Err(Error::NotFound);
            },
        };
        match version {
            Some(requested) => match find_version(&this_mod.versions, requested) {
                Some(_) => Ok(requested.clone()),
                None => Err(Error::NotFound),
            },
            None => {
                if this_mod.versions.len() > 0 {
                    Ok(this_mod.versions[0].version_number.clone())
                } else {
                    Err(Error::NotFound)
                }
            },
        }
    }

    /// The first registry mod one of whose versions carries the
    /// fully-qualified name `full_name`; dependency references are written
    /// in this form.
    pub fn get_mod_from_full_mod_name(&self, full_name: &String) -> (r: Option<&Mod>)
        ensures
            match r {
                Some(m) => spec_find_mod_by_full_name(self.thunderstore_mod_list@, full_name@)
                    == Some(m@),
                None => spec_find_mod_by_full_name(self.thunderstore_mod_list@, full_name@)
                    is None,
            },
    {
        let mods = &self.thunderstore_mod_list.mods;
        let ghost all = self.thunderstore_mod_list@;
        proof {
            assert(all.skip(0) =~= all);
        }
        let mut i: usize = 0;
        while i < mods.len()
            invariant
                i <= mods.len(),
                all == self.thunderstore_mod_list@,
                mods == &self.thunderstore_mod_list.mods,
                spec_find_mod_by_full_name(all, full_name@) == spec_find_mod_by_full_name(
                    all.skip(i as int),
                    full_name@,
                ),
            decreases mods.len() - i,
        {
            let m = &mods[i];
            let mut found = false;
            let mut k: usize = 0;
            while k < m.versions.len()
                invariant
                    k <= m.versions.len(),
                    i < mods.len(),
                    all == self.thunderstore_mod_list@,
                    mods == &self.thunderstore_mod_list.mods,
                    m == &mods[i as int],
                    found == exists|j: int|
                        0 <= j < k && (#[trigger] m.versions@[j])@.full_name == full_name@,
                decreases m.versions.len() - k,
            {
                if m.versions[k].full_name == *full_name {
                    proof {
                        assert((m.versions@[k as int])@.full_name == full_name@);
                    }
                    found = true;
                }
                k = k + 1;
            }
            proof {
                assert(all[i as int].versions == m.versions@.map_values(|v: Version| v@));
                if found {
                    let j = choose|j: int|
                        0 <= j < m.versions@.len() && (#[trigger] m.versions@[j])@.full_name
                            == full_name@;
                    assert(all[i as int].versions[j].full_name == full_name@);
                } else {
                    if spec_mod_has_full_name(all[i as int], full_name@) {
                        let j = choose|j: int|
                            0 <= j < all[i as int].versions.len()
                                && all[i as int].versions[j].full_name == full_name@;
                        assert((m.versions@[j])@.full_name == full_name@);
                    }
                }
                assert(found == spec_mod_has_full_name(all[i as int], full_name@));
                assert(all.skip(i as int)[0] == all[i as int]);
            }
            if found {
                return Some(&mods[i]);
            }
            proof {
                assert(all.skip(i as int).drop_first() =~= all.skip(i + 1 as int));
            }
            i = i + 1;
        }
        proof {
            assert(all.skip(all.len() as int).len() == 0);
        }
        None
    }

    /// Whether the version `version` of the mod `uuid` is available
    /// locally, judged by the pruned view: the mod's snapshot must declare
    /// the version and its subdirectory must exist. With no version given,
    /// any cached state of the mod counts.
    pub fn is_mod_in_cache(&self, uuid: &String, version: Option<&String>) -> (r: bool)
        requires
            self.wf(),
        ensures
            r == match spec_find_mod(self.cache_mod_list@.map_values(|m: Mod| m@), uuid@) {
                None => false,
                Some(m) => spec_has_entry(self.disk@.entries, uuid@) && match version {
                    Some(v) => spec_find_version(m.versions, v@) is Some && spec_has_version_dir(
                        spec_entry(self.disk@.entries, uuid@).versions,
                        v@,
                    ),
                    None => true,
                },
            },
    {
        let m = match find_mod(&self.cache_mod_list, uuid) {
            Some(m) => m,
            None => {
                return false;
            },
        };
        let idx = match self.disk.find_entry_index(uuid) {
            Some(i) => i,
            None => {
                return false;
            },
        };
        match version {
            None => true,
            Some(v) => {
                let declared = match find_version(&m.versions, v) {
                    Some(_) => true,
                    None => false,
                };
                if !declared {
                    return false;
                }
                let entry = &self.disk.entries[idx];
                proof {
                    assert(spec_entry_wf(entry@));
                }
                match entry.find_version_index(v) {
                    Some(_) => true,
                    None => false,
                }
            },
        }
    }

    /// Deletes one cached version's subdirectory. Deleting a version that
    /// is not physically cached fails with `NotFound` and changes nothing;
    /// afterwards the in-memory list is reconciled with the cache again.
    pub fn remove_version_from_cache(&mut self, mod_to_update: &Mod, version: Version) -> (r:
        Result<(), Error>)
        requires
            old(self).wf(),
        ensures
            final(self).wf(),
            final(self).thunderstore_mod_list@ == old(self).thunderstore_mod_list@,
            match r {
                Ok(_) => {
                    &&& spec_version_cached(
                        old(self).disk@,
                        mod_to_update.uuid@,
                        version@.version_number,
                    )
                    &&& final(self).disk@.entries == old(self).disk@.entries.update(
                        spec_entry_index(old(self).disk@.entries, mod_to_update.uuid@),
                        crate::fs_model::CacheEntryDirView {
                            versions: spec_entry(
                                old(self).disk@.entries,
                                mod_to_update.uuid@,
                            ).versions.remove(
                                crate::fs_model::spec_version_dir_index(
                                    spec_entry(old(self).disk@.entries, mod_to_update.uuid@)
                                        .versions,
                                    version@.version_number,
                                ),
                            ),
                            ..spec_entry(old(self).disk@.entries, mod_to_update.uuid@)
                        },
                    )
                    &&& final(self).disk@.present
                    &&& final(self).cache_mod_list@.map_values(|m: Mod| m@)
                        == final(self).disk@.entries.filter(
                        |e: crate::fs_model::CacheEntryDirView| e.mod_info is Some,
                    ).map_values(|e: crate::fs_model::CacheEntryDirView| e.mod_info->0)
                },
                Err(e) => e == Error::NotFound && !spec_version_cached(
                    old(self).disk@,
                    mod_to_update.uuid@,
                    version@.version_number,
                ) && *final(self) == *old(self),
            },
    {
        let eidx = match self.disk.find_entry_index(&mod_to_update.uuid) {
            Some(i) => i,
            None => {
                return Err(Error::NotFound);
            },
        };
        proof {
            assert(spec_entry_wf(self.disk@.entries[eidx as int]));
        }
        let vidx = match self.disk.entries[eidx].find_version_index(&version.version_number) {
            Some(i) => i,
            None => {
                return Err(Error::NotFound);
            },
        };
        let ghost old_entries = self.disk@.entries;
        let ghost old_entry = old_entries[eidx as int];
        self.disk.entries[eidx].versions.remove(vidx);
        proof {
            let new_entry = self.disk@.entries[eidx as int];
            assert(new_entry.versions =~= old_entry.versions.remove(vidx as int));
            assert(self.disk@.entries =~= old_entries.update(
                eidx as int,
                crate::fs_model::CacheEntryDirView {
                    versions: old_entry.versions.remove(vidx as int),
                    ..old_entry
                },
            ));
            assert forall|j: int| 0 <= j < self.disk@.entries.len() implies spec_entry_wf(
                #[trigger] self.disk@.entries[j],
            ) by {
                if j == eidx as int {
                    assert forall|a: int, b: int|
                        0 <= a < b < new_entry.versions.len() implies new_entry.versions[a]
                        .version_number != new_entry.versions[b].version_number by {
                        assert(spec_entry_wf(old_entry));
                        if b < vidx as int {
                            assert(new_entry.versions[a] == old_entry.versions[a]);
                            assert(new_entry.versions[b] == old_entry.versions[b]);
                        } else if a < vidx as int {
                            assert(new_entry.versions[a] == old_entry.versions[a]);
                            assert(new_entry.versions[b] == old_entry.versions[b + 1]);
                        } else {
                            assert(new_entry.versions[a] == old_entry.versions[a + 1]);
                            assert(new_entry.versions[b] == old_entry.versions[b + 1]);
                        }
                    }
                    assert forall|a: int| 0 <= a < new_entry.versions.len() implies
                        crate::fs_model::spec_files_wf(
                        (#[trigger] new_entry.versions[a]).mod_files,
                    ) && crate::fs_model::spec_files_wf(new_entry.versions[a].user_files) by {
                        assert(spec_entry_wf(old_entry));
                        if a < vidx as int {
                            assert(new_entry.versions[a] == old_entry.versions[a]);
                            assert(crate::fs_model::spec_files_wf(
                                old_entry.versions[a].mod_files,
                            ) && crate::fs_model::spec_files_wf(
                                old_entry.versions[a].user_files,
                            ));
                        } else {
                            assert(new_entry.versions[a] == old_entry.versions[a + 1]);
                            assert(crate::fs_model::spec_files_wf(
                                old_entry.versions[a + 1].mod_files,
                            ) && crate::fs_model::spec_files_wf(
                                old_entry.versions[a + 1].user_files,
                            ));
                        }
                    }
                } else {
                    assert(self.disk@.entries[j] == old_entries[j]);
                }
            }
            assert(self.wf());
        }
        let refresh_result = self.update_self_from_cache();
        match refresh_result {
            Ok(_) => Ok(()),
            Err(e) => Err(e),
        }
    }

    /// Deletes a mod's whole cache entry, but only after checking that the
    /// doomed path lies below the configured cache root — a defensive guard
    /// against a misconfigured root. A mod with no entry is `NotFound`.
    pub fn remove_mod_from_cache(&mut self, config: &Config, mod_to_remove: &Mod) -> (r: Result<
        (),
        Error,
    >)
        requires
            old(self).wf(),
        ensures
            final(self).wf(),
            final(self).thunderstore_mod_list@ == old(self).thunderstore_mod_list@,
            final(self).cache_mod_list@ == old(self).cache_mod_list@,
            match r {
                Ok(_) => spec_has_entry(old(self).disk@.entries, mod_to_remove.uuid@)
                    && final(self).disk@.entries == old(self).disk@.entries.remove(
                    spec_entry_index(old(self).disk@.entries, mod_to_remove.uuid@),
                ) && final(self).disk@.present == old(self).disk@.present,
                Err(e) => e == Error::NotFound && !spec_has_entry(
                    old(self).disk@.entries,
                    mod_to_remove.uuid@,
                ) && *final(self) == *old(self),
            },
    {
        let eidx = match self.disk.find_entry_index(&mod_to_remove.uuid) {
            Some(i) => i,
            None => {
                return Err(Error::NotFound);
            },
        };
        let doomed = crate::paths::join(
            config.mod_cache_directory.as_str(),
            mod_to_remove.uuid.as_str(),
        );
        let ghost old_entries = self.disk@.entries;
        if crate::paths::path_is_descendant(doomed.as_str(), config.mod_cache_directory.as_str()) {
            self.disk.entries.remove(eidx);
            proof {
                assert(self.disk@.entries =~= old_entries.remove(eidx as int));
                assert forall|j: int, k: int|
                    0 <= j < k < self.disk@.entries.len() implies self.disk@.entries[j].mod_id
                    != self.disk@.entries[k].mod_id by {
                    if k < eidx as int {
                        assert(self.disk@.entries[j] == old_entries[j]);
                        assert(self.disk@.entries[k] == old_entries[k]);
                    } else if j < eidx as int {
                        assert(self.disk@.entries[j] == old_entries[j]);
                        assert(self.disk@.entries[k] == old_entries[k + 1]);
                    } else {
                        assert(self.disk@.entries[j] == old_entries[j + 1]);
                        assert(self.disk@.entries[k] == old_entries[k + 1]);
                    }
                }
                assert forall|j: int| 0 <= j < self.disk@.entries.len() implies spec_entry_wf(
                    #[trigger] self.disk@.entries[j],
                ) by {
                    if j < eidx as int {
                        assert(self.disk@.entries[j] == old_entries[j]);
                    } else {
                        assert(self.disk@.entries[j] == old_entries[j + 1]);
                    }
                }
            }
            Ok(())
        } else {
            proof {
                crate::paths::lemma_join_is_descendant(
                    config.mod_cache_directory@,
                    mod_to_remove.uuid@,
                );
                assert(false);
            }
            Ok(())
        }
    }

    /// Deletes every cached version of a mod except the most recent one of
    /// its pruned view, then reconciles the in-memory list. The mod must be
    /// present in the cached-mod list and have a cache entry; a pruned view
    /// with no versions leaves the entry untouched.
    pub fn remove_old_versions_from_cache(&mut self, mod_to_update: &Mod) -> (r: Result<(), Error>)
        requires
            old(self).wf(),
        ensures
            final(self).wf(),
            final(self).thunderstore_mod_list@ == old(self).thunderstore_mod_list@,
            match r {
                Ok(_) => {
                    &&& spec_find_mod(
                        old(self).cache_mod_list@.map_values(|m: Mod| m@),
                        mod_to_update.uuid@,
                    ) is Some
                    &&& spec_has_entry(old(self).disk@.entries, mod_to_update.uuid@)
                    &&& final(self).disk@.entries == old(self).disk@.entries.update(
                        spec_entry_index(old(self).disk@.entries, mod_to_update.uuid@),
                        crate::fs_model::CacheEntryDirView {
                            versions: spec_trimmed_versions(
                                spec_find_mod(
                                    old(self).cache_mod_list@.map_values(|m: Mod| m@),
                                    mod_to_update.uuid@,
                                )->0.versions,
                                spec_entry(old(self).disk@.entries, mod_to_update.uuid@).versions,
                            ),
                            ..spec_entry(old(self).disk@.entries, mod_to_update.uuid@)
                        },
                    )
                    &&& final(self).disk@.present
                    &&& final(self).cache_mod_list@.map_values(|m: Mod| m@)
                        == final(self).disk@.entries.filter(
                        |e: crate::fs_model::CacheEntryDirView| e.mod_info is Some,
                    ).map_values(|e: crate::fs_model::CacheEntryDirView| e.mod_info->0)
                },
                Err(e) => e == Error::NotFound && *final(self) == *old(self) && (spec_find_mod(
                    old(self).cache_mod_list@.map_values(|m: Mod| m@),
                    mod_to_update.uuid@,
                ) is None || !spec_has_entry(old(self).disk@.entries, mod_to_update.uuid@)),
            },
    {
        let snapshot = match find_mod(&self.cache_mod_list, &mod_to_update.uuid) {
            Some(m) => m,
            None => {
                return Err(Error::NotFound);
            },
        };
        proof {
            crate::registry::lemma_find_mod_characterises(
                self.cache_mod_list@.map_values(|m: Mod| m@),
                mod_to_update.uuid@,
            );
        }
        let pruned = match self.prune_extra_versions_from_mod(snapshot) {
            Ok(p) => p,
            Err(e) => {
                return Err(e);
            },
        };
        let ghost declared = snapshot@.versions;
        let ghost old_entries = self.disk@.entries;
        let ghost old_entry = spec_entry(old_entries, mod_to_update.uuid@);
        let ghost pruned_views = pruned@.versions;
        let ghost keep = |d: crate::fs_model::VersionDirView|
            pruned_views.len() == 0 || d.version_number == pruned_views[0].version_number
                || spec_find_version(pruned_views, d.version_number) is None;
        proof {
            assert(snapshot@.uuid == mod_to_update.uuid@);
        }
        let eidx = match self.disk.find_entry_index(&snapshot.uuid) {
            Some(i) => i,
            None => {
                proof {
                    assert(false);
                }
                return Err(Error::NotFound);
            },
        };
        let entry = &self.disk.entries[eidx];
        let ghost dirs = old_entry.versions;
        proof {
            assert(entry@ == old_entry);
            assert(spec_entry_wf(old_entry));
            assert(dirs.take(0) =~= Seq::<crate::fs_model::VersionDirView>::empty());
            reveal(Seq::filter);
        }
        let mut kept: Vec<crate::fs_model::VersionDir> = Vec::new();
        let mut i: usize = 0;
        while i < entry.versions.len()
            invariant
                i <= entry.versions.len(),
                dirs == entry@.versions,
                dirs.len() == entry.versions@.len(),
                pruned_views == pruned@.versions,
                pruned_views.len() == pruned.versions@.len(),
                keep == (|d: crate::fs_model::VersionDirView|
                    pruned_views.len() == 0 || d.version_number == pruned_views[0].version_number
                        || spec_find_version(pruned_views, d.version_number) is None),
                kept@.map_values(|d: crate::fs_model::VersionDir| d@) =~= dirs.take(
                    i as int,
                ).filter(keep),
            decreases entry.versions.len() - i,
        {
            let ghost prev = dirs.take(i as int);
            let ghost prior = kept@;
            proof {
                reveal(Seq::filter);
                assert(dirs.take(i + 1).drop_last() =~= prev);
                assert(dirs.take(i + 1).last() == dirs[i as int]);
                if keep(dirs[i as int]) {
                    assert(dirs.take(i + 1).filter(keep) == prev.filter(keep).push(
                        dirs[i as int],
                    ));
                } else {
                    assert(dirs.take(i + 1).filter(keep) == prev.filter(keep));
                }
            }
            let name = &entry.versions[i].version_number;
            let keep_this = if pruned.versions.len() == 0 {
                true
            } else if crate::text::str_eq(name.as_str(), pruned.versions[0].version_number.as_str()) {
                proof {
                    assert(pruned_views[0].version_number == pruned.versions@[0]@.version_number);
                }
                true
            } else {
                match find_version(&pruned.versions, name) {
                    Some(_) => false,
                    None => true,
                }
            };
            proof {
                assert(keep_this == keep(dirs[i as int]));
            }
            if keep_this {
                kept.push(entry.versions[i].duplicate());
                proof {
                    assert(kept@.map_values(|d: crate::fs_model::VersionDir| d@)
                        =~= prior.map_values(|d: crate::fs_model::VersionDir| d@).push(
                        dirs[i as int],
                    ));
                }
            }
            i = i + 1;
        }
        proof {
            assert(dirs.take(dirs.len() as int) =~= dirs);
            assert(kept@.map_values(|d: crate::fs_model::VersionDir| d@) =~= dirs.filter(keep));
        }
        self.disk.entries[eidx].versions = kept;
        proof {
            let new_entry = self.disk@.entries[eidx as int];
            assert(new_entry.versions == dirs.filter(keep));
            assert(spec_trimmed_versions(declared, dirs) == dirs.filter(keep));
            assert(self.disk@.entries =~= old_entries.update(
                eidx as int,
                crate::fs_model::CacheEntryDirView {
                    versions: spec_trimmed_versions(declared, dirs),
                    ..old_entry
                },
            ));
            crate::fs_model::lemma_filter_dirs_distinct(dirs, keep);
            assert forall|j: int| 0 <= j < self.disk@.entries.len() implies spec_entry_wf(
                #[trigger] self.disk@.entries[j],
            ) by {
                if j == eidx as int {
                    assert forall|a: int| 0 <= a < new_entry.versions.len() implies
                        crate::fs_model::spec_files_wf(
                        (#[trigger] new_entry.versions[a]).mod_files,
                    ) && crate::fs_model::spec_files_wf(new_entry.versions[a].user_files) by {
                        assert(new_entry.versions.contains(new_entry.versions[a]));
                        assert(dirs.contains(new_entry.versions[a]));
                        let b = choose|b: int|
                            0 <= b < dirs.len() && dirs[b] == new_entry.versions[a];
                        assert(spec_entry_wf(old_entry));
                    }
                } else {
                    assert(self.disk@.entries[j] == old_entries[j]);
                }
            }
            assert(self.wf());
        }
        let refresh_result = self.update_self_from_cache();
        match refresh_result {
            Ok(_) => Ok(()),
            Err(e) => Err(e),
        }
    }

    /// The registry records of everything one version of `mod_to_get`
    /// depends on, in declared order. The version is resolved like
    /// [`ModCache::resolve_mod_version`]; a dependency name that no
    /// registry mod carries fails the whole call with `NotFound`.
    pub fn get_mod_dependencies<'a>(
        &'a self,
        mod_to_get: &'a Mod,
        version_to_get: Option<&String>,
    ) -> (r: Result<Vec<&'a Mod>, Error>)
        ensures
            match r {
                Ok(deps) => {
                    &&& spec_resolve_version(
                        self.thunderstore_mod_list@,
                        mod_to_get.uuid@,
                        match version_to_get {
                            Some(s) => Some(s@),
                            None => None,
                        },
                    ) is Ok
                    &&& spec_find_version(
                        mod_to_get@.versions,
                        spec_resolve_version(
                            self.thunderstore_mod_list@,
                            mod_to_get.uuid@,
                            match version_to_get {
                                Some(s) => Some(s@),
                                None => None,
                            },
                        )->Ok_0,
                    ) matches Some(v) && deps@.len() == v.dependencies.len() && forall|k: int|
                        0 <= k < deps@.len() ==> spec_find_mod_by_full_name(
                            self.thunderstore_mod_list@,
                            v.dependencies[k],
                        ) == Some((#[trigger] deps@[k])@)
                },
                Err(e) => e == Error::NotFound,
            },
            r is Ok <==> (spec_resolve_version(
                self.thunderstore_mod_list@,
                mod_to_get.uuid@,
                spec_requested(version_to_get),
            ) is Ok && spec_find_version(
                mod_to_get@.versions,
                spec_resolve_version(
                    self.thunderstore_mod_list@,
                    mod_to_get.uuid@,
                    spec_requested(version_to_get),
                )->Ok_0,
            ) is Some && spec_all_deps_owned(
                self.thunderstore_mod_list@,
                spec_find_version(
                    mod_to_get@.versions,
                    spec_resolve_version(
                        self.thunderstore_mod_list@,
                        mod_to_get.uuid@,
                        spec_requested(version_to_get),
                    )->Ok_0,
                )->0.dependencies,
            )),
    {
        proof {
            assert(spec_requested(version_to_get) == (match version_to_get {
                Some(s) => Some(s@),
                None => None,
            }));
        }
        let resolved = match self.resolve_mod_version(&mod_to_get.uuid, version_to_get) {
            Ok(v) => v,
            Err(_) => {
                proof {
                    assert(spec_resolve_version(
                        self.thunderstore_mod_list@,
                        mod_to_get.uuid@,
                        spec_requested(version_to_get),
                    ) is Err);
                }
                return Err(Error::NotFound);
            },
        };
        let version = match find_version(&mod_to_get.versions, &resolved) {
            Some(v) => v,
            None => {
                proof {
                    assert(spec_find_version(mod_to_get@.versions, resolved@) is None);
                }
                return Err(Error::NotFound);
            },
        };
        let ghost vv = version@;
        proof {
            assert(spec_find_version(mod_to_get@.versions, resolved@) == Some(vv));
        }
        let mut deps: Vec<&'a Mod> = Vec::new();
        let mut k: usize = 0;
        while k < version.dependencies.len()
            invariant
                k <= version.dependencies.len(),
                vv == version@,
                vv.dependencies.len() == version.dependencies@.len(),
                spec_resolve_version(
                    self.thunderstore_mod_list@,
                    mod_to_get.uuid@,
                    spec_requested(version_to_get),
                ) == Ok::<Seq<char>, Error>(resolved@),
                spec_find_version(mod_to_get@.versions, resolved@) == Some(vv),
                deps@.len() == k,
                forall|j: int|
                    0 <= j < k ==> spec_find_mod_by_full_name(
                        self.thunderstore_mod_list@,
                        vv.dependencies[j],
                    ) == Some((#[trigger] deps@[j])@),
            decreases version.dependencies.len() - k,
        {
            proof {
                assert(vv.dependencies[k as int] == version.dependencies@[k as int]@);
            }
            match self.get_mod_from_full_mod_name(&version.dependencies[k]) {
                Some(dep) => {
                    deps.push(dep);
                },
                None => {
                    proof {
                        assert(spec_find_mod_by_full_name(
                            self.thunderstore_mod_list@,
                            vv.dependencies[k as int],
                        ) is None);
                        assert(!spec_all_deps_owned(
                            self.thunderstore_mod_list@,
                            vv.dependencies,
                        ));
                        assert(spec_resolve_version(
                            self.thunderstore_mod_list@,
                            mod_to_get.uuid@,
                            spec_requested(version_to_get),
                        )->Ok_0 == resolved@);
                        assert(spec_find_version(
                            mod_to_get@.versions,
                            spec_resolve_version(
                                self.thunderstore_mod_list@,
                                mod_to_get.uuid@,
                                spec_requested(version_to_get),
                            )->Ok_0,
                        )->0 == vv);
                    }
                    return Err(Error::NotFound);
                },
            }
            k = k + 1;
        }
        proof {
            assert forall|d: int| 0 <= d < vv.dependencies.len() implies spec_find_mod_by_full_name(
                self.thunderstore_mod_list@,
                #[trigger] vv.dependencies[d],
            ) is Some by {
                assert(spec_find_mod_by_full_name(
                    self.thunderstore_mod_list@,
                    vv.dependencies[d],
                ) == Some(deps@[d]@));
            }
            assert(spec_all_deps_owned(self.thunderstore_mod_list@, vv.dependencies));
        }
        Ok(deps)
    }

    /// Records one successfully downloaded and extracted version in the
    /// cache: creates the mod's entry if needed, stores the payload under
    /// the version's subdirectory unless it already exists, and overwrites
    /// the metadata snapshot. Only this mod's entry is touched; previously
    /// cached versions are never modified.
    pub fn commit_version(
        &mut self,
        the_mod: &Mod,
        version: &String,
        payload: crate::resolver::PackagePayload,
    ) -> (r: Result<(), Error>)
        requires
            old(self).wf(),
            crate::fs_model::spec_files_wf(payload@.mod_files),
            crate::fs_model::spec_files_wf(payload@.user_files),
        ensures
            final(self).wf(),
            final(self).thunderstore_mod_list@ == old(self).thunderstore_mod_list@,
            final(self).cache_mod_list@ == old(self).cache_mod_list@,
            final(self).disk@.present,
            r is Ok,
            final(self).disk@.entries == spec_commit_entries(
                old(self).disk@.entries,
                the_mod@,
                version@,
                payload@,
            ),
            spec_version_cached(final(self).disk@, the_mod.uuid@, version@),
            forall|idx: Seq<char>, v: Seq<char>|
                #![trigger spec_version_cached(old(self).disk@, idx, v)]
                spec_version_cached(old(self).disk@, idx, v) ==> spec_version_cached(
                    final(self).disk@,
                    idx,
                    v,
                ) && crate::fs_model::spec_version_dir(
                    spec_entry(final(self).disk@.entries, idx).versions,
                    v,
                ) == crate::fs_model::spec_version_dir(
                    spec_entry(old(self).disk@.entries, idx).versions,
                    v,
                ),
    {
        let ghost old_entries = self.disk@.entries;
        let ghost pv = payload@;
        match self.disk.find_entry_index(&the_mod.uuid) {
            Some(e) => {
                proof {
                    assert(spec_entry_wf(old_entries[e as int]));
                }
                let has_dir = match self.disk.entries[e].find_version_index(version) {
                    Some(_) => true,
                    None => false,
                };
                self.disk.entries[e].mod_info = Some(the_mod.duplicate());
                if !has_dir {
                    self.disk.entries[e].versions.push(
                        crate::fs_model::VersionDir {
                            version_number: version.clone(),
                            mod_files: payload.mod_files,
                            user_files: payload.user_files,
                        },
                    );
                }
                proof {
                    let old_entry = old_entries[e as int];
                    let new_entry = self.disk@.entries[e as int];
                    assert(new_entry.versions =~= if spec_has_version_dir(
                        old_entry.versions,
                        version@,
                    ) {
                        old_entry.versions
                    } else {
                        old_entry.versions.push(spec_new_version_dir(version@, pv))
                    });
                    assert(self.disk@.entries =~= spec_commit_entries(
                        old_entries,
                        the_mod@,
                        version@,
                        pv,
                    ));
                    assert forall|j: int| 0 <= j < self.disk@.entries.len() implies spec_entry_wf(
                        #[trigger] self.disk@.entries[j],
                    ) by {
                        if j == e as int {
                            assert(spec_entry_wf(old_entry));
                            if !spec_has_version_dir(old_entry.versions, version@) {
                                let nv = new_entry.versions;
                                assert forall|a: int, b: int|
                                    0 <= a < b < nv.len() implies nv[a].version_number
                                    != nv[b].version_number by {
                                    if b < nv.len() - 1 {
                                        assert(nv[a] == old_entry.versions[a]);
                                        assert(nv[b] == old_entry.versions[b]);
                                    } else {
                                        assert(nv[a] == old_entry.versions[a]);
                                        if nv[a].version_number == version@ {
                                            assert(spec_has_version_dir(
                                                old_entry.versions,
                                                version@,
                                            ));
                                        }
                                    }
                                }
                                assert forall|a: int| 0 <= a < nv.len() implies
                                    crate::fs_model::spec_files_wf(
                                    (#[trigger] nv[a]).mod_files,
                                ) && crate::fs_model::spec_files_wf(nv[a].user_files) by {
                                    if a < nv.len() - 1 {
                                        assert(nv[a] == old_entry.versions[a]);
                                    } else {
                                        assert(nv[a] == spec_new_version_dir(version@, pv));
                                        assert(nv[a].mod_files == pv.mod_files);
                                        assert(nv[a].user_files == pv.user_files);
                                    }
                                }
                            }
                        } else {
                            assert(self.disk@.entries[j] == old_entries[j]);
                        }
                    }
                    lemma_commit_preserves_cached(old_entries, the_mod@, version@, pv);
                }
            },
            None => {
                let mut dirs: Vec<crate::fs_model::VersionDir> = Vec::new();
                dirs.push(
                    crate::fs_model::VersionDir {
                        version_number: version.clone(),
                        mod_files: payload.mod_files,
                        user_files: payload.user_files,
                    },
                );
                self.disk.entries.push(
                    CacheEntryDir {
                        mod_id: the_mod.uuid.clone(),
                        mod_info: Some(the_mod.duplicate()),
                        versions: dirs,
                    },
                );
                proof {
                    let new_entry = self.disk@.entries[old_entries.len() as int];
                    assert(new_entry.versions =~= seq![spec_new_version_dir(version@, pv)]);
                    assert(self.disk@.entries =~= spec_commit_entries(
                        old_entries,
                        the_mod@,
                        version@,
                        pv,
                    ));
                    assert forall|j: int, k: int|
                        0 <= j < k < self.disk@.entries.len() implies self.disk@.entries[j].mod_id
                        != self.disk@.entries[k].mod_id by {
                        if k < old_entries.len() {
                            assert(self.disk@.entries[j] == old_entries[j]);
                            assert(self.disk@.entries[k] == old_entries[k]);
                        } else {
                            assert(self.disk@.entries[j] == old_entries[j]);
                            if old_entries[j].mod_id == the_mod.uuid@ {
                                assert(spec_has_entry(old_entries, the_mod.uuid@));
                            }
                        }
                    }
                    assert forall|j: int| 0 <= j < self.disk@.entries.len() implies spec_entry_wf(
                        #[trigger] self.disk@.entries[j],
                    ) by {
                        if j < old_entries.len() {
                            assert(self.disk@.entries[j] == old_entries[j]);
                        } else {
                            assert(self.disk@.entries[j] == new_entry);
                        }
                    }
                    lemma_commit_preserves_cached(old_entries, the_mod@, version@, pv);
                }
            },
        }
        self.disk.present = true;
        Ok(())
    }

    /// Materialises every item of a plan that is not cached yet, from the
    /// packages the caller downloaded, and marks each planned mod enabled —
    /// also the ones whose materialisation was skipped as already cached. A
    /// missing delivery is a `NetworkFailure`; a failed one aborts with the
    /// failure the shell classified, leaving the items before it cached and
    /// enabled.
    pub fn apply_cache_plan(
        &mut self,
        options: &mut LocalModOptions,
        items: &Vec<PlanItem>,
        fetched: &Vec<FetchedPackage>,
    ) -> (r: Result<(), Error>)
        requires
            old(self).wf(),
            old(options).wf(),
            forall|j: int|
                0 <= j < items@.len() ==> crate::resolver::spec_item_valid(
                    old(self).thunderstore_mod_list@,
                    (#[trigger] items@[j])@,
                ),
            forall|j: int, k: int|
                0 <= j < k < items@.len() ==> items@[j]@.mod_id != items@[k]@.mod_id,
            forall|j: int|
                0 <= j < fetched@.len() ==> match (#[trigger] fetched@[j])@.result {
                    Ok(p) => crate::fs_model::spec_files_wf(p.mod_files)
                        && crate::fs_model::spec_files_wf(p.user_files),
                    Err(e) => e == Error::NetworkFailure || e == Error::ArchiveError,
                },
        ensures
            final(self).wf(),
            final(options).wf(),
            final(self).thunderstore_mod_list@ == old(self).thunderstore_mod_list@,
            final(self).cache_mod_list@ == old(self).cache_mod_list@,
            forall|id: Seq<char>, v: Seq<char>|
                #![trigger spec_version_cached(old(self).disk@, id, v)]
                spec_version_cached(old(self).disk@, id, v) ==> spec_version_cached(
                    final(self).disk@,
                    id,
                    v,
                ) && crate::fs_model::spec_version_dir(
                    spec_entry(final(self).disk@.entries, id).versions,
                    v,
                ) == crate::fs_model::spec_version_dir(
                    spec_entry(old(self).disk@.entries, id).versions,
                    v,
                ),
            forall|id: Seq<char>|
                #![trigger crate::options::spec_has_row(old(options)@, id)]
                crate::options::spec_has_row(old(options)@, id)
                    ==> crate::options::spec_has_row(final(options)@, id)
                    && crate::options::spec_row(final(options)@, id).version
                    == crate::options::spec_row(old(options)@, id).version
                    && crate::options::spec_row(final(options)@, id).version_lock
                    == crate::options::spec_row(old(options)@, id).version_lock,
            forall|id: Seq<char>|
                #![trigger crate::options::spec_has_row(final(options)@, id)]
                !crate::resolver::spec_plan_has_id(items@.map_values(|x: PlanItem| x@), id)
                    ==> crate::options::spec_has_row(final(options)@, id)
                    == crate::options::spec_has_row(old(options)@, id) && (
                crate::options::spec_has_row(old(options)@, id)
                    ==> crate::options::spec_row(final(options)@, id) == crate::options::spec_row(
                    old(options)@,
                    id,
                )),
            r is Ok ==> forall|j: int|
                0 <= j < items@.len() ==> spec_version_cached(
                    final(self).disk@,
                    (#[trigger] items@[j])@.mod_id,
                    items@[j]@.version,
                ),
            r is Ok ==> forall|j: int|
                0 <= j < items@.len() ==> crate::options::spec_has_row(
                    final(options)@,
                    (#[trigger] items@[j])@.mod_id,
                ) && crate::options::spec_row(final(options)@, items@[j]@.mod_id).enabled && (
                !crate::options::spec_has_row(old(options)@, items@[j]@.mod_id)
                    ==> crate::options::spec_row(final(options)@, items@[j]@.mod_id).version
                    == items@[j]@.version && !crate::options::spec_row(
                    final(options)@,
                    items@[j]@.mod_id,
                ).version_lock) && (crate::options::spec_has_row(old(options)@, items@[j]@.mod_id)
                    ==> crate::options::spec_row(final(options)@, items@[j]@.mod_id)
                    == (crate::options::ModOptionsView {
                    enabled: true,
                    ..crate::options::spec_row(old(options)@, items@[j]@.mod_id)
                })),
            r is Err ==> (r->Err_0 == Error::NetworkFailure || r->Err_0 == Error::ArchiveError),
            (forall|j: int|
                0 <= j < items@.len() ==> spec_version_cached(
                    old(self).disk@,
                    (#[trigger] items@[j])@.mod_id,
                    items@[j]@.version,
                ) || (crate::resolver::spec_find_fetch(
                    fetched@.map_values(|f: FetchedPackage| f@),
                    items@[j]@.mod_id,
                    items@[j]@.version,
                ) matches Some(f) && f.result is Ok)) ==> r is Ok,
    {
        let ghost reg = self.thunderstore_mod_list@;
        let ghost iv = items@.map_values(|x: PlanItem| x@);
        let ghost fv = fetched@.map_values(|f: FetchedPackage| f@);
        let ghost rows0 = options@;
        let mut i: usize = 0;
        while i < items.len()
            invariant
                self.wf(),
                options.wf(),
                i <= items.len(),
                iv == items@.map_values(|x: PlanItem| x@),
                fv == fetched@.map_values(|f: FetchedPackage| f@),
                iv.len() == items@.len(),
                rows0 == old(options)@,
                reg == self.thunderstore_mod_list@,
                reg == old(self).thunderstore_mod_list@,
                self.cache_mod_list@ == old(self).cache_mod_list@,
                forall|j: int|
                    0 <= j < iv.len() ==> crate::resolver::spec_item_valid(reg, #[trigger] iv[j]),
                forall|j: int, k: int| 0 <= j < k < iv.len() ==> iv[j].mod_id != iv[k].mod_id,
                forall|j: int|
                    0 <= j < fetched@.len() ==> match (#[trigger] fetched@[j])@.result {
                        Ok(p) => crate::fs_model::spec_files_wf(p.mod_files)
                            && crate::fs_model::spec_files_wf(p.user_files),
                        Err(e) => e == Error::NetworkFailure || e == Error::ArchiveError,
                    },
                forall|id: Seq<char>, v: Seq<char>|
                    #![trigger spec_version_cached(old(self).disk@, id, v)]
                    spec_version_cached(old(self).disk@, id, v) ==> spec_version_cached(
                        self.disk@,
                        id,
                        v,
                    ) && crate::fs_model::spec_version_dir(
                        spec_entry(self.disk@.entries, id).versions,
                        v,
                    ) == crate::fs_model::spec_version_dir(
                        spec_entry(old(self).disk@.entries, id).versions,
                        v,
                    ),
                forall|j: int|
                    0 <= j < i ==> spec_version_cached(
                        self.disk@,
                        (#[trigger] iv[j]).mod_id,
                        iv[j].version,
                    ),
                forall|id: Seq<char>|
                    #![trigger crate::options::spec_has_row(rows0, id)]
                    crate::options::spec_has_row(rows0, id) ==> crate::options::spec_has_row(
                        options@,
                        id,
                    ) && crate::options::spec_row(options@, id).version
                        == crate::options::spec_row(rows0, id).version
                        && crate::options::spec_row(options@, id).version_lock
                        == crate::options::spec_row(rows0, id).version_lock,
                forall|id: Seq<char>|
                    #![trigger crate::options::spec_has_row(options@, id)]
                    !crate::resolver::spec_plan_has_id(iv, id)
                        ==> crate::options::spec_has_row(options@, id)
                        == crate::options::spec_has_row(rows0, id) && (
                    crate::options::spec_has_row(rows0, id) ==> crate::options::spec_row(
                        options@,
                        id,
                    ) == crate::options::spec_row(rows0, id)),
                forall|j: int|
                    0 <= j < i ==> crate::options::spec_has_row(
                        options@,
                        (#[trigger] iv[j]).mod_id,
                    ) && crate::options::spec_row(options@, iv[j].mod_id).enabled && (
                    !crate::options::spec_has_row(rows0, iv[j].mod_id)
                        ==> crate::options::spec_row(options@, iv[j].mod_id).version
                        == iv[j].version && !crate::options::spec_row(
                        options@,
                        iv[j].mod_id,
                    ).version_lock) && (crate::options::spec_has_row(rows0, iv[j].mod_id)
                        ==> crate::options::spec_row(options@, iv[j].mod_id)
                        == (crate::options::ModOptionsView {
                        enabled: true,
                        ..crate::options::spec_row(rows0, iv[j].mod_id)
                    })),
                forall|j: int|
                    i <= j < iv.len() ==> crate::options::spec_has_row(
                        options@,
                        (#[trigger] iv[j]).mod_id,
                    ) == crate::options::spec_has_row(rows0, iv[j].mod_id) && (
                    crate::options::spec_has_row(rows0, iv[j].mod_id)
                        ==> crate::options::spec_row(options@, iv[j].mod_id)
                        == crate::options::spec_row(rows0, iv[j].mod_id)),
            decreases items.len() - i,
        {
            let item_id = items[i].mod_id.clone();
            let item_version = items[i].version.clone();
            proof {
                assert(iv[i as int].mod_id == item_id@);
                assert(iv[i as int].version == item_version@);
            }
            let already = match self.disk.find_entry_index(&item_id) {
                Some(e) => {
                    proof {
                        assert(spec_entry_wf(self.disk@.entries[e as int]));
                    }
                    match self.disk.entries[e].find_version_index(&item_version) {
                        Some(_) => true,
                        None => false,
                    }
                },
                None => false,
            };
            proof {
                assert(already == spec_version_cached(self.disk@, item_id@, item_version@));
            }
            if !already {
                let pkg = match crate::resolver::find_fetch(fetched, &item_id, &item_version) {
                    Some(p) => p,
                    None => {
                        return Err(Error::NetworkFailure);
                    },
                };
                let payload = match &pkg.result {
                    Ok(p) => crate::resolver::PackagePayload {
                        mod_files: crate::fs_model::duplicate_files(&p.mod_files),
                        user_files: crate::fs_model::duplicate_files(&p.user_files),
                    },
                    Err(e) => {
                        let failure = *e;
                        proof {
                            let j = choose|j: int|
                                0 <= j < fetched@.len() && (#[trigger] fetched@[j])@ == pkg@;
                        }
                        return Err(failure);
                    },
                };
                proof {
                    let j = choose|j: int|
                        0 <= j < fetched@.len() && (#[trigger] fetched@[j])@ == pkg@;
                    assert(payload@.mod_files == pkg@.result->Ok_0.mod_files);
                }
                let record = match find_mod(&self.thunderstore_mod_list.mods, &item_id) {
                    Some(m) => m.duplicate(),
                    None => {
                        proof {
                            assert(crate::resolver::spec_item_valid(reg, iv[i as int]));
                            assert(false);
                        }
                        return Err(Error::NotFound);
                    },
                };
                proof {
                    crate::registry::lemma_find_mod_characterises(reg, item_id@);
                }
                let ghost disk_before = self.disk@;
                let _ = self.commit_version(&record, &item_version, payload);
                proof {
                    lemma_commit_preserves_cached(
                        disk_before.entries,
                        record@,
                        item_version@,
                        payload@,
                    );
                    assert(record@.uuid == item_id@);
                    assert forall|id: Seq<char>, v: Seq<char>|
                        spec_version_cached(disk_before, id, v) implies spec_version_cached(
                        self.disk@,
                        id,
                        v,
                    ) by {}
                }
            }
            let ghost rows_before = options@;
            options.enable_mod_at_version(&item_id, &item_version);
            proof {
                crate::options::lemma_spec_enable_props(rows_before, item_id@, item_version@);
                assert forall|j: int| 0 <= j < i + 1 implies crate::options::spec_has_row(
                    options@,
                    (#[trigger] iv[j]).mod_id,
                ) && crate::options::spec_row(options@, iv[j].mod_id).enabled && (
                !crate::options::spec_has_row(rows0, iv[j].mod_id)
                    ==> crate::options::spec_row(options@, iv[j].mod_id).version == iv[j].version
                    && !crate::options::spec_row(options@, iv[j].mod_id).version_lock) && (
                crate::options::spec_has_row(rows0, iv[j].mod_id)
                    ==> crate::options::spec_row(options@, iv[j].mod_id)
                    == (crate::options::ModOptionsView {
                    enabled: true,
                    ..crate::options::spec_row(rows0, iv[j].mod_id)
                })) by {
                    if j < i as int {
                        assert(iv[j].mod_id != item_id@);
                    }
                }
                assert forall|j: int|
                    i + 1 <= j < iv.len() implies crate::options::spec_has_row(
                    options@,
                    (#[trigger] iv[j]).mod_id,
                ) == crate::options::spec_has_row(rows0, iv[j].mod_id) && (
                crate::options::spec_has_row(rows0, iv[j].mod_id)
                    ==> crate::options::spec_row(options@, iv[j].mod_id)
                    == crate::options::spec_row(rows0, iv[j].mod_id)) by {
                    assert(iv[j].mod_id != item_id@);
                }
                assert forall|id: Seq<char>|
                    !crate::resolver::spec_plan_has_id(iv, id)
                        implies #[trigger] crate::options::spec_has_row(options@, id)
                    == crate::options::spec_has_row(rows0, id) && (crate::options::spec_has_row(
                    rows0,
                    id,
                ) ==> crate::options::spec_row(options@, id) == crate::options::spec_row(
                    rows0,
                    id,
                )) by {
                    assert(iv[i as int].mod_id == item_id@);
                    assert(id != item_id@);
                }
            }
            i = i + 1;
        }
        proof {
            assert forall|j: int| 0 <= j < items@.len() implies iv[j] == (
            #[trigger] items@[j])@ by {}
        }
        Ok(())
    }

    /// Caches `version_name` of the mod `id` — at the registry's most
    /// recent version when none is given — together with every transitive
    /// dependency at its own most recent version, marks them all enabled,
    /// and reconciles the in-memory list. Versions already cached are
    /// skipped without touching their files. Returns the registry's current
    /// record of the requested mod, unchanged.
    pub fn cache_mod_by_mod_id(
        &mut self,
        options: &mut LocalModOptions,
        id: &String,
        version_name: Option<&String>,
        fetched: &Vec<FetchedPackage>,
    ) -> (r: Result<Mod, Error>)
        requires
            old(self).wf(),
            old(options).wf(),
            forall|j: int|
                0 <= j < fetched@.len() ==> match (#[trigger] fetched@[j])@.result {
                    Ok(p) => crate::fs_model::spec_files_wf(p.mod_files)
                        && crate::fs_model::spec_files_wf(p.user_files),
                    Err(e) => e == Error::NetworkFailure || e == Error::ArchiveError,
                },
        ensures
            final(self).wf(),
            final(options).wf(),
            final(self).thunderstore_mod_list@ == old(self).thunderstore_mod_list@,
            forall|idx: Seq<char>, v: Seq<char>|
                #![trigger spec_version_cached(old(self).disk@, idx, v)]
                spec_version_cached(old(self).disk@, idx, v) ==> spec_version_cached(
                    final(self).disk@,
                    idx,
                    v,
                ) && crate::fs_model::spec_version_dir(
                    spec_entry(final(self).disk@.entries, idx).versions,
                    v,
                ) == crate::fs_model::spec_version_dir(
                    spec_entry(old(self).disk@.entries, idx).versions,
                    v,
                ),
            forall|idx: Seq<char>|
                #![trigger crate::options::spec_has_row(old(options)@, idx)]
                crate::options::spec_has_row(old(options)@, idx)
                    ==> crate::options::spec_has_row(final(options)@, idx)
                    && crate::options::spec_row(final(options)@, idx).version
                    == crate::options::spec_row(old(options)@, idx).version
                    && crate::options::spec_row(final(options)@, idx).version_lock
                    == crate::options::spec_row(old(options)@, idx).version_lock,
            spec_cache_request_satisfiable(
                old(self).thunderstore_mod_list@,
                id@,
                spec_requested(version_name),
                old(self).disk@,
                fetched@.map_values(|f: FetchedPackage| f@),
            ) ==> r is Ok,
            spec_resolve_version(
                old(self).thunderstore_mod_list@,
                id@,
                spec_requested(version_name),
            ) is Err ==> r == Err::<Mod, Error>(Error::NotFound),
            spec_resolve_version(
                old(self).thunderstore_mod_list@,
                id@,
                spec_requested(version_name),
            ) is Ok && (exists|mid: Seq<char>, n: nat|
                #[trigger] crate::resolver::spec_id_reachable(
                    old(self).thunderstore_mod_list@,
                    id@,
                    spec_resolve_version(
                        old(self).thunderstore_mod_list@,
                        id@,
                        spec_requested(version_name),
                    )->Ok_0,
                    mid,
                    n,
                ) && !spec_all_deps_owned(
                    old(self).thunderstore_mod_list@,
                    crate::resolver::spec_pair_deps(
                        old(self).thunderstore_mod_list@,
                        mid,
                        crate::resolver::spec_canon_version(
                            old(self).thunderstore_mod_list@,
                            id@,
                            spec_resolve_version(
                                old(self).thunderstore_mod_list@,
                                id@,
                                spec_requested(version_name),
                            )->Ok_0,
                            mid,
                        ),
                    ),
                )) ==> r == Err::<Mod, Error>(Error::NotFound),
            match r {
                Ok(m) => {
                    &&& spec_find_mod(old(self).thunderstore_mod_list@, id@) == Some(m@)
                    &&& crate::options::spec_has_row(final(options)@, id@)
                    &&& crate::options::spec_row(final(options)@, id@).enabled
                    &&& spec_resolve_version(
                        old(self).thunderstore_mod_list@,
                        id@,
                        match version_name {
                            Some(s) => Some(s@),
                            None => None,
                        },
                    ) is Ok
                    &&& spec_version_cached(
                        final(self).disk@,
                        id@,
                        spec_resolve_version(
                            old(self).thunderstore_mod_list@,
                            id@,
                            match version_name {
                                Some(s) => Some(s@),
                                None => None,
                            },
                        )->Ok_0,
                    )
                    &&& exists|plan: Seq<crate::resolver::PlanItemView>|
                        #[trigger] crate::resolver::spec_good_plan(
                            old(self).thunderstore_mod_list@,
                            id@,
                            spec_requested(version_name),
                            plan,
                        ) && forall|j: int|
                            0 <= j < plan.len() ==> spec_version_cached(
                                final(self).disk@,
                                (#[trigger] plan[j]).mod_id,
                                plan[j].version,
                            ) && crate::options::spec_has_row(final(options)@, plan[j].mod_id)
                                && crate::options::spec_row(final(options)@, plan[j].mod_id)
                                .enabled && (!crate::options::spec_has_row(
                                old(options)@,
                                plan[j].mod_id,
                            ) ==> crate::options::spec_row(
                                final(options)@,
                                plan[j].mod_id,
                            ).version == plan[j].version && !crate::options::spec_row(
                                final(options)@,
                                plan[j].mod_id,
                            ).version_lock) && (crate::options::spec_has_row(
                                old(options)@,
                                plan[j].mod_id,
                            ) ==> crate::options::spec_row(final(options)@, plan[j].mod_id)
                                == (crate::options::ModOptionsView {
                                enabled: true,
                                ..crate::options::spec_row(old(options)@, plan[j].mod_id)
                            }))
                    &&& final(self).disk@.present
                    &&& final(self).cache_mod_list@.map_values(|m2: Mod| m2@)
                        == final(self).disk@.entries.filter(
                        |e: crate::fs_model::CacheEntryDirView| e.mod_info is Some,
                    ).map_values(|e: crate::fs_model::CacheEntryDirView| e.mod_info->0)
                },
                Err(e) => e == Error::NotFound || e == Error::NetworkFailure || e
                    == Error::ArchiveError,
            },
    {
        let plan = match self.plan_cache(id, version_name) {
            Ok(p) => p,
            Err(e) => {
                return Err(e);
            },
        };
        let ghost plan_views = plan@.map_values(|x: PlanItem| x@);
        let ghost reg0 = self.thunderstore_mod_list@;
        let ghost req0 = spec_requested(version_name);
        let ghost rv0 = spec_resolve_version(reg0, id@, req0)->Ok_0;
        let ghost fv = fetched@.map_values(|f: FetchedPackage| f@);
        proof {
            assert forall|j: int| 0 <= j < plan@.len() implies plan_views[j] == (
            #[trigger] plan@[j])@ by {}
            assert(crate::resolver::spec_good_plan(reg0, id@, req0, plan_views));
            assert(plan_views[0].version == rv0);
            // A reachable dependency name owned by no registry mod would
            // contradict the plan's closedness.
            if exists|mid: Seq<char>, n: nat|
                #[trigger] crate::resolver::spec_id_reachable(reg0, id@, rv0, mid, n)
                    && !spec_all_deps_owned(
                    reg0,
                    crate::resolver::spec_pair_deps(
                        reg0,
                        mid,
                        crate::resolver::spec_canon_version(reg0, id@, rv0, mid),
                    ),
                ) {
                let (mid, n) = choose|mid: Seq<char>, n: nat|
                    #[trigger] crate::resolver::spec_id_reachable(reg0, id@, rv0, mid, n)
                        && !spec_all_deps_owned(
                        reg0,
                        crate::resolver::spec_pair_deps(
                            reg0,
                            mid,
                            crate::resolver::spec_canon_version(reg0, id@, rv0, mid),
                        ),
                    );
                crate::resolver::lemma_dependency_closure(
                    reg0,
                    plan_views,
                    id@,
                    rv0,
                    mid,
                    n,
                );
                let k = choose|k: int|
                    0 <= k < plan_views.len() && plan_views[k].mod_id == mid;
                assert(crate::resolver::spec_item_closed(reg0, plan_views, plan_views[k]));
                assert(plan_views[k].version == crate::resolver::spec_canon_version(
                    reg0,
                    id@,
                    rv0,
                    mid,
                ));
                assert(crate::resolver::spec_item_deps(reg0, plan_views[k])
                    == crate::resolver::spec_pair_deps(reg0, mid, plan_views[k].version));
                assert forall|d: int|
                    0 <= d < crate::resolver::spec_pair_deps(
                        reg0,
                        mid,
                        crate::resolver::spec_canon_version(reg0, id@, rv0, mid),
                    ).len() implies spec_find_mod_by_full_name(
                    reg0,
                    #[trigger] crate::resolver::spec_pair_deps(
                        reg0,
                        mid,
                        crate::resolver::spec_canon_version(reg0, id@, rv0, mid),
                    )[d],
                ) is Some by {
                    assert(crate::resolver::spec_item_deps(reg0, plan_views[k])[d]
                        == crate::resolver::spec_pair_deps(
                        reg0,
                        mid,
                        crate::resolver::spec_canon_version(reg0, id@, rv0, mid),
                    )[d]);
                }
                assert(spec_all_deps_owned(
                    reg0,
                    crate::resolver::spec_pair_deps(
                        reg0,
                        mid,
                        crate::resolver::spec_canon_version(reg0, id@, rv0, mid),
                    ),
                ));
                assert(false);
            }
            // A fully covered request makes every planned item cached or
            // soundly delivered.
            if spec_cache_request_satisfiable(reg0, id@, req0, self.disk@, fv) {
                assert forall|j: int| 0 <= j < plan@.len() implies spec_version_cached(
                    self.disk@,
                    (#[trigger] plan@[j])@.mod_id,
                    plan@[j]@.version,
                ) || (crate::resolver::spec_find_fetch(
                    fv,
                    plan@[j]@.mod_id,
                    plan@[j]@.version,
                ) matches Some(f) && f.result is Ok) by {
                    assert(plan_views[j] == plan@[j]@);
                    assert(crate::resolver::spec_id_reachable(
                        reg0,
                        id@,
                        rv0,
                        plan_views[j].mod_id,
                        j as nat,
                    ));
                    assert(plan_views[j].version == crate::resolver::spec_canon_version(
                        reg0,
                        id@,
                        rv0,
                        plan_views[j].mod_id,
                    ));
                }
            }
        }
        match self.apply_cache_plan(options, &plan, fetched) {
            Ok(_) => {},
            Err(e) => {
                proof {
                    if spec_cache_request_satisfiable(reg0, id@, req0, old(self).disk@, fv) {
                        assert(false);
                    }
                }
                return Err(e);
            },
        }
        let _soft_errors = match self.update_self_from_cache() {
            Ok(errs) => errs,
            Err(e) => {
                return Err(e);
            },
        };
        let record = match find_mod(&self.thunderstore_mod_list.mods, id) {
            Some(m) => m.duplicate(),
            None => {
                proof {
                    assert(false);
                }
                return Err(Error::NotFound);
            },
        };
        proof {
            assert(crate::resolver::spec_good_plan(
                self.thunderstore_mod_list@,
                id@,
                match version_name {
                    Some(s) => Some(s@),
                    None => None,
                },
                plan_views,
            ));
            assert(plan_views[0].mod_id == id@);
            assert(plan_views[0] == plan@[0]@);
        }
        Ok(record)
    }

    /// Brings one mod to the registry's most recent version, honouring the
    /// version lock: a locked mod is left exactly as it is — selected
    /// version, options and on-disk cache all unchanged — and the call
    /// still succeeds. A mod with no options row is `NotFound`. Otherwise
    /// the most recent version is cached with its dependencies and recorded
    /// as the mod's selected version.
    pub fn update_mod(
        &mut self,
        options: &mut LocalModOptions,
        mod_to_update: &Mod,
        fetched: &Vec<FetchedPackage>,
    ) -> (r: Result<(), Error>)
        requires
            old(self).wf(),
            old(options).wf(),
            forall|j: int|
                0 <= j < fetched@.len() ==> match (#[trigger] fetched@[j])@.result {
                    Ok(p) => crate::fs_model::spec_files_wf(p.mod_files)
                        && crate::fs_model::spec_files_wf(p.user_files),
                    Err(e) => e == Error::NetworkFailure || e == Error::ArchiveError,
                },
        ensures
            final(self).wf(),
            final(options).wf(),
            final(self).thunderstore_mod_list@ == old(self).thunderstore_mod_list@,
            forall|idx: Seq<char>, v: Seq<char>|
                #![trigger spec_version_cached(old(self).disk@, idx, v)]
                spec_version_cached(old(self).disk@, idx, v) ==> spec_version_cached(
                    final(self).disk@,
                    idx,
                    v,
                ) && crate::fs_model::spec_version_dir(
                    spec_entry(final(self).disk@.entries, idx).versions,
                    v,
                ) == crate::fs_model::spec_version_dir(
                    spec_entry(old(self).disk@.entries, idx).versions,
                    v,
                ),
            forall|idx: Seq<char>|
                #![trigger crate::options::spec_has_row(old(options)@, idx)]
                crate::options::spec_has_row(old(options)@, idx)
                    ==> crate::options::spec_has_row(final(options)@, idx)
                    && crate::options::spec_row(final(options)@, idx).version_lock
                    == crate::options::spec_row(old(options)@, idx).version_lock
                    && (idx != mod_to_update.uuid@ ==> crate::options::spec_row(
                    final(options)@,
                    idx,
                ).version == crate::options::spec_row(old(options)@, idx).version),
            r is Err && crate::options::spec_has_row(old(options)@, mod_to_update.uuid@)
                ==> crate::options::spec_row(final(options)@, mod_to_update.uuid@).version
                == crate::options::spec_row(old(options)@, mod_to_update.uuid@).version,
            crate::options::spec_has_row(old(options)@, mod_to_update.uuid@) && (
            crate::options::spec_row(old(options)@, mod_to_update.uuid@).version_lock || (
            spec_resolve_version(old(self).thunderstore_mod_list@, mod_to_update.uuid@, None)
                is Ok && spec_cache_request_satisfiable(
                old(self).thunderstore_mod_list@,
                mod_to_update.uuid@,
                Some(
                    spec_resolve_version(
                        old(self).thunderstore_mod_list@,
                        mod_to_update.uuid@,
                        None,
                    )->Ok_0,
                ),
                old(self).disk@,
                fetched@.map_values(|f: FetchedPackage| f@),
            ))) ==> r is Ok,
            !crate::options::spec_has_row(old(options)@, mod_to_update.uuid@) ==> r == Err::<
                (),
                Error,
            >(Error::NotFound) && *final(self) == *old(self) && final(options)@ == old(options)@,
            crate::options::spec_has_row(old(options)@, mod_to_update.uuid@)
                && crate::options::spec_row(old(options)@, mod_to_update.uuid@).version_lock ==> r
                is Ok && *final(self) == *old(self) && final(options)@ == old(options)@,
            r is Ok && crate::options::spec_has_row(old(options)@, mod_to_update.uuid@)
                && !crate::options::spec_row(old(options)@, mod_to_update.uuid@).version_lock ==> {
                &&& spec_resolve_version(
                    old(self).thunderstore_mod_list@,
                    mod_to_update.uuid@,
                    None,
                ) is Ok
                &&& spec_version_cached(
                    final(self).disk@,
                    mod_to_update.uuid@,
                    spec_resolve_version(
                        old(self).thunderstore_mod_list@,
                        mod_to_update.uuid@,
                        None,
                    )->Ok_0,
                )
                &&& crate::options::spec_has_row(final(options)@, mod_to_update.uuid@)
                &&& crate::options::spec_row(final(options)@, mod_to_update.uuid@).version
                    == spec_resolve_version(
                    old(self).thunderstore_mod_list@,
                    mod_to_update.uuid@,
                    None,
                )->Ok_0
                &&& exists|plan: Seq<crate::resolver::PlanItemView>|
                    #[trigger] crate::resolver::spec_good_plan(
                        old(self).thunderstore_mod_list@,
                        mod_to_update.uuid@,
                        Some(
                            spec_resolve_version(
                                old(self).thunderstore_mod_list@,
                                mod_to_update.uuid@,
                                None,
                            )->Ok_0,
                        ),
                        plan,
                    ) && forall|j: int|
                        0 <= j < plan.len() ==> spec_version_cached(
                            final(self).disk@,
                            (#[trigger] plan[j]).mod_id,
                            plan[j].version,
                        ) && crate::options::spec_has_row(final(options)@, plan[j].mod_id)
                            && crate::options::spec_row(final(options)@, plan[j].mod_id).enabled
            },
            r is Err ==> r->Err_0 == Error::NotFound || r->Err_0 == Error::NetworkFailure
                || r->Err_0 == Error::ArchiveError,
    {
        let locked = match options.get_version_lock(&mod_to_update.uuid) {
            Some(l) => l,
            None => {
                return Err(Error::NotFound);
            },
        };
        if locked {
            return Ok(());
        }
        let latest = match self.resolve_mod_version(&mod_to_update.uuid, None) {
            Ok(v) => v,
            Err(e) => {
                return Err(e);
            },
        };
        match self.cache_mod_by_mod_id(options, &mod_to_update.uuid, Some(&latest), fetched) {
            Ok(_) => {},
            Err(e) => {
                proof {
                    if spec_cache_request_satisfiable(
                        old(self).thunderstore_mod_list@,
                        mod_to_update.uuid@,
                        Some(latest@),
                        old(self).disk@,
                        fetched@.map_values(|f: FetchedPackage| f@),
                    ) {
                        assert(spec_requested(Some(&latest)) == Some(latest@));
                        assert(false);
                    }
                }
                return Err(e);
            },
        }
        let ghost rows_before = options@;
        let set_result = options.set_mod_version(&mod_to_update.uuid, &latest);
        proof {
            crate::options::lemma_spec_set_version_props(
                rows_before,
                mod_to_update.uuid@,
                latest@,
            );
            assert(crate::options::spec_has_row(rows_before, mod_to_update.uuid@));
            let i = crate::options::spec_row_index(rows_before, mod_to_update.uuid@);
            assert(0 <= i < rows_before.len() && rows_before[i].id == mod_to_update.uuid@);
            assert(options@[i].id == mod_to_update.uuid@);
            assert(crate::options::spec_has_row(options@, mod_to_update.uuid@));
            let i2 = crate::options::spec_row_index(options@, mod_to_update.uuid@);
            assert(0 <= i2 < options@.len() && options@[i2].id == mod_to_update.uuid@);
            if i2 != i {
                assert(rows_before[i2].id == mod_to_update.uuid@);
                assert(false);
            }
            assert forall|x: Seq<char>| crate::options::spec_has_row(rows_before, x) implies
                #[trigger] crate::options::spec_has_row(options@, x) by {
                let j = choose|j: int| 0 <= j < rows_before.len() && rows_before[j].id == x;
                assert(options@[j].id == x);
            }
            let reg = old(self).thunderstore_mod_list@;
            assert(spec_requested(Some(&latest)) == Some(latest@));
            let plan = choose|plan: Seq<crate::resolver::PlanItemView>|
                #[trigger] crate::resolver::spec_good_plan(
                    reg,
                    mod_to_update.uuid@,
                    spec_requested(Some(&latest)),
                    plan,
                ) && forall|j: int|
                    0 <= j < plan.len() ==> spec_version_cached(
                        self.disk@,
                        (#[trigger] plan[j]).mod_id,
                        plan[j].version,
                    ) && crate::options::spec_has_row(rows_before, plan[j].mod_id)
                        && crate::options::spec_row(rows_before, plan[j].mod_id).enabled;
            assert forall|j: int| 0 <= j < plan.len() implies spec_version_cached(
                self.disk@,
                (#[trigger] plan[j]).mod_id,
                plan[j].version,
            ) && crate::options::spec_has_row(options@, plan[j].mod_id)
                && crate::options::spec_row(options@, plan[j].mod_id).enabled by {
                assert(crate::options::spec_has_row(rows_before, plan[j].mod_id));
                if plan[j].mod_id == mod_to_update.uuid@ {
                    assert(crate::options::spec_row(options@, plan[j].mod_id)
                        == (crate::options::ModOptionsView {
                        version: latest@,
                        ..crate::options::spec_row(rows_before, plan[j].mod_id)
                    }));
                } else {
                    assert(crate::options::spec_row(options@, plan[j].mod_id)
                        == crate::options::spec_row(rows_before, plan[j].mod_id));
                }
            }
        }
        set_result
    }

    /// Applies [`ModCache::update_mod`] to every mod of the cached-mod
    /// list, in list order, stopping at the first error. Locked mods are
    /// passed over untouched.
    pub fn update_all_mods(
        &mut self,
        options: &mut LocalModOptions,
        fetched: &Vec<FetchedPackage>,
    ) -> (r: Result<(), Error>)
        requires
            old(self).wf(),
            old(options).wf(),
            forall|j: int|
                0 <= j < fetched@.len() ==> match (#[trigger] fetched@[j])@.result {
                    Ok(p) => crate::fs_model::spec_files_wf(p.mod_files)
                        && crate::fs_model::spec_files_wf(p.user_files),
                    Err(e) => e == Error::NetworkFailure || e == Error::ArchiveError,
                },
        ensures
            final(self).wf(),
            final(options).wf(),
            final(self).thunderstore_mod_list@ == old(self).thunderstore_mod_list@,
            forall|idx: Seq<char>, v: Seq<char>|
                #![trigger spec_version_cached(old(self).disk@, idx, v)]
                spec_version_cached(old(self).disk@, idx, v) ==> spec_version_cached(
                    final(self).disk@,
                    idx,
                    v,
                ),
            forall|idx: Seq<char>|
                #![trigger crate::options::spec_has_row(old(options)@, idx)]
                crate::options::spec_has_row(old(options)@, idx)
                    ==> crate::options::spec_has_row(final(options)@, idx)
                    && crate::options::spec_row(final(options)@, idx).version_lock
                    == crate::options::spec_row(old(options)@, idx).version_lock,
            r is Ok ==> forall|j: int|
                0 <= j < old(self).cache_mod_list@.len() ==> crate::options::spec_has_row(
                    final(options)@,
                    (#[trigger] old(self).cache_mod_list@[j])@.uuid,
                ),
            (forall|j: int|
                0 <= j < old(self).cache_mod_list@.len() ==> crate::options::spec_has_row(
                    old(options)@,
                    (#[trigger] old(self).cache_mod_list@[j])@.uuid,
                ) && (crate::options::spec_row(
                    old(options)@,
                    old(self).cache_mod_list@[j]@.uuid,
                ).version_lock || (spec_resolve_version(
                    old(self).thunderstore_mod_list@,
                    old(self).cache_mod_list@[j]@.uuid,
                    None,
                ) is Ok && spec_cache_request_satisfiable(
                    old(self).thunderstore_mod_list@,
                    old(self).cache_mod_list@[j]@.uuid,
                    Some(
                        spec_resolve_version(
                            old(self).thunderstore_mod_list@,
                            old(self).cache_mod_list@[j]@.uuid,
                            None,
                        )->Ok_0,
                    ),
                    old(self).disk@,
                    fetched@.map_values(|f: FetchedPackage| f@),
                )))) ==> r is Ok,
            r is Ok && (forall|a: int, b: int|
                0 <= a < b < old(self).cache_mod_list@.len()
                    ==> (#[trigger] old(self).cache_mod_list@[a])@.uuid != (
                    #[trigger] old(self).cache_mod_list@[b])@.uuid) ==> forall|j: int|
                0 <= j < old(self).cache_mod_list@.len() && crate::options::spec_has_row(
                    old(options)@,
                    (#[trigger] old(self).cache_mod_list@[j])@.uuid,
                ) ==> (crate::options::spec_row(
                    old(options)@,
                    old(self).cache_mod_list@[j]@.uuid,
                ).version_lock ==> crate::options::spec_row(
                    final(options)@,
                    old(self).cache_mod_list@[j]@.uuid,
                ).version == crate::options::spec_row(
                    old(options)@,
                    old(self).cache_mod_list@[j]@.uuid,
                ).version) && (!crate::options::spec_row(
                    old(options)@,
                    old(self).cache_mod_list@[j]@.uuid,
                ).version_lock ==> spec_resolve_version(
                    old(self).thunderstore_mod_list@,
                    old(self).cache_mod_list@[j]@.uuid,
                    None,
                ) is Ok && crate::options::spec_row(
                    final(options)@,
                    old(self).cache_mod_list@[j]@.uuid,
                ).version == spec_resolve_version(
                    old(self).thunderstore_mod_list@,
                    old(self).cache_mod_list@[j]@.uuid,
                    None,
                )->Ok_0 && spec_version_cached(
                    final(self).disk@,
                    old(self).cache_mod_list@[j]@.uuid,
                    spec_resolve_version(
                        old(self).thunderstore_mod_list@,
                        old(self).cache_mod_list@[j]@.uuid,
                        None,
                    )->Ok_0,
                )),
            r is Err ==> r->Err_0 == Error::NotFound || r->Err_0 == Error::NetworkFailure
                || r->Err_0 == Error::ArchiveError,
    {
        let ghost initial_list = self.cache_mod_list@;
        let mut snapshot: Vec<Mod> = Vec::new();
        let mut i: usize = 0;
        while i < self.cache_mod_list.len()
            invariant
                i <= self.cache_mod_list.len(),
                initial_list == self.cache_mod_list@,
                snapshot@.len() == i,
                forall|j: int| 0 <= j < i ==> (#[trigger] snapshot@[j])@ == initial_list[j]@,
            decreases self.cache_mod_list.len() - i,
        {
            snapshot.push(self.cache_mod_list[i].duplicate());
            i = i + 1;
        }
        let mut k: usize = 0;
        while k < snapshot.len()
            invariant
                self.wf(),
                options.wf(),
                k <= snapshot.len(),
                snapshot@.len() == initial_list.len(),
                initial_list == old(self).cache_mod_list@,
                forall|j: int| 0 <= j < snapshot@.len() ==> (#[trigger] snapshot@[j])@
                    == initial_list[j]@,
                self.thunderstore_mod_list@ == old(self).thunderstore_mod_list@,
                forall|j: int|
                    0 <= j < fetched@.len() ==> match (#[trigger] fetched@[j])@.result {
                        Ok(p) => crate::fs_model::spec_files_wf(p.mod_files)
                            && crate::fs_model::spec_files_wf(p.user_files),
                        Err(e) => e == Error::NetworkFailure || e == Error::ArchiveError,
                    },
                forall|idx: Seq<char>, v: Seq<char>|
                    #![trigger spec_version_cached(old(self).disk@, idx, v)]
                    spec_version_cached(old(self).disk@, idx, v) ==> spec_version_cached(
                        self.disk@,
                        idx,
                        v,
                    ),
                forall|idx: Seq<char>|
                    #![trigger crate::options::spec_has_row(old(options)@, idx)]
                    crate::options::spec_has_row(old(options)@, idx)
                        ==> crate::options::spec_has_row(options@, idx)
                        && crate::options::spec_row(options@, idx).version_lock
                        == crate::options::spec_row(old(options)@, idx).version_lock,
                forall|j: int|
                    0 <= j < k ==> crate::options::spec_has_row(
                        options@,
                        (#[trigger] initial_list[j])@.uuid,
                    ),
                (forall|a: int, b: int|
                    0 <= a < b < initial_list.len() ==> (#[trigger] initial_list[a])@.uuid != (
                    #[trigger] initial_list[b])@.uuid) ==> forall|j: int|
                    0 <= j < k && crate::options::spec_has_row(
                        old(options)@,
                        (#[trigger] initial_list[j])@.uuid,
                    ) ==> (crate::options::spec_row(
                        old(options)@,
                        initial_list[j]@.uuid,
                    ).version_lock ==> crate::options::spec_row(
                        options@,
                        initial_list[j]@.uuid,
                    ).version == crate::options::spec_row(
                        old(options)@,
                        initial_list[j]@.uuid,
                    ).version) && (!crate::options::spec_row(
                        old(options)@,
                        initial_list[j]@.uuid,
                    ).version_lock ==> spec_resolve_version(
                        old(self).thunderstore_mod_list@,
                        initial_list[j]@.uuid,
                        None,
                    ) is Ok && crate::options::spec_row(
                        options@,
                        initial_list[j]@.uuid,
                    ).version == spec_resolve_version(
                        old(self).thunderstore_mod_list@,
                        initial_list[j]@.uuid,
                        None,
                    )->Ok_0 && spec_version_cached(
                        self.disk@,
                        initial_list[j]@.uuid,
                        spec_resolve_version(
                            old(self).thunderstore_mod_list@,
                            initial_list[j]@.uuid,
                            None,
                        )->Ok_0,
                    )),
                (forall|a: int, b: int|
                    0 <= a < b < initial_list.len() ==> (#[trigger] initial_list[a])@.uuid != (
                    #[trigger] initial_list[b])@.uuid) ==> forall|j: int|
                    k <= j < initial_list.len() && crate::options::spec_has_row(
                        old(options)@,
                        (#[trigger] initial_list[j])@.uuid,
                    ) ==> crate::options::spec_row(options@, initial_list[j]@.uuid).version
                        == crate::options::spec_row(old(options)@, initial_list[j]@.uuid).version,
            decreases snapshot.len() - k,
        {
            let ghost rows_at_k = options@;
            let ghost disk_at_k = self.disk@;
            let ghost uuid_k = initial_list[k as int]@.uuid;
            proof {
                assert(snapshot@[k as int]@.uuid == uuid_k);
            }
            match self.update_mod(options, &snapshot[k], fetched) {
                Ok(_) => {},
                Err(e) => {
                    proof {
                        if forall|j: int|
                            0 <= j < initial_list.len() ==> crate::options::spec_has_row(
                                old(options)@,
                                (#[trigger] initial_list[j])@.uuid,
                            ) && (crate::options::spec_row(
                                old(options)@,
                                initial_list[j]@.uuid,
                            ).version_lock || (spec_resolve_version(
                                old(self).thunderstore_mod_list@,
                                initial_list[j]@.uuid,
                                None,
                            ) is Ok && spec_cache_request_satisfiable(
                                old(self).thunderstore_mod_list@,
                                initial_list[j]@.uuid,
                                Some(
                                    spec_resolve_version(
                                        old(self).thunderstore_mod_list@,
                                        initial_list[j]@.uuid,
                                        None,
                                    )->Ok_0,
                                ),
                                old(self).disk@,
                                fetched@.map_values(|f: FetchedPackage| f@),
                            ))) {
                            assert(crate::options::spec_has_row(old(options)@, uuid_k));
                            assert(crate::options::spec_has_row(rows_at_k, uuid_k));
                            assert(crate::options::spec_row(rows_at_k, uuid_k).version_lock
                                == crate::options::spec_row(old(options)@, uuid_k).version_lock);
                            if !crate::options::spec_row(old(options)@, uuid_k).version_lock {
                                lemma_satisfiable_monotone(
                                    old(self).thunderstore_mod_list@,
                                    uuid_k,
                                    Some(
                                        spec_resolve_version(
                                            old(self).thunderstore_mod_list@,
                                            uuid_k,
                                            None,
                                        )->Ok_0,
                                    ),
                                    old(self).disk@,
                                    disk_at_k,
                                    fetched@.map_values(|f: FetchedPackage| f@),
                                );
                            }
                            assert(false);
                        }
                    }
                    return Err(e);
                },
            }
            proof {
                assert(crate::options::spec_has_row(rows_at_k, snapshot@[k as int]@.uuid));
                if forall|a: int, b: int|
                    0 <= a < b < initial_list.len() ==> (#[trigger] initial_list[a])@.uuid != (
                    #[trigger] initial_list[b])@.uuid {
                    assert forall|j: int|
                        0 <= j < k + 1 && crate::options::spec_has_row(
                            old(options)@,
                            (#[trigger] initial_list[j])@.uuid,
                        ) implies (crate::options::spec_row(
                        old(options)@,
                        initial_list[j]@.uuid,
                    ).version_lock ==> crate::options::spec_row(
                        options@,
                        initial_list[j]@.uuid,
                    ).version == crate::options::spec_row(
                        old(options)@,
                        initial_list[j]@.uuid,
                    ).version) && (!crate::options::spec_row(
                        old(options)@,
                        initial_list[j]@.uuid,
                    ).version_lock ==> spec_resolve_version(
                        old(self).thunderstore_mod_list@,
                        initial_list[j]@.uuid,
                        None,
                    ) is Ok && crate::options::spec_row(
                        options@,
                        initial_list[j]@.uuid,
                    ).version == spec_resolve_version(
                        old(self).thunderstore_mod_list@,
                        initial_list[j]@.uuid,
                        None,
                    )->Ok_0 && spec_version_cached(
                        self.disk@,
                        initial_list[j]@.uuid,
                        spec_resolve_version(
                            old(self).thunderstore_mod_list@,
                            initial_list[j]@.uuid,
                            None,
                        )->Ok_0,
                    )) by {
                        if j < k as int {
                            assert(initial_list[j]@.uuid != uuid_k);
                            assert(crate::options::spec_has_row(rows_at_k, initial_list[j]@.uuid));
                            assert(crate::options::spec_row(
                                options@,
                                initial_list[j]@.uuid,
                            ).version == crate::options::spec_row(
                                rows_at_k,
                                initial_list[j]@.uuid,
                            ).version);
                        } else {
                            assert(crate::options::spec_has_row(rows_at_k, uuid_k));
                            assert(crate::options::spec_row(rows_at_k, uuid_k).version_lock
                                == crate::options::spec_row(old(options)@, uuid_k).version_lock);
                            assert(crate::options::spec_row(rows_at_k, uuid_k).version
                                == crate::options::spec_row(old(options)@, uuid_k).version);
                            if crate::options::spec_row(old(options)@, uuid_k).version_lock {
                                assert(options@ == rows_at_k);
                            }
                        }
                    }
                    assert forall|j: int|
                        k + 1 <= j < initial_list.len() && crate::options::spec_has_row(
                            old(options)@,
                            (#[trigger] initial_list[j])@.uuid,
                        ) implies crate::options::spec_row(
                        options@,
                        initial_list[j]@.uuid,
                    ).version == crate::options::spec_row(
                        old(options)@,
                        initial_list[j]@.uuid,
                    ).version by {
                        assert(initial_list[j]@.uuid != uuid_k);
                        assert(crate::options::spec_has_row(rows_at_k, initial_list[j]@.uuid));
                        assert(crate::options::spec_row(options@, initial_list[j]@.uuid).version
                            == crate::options::spec_row(rows_at_k, initial_list[j]@.uuid).version);
                    }
                }
            }
            k = k + 1;
        }
        Ok(())
    }

    /// Whether the registry record `mod_to_check` declares `version` at
    /// all; this looks only at the record, never at the cache.
    pub fn does_mod_have_version(&self, mod_to_check: &Mod, version: &String) -> (r: Option<bool>)
        ensures
            r == Some(spec_find_version(mod_to_check@.versions, version@) is Some),
    {
        match find_version(&mod_to_check.versions, version) {
            Some(_) => Some(true),
            None => Some(false),
        }
    }
}

} // verus!
