//! Synchronisation of cached payloads into the game's directories.
//!
//! Mod files always overwrite a same-named file in the target; user data is
//! copied only where no file of that name exists yet, so a resync can never
//! clobber saves or settings.

use vstd::prelude::*;

use crate::fs_model::{
    lemma_has_file_push, spec_file, spec_file_index, spec_files_wf, spec_has_file, FileEntry,
    FileEntryView,
};

verus! {

/// The target directory after copying every top-level `source` file into
/// `target`: a same-named target file is replaced only when `overwrite`
/// holds, kept untouched otherwise, and source files with fresh names are
/// appended in order.
pub open spec fn spec_pushed(
    target: Seq<FileEntryView>,
    source: Seq<FileEntryView>,
    overwrite: bool,
) -> Seq<FileEntryView> {
    target.map_values(
        |f: FileEntryView|
            if overwrite && spec_has_file(source, f.name) {
                spec_file(source, f.name)
            } else {
                f
            },
    ) + source.filter(|f: FileEntryView| !spec_has_file(target, f.name))
}

/// Without `overwrite`, a push leaves every pre-existing target file — name
/// and contents — exactly as it was; this is what protects user data from
/// being clobbered by a resync.
pub proof fn lemma_push_never_overwrites(target: Seq<FileEntryView>, source: Seq<FileEntryView>)
    ensures
        forall|j: int|
            0 <= j < target.len() ==> #[trigger] spec_pushed(target, source, false)[j]
                == target[j],
        spec_pushed(target, source, false).len() >= target.len(),
{
    assert forall|j: int| 0 <= j < target.len() implies #[trigger] spec_pushed(
        target,
        source,
        false,
    )[j] == target[j] by {
        assert(spec_pushed(target, source, false)[j] == target.map_values(
            |f: FileEntryView|
                if false && spec_has_file(source, f.name) {
                    spec_file(source, f.name)
                } else {
                    f
                },
        )[j]);
    }
}

/// The names of a pushed directory are the target's names plus the fresh
/// source names, and names stay unique.
pub proof fn lemma_pushed_wf(
    target: Seq<FileEntryView>,
    source: Seq<FileEntryView>,
    overwrite: bool,
)
    requires
        spec_files_wf(target),
        spec_files_wf(source),
    ensures
        spec_files_wf(spec_pushed(target, source, overwrite)),
        forall|j: int|
            0 <= j < target.len() ==> #[trigger] spec_pushed(target, source, overwrite)[j].name
                == target[j].name,
        forall|j: int|
            target.len() <= j < spec_pushed(target, source, overwrite).len()
                ==> !spec_has_file(target, #[trigger] spec_pushed(target, source, overwrite)[j].name)
                && spec_has_file(source, spec_pushed(target, source, overwrite)[j].name),
{
    let out = spec_pushed(target, source, overwrite);
    let appended = source.filter(|f: FileEntryView| !spec_has_file(target, f.name));
    crate::fs_model::lemma_filter_files_keeps(source, |f: FileEntryView| !spec_has_file(target, f.name));
    assert forall|j: int| 0 <= j < target.len() implies #[trigger] out[j].name
        == target[j].name by {
        if overwrite && spec_has_file(source, target[j].name) {
            let k = spec_file_index(source, target[j].name);
            assert(0 <= k < source.len() && source[k].name == target[j].name);
        }
    }
    assert forall|j: int| target.len() <= j < out.len() implies !spec_has_file(
        target,
        #[trigger] out[j].name,
    ) && spec_has_file(source, out[j].name) by {
        assert(out[j] == appended[j - target.len()]);
        assert(appended.contains(appended[j - target.len()]));
        assert(source.contains(appended[j - target.len()]));
        let k = choose|k: int| 0 <= k < source.len() && source[k] == out[j];
        assert(source[k].name == out[j].name);
    }
    assert forall|a: int, b: int| 0 <= a < b < out.len() implies out[a].name != out[b].name by {
        if b < target.len() {
            assert(out[a].name == target[a].name && out[b].name == target[b].name);
        } else if a < target.len() {
            assert(out[a].name == target[a].name);
            if out[a].name == out[b].name {
                assert(spec_has_file(target, out[b].name));
            }
        } else {
            assert(out[a] == appended[a - target.len()]);
            assert(out[b] == appended[b - target.len()]);
            assert(appended[a - target.len()].name != appended[b - target.len()].name);
        }
    }
}

/// With `overwrite`, every source file ends up in the pushed directory with
/// exactly its own contents: mod files always replace same-named files.
pub proof fn lemma_push_overwrites(target: Seq<FileEntryView>, source: Seq<FileEntryView>)
    requires
        spec_files_wf(target),
        spec_files_wf(source),
    ensures
        forall|k: int|
            0 <= k < source.len() ==> spec_has_file(
                spec_pushed(target, source, true),
                (#[trigger] source[k]).name,
            ) && spec_file(spec_pushed(target, source, true), source[k].name) == source[k],
{
    let out = spec_pushed(target, source, true);
    let appended = source.filter(|f: FileEntryView| !spec_has_file(target, f.name));
    lemma_pushed_wf(target, source, true);
    crate::fs_model::lemma_filter_files_keeps(source, |f: FileEntryView| !spec_has_file(target, f.name));
    assert forall|k: int| 0 <= k < source.len() implies spec_has_file(
        out,
        (#[trigger] source[k]).name,
    ) && spec_file(out, source[k].name) == source[k] by {
        let name = source[k].name;
        if spec_has_file(target, name) {
            let j = spec_file_index(target, name);
            assert(0 <= j < target.len() && target[j].name == name);
            assert(out[j] == spec_file(source, name));
            let k2 = spec_file_index(source, name);
            assert(0 <= k2 < source.len() && source[k2].name == name);
            if k2 != k {
                assert(false);
            }
            assert(out[j] == source[k]);
            assert(spec_has_file(out, name));
            let j2 = spec_file_index(out, name);
            assert(0 <= j2 < out.len() && out[j2].name == name);
            if j2 != j {
                assert(false);
            }
        } else {
            assert(appended.contains(source[k]));
            let a = choose|a: int| 0 <= a < appended.len() && appended[a] == source[k];
            assert(out[target.len() + a] == source[k]);
            assert(spec_has_file(out, name));
            let j2 = spec_file_index(out, name);
            assert(0 <= j2 < out.len() && out[j2].name == name);
            if j2 != target.len() + a {
                assert(false);
            }
        }
    }
}

/// Copies every top-level file of `source_dir` into `receiving_dir`. A
/// same-named file already in the receiving directory is replaced only when
/// `should_overwrite` holds and is left untouched otherwise; fresh names
/// are appended in source order.
pub fn push_directory_contents_to_other_directory(
    source_dir: &Vec<FileEntry>,
    receiving_dir: &mut Vec<FileEntry>,
    should_overwrite: bool,
)
    requires
        spec_files_wf(source_dir@.map_values(|f: FileEntry| f@)),
        spec_files_wf(old(receiving_dir)@.map_values(|f: FileEntry| f@)),
    ensures
        final(receiving_dir)@.map_values(|f: FileEntry| f@) == spec_pushed(
            old(receiving_dir)@.map_values(|f: FileEntry| f@),
            source_dir@.map_values(|f: FileEntry| f@),
            should_overwrite,
        ),
        spec_files_wf(final(receiving_dir)@.map_values(|f: FileEntry| f@)),
{
    let ghost tv0 = old(receiving_dir)@.map_values(|f: FileEntry| f@);
    let ghost srcv = source_dir@.map_values(|f: FileEntry| f@);
    let ghost pred = |f: FileEntryView| !spec_has_file(tv0, f.name);
    let mut s: usize = 0;
    proof {
        assert(srcv.take(0) =~= Seq::<FileEntryView>::empty());
        reveal(Seq::filter);
        assert(receiving_dir@.map_values(|f: FileEntry| f@) =~= spec_pushed(
            tv0,
            srcv.take(0),
            should_overwrite,
        ));
    }
    while s < source_dir.len()
        invariant
            s <= source_dir.len(),
            tv0 == old(receiving_dir)@.map_values(|f: FileEntry| f@),
            srcv == source_dir@.map_values(|f: FileEntry| f@),
            srcv.len() == source_dir@.len(),
            spec_files_wf(tv0),
            spec_files_wf(srcv),
            pred == (|f: FileEntryView| !spec_has_file(tv0, f.name)),
            receiving_dir@.map_values(|f: FileEntry| f@) == spec_pushed(
                tv0,
                srcv.take(s as int),
                should_overwrite,
            ),
            spec_files_wf(receiving_dir@.map_values(|f: FileEntry| f@)),
            receiving_dir@.len() >= tv0.len(),
            forall|j: int|
                0 <= j < tv0.len() ==> (#[trigger] receiving_dir@[j])@.name == tv0[j].name,
            forall|j: int|
                tv0.len() <= j < receiving_dir@.len() ==> spec_has_file(
                    srcv.take(s as int),
                    (#[trigger] receiving_dir@[j])@.name,
                ) && !spec_has_file(tv0, receiving_dir@[j]@.name),
        decreases source_dir.len() - s,
    {
        let ghost cur = receiving_dir@.map_values(|f: FileEntry| f@);
        let ghost taken = srcv.take(s as int);
        proof {
            reveal(Seq::filter);
            assert(srcv.take(s + 1).drop_last() =~= taken);
            assert(srcv.take(s + 1).last() == srcv[s as int]);
            assert(srcv[s as int] == source_dir@[s as int]@);
            assert forall|e: int| 0 <= e < s implies (#[trigger] srcv[e]).name != srcv[s
                as int].name by {}
        }
        match crate::fs_model::find_file_index(receiving_dir, &source_dir[s].name) {
            Some(idx) => {
                proof {
                    assert(cur[idx as int].name == srcv[s as int].name);
                    if idx >= tv0.len() {
                        assert(spec_has_file(taken, cur[idx as int].name));
                        let e = choose|e: int|
                            0 <= e < taken.len() && taken[e].name == cur[idx as int].name;
                        assert(srcv[e].name == srcv[s as int].name);
                        assert(false);
                    }
                    assert(tv0[idx as int].name == srcv[s as int].name);
                    assert(spec_has_file(tv0, srcv[s as int].name));
                }
                if should_overwrite {
                    let replacement = source_dir[s].duplicate();
                    receiving_dir.set(idx, replacement);
                    proof {
                        let newv = receiving_dir@.map_values(|f: FileEntry| f@);
                        assert(newv =~= cur.update(idx as int, srcv[s as int]));
                        assert(srcv.take(s + 1).filter(pred) == taken.filter(pred));
                        assert forall|j: int| 0 <= j < tv0.len() implies #[trigger] newv[j]
                            == spec_pushed(tv0, srcv.take(s + 1), should_overwrite)[j] by {
                            lemma_has_file_push(taken, srcv[s as int], tv0[j].name);
                            if j == idx as int {
                                assert(spec_has_file(srcv.take(s + 1), tv0[j].name));
                                let e = spec_file_index(srcv.take(s + 1), tv0[j].name);
                                assert(0 <= e < srcv.take(s + 1).len() && srcv.take(s + 1)[e].name
                                    == tv0[j].name);
                                if e < s {
                                    assert(srcv[e].name == srcv[s as int].name);
                                    assert(false);
                                }
                                assert(spec_file(srcv.take(s + 1), tv0[j].name) == srcv[s as int]);
                            } else {
                                if tv0[j].name == srcv[s as int].name {
                                    assert(tv0[j].name == tv0[idx as int].name);
                                    assert(false);
                                }
                                assert(spec_has_file(srcv.take(s + 1), tv0[j].name)
                                    == spec_has_file(taken, tv0[j].name));
                                if spec_has_file(taken, tv0[j].name) {
                                    let e = spec_file_index(taken, tv0[j].name);
                                    assert(0 <= e < taken.len() && taken[e].name == tv0[j].name);
                                    assert(srcv.take(s + 1)[e].name == tv0[j].name);
                                    let e2 = spec_file_index(srcv.take(s + 1), tv0[j].name);
                                    assert(0 <= e2 < srcv.take(s + 1).len() && srcv.take(
                                        s + 1,
                                    )[e2].name == tv0[j].name);
                                    if e2 != e {
                                        assert(srcv[e2].name == srcv[e].name);
                                        assert(false);
                                    }
                                    assert(spec_file(srcv.take(s + 1), tv0[j].name) == spec_file(
                                        taken,
                                        tv0[j].name,
                                    ));
                                }
                            }
                        }
                        assert(newv =~= spec_pushed(tv0, srcv.take(s + 1), should_overwrite));
                        assert forall|a: int, b: int|
                            0 <= a < b < newv.len() implies newv[a].name != newv[b].name by {
                            assert(newv[a].name == cur[a].name && newv[b].name == cur[b].name);
                        }
                    }
                } else {
                    proof {
                        assert(srcv.take(s + 1).filter(pred) == taken.filter(pred));
                        assert(receiving_dir@.map_values(|f: FileEntry| f@) =~= spec_pushed(
                            tv0,
                            srcv.take(s + 1),
                            should_overwrite,
                        ));
                    }
                }
            },
            None => {
                proof {
                    if spec_has_file(tv0, srcv[s as int].name) {
                        let j = choose|j: int|
                            0 <= j < tv0.len() && tv0[j].name == srcv[s as int].name;
                        assert(cur[j].name == srcv[s as int].name);
                        assert(spec_has_file(cur, srcv[s as int].name));
                        assert(false);
                    }
                }
                let appended = source_dir[s].duplicate();
                receiving_dir.push(appended);
                proof {
                    let newv = receiving_dir@.map_values(|f: FileEntry| f@);
                    assert(newv =~= cur.push(srcv[s as int]));
                    assert(srcv.take(s + 1).filter(pred) == taken.filter(pred).push(
                        srcv[s as int],
                    ));
                    assert forall|j: int| 0 <= j < tv0.len() implies #[trigger] newv[j]
                        == spec_pushed(tv0, srcv.take(s + 1), should_overwrite)[j] by {
                        lemma_has_file_push(taken, srcv[s as int], tv0[j].name);
                        if tv0[j].name == srcv[s as int].name {
                            assert(spec_has_file(tv0, srcv[s as int].name));
                            assert(false);
                        }
                        if spec_has_file(taken, tv0[j].name) {
                            let e = spec_file_index(taken, tv0[j].name);
                            assert(0 <= e < taken.len() && taken[e].name == tv0[j].name);
                            assert(srcv.take(s + 1)[e].name == tv0[j].name);
                            let e2 = spec_file_index(srcv.take(s + 1), tv0[j].name);
                            assert(0 <= e2 < srcv.take(s + 1).len() && srcv.take(s + 1)[e2].name
                                == tv0[j].name);
                            if e2 != e {
                                assert(srcv[e2].name == srcv[e].name);
                                assert(false);
                            }
                            assert(spec_file(srcv.take(s + 1), tv0[j].name) == spec_file(
                                taken,
                                tv0[j].name,
                            ));
                        }
                    }
                    assert(newv =~= spec_pushed(tv0, srcv.take(s + 1), should_overwrite));
                    assert forall|a: int, b: int|
                        0 <= a < b < newv.len() implies newv[a].name != newv[b].name by {
                        if b < cur.len() {
                            assert(newv[a].name == cur[a].name && newv[b].name == cur[b].name);
                        } else {
                            assert(newv[a].name == cur[a].name);
                            if cur[a].name == srcv[s as int].name {
                                assert(spec_has_file(cur, srcv[s as int].name));
                            }
                        }
                    }
                    lemma_has_file_push(taken, srcv[s as int], srcv[s as int].name);
                    assert forall|j: int|
                        tv0.len() <= j < newv.len() implies spec_has_file(
                        srcv.take(s + 1),
                        (#[trigger] receiving_dir@[j])@.name,
                    ) && !spec_has_file(tv0, receiving_dir@[j]@.name) by {
                        if j < cur.len() {
                            assert(newv[j] == cur[j]);
                            let e = choose|e: int|
                                0 <= e < taken.len() && taken[e].name == cur[j].name;
                            assert(srcv.take(s + 1)[e].name == cur[j].name);
                        } else {
                            assert(newv[j] == srcv[s as int]);
                            assert(srcv.take(s + 1)[s as int].name == srcv[s as int].name);
                        }
                    }
                }
            },
        }
        s = s + 1;
    }
    proof {
        assert(srcv.take(srcv.len() as int) =~= srcv);
    }
}

impl crate::mod_cache::ModCache {
    /// Copies the payload of `mod_from_cache`'s currently selected version
    /// into the game's directories: its mod files overwrite same-named
    /// files, its user data never does. A mod with no options row is
    /// `NotFound`; a selected version whose payload is not cached is
    /// `StateInconsistency`. Errors change nothing.
    pub fn push_mod_to_rumble(
        &self,
        options: &crate::options::LocalModOptions,
        mod_from_cache: &crate::registry::Mod,
        rumble_mods: &mut Vec<FileEntry>,
        rumble_user_data: &mut Vec<FileEntry>,
    ) -> (r: Result<(), crate::errors::Error>)
        requires
            self.wf(),
            options.wf(),
            spec_files_wf(old(rumble_mods)@.map_values(|f: FileEntry| f@)),
            spec_files_wf(old(rumble_user_data)@.map_values(|f: FileEntry| f@)),
        ensures
            match r {
                Ok(_) => {
                    &&& crate::options::spec_has_row(options@, mod_from_cache.uuid@)
                    &&& crate::fs_model::spec_version_cached(
                        self.disk@,
                        mod_from_cache.uuid@,
                        crate::options::spec_row(options@, mod_from_cache.uuid@).version,
                    )
                    &&& final(rumble_mods)@.map_values(|f: FileEntry| f@) == spec_pushed(
                        old(rumble_mods)@.map_values(|f: FileEntry| f@),
                        crate::fs_model::spec_version_dir(
                            crate::fs_model::spec_entry(
                                self.disk@.entries,
                                mod_from_cache.uuid@,
                            ).versions,
                            crate::options::spec_row(options@, mod_from_cache.uuid@).version,
                        ).mod_files,
                        true,
                    )
                    &&& final(rumble_user_data)@.map_values(|f: FileEntry| f@) == spec_pushed(
                        old(rumble_user_data)@.map_values(|f: FileEntry| f@),
                        crate::fs_model::spec_version_dir(
                            crate::fs_model::spec_entry(
                                self.disk@.entries,
                                mod_from_cache.uuid@,
                            ).versions,
                            crate::options::spec_row(options@, mod_from_cache.uuid@).version,
                        ).user_files,
                        false,
                    )
                    &&& spec_files_wf(final(rumble_mods)@.map_values(|f: FileEntry| f@))
                    &&& spec_files_wf(final(rumble_user_data)@.map_values(|f: FileEntry| f@))
                },
                Err(e) => {
                    &&& final(rumble_mods)@ == old(rumble_mods)@
                    &&& final(rumble_user_data)@ == old(rumble_user_data)@
                    &&& (e == crate::errors::Error::NotFound <==> !crate::options::spec_has_row(
                        options@,
                        mod_from_cache.uuid@,
                    ))
                    &&& (e == crate::errors::Error::StateInconsistency
                        <==> crate::options::spec_has_row(options@, mod_from_cache.uuid@)
                        && !crate::fs_model::spec_version_cached(
                        self.disk@,
                        mod_from_cache.uuid@,
                        crate::options::spec_row(options@, mod_from_cache.uuid@).version,
                    ))
                },
            },
            crate::options::spec_has_row(options@, mod_from_cache.uuid@)
                && crate::fs_model::spec_version_cached(
                self.disk@,
                mod_from_cache.uuid@,
                crate::options::spec_row(options@, mod_from_cache.uuid@).version,
            ) ==> r is Ok,
    {
        let row = match options.get_mod_options(mod_from_cache.uuid.clone()) {
            Some(o) => o,
            None => {
                return Err(crate::errors::Error::NotFound);
            },
        };
        let version = row.version.clone();
        proof {
            assert(version@ == crate::options::spec_row(options@, mod_from_cache.uuid@).version);
        }
        let eidx = match self.disk.find_entry_index(&mod_from_cache.uuid) {
            Some(i) => i,
            None => {
                return Err(crate::errors::Error::StateInconsistency);
            },
        };
        proof {
            assert(crate::fs_model::spec_entry_wf(self.disk@.entries[eidx as int]));
        }
        let vidx = match self.disk.entries[eidx].find_version_index(&version) {
            Some(i) => i,
            None => {
                return Err(crate::errors::Error::StateInconsistency);
            },
        };
        let dir = &self.disk.entries[eidx].versions[vidx];
        proof {
            assert(dir@ == crate::fs_model::spec_version_dir(
                crate::fs_model::spec_entry(self.disk@.entries, mod_from_cache.uuid@).versions,
                version@,
            ));
            assert(spec_files_wf(dir@.mod_files));
            assert(spec_files_wf(dir@.user_files));
        }
        push_directory_contents_to_other_directory(&dir.mod_files, rumble_mods, true);
        push_directory_contents_to_other_directory(&dir.user_files, rumble_user_data, false);
        Ok(())
    }

    /// Copies the payload of one resolved version of the mod `id` into the
    /// game's directories, with the same overwrite rules as
    /// [`ModCache::push_mod_to_rumble`]. The version must resolve against
    /// the registry and be cached; errors change nothing. Returns the
    /// registry's current record of the mod.
    pub fn add_mod_to_rumble_by_id(
        &self,
        id: &String,
        version: Option<&String>,
        rumble_mods: &mut Vec<FileEntry>,
        rumble_user_data: &mut Vec<FileEntry>,
    ) -> (r: Result<crate::registry::Mod, crate::errors::Error>)
        requires
            self.wf(),
            spec_files_wf(old(rumble_mods)@.map_values(|f: FileEntry| f@)),
            spec_files_wf(old(rumble_user_data)@.map_values(|f: FileEntry| f@)),
        ensures
            match r {
                Ok(m) => {
                    &&& crate::mod_cache::spec_resolve_version(
                        self.thunderstore_mod_list@,
                        id@,
                        crate::mod_cache::spec_requested(version),
                    ) is Ok
                    &&& crate::registry::spec_find_mod(self.thunderstore_mod_list@, id@) == Some(
                        m@,
                    )
                    &&& crate::fs_model::spec_version_cached(
                        self.disk@,
                        id@,
                        crate::mod_cache::spec_resolve_version(
                            self.thunderstore_mod_list@,
                            id@,
                            crate::mod_cache::spec_requested(version),
                        )->Ok_0,
                    )
                    &&& final(rumble_mods)@.map_values(|f: FileEntry| f@) == spec_pushed(
                        old(rumble_mods)@.map_values(|f: FileEntry| f@),
                        crate::fs_model::spec_version_dir(
                            crate::fs_model::spec_entry(self.disk@.entries, id@).versions,
                            crate::mod_cache::spec_resolve_version(
                                self.thunderstore_mod_list@,
                                id@,
                                crate::mod_cache::spec_requested(version),
                            )->Ok_0,
                        ).mod_files,
                        true,
                    )
                    &&& final(rumble_user_data)@.map_values(|f: FileEntry| f@) == spec_pushed(
                        old(rumble_user_data)@.map_values(|f: FileEntry| f@),
                        crate::fs_model::spec_version_dir(
                            crate::fs_model::spec_entry(self.disk@.entries, id@).versions,
                            crate::mod_cache::spec_resolve_version(
                                self.thunderstore_mod_list@,
                                id@,
                                crate::mod_cache::spec_requested(version),
                            )->Ok_0,
                        ).user_files,
                        false,
                    )
                },
                Err(e) => {
                    &&& final(rumble_mods)@ == old(rumble_mods)@
                    &&& final(rumble_user_data)@ == old(rumble_user_data)@
                    &&& e == crate::errors::Error::NotFound
                },
            },
            crate::mod_cache::spec_resolve_version(
                self.thunderstore_mod_list@,
                id@,
                crate::mod_cache::spec_requested(version),
            ) is Ok && crate::fs_model::spec_version_cached(
                self.disk@,
                id@,
                crate::mod_cache::spec_resolve_version(
                    self.thunderstore_mod_list@,
                    id@,
                    crate::mod_cache::spec_requested(version),
                )->Ok_0,
            ) ==> r is Ok,
    {
        let resolved = match self.resolve_mod_version(id, version) {
            Ok(v) => v,
            Err(_) => {
                return Err(crate::errors::Error::NotFound);
            },
        };
        let eidx = match self.disk.find_entry_index(id) {
            Some(i) => i,
            None => {
                return Err(crate::errors::Error::NotFound);
            },
        };
        proof {
            assert(crate::fs_model::spec_entry_wf(self.disk@.entries[eidx as int]));
        }
        let vidx = match self.disk.entries[eidx].find_version_index(&resolved) {
            Some(i) => i,
            None => {
                return Err(crate::errors::Error::NotFound);
            },
        };
        let record = match crate::registry::find_mod(&self.thunderstore_mod_list.mods, id) {
            Some(m) => m.duplicate(),
            None => {
                proof {
                    assert(false);
                }
                return Err(crate::errors::Error::NotFound);
            },
        };
        let dir = &self.disk.entries[eidx].versions[vidx];
        proof {
            assert(dir@ == crate::fs_model::spec_version_dir(
                crate::fs_model::spec_entry(self.disk@.entries, id@).versions,
                resolved@,
            ));
            assert(spec_files_wf(dir@.mod_files));
            assert(spec_files_wf(dir@.user_files));
        }
        push_directory_contents_to_other_directory(&dir.mod_files, rumble_mods, true);
        push_directory_contents_to_other_directory(&dir.user_files, rumble_user_data, false);
        Ok(record)
    }
}

} // verus!
