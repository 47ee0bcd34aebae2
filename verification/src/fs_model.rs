//! The on-disk state the engine works against, held as plain values.
//!
//! The cache root contains one directory per mod id; each holds a metadata
//! snapshot and one subdirectory per cached version, which in turn holds the
//! two payload subtrees (mod files and user data, top-level entries). The
//! unverified shell scans the real directories into these values and mirrors
//! every mutation the engine makes back onto disk.

use vstd::prelude::*;

use crate::registry::{Mod, ModView};

verus! {

/// One file: its name and its bytes.
#[derive(Debug)]
pub struct FileEntry {
    pub name: String,
    pub data: Vec<u8>,
}

/// Mathematical image of a [`FileEntry`].
#[verifier::ext_equal]
pub ghost struct FileEntryView {
    pub name: Seq<char>,
    pub data: Seq<u8>,
}

impl View for FileEntry {
    type V = FileEntryView;

    open spec fn view(&self) -> FileEntryView {
        FileEntryView { name: self.name@, data: self.data@ }
    }
}

impl FileEntry {
    /// A copy whose mathematical image equals the original's.
    pub fn duplicate(&self) -> (r: FileEntry)
        ensures
            r@ == self@,
    {
        let r = FileEntry { name: self.name.clone(), data: self.data.clone() };
        proof {
            assert(r.data@ =~= self.data@);
            assert(r@ =~= self@);
        }
        r
    }
}

/// One cached version of a mod: the version-named subdirectory with its two
/// payload subtrees.
#[derive(Debug)]
pub struct VersionDir {
    pub version_number: String,
    pub mod_files: Vec<FileEntry>,
    pub user_files: Vec<FileEntry>,
}

/// Mathematical image of a [`VersionDir`].
#[verifier::ext_equal]
pub ghost struct VersionDirView {
    pub version_number: Seq<char>,
    pub mod_files: Seq<FileEntryView>,
    pub user_files: Seq<FileEntryView>,
}

impl View for VersionDir {
    type V = VersionDirView;

    open spec fn view(&self) -> VersionDirView {
        VersionDirView {
            version_number: self.version_number@,
            mod_files: self.mod_files@.map_values(|f: FileEntry| f@),
            user_files: self.user_files@.map_values(|f: FileEntry| f@),
        }
    }
}

/// A copy of a file list whose mathematical image equals the original's.
pub fn duplicate_files(files: &Vec<FileEntry>) -> (r: Vec<FileEntry>)
    ensures
        r@.map_values(|f: FileEntry| f@) == files@.map_values(|f: FileEntry| f@),
{
    let mut out: Vec<FileEntry> = Vec::new();
    let mut i: usize = 0;
    while i < files.len()
        invariant
            i <= files.len(),
            out@.map_values(|f: FileEntry| f@) =~= files@.subrange(0, i as int).map_values(
                |f: FileEntry| f@,
            ),
        decreases files.len() - i,
    {
        out.push(files[i].duplicate());
        proof {
            assert(files@.subrange(0, i + 1 as int).map_values(|f: FileEntry| f@)
                =~= files@.subrange(0, i as int).map_values(|f: FileEntry| f@).push(
                files@[i as int]@,
            ));
        }
        i = i + 1;
    }
    proof {
        assert(files@.subrange(0, files@.len() as int) =~= files@);
    }
    out
}

impl VersionDir {
    /// A copy whose mathematical image equals the original's.
    pub fn duplicate(&self) -> (r: VersionDir)
        ensures
            r@ == self@,
    {
        let r = VersionDir {
            version_number: self.version_number.clone(),
            mod_files: duplicate_files(&self.mod_files),
            user_files: duplicate_files(&self.user_files),
        };
        proof {
            assert(r@ =~= self@);
        }
        r
    }
}

/// One mod's cache entry: the directory named by the mod id, its metadata
/// snapshot (absent when missing or unreadable), and its version
/// subdirectories.
#[derive(Debug)]
pub struct CacheEntryDir {
    pub mod_id: String,
    pub mod_info: Option<Mod>,
    pub versions: Vec<VersionDir>,
}

/// Mathematical image of a [`CacheEntryDir`].
#[verifier::ext_equal]
pub ghost struct CacheEntryDirView {
    pub mod_id: Seq<char>,
    pub mod_info: Option<ModView>,
    pub versions: Seq<VersionDirView>,
}

impl View for CacheEntryDir {
    type V = CacheEntryDirView;

    open spec fn view(&self) -> CacheEntryDirView {
        CacheEntryDirView {
            mod_id: self.mod_id@,
            mod_info: match self.mod_info {
                Some(m) => Some(m@),
                None => None,
            },
            versions: self.versions@.map_values(|d: VersionDir| d@),
        }
    }
}

/// The whole cache root: whether it exists on disk, and its entries.
#[derive(Debug)]
pub struct CacheDir {
    pub present: bool,
    pub entries: Vec<CacheEntryDir>,
}

/// Mathematical image of a [`CacheDir`].
#[verifier::ext_equal]
pub ghost struct CacheDirView {
    pub present: bool,
    pub entries: Seq<CacheEntryDirView>,
}

impl View for CacheDir {
    type V = CacheDirView;

    open spec fn view(&self) -> CacheDirView {
        CacheDirView { present: self.present, entries: self.entries@.map_values(|e: CacheEntryDir| e@) }
    }
}

impl CacheDir {
    /// A cache root that does not exist on disk yet.
    pub fn absent() -> (r: CacheDir)
        ensures
            r@.present == false,
            r@.entries =~= Seq::<CacheEntryDirView>::empty(),
    {
        CacheDir { present: false, entries: Vec::new() }
    }
}

/// True when some file of `files` is named `name`.
pub open spec fn spec_has_file(files: Seq<FileEntryView>, name: Seq<char>) -> bool {
    exists|j: int| 0 <= j < files.len() && files[j].name == name
}

/// The index of the file named `name`; unique when names are distinct.
pub open spec fn spec_file_index(files: Seq<FileEntryView>, name: Seq<char>) -> int {
    choose|j: int| 0 <= j < files.len() && files[j].name == name
}

/// The file named `name`; meaningful when it exists.
pub open spec fn spec_file(files: Seq<FileEntryView>, name: Seq<char>) -> FileEntryView {
    files[spec_file_index(files, name)]
}

/// True when no two files share a name.
pub open spec fn spec_files_wf(files: Seq<FileEntryView>) -> bool {
    forall|j: int, k: int| 0 <= j < k < files.len() ==> files[j].name != files[k].name
}

/// True when some version subdirectory of `dirs` is named `number`.
pub open spec fn spec_has_version_dir(dirs: Seq<VersionDirView>, number: Seq<char>) -> bool {
    exists|j: int| 0 <= j < dirs.len() && dirs[j].version_number == number
}

/// The index of the version subdirectory named `number`.
pub open spec fn spec_version_dir_index(dirs: Seq<VersionDirView>, number: Seq<char>) -> int {
    choose|j: int| 0 <= j < dirs.len() && dirs[j].version_number == number
}

/// The version subdirectory named `number`; meaningful when it exists.
pub open spec fn spec_version_dir(dirs: Seq<VersionDirView>, number: Seq<char>) -> VersionDirView {
    dirs[spec_version_dir_index(dirs, number)]
}

/// True when one mod's cache entry is well formed: version names unique and
/// each payload well formed.
pub open spec fn spec_entry_wf(e: CacheEntryDirView) -> bool {
    &&& forall|j: int, k: int|
        0 <= j < k < e.versions.len() ==> e.versions[j].version_number != e.versions[k].version_number
    &&& forall|j: int|
        0 <= j < e.versions.len() ==> spec_files_wf(#[trigger] e.versions[j].mod_files)
            && spec_files_wf(e.versions[j].user_files)
}

/// True when some entry of `entries` belongs to the mod `id`.
pub open spec fn spec_has_entry(entries: Seq<CacheEntryDirView>, id: Seq<char>) -> bool {
    exists|j: int| 0 <= j < entries.len() && entries[j].mod_id == id
}

/// The index of the entry of the mod `id`; unique when the cache is well
/// formed.
pub open spec fn spec_entry_index(entries: Seq<CacheEntryDirView>, id: Seq<char>) -> int {
    choose|j: int| 0 <= j < entries.len() && entries[j].mod_id == id
}

/// The entry of the mod `id`; meaningful when it exists.
pub open spec fn spec_entry(entries: Seq<CacheEntryDirView>, id: Seq<char>) -> CacheEntryDirView {
    entries[spec_entry_index(entries, id)]
}

/// True when the whole cache is well formed: entry ids unique, every entry
/// well formed.
pub open spec fn spec_cache_wf(c: CacheDirView) -> bool {
    &&& forall|j: int, k: int|
        0 <= j < k < c.entries.len() ==> c.entries[j].mod_id != c.entries[k].mod_id
    &&& forall|j: int| 0 <= j < c.entries.len() ==> spec_entry_wf(#[trigger] c.entries[j])
}

/// The availability predicate of the engine: the version `number` of the mod
/// `id` is cached exactly when its version-named subdirectory physically
/// exists under that mod's cache entry.
pub open spec fn spec_version_cached(c: CacheDirView, id: Seq<char>, number: Seq<char>) -> bool {
    spec_has_entry(c.entries, id) && spec_has_version_dir(
        spec_entry(c.entries, id).versions,
        number,
    )
}

impl CacheDir {
    /// The index of the entry of the mod `id`, if one exists.
    pub fn find_entry_index(&self, id: &String) -> (r: Option<usize>)
        requires
            spec_cache_wf(self@),
        ensures
            match r {
                Some(i) => spec_has_entry(self@.entries, id@) && i < self@.entries.len()
                    && spec_entry_index(self@.entries, id@) == i as int
                    && self@.entries[i as int].mod_id == id@,
                None => !spec_has_entry(self@.entries, id@),
            },
    {
        let mut i: usize = 0;
        while i < self.entries.len()
            invariant
                spec_cache_wf(self@),
                i <= self.entries.len(),
                forall|j: int| 0 <= j < i ==> self@.entries[j].mod_id != id@,
            decreases self.entries.len() - i,
        {
            if self.entries[i].mod_id == *id {
                proof {
                    assert(self@.entries[i as int].mod_id == id@);
                    assert(spec_has_entry(self@.entries, id@));
                    let j = spec_entry_index(self@.entries, id@);
                    assert(0 <= j < self@.entries.len() && self@.entries[j].mod_id == id@);
                    assert(j == i as int);
                }
                return Some(i);
            }
            i = i + 1;
        }
        proof {
            assert(!spec_has_entry(self@.entries, id@));
        }
        None
    }
}

impl CacheEntryDir {
    /// The index of the version subdirectory named `number`, if one exists.
    pub fn find_version_index(&self, number: &String) -> (r: Option<usize>)
        requires
            spec_entry_wf(self@),
        ensures
            match r {
                Some(i) => spec_has_version_dir(self@.versions, number@) && i
                    < self@.versions.len() && spec_version_dir_index(self@.versions, number@) == i
                    as int && self@.versions[i as int].version_number == number@,
                None => !spec_has_version_dir(self@.versions, number@),
            },
    {
        let mut i: usize = 0;
        while i < self.versions.len()
            invariant
                spec_entry_wf(self@),
                i <= self.versions.len(),
                forall|j: int| 0 <= j < i ==> self@.versions[j].version_number != number@,
            decreases self.versions.len() - i,
        {
            if self.versions[i].version_number == *number {
                proof {
                    assert(self@.versions[i as int].version_number == number@);
                    assert(spec_has_version_dir(self@.versions, number@));
                    let j = spec_version_dir_index(self@.versions, number@);
                    assert(0 <= j < self@.versions.len() && self@.versions[j].version_number
                        == number@);
                    assert(j == i as int);
                }
                return Some(i);
            }
            i = i + 1;
        }
        proof {
            assert(!spec_has_version_dir(self@.versions, number@));
        }
        None
    }
}

/// Appending a file keeps every name the list already had and adds the new
/// one.
pub proof fn lemma_has_file_push(files: Seq<FileEntryView>, x: FileEntryView, name: Seq<char>)
    ensures
        spec_has_file(files.push(x), name) == (spec_has_file(files, name) || x.name == name),
{
    if spec_has_file(files, name) {
        let j = choose|j: int| 0 <= j < files.len() && files[j].name == name;
        assert(files.push(x)[j].name == name);
    }
    if x.name == name {
        assert(files.push(x)[files.len() as int].name == name);
    }
    if spec_has_file(files.push(x), name) {
        let j = choose|j: int| 0 <= j < files.push(x).len() && files.push(x)[j].name == name;
        if j < files.len() {
            assert(files[j].name == name);
        }
    }
}

/// Filtering a file list yields files of the original list, and every file
/// satisfying the predicate is kept.
pub proof fn lemma_filter_files_keeps(files: Seq<FileEntryView>, pred: spec_fn(FileEntryView) -> bool)
    ensures
        forall|x: FileEntryView| files.filter(pred).contains(x) ==> files.contains(x),
        forall|k: int|
            0 <= k < files.len() && pred(#[trigger] files[k]) ==> files.filter(pred).contains(
                files[k],
            ),
        (forall|j: int, k: int| 0 <= j < k < files.len() ==> files[j].name != files[k].name)
            ==> forall|j: int, k: int|
            0 <= j < k < files.filter(pred).len() ==> files.filter(pred)[j].name != files.filter(
                pred,
            )[k].name,
    decreases files.len(),
{
    reveal(Seq::filter);
    if files.len() == 0 {
    } else {
        let butlast = files.drop_last();
        lemma_filter_files_keeps(butlast, pred);
        assert forall|x: FileEntryView| files.filter(pred).contains(x) implies files.contains(
            x,
        ) by {
            let fo = files.filter(pred);
            let inner = butlast.filter(pred);
            let i = choose|i: int| 0 <= i < fo.len() && fo[i] == x;
            if pred(files.last()) && i == fo.len() - 1 {
                assert(files[files.len() - 1] == x);
            } else {
                assert(inner[i] == x);
                assert(inner.contains(x));
                assert(butlast.contains(x));
                let j = choose|j: int| 0 <= j < butlast.len() && butlast[j] == x;
                assert(files[j] == x);
            }
        }
        assert forall|k: int|
            0 <= k < files.len() && pred(#[trigger] files[k]) implies files.filter(pred).contains(
            files[k],
        ) by {
            let fo = files.filter(pred);
            let inner = butlast.filter(pred);
            if k == files.len() - 1 {
                assert(fo[fo.len() - 1] == files[k]);
            } else {
                assert(butlast[k] == files[k]);
                assert(inner.contains(files[k]));
                let i = choose|i: int| 0 <= i < inner.len() && inner[i] == files[k];
                if pred(files.last()) {
                    assert(fo[i] == files[k]);
                } else {
                    assert(fo[i] == files[k]);
                }
            }
        }
        if forall|j: int, k: int| 0 <= j < k < files.len() ==> files[j].name != files[k].name {
            assert forall|j: int, k: int|
                0 <= j < k < butlast.len() implies butlast[j].name != butlast[k].name by {
                assert(butlast[j] == files[j] && butlast[k] == files[k]);
            }
            let fo = files.filter(pred);
            let inner = butlast.filter(pred);
            assert forall|j: int, k: int| 0 <= j < k < fo.len() implies fo[j].name
                != fo[k].name by {
                if k < inner.len() {
                    assert(fo[j] == inner[j] && fo[k] == inner[k]);
                } else {
                    assert(pred(files.last()) && fo[k] == files.last());
                    assert(fo[j] == inner[j]);
                    assert(inner.contains(inner[j]));
                    assert(butlast.contains(inner[j]));
                    let j2 = choose|j2: int| 0 <= j2 < butlast.len() && butlast[j2] == inner[j];
                    assert(files[j2].name != files[files.len() - 1].name);
                }
            }
        }
    }
}

/// Filtering a version-directory list keeps only directories of the
/// original list, and keeps names distinct when they were distinct.
pub proof fn lemma_filter_dirs_distinct(
    dirs: Seq<VersionDirView>,
    pred: spec_fn(VersionDirView) -> bool,
)
    ensures
        forall|x: VersionDirView| dirs.filter(pred).contains(x) ==> dirs.contains(x),
        (forall|j: int, k: int|
            0 <= j < k < dirs.len() ==> dirs[j].version_number != dirs[k].version_number)
            ==> forall|j: int, k: int|
            0 <= j < k < dirs.filter(pred).len() ==> dirs.filter(pred)[j].version_number
                != dirs.filter(pred)[k].version_number,
    decreases dirs.len(),
{
    reveal(Seq::filter);
    if dirs.len() == 0 {
    } else {
        let butlast = dirs.drop_last();
        lemma_filter_dirs_distinct(butlast, pred);
        assert forall|x: VersionDirView| dirs.filter(pred).contains(x) implies dirs.contains(
            x,
        ) by {
            let fo = dirs.filter(pred);
            let inner = butlast.filter(pred);
            let i = choose|i: int| 0 <= i < fo.len() && fo[i] == x;
            if pred(dirs.last()) && i == fo.len() - 1 {
                assert(x == dirs.last());
                assert(dirs[dirs.len() - 1] == x);
            } else {
                assert(inner[i] == x);
                assert(inner.contains(x));
                assert(butlast.contains(x));
                let j = choose|j: int| 0 <= j < butlast.len() && butlast[j] == x;
                assert(dirs[j] == x);
            }
        }
        if forall|j: int, k: int|
            0 <= j < k < dirs.len() ==> dirs[j].version_number != dirs[k].version_number {
            assert forall|j: int, k: int|
                0 <= j < k < butlast.len() implies butlast[j].version_number
                != butlast[k].version_number by {
                assert(butlast[j] == dirs[j] && butlast[k] == dirs[k]);
            }
            let out = dirs.filter(pred);
            assert forall|j: int, k: int| 0 <= j < k < out.len() implies out[j].version_number
                != out[k].version_number by {
                let inner = butlast.filter(pred);
                if k < inner.len() {
                    assert(out[j] == inner[j] && out[k] == inner[k]);
                } else {
                    assert(pred(dirs.last()) && out[k] == dirs.last());
                    assert(out[j] == inner[j]);
                    assert(inner.contains(inner[j]));
                    assert(butlast.contains(inner[j]));
                    let j2 = choose|j2: int| 0 <= j2 < butlast.len() && butlast[j2] == inner[j];
                    assert(dirs[j2].version_number != dirs[dirs.len() - 1].version_number);
                }
            }
        }
    }
}

/// The index of the file named `name` in `files`, if one exists.
pub fn find_file_index(files: &Vec<FileEntry>, name: &String) -> (r: Option<usize>)
    requires
        spec_files_wf(files@.map_values(|f: FileEntry| f@)),
    ensures
        match r {
            Some(i) => spec_has_file(files@.map_values(|f: FileEntry| f@), name@) && i
                < files@.len() && spec_file_index(files@.map_values(|f: FileEntry| f@), name@) == i
                as int && files@[i as int]@.name == name@,
            None => !spec_has_file(files@.map_values(|f: FileEntry| f@), name@),
        },
{
    let ghost fv = files@.map_values(|f: FileEntry| f@);
    let mut i: usize = 0;
    while i < files.len()
        invariant
            spec_files_wf(fv),
            fv == files@.map_values(|f: FileEntry| f@),
            i <= files.len(),
            forall|j: int| 0 <= j < i ==> fv[j].name != name@,
        decreases files.len() - i,
    {
        if files[i].name == *name {
            proof {
                assert(fv[i as int].name == name@);
                assert(spec_has_file(fv, name@));
                let j = spec_file_index(fv, name@);
                assert(0 <= j < fv.len() && fv[j].name == name@);
                assert(j == i as int);
            }
            return Some(i);
        }
        i = i + 1;
    }
    proof {
        assert(!spec_has_file(fv, name@));
    }
    None
}

} // verus!
