//! Dependency resolution: turning one cache request into the full, cycle-free
//! list of mod versions to materialise.
//!
//! A plan starts with the requested mod at its effective version and adds
//! every transitive dependency at its own most recent version — dependency
//! references never inherit the root's requested version. Each mod appears
//! at most once, so a dependency cycle in the registry simply terminates the
//! walk instead of recursing without bound; the closure property below is
//! what the rest of the engine builds on.

use vstd::prelude::*;

use crate::errors::Error;
use crate::fs_model::FileEntry;
use crate::mod_cache::{spec_all_deps_owned, spec_requested, spec_resolve_version, ModCache};
use crate::registry::{
    find_mod, find_version, lemma_find_mod_characterises, spec_find_mod,
    spec_find_mod_by_full_name, spec_find_version, Mod, ModView,
};

verus! {

/// One step of a plan: materialise `version` of the mod `mod_id` from
/// `download_url` (unless it is already cached).
#[derive(Debug)]
pub struct PlanItem {
    pub mod_id: String,
    pub version: String,
    pub download_url: String,
}

/// Mathematical image of a [`PlanItem`].
#[verifier::ext_equal]
pub ghost struct PlanItemView {
    pub mod_id: Seq<char>,
    pub version: Seq<char>,
    pub download_url: Seq<char>,
}

impl View for PlanItem {
    type V = PlanItemView;

    open spec fn view(&self) -> PlanItemView {
        PlanItemView {
            mod_id: self.mod_id@,
            version: self.version@,
            download_url: self.download_url@,
        }
    }
}

impl PlanItem {
    /// A copy whose mathematical image equals the original's.
    pub fn duplicate(&self) -> (r: PlanItem)
        ensures
            r@ == self@,
    {
        let r = PlanItem {
            mod_id: self.mod_id.clone(),
            version: self.version.clone(),
            download_url: self.download_url.clone(),
        };
        proof {
            assert(r@ =~= self@);
        }
        r
    }
}

/// The two payload subtrees extracted from one downloaded package.
#[derive(Debug)]
pub struct PackagePayload {
    pub mod_files: Vec<FileEntry>,
    pub user_files: Vec<FileEntry>,
}

/// Mathematical image of a [`PackagePayload`].
#[verifier::ext_equal]
pub ghost struct PackagePayloadView {
    pub mod_files: Seq<crate::fs_model::FileEntryView>,
    pub user_files: Seq<crate::fs_model::FileEntryView>,
}

impl View for PackagePayload {
    type V = PackagePayloadView;

    open spec fn view(&self) -> PackagePayloadView {
        PackagePayloadView {
            mod_files: self.mod_files@.map_values(|f: FileEntry| f@),
            user_files: self.user_files@.map_values(|f: FileEntry| f@),
        }
    }
}

/// What came back for one requested download: the extracted payload, or the
/// failure the shell classified (`NetworkFailure` for a failed transfer,
/// `ArchiveError` for an unreadable package).
#[derive(Debug)]
pub struct FetchedPackage {
    pub mod_id: String,
    pub version: String,
    pub result: Result<PackagePayload, Error>,
}

/// Mathematical image of a [`FetchedPackage`].
#[verifier::ext_equal]
pub ghost struct FetchedPackageView {
    pub mod_id: Seq<char>,
    pub version: Seq<char>,
    pub result: Result<PackagePayloadView, Error>,
}

impl View for FetchedPackage {
    type V = FetchedPackageView;

    open spec fn view(&self) -> FetchedPackageView {
        FetchedPackageView {
            mod_id: self.mod_id@,
            version: self.version@,
            result: match &self.result {
                Ok(p) => Ok(p@),
                Err(e) => Err(*e),
            },
        }
    }
}

/// The first delivery among `fs` for `version` of the mod `id`, if any.
pub open spec fn spec_find_fetch(
    fs: Seq<FetchedPackageView>,
    id: Seq<char>,
    version: Seq<char>,
) -> Option<FetchedPackageView>
    decreases fs.len(),
{
    if fs.len() == 0 {
        None
    } else if fs[0].mod_id == id && fs[0].version == version {
        Some(fs[0])
    } else {
        spec_find_fetch(fs.drop_first(), id, version)
    }
}

/// The first delivery for `version` of the mod `id`, as a reference.
pub fn find_fetch<'a>(
    fetched: &'a Vec<FetchedPackage>,
    id: &String,
    version: &String,
) -> (r: Option<&'a FetchedPackage>)
    ensures
        match r {
            Some(p) => spec_find_fetch(
                fetched@.map_values(|f: FetchedPackage| f@),
                id@,
                version@,
            ) == Some(p@) && exists|j: int|
                0 <= j < fetched@.len() && (#[trigger] fetched@[j])@ == p@,
            None => spec_find_fetch(fetched@.map_values(|f: FetchedPackage| f@), id@, version@)
                is None,
        },
{
    let ghost all = fetched@.map_values(|f: FetchedPackage| f@);
    proof {
        assert(all.skip(0) =~= all);
    }
    let mut i: usize = 0;
    while i < fetched.len()
        invariant
            i <= fetched.len(),
            all == fetched@.map_values(|f: FetchedPackage| f@),
            spec_find_fetch(all, id@, version@) == spec_find_fetch(
                all.skip(i as int),
                id@,
                version@,
            ),
        decreases fetched.len() - i,
    {
        if fetched[i].mod_id == *id && fetched[i].version == *version {
            proof {
                assert(all.skip(i as int)[0] == all[i as int]);
            }
            return Some(&fetched[i]);
        }
        proof {
            assert(all.skip(i as int)[0] == all[i as int]);
            assert(all.skip(i as int).drop_first() =~= all.skip(i + 1 as int));
        }
        i = i + 1;
    }
    proof {
        assert(all.skip(fetched@.len() as int).len() == 0);
    }
    None
}

/// Whether some plan item is for the mod `id`.
pub open spec fn spec_plan_has_id(items: Seq<PlanItemView>, id: Seq<char>) -> bool {
    exists|k: int| 0 <= k < items.len() && items[k].mod_id == id
}

/// A valid item names a registry mod, one of its declared versions, and
/// that version's download location.
pub open spec fn spec_item_valid(reg: Seq<ModView>, it: PlanItemView) -> bool {
    &&& spec_find_mod(reg, it.mod_id) is Some
    &&& spec_find_version(spec_find_mod(reg, it.mod_id)->0.versions, it.version) is Some
    &&& it.download_url == spec_find_version(
        spec_find_mod(reg, it.mod_id)->0.versions,
        it.version,
    )->0.download_url
}

/// The dependency names declared by the version an item plans.
pub open spec fn spec_item_deps(reg: Seq<ModView>, it: PlanItemView) -> Seq<Seq<char>> {
    spec_find_version(spec_find_mod(reg, it.mod_id)->0.versions, it.version)->0.dependencies
}

/// Every dependency declared by `it` is owned by some registry mod whose id
/// appears among `items`.
pub open spec fn spec_item_closed(
    reg: Seq<ModView>,
    items: Seq<PlanItemView>,
    it: PlanItemView,
) -> bool {
    forall|d: int|
        0 <= d < spec_item_deps(reg, it).len() ==> spec_find_mod_by_full_name(
            reg,
            #[trigger] spec_item_deps(reg, it)[d],
        ) is Some && spec_plan_has_id(
            items,
            spec_find_mod_by_full_name(reg, spec_item_deps(reg, it)[d])->0.uuid,
        )
}

/// The plan is closed under declared dependencies.
pub open spec fn spec_plan_closed(reg: Seq<ModView>, items: Seq<PlanItemView>) -> bool {
    forall|j: int| 0 <= j < items.len() ==> spec_item_closed(reg, items, #[trigger] items[j])
}

/// Everything [`ModCache::plan_cache`] promises of a successful plan for
/// `root_id` at `requested`: it starts with the root at its effective
/// version, mentions each mod at most once, names only declared versions
/// with their download locations, fetches every dependency at its own most
/// recent version, and is closed under declared dependencies.
pub open spec fn spec_good_plan(
    reg: Seq<ModView>,
    root_id: Seq<char>,
    requested: Option<Seq<char>>,
    items: Seq<PlanItemView>,
) -> bool {
    &&& items.len() > 0
    &&& items[0].mod_id == root_id
    &&& spec_resolve_version(reg, root_id, requested) == Ok::<Seq<char>, Error>(items[0].version)
    &&& forall|j: int, k: int| 0 <= j < k < items.len() ==> items[j].mod_id != items[k].mod_id
    &&& forall|j: int| 0 <= j < items.len() ==> spec_item_valid(reg, #[trigger] items[j])
    &&& forall|k: int|
        1 <= k < items.len() ==> spec_resolve_version(reg, (#[trigger] items[k]).mod_id, None)
            == Ok::<Seq<char>, Error>(items[k].version)
    &&& forall|k: int|
        0 <= k < items.len() ==> (#[trigger] items[k]).version == spec_canon_version(
            reg,
            root_id,
            items[0].version,
            items[k].mod_id,
        )
    &&& forall|k: int|
        0 <= k < items.len() ==> spec_id_reachable(
            reg,
            root_id,
            items[0].version,
            (#[trigger] items[k]).mod_id,
            k as nat,
        )
    &&& spec_plan_closed(reg, items)
}

/// The dependency names declared by `ver` of the mod `id`.
pub open spec fn spec_pair_deps(reg: Seq<ModView>, id: Seq<char>, ver: Seq<char>) -> Seq<
    Seq<char>,
> {
    spec_find_version(spec_find_mod(reg, id)->0.versions, ver)->0.dependencies
}

/// The version a cache request for `root_id` at `root_ver` assigns to the
/// mod `id`: the requested version for the root itself, and each
/// dependency's own most recent version otherwise.
pub open spec fn spec_canon_version(
    reg: Seq<ModView>,
    root_id: Seq<char>,
    root_ver: Seq<char>,
    id: Seq<char>,
) -> Seq<char> {
    if id == root_id {
        root_ver
    } else {
        spec_resolve_version(reg, id, None)->Ok_0
    }
}

/// One dependency hop of the request: the assigned version of the mod
/// `from_id` declares a dependency owned by the mod `to_id`.
pub open spec fn spec_dep_step(
    reg: Seq<ModView>,
    root_id: Seq<char>,
    root_ver: Seq<char>,
    from_id: Seq<char>,
    to_id: Seq<char>,
) -> bool {
    exists|d: int|
        0 <= d < spec_pair_deps(reg, from_id, spec_canon_version(reg, root_id, root_ver, from_id)).len()
            && (spec_find_mod_by_full_name(
            reg,
            #[trigger] spec_pair_deps(
                reg,
                from_id,
                spec_canon_version(reg, root_id, root_ver, from_id),
            )[d],
        ) matches Some(dm) && dm.uuid == to_id)
}

/// The mod `to_id` is reachable from the request's root in at most `n`
/// dependency hops, each taken from the version the request assigns to the
/// mod it leaves.
pub open spec fn spec_id_reachable(
    reg: Seq<ModView>,
    root_id: Seq<char>,
    root_ver: Seq<char>,
    to_id: Seq<char>,
    n: nat,
) -> bool
    decreases n,
{
    root_id == to_id || (n > 0 && exists|mid: Seq<char>|
        spec_id_reachable(reg, root_id, root_ver, mid, (n - 1) as nat) && #[trigger] spec_dep_step(
            reg,
            root_id,
            root_ver,
            mid,
            to_id,
        ))
}

/// Reachability only grows with the hop budget.
pub proof fn lemma_reachable_monotone(
    reg: Seq<ModView>,
    root_id: Seq<char>,
    root_ver: Seq<char>,
    to_id: Seq<char>,
    n: nat,
    m: nat,
)
    requires
        spec_id_reachable(reg, root_id, root_ver, to_id, n),
        n <= m,
    ensures
        spec_id_reachable(reg, root_id, root_ver, to_id, m),
    decreases n,
{
    if root_id != to_id {
        let mid = choose|mid: Seq<char>|
            spec_id_reachable(reg, root_id, root_ver, mid, (n - 1) as nat)
                && #[trigger] spec_dep_step(reg, root_id, root_ver, mid, to_id);
        lemma_reachable_monotone(reg, root_id, root_ver, mid, (n - 1) as nat, (m - 1) as nat);
    }
}

/// A request is traversable when, along everything reachable from its
/// root, every declared dependency name is owned by some registry mod and
/// every mod other than the root has a most recent version to resolve to.
/// This is exactly what a plan needs to exist — one broken mod elsewhere
/// in the registry does not matter.
pub open spec fn spec_closure_total(
    reg: Seq<ModView>,
    root_id: Seq<char>,
    root_ver: Seq<char>,
) -> bool {
    forall|mid: Seq<char>, n: nat|
        #![trigger spec_id_reachable(reg, root_id, root_ver, mid, n)]
        spec_id_reachable(reg, root_id, root_ver, mid, n) ==> crate::mod_cache::spec_all_deps_owned(
            reg,
            spec_pair_deps(reg, mid, spec_canon_version(reg, root_id, root_ver, mid)),
        ) && (mid == root_id || spec_resolve_version(reg, mid, None) is Ok)
}

/// A successful plan certifies that its request is traversable: everything
/// reachable has owned dependency names and resolvable versions. In
/// particular, re-issuing the request later (for instance when everything
/// is already cached) is still plannable.
pub proof fn lemma_good_plan_closure_total(
    reg: Seq<ModView>,
    root_id: Seq<char>,
    requested: Option<Seq<char>>,
    items: Seq<PlanItemView>,
)
    requires
        spec_good_plan(reg, root_id, requested, items),
    ensures
        spec_closure_total(reg, root_id, items[0].version),
{
    let root_ver = items[0].version;
    assert forall|mid: Seq<char>, n: nat|
        spec_id_reachable(reg, root_id, root_ver, mid, n) implies
        crate::mod_cache::spec_all_deps_owned(
        reg,
        spec_pair_deps(reg, mid, spec_canon_version(reg, root_id, root_ver, mid)),
    ) && (mid == root_id || spec_resolve_version(reg, mid, None) is Ok) by {
        lemma_dependency_closure(reg, items, root_id, root_ver, mid, n);
        let k = choose|k: int| 0 <= k < items.len() && items[k].mod_id == mid;
        assert(spec_item_closed(reg, items, items[k]));
        assert(items[k].version == spec_canon_version(reg, root_id, root_ver, mid));
        assert(spec_item_deps(reg, items[k]) == spec_pair_deps(
            reg,
            mid,
            spec_canon_version(reg, root_id, root_ver, mid),
        ));
        assert forall|d: int|
            0 <= d < spec_pair_deps(reg, mid, spec_canon_version(reg, root_id, root_ver, mid)).len()
                implies spec_find_mod_by_full_name(
            reg,
            #[trigger] spec_pair_deps(
                reg,
                mid,
                spec_canon_version(reg, root_id, root_ver, mid),
            )[d],
        ) is Some by {
            assert(spec_item_deps(reg, items[k])[d] == spec_pair_deps(
                reg,
                mid,
                spec_canon_version(reg, root_id, root_ver, mid),
            )[d]);
        }
        if mid != root_id {
            if k == 0 {
                assert(items[0].mod_id == root_id);
                assert(false);
            }
            assert(spec_resolve_version(reg, mid, None) == Ok::<Seq<char>, Error>(
                items[k].version,
            ));
        }
    }
}

/// Dependency closure: a plan that is closed under declared dependencies,
/// assigns the request's versions, and contains the root also contains
/// every mod the request can reach. In particular, once every planned item
/// is cached, every transitive dependency of the requested mod is cached.
pub proof fn lemma_dependency_closure(
    reg: Seq<ModView>,
    items: Seq<PlanItemView>,
    root_id: Seq<char>,
    root_ver: Seq<char>,
    to_id: Seq<char>,
    n: nat,
)
    requires
        spec_plan_closed(reg, items),
        forall|j: int, k: int| 0 <= j < k < items.len() ==> items[j].mod_id != items[k].mod_id,
        items.len() > 0,
        items[0].mod_id == root_id,
        items[0].version == root_ver,
        forall|k: int|
            0 <= k < items.len() ==> (#[trigger] items[k]).version == spec_canon_version(
                reg,
                root_id,
                root_ver,
                items[k].mod_id,
            ),
        spec_id_reachable(reg, root_id, root_ver, to_id, n),
    ensures
        spec_plan_has_id(items, to_id),
    decreases n,
{
    if root_id == to_id {
        assert(items[0].mod_id == to_id);
    } else {
        let mid = choose|mid: Seq<char>|
            spec_id_reachable(reg, root_id, root_ver, mid, (n - 1) as nat)
                && #[trigger] spec_dep_step(reg, root_id, root_ver, mid, to_id);
        lemma_dependency_closure(reg, items, root_id, root_ver, mid, (n - 1) as nat);
        let k = choose|k: int| 0 <= k < items.len() && items[k].mod_id == mid;
        assert(items[k].version == spec_canon_version(reg, root_id, root_ver, mid));
        assert(spec_item_closed(reg, items, items[k]));
        let d = choose|d: int|
            0 <= d < spec_pair_deps(reg, mid, spec_canon_version(reg, root_id, root_ver, mid)).len()
                && (spec_find_mod_by_full_name(
                reg,
                #[trigger] spec_pair_deps(
                    reg,
                    mid,
                    spec_canon_version(reg, root_id, root_ver, mid),
                )[d],
            ) matches Some(dm) && dm.uuid == to_id);
        assert(spec_item_deps(reg, items[k]) == spec_pair_deps(
            reg,
            mid,
            spec_canon_version(reg, root_id, root_ver, mid),
        ));
        assert(spec_plan_has_id(
            items,
            spec_find_mod_by_full_name(reg, spec_item_deps(reg, items[k])[d])->0.uuid,
        ));
    }
}

/// Once every item of such a plan is cached, every mod the request can
/// reach has a cached version.
pub proof fn lemma_reachable_dependency_cached(
    reg: Seq<ModView>,
    items: Seq<PlanItemView>,
    c: crate::fs_model::CacheDirView,
    root_id: Seq<char>,
    root_ver: Seq<char>,
    to_id: Seq<char>,
    n: nat,
)
    requires
        spec_plan_closed(reg, items),
        forall|j: int, k: int| 0 <= j < k < items.len() ==> items[j].mod_id != items[k].mod_id,
        items.len() > 0,
        items[0].mod_id == root_id,
        items[0].version == root_ver,
        forall|k: int|
            0 <= k < items.len() ==> (#[trigger] items[k]).version == spec_canon_version(
                reg,
                root_id,
                root_ver,
                items[k].mod_id,
            ),
        spec_id_reachable(reg, root_id, root_ver, to_id, n),
        forall|j: int|
            0 <= j < items.len() ==> crate::fs_model::spec_version_cached(
                c,
                (#[trigger] items[j]).mod_id,
                items[j].version,
            ),
    ensures
        exists|ver: Seq<char>| #[trigger] crate::fs_model::spec_version_cached(c, to_id, ver),
{
    lemma_dependency_closure(reg, items, root_id, root_ver, to_id, n);
    let k = choose|k: int| 0 <= k < items.len() && items[k].mod_id == to_id;
    assert(crate::fs_model::spec_version_cached(c, to_id, items[k].version));
}

/// Appending an item keeps every id the plan already had.
proof fn lemma_plan_has_id_push(items: Seq<PlanItemView>, x: PlanItemView, id: Seq<char>)
    ensures
        spec_plan_has_id(items.push(x), id) == (spec_plan_has_id(items, id) || x.mod_id == id),
{
    if spec_plan_has_id(items, id) {
        let k = choose|k: int| 0 <= k < items.len() && items[k].mod_id == id;
        assert(items.push(x)[k].mod_id == id);
    }
    if x.mod_id == id {
        assert(items.push(x)[items.len() as int].mod_id == id);
    }
    if spec_plan_has_id(items.push(x), id) {
        let k = choose|k: int|
            0 <= k < items.push(x).len() && items.push(x)[k].mod_id == id;
        if k < items.len() {
            assert(items[k].mod_id == id);
        }
    }
}

/// A plan whose items are valid and pairwise distinct can never hold more
/// items than the registry holds mods: each item consumes one registry id.
proof fn lemma_plan_len_bound(reg: Seq<ModView>, items: Seq<PlanItemView>)
    requires
        forall|j: int, k: int| 0 <= j < k < items.len() ==> items[j].mod_id != items[k].mod_id,
        forall|j: int| 0 <= j < items.len() ==> spec_item_valid(reg, #[trigger] items[j]),
    ensures
        items.len() <= reg.len(),
{
    broadcast use vstd::seq_lib::seq_to_set_is_finite;
    broadcast use vstd::set::group_set_axioms;

    let ids = items.map_values(|it: PlanItemView| it.mod_id);
    let reg_ids = reg.map_values(|m: ModView| m.uuid);
    assert(ids.no_duplicates());
    assert forall|x: Seq<char>| ids.contains(x) implies reg_ids.contains(x) by {
        let j = choose|j: int| 0 <= j < ids.len() && ids[j] == x;
        assert(spec_item_valid(reg, items[j]));
        lemma_find_mod_characterises(reg, x);
        let k = choose|k: int| 0 <= k < reg.len() && reg[k].uuid == x;
        assert(reg_ids[k] == x);
    }
    assert(ids.to_set().subset_of(reg_ids.to_set()));
    ids.unique_seq_to_set();
    vstd::set_lib::lemma_len_subset(ids.to_set(), reg_ids.to_set());
    reg_ids.lemma_cardinality_of_set();
}

/// Whether some plan item is for the mod `id`.
pub fn plan_contains_id(items: &Vec<PlanItem>, id: &String) -> (r: bool)
    ensures
        r == spec_plan_has_id(items@.map_values(|x: PlanItem| x@), id@),
{
    let ghost iv = items@.map_values(|x: PlanItem| x@);
    let mut k: usize = 0;
    while k < items.len()
        invariant
            k <= items.len(),
            iv == items@.map_values(|x: PlanItem| x@),
            forall|j: int| 0 <= j < k ==> iv[j].mod_id != id@,
        decreases items.len() - k,
    {
        if items[k].mod_id == *id {
            proof {
                assert(iv[k as int].mod_id == id@);
            }
            return true;
        }
        k = k + 1;
    }
    false
}

impl ModCache {
    /// Computes the full, dependency-closed plan for caching `id` at the
    /// requested version. The walk visits each mod once, so dependency
    /// cycles in the registry terminate; a dependency name that no registry
    /// mod owns fails the whole plan with `NotFound`, as does a request the
    /// registry cannot resolve.
    pub fn plan_cache(&self, id: &String, version_name: Option<&String>) -> (r: Result<
        Vec<PlanItem>,
        Error,
    >)
        ensures
            match r {
                Ok(items) => spec_good_plan(
                    self.thunderstore_mod_list@,
                    id@,
                    match version_name {
                        Some(s) => Some(s@),
                        None => None,
                    },
                    items@.map_values(|x: PlanItem| x@),
                ),
                Err(e) => e == Error::NotFound,
            },
            spec_resolve_version(
                self.thunderstore_mod_list@,
                id@,
                match version_name {
                    Some(s) => Some(s@),
                    None => None,
                },
            ) is Err ==> r is Err,
            spec_resolve_version(
                self.thunderstore_mod_list@,
                id@,
                match version_name {
                    Some(s) => Some(s@),
                    None => None,
                },
            ) is Ok && spec_closure_total(
                self.thunderstore_mod_list@,
                id@,
                spec_resolve_version(
                    self.thunderstore_mod_list@,
                    id@,
                    spec_requested(version_name),
                )->Ok_0,
            ) ==> r is Ok,
    {
        let ghost reg = self.thunderstore_mod_list@;
        let root_version = match self.resolve_mod_version(id, version_name) {
            Ok(v) => v,
            Err(e) => {
                return Err(e);
            },
        };
        let root_mod = match find_mod(&self.thunderstore_mod_list.mods, id) {
            Some(m) => m,
            None => {
                proof {
                    assert(false);
                }
                return Err(Error::NotFound);
            },
        };
        let root_ver = match find_version(&root_mod.versions, &root_version) {
            Some(v) => v,
            None => {
                proof {
                    assert(false);
                }
                return Err(Error::NotFound);
            },
        };
        let mut items: Vec<PlanItem> = Vec::new();
        items.push(
            PlanItem {
                mod_id: id.clone(),
                version: root_version,
                download_url: root_ver.download_url.clone(),
            },
        );
        let ghost mut iv = items@.map_values(|x: PlanItem| x@);
        proof {
            lemma_plan_len_bound(reg, iv);
            assert(spec_id_reachable(reg, id@, iv[0].version, iv[0].mod_id, 0));
        }
        let mut i: usize = 0;
        while i < items.len()
            invariant
                reg == self.thunderstore_mod_list@,
                iv == items@.map_values(|x: PlanItem| x@),
                i <= items.len(),
                iv.len() == items@.len(),
                iv.len() >= 1,
                iv.len() <= reg.len(),
                iv[0].mod_id == id@,
                spec_resolve_version(
                    reg,
                    id@,
                    match version_name {
                        Some(s) => Some(s@),
                        None => None,
                    },
                ) == Ok::<Seq<char>, Error>(iv[0].version),
                forall|j: int, k: int| 0 <= j < k < iv.len() ==> iv[j].mod_id != iv[k].mod_id,
                forall|j: int| 0 <= j < iv.len() ==> spec_item_valid(reg, #[trigger] iv[j]),
                forall|k: int|
                    1 <= k < iv.len() ==> spec_resolve_version(
                        reg,
                        (#[trigger] iv[k]).mod_id,
                        None,
                    ) == Ok::<Seq<char>, Error>(iv[k].version),
                forall|k: int|
                    0 <= k < iv.len() ==> (#[trigger] iv[k]).version == spec_canon_version(
                        reg,
                        id@,
                        iv[0].version,
                        iv[k].mod_id,
                    ),
                forall|k: int|
                    0 <= k < iv.len() ==> spec_id_reachable(
                        reg,
                        id@,
                        iv[0].version,
                        (#[trigger] iv[k]).mod_id,
                        k as nat,
                    ),
                forall|j: int| 0 <= j < i ==> spec_item_closed(reg, iv, #[trigger] iv[j]),
            decreases reg.len() - i,
        {
            let cur_id = items[i].mod_id.clone();
            let cur_version = items[i].version.clone();
            proof {
                assert(iv[i as int].mod_id == cur_id@);
                assert(iv[i as int].version == cur_version@);
                assert(spec_item_valid(reg, iv[i as int]));
            }
            let cur_mod = match find_mod(&self.thunderstore_mod_list.mods, &cur_id) {
                Some(m) => m,
                None => {
                    proof {
                        assert(false);
                    }
                    return Err(Error::NotFound);
                },
            };
            let cur_ver = match find_version(&cur_mod.versions, &cur_version) {
                Some(v) => v,
                None => {
                    proof {
                        assert(false);
                    }
                    return Err(Error::NotFound);
                },
            };
            let ghost deps = spec_item_deps(reg, iv[i as int]);
            proof {
                assert(cur_ver@.dependencies == deps);
            }
            let mut d: usize = 0;
            while d < cur_ver.dependencies.len()
                invariant
                    reg == self.thunderstore_mod_list@,
                    iv == items@.map_values(|x: PlanItem| x@),
                    i < iv.len(),
                    d <= cur_ver.dependencies.len(),
                    deps == cur_ver@.dependencies,
                    deps.len() == cur_ver.dependencies@.len(),
                    cur_id@ == iv[i as int].mod_id,
                    cur_version@ == iv[i as int].version,
                    spec_find_mod(reg, cur_id@) == Some(cur_mod@),
                    spec_find_version(cur_mod@.versions, cur_version@) == Some(cur_ver@),
                    iv.len() == items@.len(),
                    iv.len() >= 1,
                    iv.len() <= reg.len(),
                    iv[0].mod_id == id@,
                    spec_resolve_version(
                        reg,
                        id@,
                        match version_name {
                            Some(s) => Some(s@),
                            None => None,
                        },
                    ) == Ok::<Seq<char>, Error>(iv[0].version),
                    forall|j: int, k: int| 0 <= j < k < iv.len() ==> iv[j].mod_id != iv[k].mod_id,
                    forall|j: int| 0 <= j < iv.len() ==> spec_item_valid(reg, #[trigger] iv[j]),
                    forall|k: int|
                        1 <= k < iv.len() ==> spec_resolve_version(
                            reg,
                            (#[trigger] iv[k]).mod_id,
                            None,
                        ) == Ok::<Seq<char>, Error>(iv[k].version),
                    forall|k: int|
                        0 <= k < iv.len() ==> (#[trigger] iv[k]).version == spec_canon_version(
                            reg,
                            id@,
                            iv[0].version,
                            iv[k].mod_id,
                        ),
                    forall|k: int|
                        0 <= k < iv.len() ==> spec_id_reachable(
                            reg,
                            id@,
                            iv[0].version,
                            (#[trigger] iv[k]).mod_id,
                            k as nat,
                        ),
                    forall|j: int| 0 <= j < i ==> spec_item_closed(reg, iv, #[trigger] iv[j]),
                    forall|e: int|
                        0 <= e < d ==> spec_find_mod_by_full_name(reg, #[trigger] deps[e])
                            is Some && spec_plan_has_id(
                            iv,
                            spec_find_mod_by_full_name(reg, deps[e])->0.uuid,
                        ),
                decreases cur_ver.dependencies.len() - d,
            {
                proof {
                    assert(deps[d as int] == cur_ver.dependencies@[d as int]@);
                }
                let dep_mod = match self.get_mod_from_full_mod_name(&cur_ver.dependencies[d]) {
                    Some(m) => m,
                    None => {
                        proof {
                            if spec_resolve_version(reg, id@, spec_requested(version_name))
                                is Ok && spec_closure_total(
                                reg,
                                id@,
                                spec_resolve_version(
                                    reg,
                                    id@,
                                    spec_requested(version_name),
                                )->Ok_0,
                            ) {
                                assert(spec_resolve_version(
                                    reg,
                                    id@,
                                    spec_requested(version_name),
                                )->Ok_0 == iv[0].version);
                                assert(spec_id_reachable(
                                    reg,
                                    id@,
                                    iv[0].version,
                                    cur_id@,
                                    i as nat,
                                ));
                                assert(spec_canon_version(reg, id@, iv[0].version, cur_id@)
                                    == cur_version@);
                                assert(spec_pair_deps(reg, cur_id@, cur_version@) == deps);
                                assert(spec_all_deps_owned(
                                    reg,
                                    spec_pair_deps(
                                        reg,
                                        cur_id@,
                                        spec_canon_version(reg, id@, iv[0].version, cur_id@),
                                    ),
                                ));
                                assert(spec_find_mod_by_full_name(reg, deps[d as int]) is Some);
                                assert(false);
                            }
                        }
                        return Err(Error::NotFound);
                    },
                };
                if !plan_contains_id(&items, &dep_mod.uuid) {
                    let latest = match self.resolve_mod_version(&dep_mod.uuid, None) {
                        Ok(v) => v,
                        Err(_) => {
                            proof {
                                if spec_resolve_version(reg, id@, spec_requested(version_name))
                                    is Ok && spec_closure_total(
                                    reg,
                                    id@,
                                    spec_resolve_version(
                                        reg,
                                        id@,
                                        spec_requested(version_name),
                                    )->Ok_0,
                                ) {
                                    assert(spec_resolve_version(
                                        reg,
                                        id@,
                                        spec_requested(version_name),
                                    )->Ok_0 == iv[0].version);
                                    assert(spec_canon_version(reg, id@, iv[0].version, cur_id@)
                                        == cur_version@);
                                    assert(spec_pair_deps(reg, cur_id@, cur_version@) == deps);
                                    assert(spec_dep_step(
                                        reg,
                                        id@,
                                        iv[0].version,
                                        cur_id@,
                                        dep_mod.uuid@,
                                    ));
                                    assert(spec_id_reachable(
                                        reg,
                                        id@,
                                        iv[0].version,
                                        dep_mod.uuid@,
                                        (i + 1) as nat,
                                    ));
                                    if dep_mod.uuid@ == id@ {
                                        assert(iv[0].mod_id == dep_mod.uuid@);
                                        assert(spec_plan_has_id(iv, dep_mod.uuid@));
                                        assert(false);
                                    }
                                    assert(spec_resolve_version(reg, dep_mod.uuid@, None)
                                        is Ok);
                                    assert(false);
                                }
                            }
                            return Err(Error::NotFound);
                        },
                    };
                    let dep_reg_mod = match find_mod(
                        &self.thunderstore_mod_list.mods,
                        &dep_mod.uuid,
                    ) {
                        Some(m) => m,
                        None => {
                            proof {
                                assert(false);
                            }
                            return Err(Error::NotFound);
                        },
                    };
                    let dep_ver = match find_version(&dep_reg_mod.versions, &latest) {
                        Some(v) => v,
                        None => {
                            proof {
                                assert(false);
                            }
                            return Err(Error::NotFound);
                        },
                    };
                    let ghost old_iv = iv;
                    items.push(
                        PlanItem {
                            mod_id: dep_mod.uuid.clone(),
                            version: latest,
                            download_url: dep_ver.download_url.clone(),
                        },
                    );
                    proof {
                        iv = items@.map_values(|x: PlanItem| x@);
                        assert(iv =~= old_iv.push(iv[iv.len() - 1]));
                        let newest = iv[iv.len() - 1];
                        assert(newest.mod_id == dep_mod.uuid@);
                        assert(spec_item_valid(reg, newest));
                        assert forall|j: int, k: int|
                            0 <= j < k < iv.len() implies iv[j].mod_id != iv[k].mod_id by {
                            if k < iv.len() - 1 {
                                assert(iv[j] == old_iv[j] && iv[k] == old_iv[k]);
                            } else {
                                assert(iv[j] == old_iv[j]);
                                if iv[j].mod_id == newest.mod_id {
                                    assert(spec_plan_has_id(old_iv, dep_mod.uuid@));
                                }
                            }
                        }
                        assert forall|j: int| 0 <= j < i implies spec_item_closed(
                            reg,
                            iv,
                            #[trigger] iv[j],
                        ) by {
                            assert(iv[j] == old_iv[j]);
                            assert(spec_item_closed(reg, old_iv, old_iv[j]));
                            assert forall|e: int|
                                0 <= e < spec_item_deps(reg, iv[j]).len() implies
                                spec_find_mod_by_full_name(
                                    reg,
                                    #[trigger] spec_item_deps(reg, iv[j])[e],
                                ) is Some && spec_plan_has_id(
                                iv,
                                spec_find_mod_by_full_name(
                                    reg,
                                    spec_item_deps(reg, iv[j])[e],
                                )->0.uuid,
                            ) by {
                                lemma_plan_has_id_push(
                                    old_iv,
                                    newest,
                                    spec_find_mod_by_full_name(
                                        reg,
                                        spec_item_deps(reg, iv[j])[e],
                                    )->0.uuid,
                                );
                            }
                        }
                        assert forall|e: int|
                            0 <= e < d + 1 implies spec_find_mod_by_full_name(
                            reg,
                            #[trigger] deps[e],
                        ) is Some && spec_plan_has_id(
                            iv,
                            spec_find_mod_by_full_name(reg, deps[e])->0.uuid,
                        ) by {
                            if e < d {
                                lemma_plan_has_id_push(
                                    old_iv,
                                    newest,
                                    spec_find_mod_by_full_name(reg, deps[e])->0.uuid,
                                );
                            } else {
                                assert(spec_find_mod_by_full_name(reg, deps[d as int])
                                    == Some(dep_mod@));
                                assert(iv[iv.len() - 1].mod_id == dep_mod@.uuid);
                            }
                        }
                        if newest.mod_id == id@ {
                            assert(old_iv[0].mod_id == id@);
                            assert(spec_plan_has_id(old_iv, dep_mod.uuid@));
                            assert(false);
                        }
                        assert(iv[0] == old_iv[0]);
                        assert(spec_resolve_version(reg, newest.mod_id, None) == Ok::<
                            Seq<char>,
                            Error,
                        >(newest.version));
                        assert forall|k: int| 0 <= k < iv.len() implies (#[trigger] iv[k]).version
                            == spec_canon_version(reg, id@, iv[0].version, iv[k].mod_id) by {
                            if k < iv.len() - 1 {
                                assert(iv[k] == old_iv[k]);
                            }
                        }
                        assert(spec_canon_version(reg, id@, iv[0].version, cur_id@)
                            == cur_version@);
                        assert(spec_pair_deps(reg, cur_id@, cur_version@) == deps);
                        assert(spec_dep_step(reg, id@, iv[0].version, cur_id@, newest.mod_id));
                        assert(spec_id_reachable(reg, id@, iv[0].version, cur_id@, i as nat));
                        assert(spec_id_reachable(
                            reg,
                            id@,
                            iv[0].version,
                            newest.mod_id,
                            (i + 1) as nat,
                        ));
                        lemma_reachable_monotone(
                            reg,
                            id@,
                            iv[0].version,
                            newest.mod_id,
                            (i + 1) as nat,
                            (iv.len() - 1) as nat,
                        );
                        assert forall|k: int| 0 <= k < iv.len() implies spec_id_reachable(
                            reg,
                            id@,
                            iv[0].version,
                            (#[trigger] iv[k]).mod_id,
                            k as nat,
                        ) by {
                            if k < iv.len() - 1 {
                                assert(iv[k] == old_iv[k]);
                            }
                        }
                        lemma_plan_len_bound(reg, iv);
                    }
                } else {
                    proof {
                        assert(spec_find_mod_by_full_name(reg, deps[d as int]) == Some(
                            dep_mod@,
                        ));
                    }
                }
                d = d + 1;
            }
            proof {
                assert forall|j: int| 0 <= j < i + 1 implies spec_item_closed(
                    reg,
                    iv,
                    #[trigger] iv[j],
                ) by {
                    if j == i as int {
                        assert(spec_item_deps(reg, iv[j]) == deps);
                    }
                }
            }
            i = i + 1;
        }
        Ok(items)
    }

    /// The sub-list of a plan that actually needs downloading: the items
    /// whose version subdirectory does not exist yet. A plan re-run over a
    /// fully cached set comes back empty — no network request is issued.
    pub fn pending_fetches(&self, items: &Vec<PlanItem>) -> (r: Vec<PlanItem>)
        requires
            self.wf(),
        ensures
            r@.map_values(|x: PlanItem| x@) == items@.map_values(|x: PlanItem| x@).filter(
                |it: PlanItemView| !crate::fs_model::spec_version_cached(
                    self.disk@,
                    it.mod_id,
                    it.version,
                ),
            ),
    {
        let ghost iv = items@.map_values(|x: PlanItem| x@);
        let ghost pred = |it: PlanItemView| !crate::fs_model::spec_version_cached(
            self.disk@,
            it.mod_id,
            it.version,
        );
        let mut out: Vec<PlanItem> = Vec::new();
        let mut i: usize = 0;
        proof {
            assert(iv.take(0) =~= Seq::<PlanItemView>::empty());
            reveal(Seq::filter);
        }
        while i < items.len()
            invariant
                self.wf(),
                i <= items.len(),
                iv == items@.map_values(|x: PlanItem| x@),
                iv.len() == items@.len(),
                pred == (|it: PlanItemView| !crate::fs_model::spec_version_cached(
                    self.disk@,
                    it.mod_id,
                    it.version,
                )),
                out@.map_values(|x: PlanItem| x@) =~= iv.take(i as int).filter(pred),
            decreases items.len() - i,
        {
            let ghost prev = iv.take(i as int);
            let ghost prior = out@;
            proof {
                reveal(Seq::filter);
                assert(iv.take(i + 1).drop_last() =~= prev);
                assert(iv.take(i + 1).last() == iv[i as int]);
                if pred(iv[i as int]) {
                    assert(iv.take(i + 1).filter(pred) == prev.filter(pred).push(iv[i as int]));
                } else {
                    assert(iv.take(i + 1).filter(pred) == prev.filter(pred));
                }
            }
            let cached = match self.disk.find_entry_index(&items[i].mod_id) {
                Some(e) => {
                    proof {
                        assert(crate::fs_model::spec_entry_wf(self.disk@.entries[e as int]));
                    }
                    match self.disk.entries[e].find_version_index(&items[i].version) {
                        Some(_) => true,
                        None => false,
                    }
                },
                None => false,
            };
            proof {
                assert(cached == !pred(iv[i as int]));
            }
            if !cached {
                out.push(items[i].duplicate());
                proof {
                    assert(out@.map_values(|x: PlanItem| x@) =~= prior.map_values(
                        |x: PlanItem| x@,
                    ).push(iv[i as int]));
                }
            }
            i = i + 1;
        }
        proof {
            assert(iv.take(iv.len() as int) =~= iv);
        }
        out
    }
}

} // verus!
