//! The registry snapshot: every mod the remote index knows about, each with
//! its ordered version list (index 0 is the most recent release).

use vstd::prelude::*;

use crate::config::SortType;
use crate::text::{lemma_chars_le_total, lemma_chars_le_trans, spec_chars_le};

verus! {

/// One published version of a mod, as the registry reports it.
///
/// The version string is opaque: the engine compares it only by equality and
/// never orders versions semantically. Dependencies are fully-qualified
/// names, not mod ids.
#[derive(Debug)]
pub struct Version {
    pub date_created: String,
    pub dependencies: Vec<String>,
    pub description: String,
    pub download_url: String,
    pub downloads: i32,
    pub file_size: i32,
    pub full_name: String,
    pub icon: String,
    pub is_active: bool,
    pub name: String,
    pub uuid4: String,
    pub version_number: String,
    pub website_url: String,
}

/// Mathematical image of a [`Version`].
#[verifier::ext_equal]
pub ghost struct VersionView {
    pub date_created: Seq<char>,
    pub dependencies: Seq<Seq<char>>,
    pub description: Seq<char>,
    pub download_url: Seq<char>,
    pub downloads: int,
    pub file_size: int,
    pub full_name: Seq<char>,
    pub icon: Seq<char>,
    pub is_active: bool,
    pub name: Seq<char>,
    pub uuid4: Seq<char>,
    pub version_number: Seq<char>,
    pub website_url: Seq<char>,
}

impl View for Version {
    type V = VersionView;

    open spec fn view(&self) -> VersionView {
        VersionView {
            date_created: self.date_created@,
            dependencies: self.dependencies.deep_view(),
            description: self.description@,
            download_url: self.download_url@,
            downloads: self.downloads as int,
            file_size: self.file_size as int,
            full_name: self.full_name@,
            icon: self.icon@,
            is_active: self.is_active,
            name: self.name@,
            uuid4: self.uuid4@,
            version_number: self.version_number@,
            website_url: self.website_url@,
        }
    }
}

impl Version {
    /// A field-by-field copy whose mathematical image equals the original's.
    pub fn duplicate(&self) -> (r: Version)
        ensures
            r@ == self@,
    {
        let r = Version {
            date_created: self.date_created.clone(),
            dependencies: self.dependencies.clone(),
            description: self.description.clone(),
            download_url: self.download_url.clone(),
            downloads: self.downloads,
            file_size: self.file_size,
            full_name: self.full_name.clone(),
            icon: self.icon.clone(),
            is_active: self.is_active,
            name: self.name.clone(),
            uuid4: self.uuid4.clone(),
            version_number: self.version_number.clone(),
            website_url: self.website_url.clone(),
        };
        proof {
            assert(r.dependencies.deep_view() =~= self.dependencies.deep_view());
            assert(r@ =~= self@);
        }
        r
    }
}

/// One mod of the registry: identity, descriptive metadata, and the ordered
/// list of its published versions (most recent first).
#[derive(Debug)]
pub struct Mod {
    pub uuid: String,
    pub name: String,
    pub full_name: String,
    pub owner: String,
    pub package_url: String,
    pub donation_link: Option<String>,
    pub date_created: String,
    pub date_updated: String,
    pub rating_score: i32,
    pub is_pinned: bool,
    pub is_deprecated: bool,
    pub has_nsfw_content: bool,
    pub categories: Vec<String>,
    pub versions: Vec<Version>,
}

/// Mathematical image of a [`Mod`].
#[verifier::ext_equal]
pub ghost struct ModView {
    pub uuid: Seq<char>,
    pub name: Seq<char>,
    pub full_name: Seq<char>,
    pub owner: Seq<char>,
    pub package_url: Seq<char>,
    pub donation_link: Option<Seq<char>>,
    pub date_created: Seq<char>,
    pub date_updated: Seq<char>,
    pub rating_score: int,
    pub is_pinned: bool,
    pub is_deprecated: bool,
    pub has_nsfw_content: bool,
    pub categories: Seq<Seq<char>>,
    pub versions: Seq<VersionView>,
}

impl View for Mod {
    type V = ModView;

    open spec fn view(&self) -> ModView {
        ModView {
            uuid: self.uuid@,
            name: self.name@,
            full_name: self.full_name@,
            owner: self.owner@,
            package_url: self.package_url@,
            donation_link: match self.donation_link {
                Some(s) => Some(s@),
                None => None,
            },
            date_created: self.date_created@,
            date_updated: self.date_updated@,
            rating_score: self.rating_score as int,
            is_pinned: self.is_pinned,
            is_deprecated: self.is_deprecated,
            has_nsfw_content: self.has_nsfw_content,
            categories: self.categories.deep_view(),
            versions: self.versions@.map_values(|v: Version| v@),
        }
    }
}

/// Whether two dependency lists hold the same names in the same order.
fn deps_equal(a: &Vec<String>, b: &Vec<String>) -> (r: bool)
    ensures
        r == (a.deep_view() == b.deep_view()),
{
    if a.len() != b.len() {
        proof {
            assert(a.deep_view().len() != b.deep_view().len());
        }
        return false;
    }
    let mut i: usize = 0;
    while i < a.len()
        invariant
            a@.len() == b@.len(),
            i <= a@.len(),
            forall|j: int| 0 <= j < i ==> a.deep_view()[j] == b.deep_view()[j],
        decreases a.len() - i,
    {
        if !(a[i] == b[i]) {
            proof {
                assert(a.deep_view()[i as int] != b.deep_view()[i as int]);
            }
            return false;
        }
        proof {
            assert(a.deep_view()[i as int] == b.deep_view()[i as int]);
        }
        i = i + 1;
    }
    proof {
        assert(a.deep_view() =~= b.deep_view());
    }
    true
}

/// Whether two version records agree in every field.
fn versions_equal(a: &Version, b: &Version) -> (r: bool)
    ensures
        r == (a@ == b@),
{
    let r = a.date_created == b.date_created && deps_equal(&a.dependencies, &b.dependencies)
        && a.description == b.description && a.download_url == b.download_url && a.downloads
        == b.downloads && a.file_size == b.file_size && a.full_name == b.full_name && a.icon
        == b.icon && a.is_active == b.is_active && a.name == b.name && a.uuid4 == b.uuid4
        && a.version_number == b.version_number && a.website_url == b.website_url;
    proof {
        if r {
            assert(a@ =~= b@);
        }
        if a@ == b@ {
            assert(r);
        }
    }
    r
}

impl Mod {
    /// A copy of this record's identity and metadata, carrying `versions` as
    /// its version list.
    pub fn with_versions(&self, versions: Vec<Version>) -> (r: Mod)
        ensures
            r@ == (ModView { versions: versions@.map_values(|v: Version| v@), ..self@ }),
    {
        let r = Mod {
            uuid: self.uuid.clone(),
            name: self.name.clone(),
            full_name: self.full_name.clone(),
            owner: self.owner.clone(),
            package_url: self.package_url.clone(),
            donation_link: match &self.donation_link {
                Some(s) => Some(s.clone()),
                None => None,
            },
            date_created: self.date_created.clone(),
            date_updated: self.date_updated.clone(),
            rating_score: self.rating_score,
            is_pinned: self.is_pinned,
            is_deprecated: self.is_deprecated,
            has_nsfw_content: self.has_nsfw_content,
            categories: self.categories.clone(),
            versions,
        };
        proof {
            assert(r.categories.deep_view() =~= self.categories.deep_view());
            assert(r@ =~= (ModView {
                versions: r.versions@.map_values(|v: Version| v@),
                ..self@
            }));
        }
        r
    }

    /// Replaces this record's version list with the one the registry
    /// reports now, and says whether anything changed. The caller fetches
    /// `latest` from the registry.
    pub fn update(&mut self, latest: Vec<Version>) -> (changed: bool)
        ensures
            final(self)@ == (ModView {
                versions: latest@.map_values(|v: Version| v@),
                ..old(self)@
            }),
            changed == (old(self)@.versions != latest@.map_values(|v: Version| v@)),
    {
        let mut changed = self.versions.len() != latest.len();
        let mut i: usize = 0;
        while i < self.versions.len() && i < latest.len()
            invariant
                i <= self.versions.len(),
                i <= latest.len(),
                changed == (self.versions@.len() != latest@.len() || exists|j: int|
                    0 <= j < i && (#[trigger] self.versions@[j])@ != latest@[j]@),
            decreases self.versions.len() - i,
        {
            if !versions_equal(&self.versions[i], &latest[i]) {
                proof {
                    assert(self.versions@[i as int]@ != latest@[i as int]@);
                }
                changed = true;
            }
            i = i + 1;
        }
        proof {
            let ov = self@.versions;
            let nv = latest@.map_values(|v: Version| v@);
            if changed {
                if ov.len() == nv.len() {
                    let j = choose|j: int|
                        0 <= j < i && (#[trigger] self.versions@[j])@ != latest@[j]@;
                    assert(ov[j] != nv[j]);
                }
                assert(ov != nv);
            } else {
                assert(ov.len() == nv.len());
                assert forall|j: int| 0 <= j < ov.len() implies ov[j] == nv[j] by {
                    assert((self.versions@[j])@ == latest@[j]@);
                }
                assert(ov =~= nv);
            }
        }
        self.versions = latest;
        changed
    }

    /// A field-by-field copy whose mathematical image equals the original's.
    pub fn duplicate(&self) -> (r: Mod)
        ensures
            r@ == self@,
    {
        let mut versions: Vec<Version> = Vec::new();
        let mut i: usize = 0;
        while i < self.versions.len()
            invariant
                i <= self.versions.len(),
                versions@.map_values(|v: Version| v@) =~= self.versions@.subrange(0, i as int)
                    .map_values(|v: Version| v@),
            decreases self.versions.len() - i,
        {
            versions.push(self.versions[i].duplicate());
            proof {
                assert(self.versions@.subrange(0, i + 1 as int).map_values(|v: Version| v@)
                    =~= self.versions@.subrange(0, i as int).map_values(|v: Version| v@)
                        .push(self.versions@[i as int]@));
            }
            i = i + 1;
        }
        let r = self.with_versions(versions);
        proof {
            assert(self.versions@.subrange(0, self.versions@.len() as int) =~= self.versions@);
            assert(r@ =~= self@);
        }
        r
    }
}

/// The immutable-per-refresh list of every known mod.
#[derive(Debug)]
pub struct ModList {
    pub mods: Vec<Mod>,
}

impl View for ModList {
    type V = Seq<ModView>;

    open spec fn view(&self) -> Seq<ModView> {
        self.mods@.map_values(|m: Mod| m@)
    }
}

impl ModList {
    /// Wraps an already-loaded snapshot.
    pub fn new(mods: Vec<Mod>) -> (r: ModList)
        ensures
            r@ == mods@.map_values(|m: Mod| m@),
    {
        ModList { mods }
    }
}

/// The string a mod is ordered by under `metric`: its name, or the
/// creation date of its oldest or newest version.
pub open spec fn spec_sort_key(metric: SortType, m: ModView) -> Seq<char> {
    match metric {
        SortType::Alphabetically => m.name,
        SortType::ReleaseDate => m.versions[m.versions.len() - 1].date_created,
        SortType::UpdateDate => m.versions[0].date_created,
    }
}

/// Whether `a` sorts at or before `b` under `metric`: names ascending,
/// dates newest first.
pub open spec fn spec_mod_le(metric: SortType, a: ModView, b: ModView) -> bool {
    match metric {
        SortType::Alphabetically => spec_chars_le(spec_sort_key(metric, a), spec_sort_key(metric, b)),
        SortType::ReleaseDate => spec_chars_le(spec_sort_key(metric, b), spec_sort_key(metric, a)),
        SortType::UpdateDate => spec_chars_le(spec_sort_key(metric, b), spec_sort_key(metric, a)),
    }
}

/// The mod order is total.
pub proof fn lemma_mod_le_total(metric: SortType, a: ModView, b: ModView)
    ensures
        spec_mod_le(metric, a, b) || spec_mod_le(metric, b, a),
{
    lemma_chars_le_total(spec_sort_key(metric, a), spec_sort_key(metric, b));
    lemma_chars_le_total(spec_sort_key(metric, b), spec_sort_key(metric, a));
}

/// The mod order is transitive.
pub proof fn lemma_mod_le_trans(metric: SortType, a: ModView, b: ModView, c: ModView)
    requires
        spec_mod_le(metric, a, b),
        spec_mod_le(metric, b, c),
    ensures
        spec_mod_le(metric, a, c),
{
    match metric {
        SortType::Alphabetically => lemma_chars_le_trans(
            spec_sort_key(metric, a),
            spec_sort_key(metric, b),
            spec_sort_key(metric, c),
        ),
        _ => lemma_chars_le_trans(
            spec_sort_key(metric, c),
            spec_sort_key(metric, b),
            spec_sort_key(metric, a),
        ),
    }
}

/// Whether `a` sorts at or before `b` under `metric`. The date metrics
/// read a version's creation date, so both mods must have versions then.
fn mod_le(metric: &SortType, a: &Mod, b: &Mod) -> (r: bool)
    requires
        !(*metric == SortType::Alphabetically) ==> a.versions@.len() > 0 && b.versions@.len() > 0,
    ensures
        r == spec_mod_le(*metric, a@, b@),
{
    match metric {
        SortType::Alphabetically => crate::text::str_le(a.name.as_str(), b.name.as_str()),
        SortType::ReleaseDate => {
            let ka = &a.versions[a.versions.len() - 1].date_created;
            let kb = &b.versions[b.versions.len() - 1].date_created;
            proof {
                assert(ka@ == spec_sort_key(*metric, a@));
                assert(kb@ == spec_sort_key(*metric, b@));
            }
            crate::text::str_le(kb.as_str(), ka.as_str())
        },
        SortType::UpdateDate => {
            let ka = &a.versions[0].date_created;
            let kb = &b.versions[0].date_created;
            proof {
                assert(ka@ == spec_sort_key(*metric, a@));
                assert(kb@ == spec_sort_key(*metric, b@));
            }
            crate::text::str_le(kb.as_str(), ka.as_str())
        },
    }
}

impl ModList {
    /// A copy of this snapshot ordered by `metric`; the snapshot itself is
    /// untouched.
    pub fn sort(&self, metric: &SortType) -> (r: ModList)
        requires
            !(*metric == SortType::Alphabetically) ==> forall|j: int|
                0 <= j < self.mods@.len() ==> (#[trigger] self.mods@[j])@.versions.len() > 0,
        ensures
            r@.to_multiset() == self@.to_multiset(),
            forall|a: int, b: int| 0 <= a < b < r@.len() ==> spec_mod_le(*metric, r@[a], r@[b]),
    {
        let mut mods: Vec<Mod> = Vec::new();
        let mut i: usize = 0;
        while i < self.mods.len()
            invariant
                i <= self.mods.len(),
                mods@.map_values(|m: Mod| m@) =~= self.mods@.subrange(0, i as int).map_values(
                    |m: Mod| m@,
                ),
            decreases self.mods.len() - i,
        {
            mods.push(self.mods[i].duplicate());
            proof {
                assert(self.mods@.subrange(0, i + 1 as int).map_values(|m: Mod| m@)
                    =~= self.mods@.subrange(0, i as int).map_values(|m: Mod| m@).push(
                    self.mods@[i as int]@,
                ));
            }
            i = i + 1;
        }
        proof {
            assert(self.mods@.subrange(0, self.mods@.len() as int) =~= self.mods@);
        }
        let mut copy = ModList { mods };
        proof {
            assert(copy@ == self@);
            assert forall|j: int| 0 <= j < copy.mods@.len() implies (#[trigger] copy.mods@[j])@
                == self.mods@[j]@ by {
                assert(copy.mods@.map_values(|m: Mod| m@)[j] == self.mods@.map_values(
                    |m: Mod| m@,
                )[j]);
            }
        }
        copy.sort_self(metric);
        copy
    }

    /// Reorders the snapshot in place by `metric`: the same mods, sorted.
    pub fn sort_self(&mut self, metric: &SortType)
        requires
            !(*metric == SortType::Alphabetically) ==> forall|j: int|
                0 <= j < old(self).mods@.len() ==> (#[trigger] old(self).mods@[j])@.versions.len()
                    > 0,
        ensures
            final(self)@.to_multiset() == old(self)@.to_multiset(),
            forall|a: int, b: int|
                0 <= a < b < final(self)@.len() ==> spec_mod_le(
                    *metric,
                    final(self)@[a],
                    final(self)@[b],
                ),
    {
        broadcast use vstd::seq_lib::group_to_multiset_ensures;

        let ghost input = self@;
        let mut sorted: Vec<Mod> = Vec::new();
        let mut i: usize = 0;
        proof {
            assert(input.take(0) =~= Seq::<ModView>::empty());
            assert(sorted@.map_values(|m: Mod| m@) =~= Seq::<ModView>::empty());
            assert(input.take(0).to_multiset() =~= Seq::<ModView>::empty().to_multiset());
        }
        while i < self.mods.len()
            invariant
                i <= self.mods.len(),
                input == self@,
                input.len() == self.mods@.len(),
                !(*metric == SortType::Alphabetically) ==> forall|j: int|
                    0 <= j < input.len() ==> (#[trigger] input[j]).versions.len() > 0,
                sorted@.map_values(|m: Mod| m@).to_multiset() == input.take(
                    i as int,
                ).to_multiset(),
                !(*metric == SortType::Alphabetically) ==> forall|a: int|
                    0 <= a < sorted@.len() ==> (#[trigger] sorted@[a])@.versions.len() > 0,
                forall|a: int, b: int|
                    0 <= a < b < sorted@.len() ==> spec_mod_le(
                        *metric,
                        (#[trigger] sorted@[a])@,
                        (#[trigger] sorted@[b])@,
                    ),
            decreases self.mods.len() - i,
        {
            let ghost sv = sorted@.map_values(|m: Mod| m@);
            let x = self.mods[i].duplicate();
            proof {
                assert(x@ == input[i as int]);
                if !(*metric == SortType::Alphabetically) {
                    assert(input[i as int].versions.len() > 0);
                }
            }
            let mut p: usize = 0;
            while p < sorted.len() && mod_le(metric, &sorted[p], &x)
                invariant
                    p <= sorted.len(),
                    sv == sorted@.map_values(|m: Mod| m@),
                    x@ == input[i as int],
                    i < input.len(),
                    input == self@,
                    !(*metric == SortType::Alphabetically) ==> x.versions@.len() > 0,
                    !(*metric == SortType::Alphabetically) ==> forall|a: int|
                        0 <= a < sorted@.len() ==> (#[trigger] sorted@[a])@.versions.len() > 0,
                    forall|a: int| 0 <= a < p ==> spec_mod_le(*metric, sv[a], x@),
                decreases sorted.len() - p,
            {
                p = p + 1;
            }
            proof {
                if p < sorted@.len() {
                    lemma_mod_le_total(*metric, sv[p as int], x@);
                    assert(spec_mod_le(*metric, x@, sv[p as int]));
                }
            }
            let ghost prior = sorted@;
            sorted.insert(p, x);
            proof {
                let nv = sorted@.map_values(|m: Mod| m@);
                assert(sorted@ == prior.insert(p as int, x));
                assert(nv =~= sv.insert(p as int, input[i as int]));
                let inserted = sv.insert(p as int, input[i as int]);
                inserted.to_multiset_ensures();
                sv.to_multiset_ensures();
                input.take(i as int).to_multiset_ensures();
                assert(inserted.remove(p as int) =~= sv);
                assert(inserted[p as int] == input[i as int]);
                assert(inserted.contains(input[i as int]));
                assert(inserted.remove(p as int).to_multiset() =~= inserted.to_multiset().remove(
                    input[i as int],
                ));
                assert(inserted.to_multiset().count(input[i as int]) > 0);
                assert(inserted.to_multiset() =~= sv.to_multiset().insert(input[i as int]));
                assert(input.take(i + 1).drop_last() =~= input.take(i as int));
                assert(input.take(i + 1) =~= input.take(i as int).push(input[i as int]));
                assert(input.take(i + 1).to_multiset() =~= input.take(i as int).to_multiset()
                    .insert(input[i as int]));
                assert forall|a: int, b: int| 0 <= a < b < nv.len() implies spec_mod_le(
                    *metric,
                    (#[trigger] sorted@[a])@,
                    (#[trigger] sorted@[b])@,
                ) by {
                    assert(sorted@[a]@ == nv[a]);
                    assert(sorted@[b]@ == nv[b]);
                    if b < p as int {
                        assert(nv[a] == sv[a] && nv[b] == sv[b]);
                    } else if a < p as int && b == p as int {
                        assert(nv[a] == sv[a] && nv[b] == input[i as int]);
                    } else if a < p as int {
                        assert(nv[a] == sv[a] && nv[b] == sv[b - 1]);
                    } else if a == p as int {
                        assert(nv[a] == input[i as int] && nv[b] == sv[b - 1]);
                        assert(spec_mod_le(*metric, x@, sv[p as int]));
                        if b - 1 > p as int {
                            lemma_mod_le_trans(*metric, x@, sv[p as int], sv[b - 1]);
                        }
                    } else {
                        assert(nv[a] == sv[a - 1] && nv[b] == sv[b - 1]);
                    }
                }
            }
            i = i + 1;
        }
        proof {
            assert(input.take(input.len() as int) =~= input);
        }
        self.mods = sorted;
    }
}

/// The first mod of `mods` whose id equals `id`, if any.
pub open spec fn spec_find_mod(mods: Seq<ModView>, id: Seq<char>) -> Option<ModView>
    decreases mods.len(),
{
    if mods.len() == 0 {
        None
    } else if mods[0].uuid == id {
        Some(mods[0])
    } else {
        spec_find_mod(mods.drop_first(), id)
    }
}

/// Whether some version of `m` carries the fully-qualified name `full_name`.
pub open spec fn spec_mod_has_full_name(m: ModView, full_name: Seq<char>) -> bool {
    exists|j: int| 0 <= j < m.versions.len() && m.versions[j].full_name == full_name
}

/// The first mod of `mods` one of whose versions carries `full_name`, if any.
pub open spec fn spec_find_mod_by_full_name(mods: Seq<ModView>, full_name: Seq<char>) -> Option<
    ModView,
>
    decreases mods.len(),
{
    if mods.len() == 0 {
        None
    } else if spec_mod_has_full_name(mods[0], full_name) {
        Some(mods[0])
    } else {
        spec_find_mod_by_full_name(mods.drop_first(), full_name)
    }
}

/// The first version of `versions` whose version string equals `number`.
pub open spec fn spec_find_version(versions: Seq<VersionView>, number: Seq<char>) -> Option<
    VersionView,
>
    decreases versions.len(),
{
    if versions.len() == 0 {
        None
    } else if versions[0].version_number == number {
        Some(versions[0])
    } else {
        spec_find_version(versions.drop_first(), number)
    }
}

/// A found mod carries the id it was looked up by, and a search fails
/// exactly when no mod carries it.
pub proof fn lemma_find_mod_characterises(mods: Seq<ModView>, id: Seq<char>)
    ensures
        (spec_find_mod(mods, id) is Some) == exists|j: int|
            0 <= j < mods.len() && mods[j].uuid == id,
        match spec_find_mod(mods, id) {
            Some(m) => m.uuid == id && exists|j: int| 0 <= j < mods.len() && mods[j] == m,
            None => true,
        },
    decreases mods.len(),
{
    if mods.len() > 0 && mods[0].uuid != id {
        lemma_find_mod_characterises(mods.drop_first(), id);
        if spec_find_mod(mods.drop_first(), id) is Some {
            let j = choose|j: int|
                0 <= j < mods.drop_first().len() && mods.drop_first()[j].uuid == id;
            assert(mods[j + 1].uuid == id);
            let m = spec_find_mod(mods, id)->0;
            let k = choose|k: int|
                0 <= k < mods.drop_first().len() && mods.drop_first()[k] == m;
            assert(mods[k + 1] == m);
        } else {
            assert forall|j: int| 0 <= j < mods.len() implies mods[j].uuid != id by {
                if j > 0 {
                    assert(mods.drop_first()[j - 1].uuid == mods[j].uuid);
                }
            }
        }
    }
}

/// A found version carries the number it was looked up by, and a search
/// fails exactly when no version carries it.
pub proof fn lemma_find_version_characterises(versions: Seq<VersionView>, number: Seq<char>)
    ensures
        (spec_find_version(versions, number) is Some) == exists|j: int|
            0 <= j < versions.len() && versions[j].version_number == number,
        match spec_find_version(versions, number) {
            Some(v) => v.version_number == number && exists|j: int|
                0 <= j < versions.len() && versions[j] == v,
            None => true,
        },
    decreases versions.len(),
{
    if versions.len() > 0 && versions[0].version_number != number {
        lemma_find_version_characterises(versions.drop_first(), number);
        if spec_find_version(versions.drop_first(), number) is Some {
            let j = choose|j: int|
                0 <= j < versions.drop_first().len() && versions.drop_first()[j].version_number
                    == number;
            assert(versions[j + 1].version_number == number);
            let v = spec_find_version(versions, number)->0;
            let k = choose|k: int|
                0 <= k < versions.drop_first().len() && versions.drop_first()[k] == v;
            assert(versions[k + 1] == v);
        } else {
            assert forall|j: int| 0 <= j < versions.len() implies versions[j].version_number
                != number by {
                if j > 0 {
                    assert(versions.drop_first()[j - 1].version_number
                        == versions[j].version_number);
                }
            }
        }
    }
}

/// The first mod with id `id`, as a reference into the list.
pub fn find_mod<'a>(mods: &'a Vec<Mod>, id: &String) -> (r: Option<&'a Mod>)
    ensures
        match r {
            Some(m) => spec_find_mod(mods@.map_values(|m: Mod| m@), id@) == Some(m@),
            None => spec_find_mod(mods@.map_values(|m: Mod| m@), id@) is None,
        },
{
    let ghost all = mods@.map_values(|m: Mod| m@);
    proof {
        assert(all.skip(0) =~= all);
    }
    let mut i: usize = 0;
    while i < mods.len()
        invariant
            i <= mods.len(),
            all == mods@.map_values(|m: Mod| m@),
            spec_find_mod(all, id@) == spec_find_mod(all.skip(i as int), id@),
        decreases mods.len() - i,
    {
        if mods[i].uuid == *id {
            proof {
                assert(all.skip(i as int)[0] == all[i as int]);
            }
            return Some(&mods[i]);
        }
        proof {
            assert(all.skip(i as int).drop_first() =~= all.skip(i + 1 as int));
        }
        i = i + 1;
    }
    proof {
        assert(all.skip(mods@.len() as int).len() == 0);
    }
    None
}

/// The first version with string `number`, as a reference into the list.
pub fn find_version<'a>(versions: &'a Vec<Version>, number: &String) -> (r: Option<&'a Version>)
    ensures
        match r {
            Some(v) => spec_find_version(versions@.map_values(|v: Version| v@), number@) == Some(
                v@,
            ),
            None => spec_find_version(versions@.map_values(|v: Version| v@), number@) is None,
        },
{
    let ghost all = versions@.map_values(|v: Version| v@);
    proof {
        assert(all.skip(0) =~= all);
    }
    let mut i: usize = 0;
    while i < versions.len()
        invariant
            i <= versions.len(),
            all == versions@.map_values(|v: Version| v@),
            spec_find_version(all, number@) == spec_find_version(all.skip(i as int), number@),
        decreases versions.len() - i,
    {
        if versions[i].version_number == *number {
            proof {
                assert(all.skip(i as int)[0] == all[i as int]);
            }
            return Some(&versions[i]);
        }
        proof {
            assert(all.skip(i as int).drop_first() =~= all.skip(i + 1 as int));
        }
        i = i + 1;
    }
    proof {
        assert(all.skip(versions@.len() as int).len() == 0);
    }
    None
}

} // verus!
