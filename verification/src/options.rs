//! Per-mod user intent: enabled flag, selected version, version lock.
//!
//! The store holds at most one row per mod id. Enabling a mod is the only
//! path that creates a row; every other setter mutates an existing row or,
//! when the id is unknown, leaves the store untouched. Callers persist the
//! whole document immediately after every mutating call (write-through).

use vstd::prelude::*;

use crate::errors::Error;
use crate::registry::Mod;

verus! {

/// The options of one mod. Two rows are considered to describe the same mod
/// exactly when their ids are equal.
#[derive(Debug)]
pub struct ModOptions {
    pub id: String,
    pub version: String,
    pub version_lock: bool,
    pub enabled: bool,
}

/// Mathematical image of a [`ModOptions`] row.
#[verifier::ext_equal]
pub ghost struct ModOptionsView {
    pub id: Seq<char>,
    pub version: Seq<char>,
    pub version_lock: bool,
    pub enabled: bool,
}

impl View for ModOptions {
    type V = ModOptionsView;

    open spec fn view(&self) -> ModOptionsView {
        ModOptionsView {
            id: self.id@,
            version: self.version@,
            version_lock: self.version_lock,
            enabled: self.enabled,
        }
    }
}

impl ModOptions {
    /// A field-by-field copy whose mathematical image equals the original's.
    pub fn duplicate(&self) -> (r: ModOptions)
        ensures
            r@ == self@,
    {
        let r = ModOptions {
            id: self.id.clone(),
            version: self.version.clone(),
            version_lock: self.version_lock,
            enabled: self.enabled,
        };
        proof {
            assert(r@ =~= self@);
        }
        r
    }
}

/// True when no two rows share an id.
pub open spec fn spec_rows_wf(rows: Seq<ModOptionsView>) -> bool {
    forall|j: int, k: int| 0 <= j < k < rows.len() ==> rows[j].id != rows[k].id
}

/// True when some row carries `id`.
pub open spec fn spec_has_row(rows: Seq<ModOptionsView>, id: Seq<char>) -> bool {
    exists|j: int| 0 <= j < rows.len() && rows[j].id == id
}

/// The index of the row carrying `id`; meaningful when `spec_rows_wf` holds
/// and the row exists, in which case it is unique.
pub open spec fn spec_row_index(rows: Seq<ModOptionsView>, id: Seq<char>) -> int {
    choose|j: int| 0 <= j < rows.len() && rows[j].id == id
}

/// The row carrying `id`; meaningful when it exists.
pub open spec fn spec_row(rows: Seq<ModOptionsView>, id: Seq<char>) -> ModOptionsView {
    rows[spec_row_index(rows, id)]
}

/// The store after enabling the mod `id`: an existing row keeps its version
/// and lock and becomes enabled; otherwise a fresh enabled, unlocked row is
/// appended with `default_version` selected.
pub open spec fn spec_enable(
    rows: Seq<ModOptionsView>,
    id: Seq<char>,
    default_version: Seq<char>,
) -> Seq<ModOptionsView> {
    if spec_has_row(rows, id) {
        rows.update(
            spec_row_index(rows, id),
            ModOptionsView { enabled: true, ..spec_row(rows, id) },
        )
    } else {
        rows.push(
            ModOptionsView { id, version: default_version, version_lock: false, enabled: true },
        )
    }
}

/// The store after disabling the mod `id`; unknown ids leave it unchanged.
pub open spec fn spec_disable(rows: Seq<ModOptionsView>, id: Seq<char>) -> Seq<ModOptionsView> {
    if spec_has_row(rows, id) {
        rows.update(
            spec_row_index(rows, id),
            ModOptionsView { enabled: false, ..spec_row(rows, id) },
        )
    } else {
        rows
    }
}

/// The store after selecting `version` for the mod `id`; unknown ids leave
/// it unchanged and in particular create no row.
pub open spec fn spec_set_version(
    rows: Seq<ModOptionsView>,
    id: Seq<char>,
    version: Seq<char>,
) -> Seq<ModOptionsView> {
    if spec_has_row(rows, id) {
        rows.update(spec_row_index(rows, id), ModOptionsView { version, ..spec_row(rows, id) })
    } else {
        rows
    }
}

/// The store after setting the version lock of the mod `id`; unknown ids
/// leave it unchanged and in particular create no row.
pub open spec fn spec_set_lock(
    rows: Seq<ModOptionsView>,
    id: Seq<char>,
    locked: bool,
) -> Seq<ModOptionsView> {
    if spec_has_row(rows, id) {
        rows.update(
            spec_row_index(rows, id),
            ModOptionsView { version_lock: locked, ..spec_row(rows, id) },
        )
    } else {
        rows
    }
}

/// How enabling `id` changes a well-formed store, row by row: the rows of
/// other mods are untouched, and the id's row ends enabled, either created
/// with `default_version` or kept as it was.
pub proof fn lemma_spec_enable_props(
    rows: Seq<ModOptionsView>,
    id: Seq<char>,
    default_version: Seq<char>,
)
    requires
        spec_rows_wf(rows),
    ensures
        spec_rows_wf(spec_enable(rows, id, default_version)),
        forall|x: Seq<char>|
            #![trigger spec_has_row(spec_enable(rows, id, default_version), x)]
            spec_has_row(spec_enable(rows, id, default_version), x) == (spec_has_row(rows, x)
                || x == id),
        spec_row(spec_enable(rows, id, default_version), id) == if spec_has_row(rows, id) {
            ModOptionsView { enabled: true, ..spec_row(rows, id) }
        } else {
            ModOptionsView { id, version: default_version, version_lock: false, enabled: true }
        },
        forall|x: Seq<char>|
            #![trigger spec_row(spec_enable(rows, id, default_version), x)]
            x != id && spec_has_row(rows, x) ==> spec_row(
                spec_enable(rows, id, default_version),
                x,
            ) == spec_row(rows, x),
{
    let out = spec_enable(rows, id, default_version);
    if spec_has_row(rows, id) {
        let i = spec_row_index(rows, id);
        assert(0 <= i < rows.len() && rows[i].id == id);
        assert(out[i].id == id);
        assert forall|j: int, k: int| 0 <= j < k < out.len() implies out[j].id != out[k].id by {
            assert(out[j].id == rows[j].id && out[k].id == rows[k].id);
        }
        assert forall|x: Seq<char>|
            #![trigger spec_has_row(out, x)]
            spec_has_row(out, x) == spec_has_row(rows, x) || x == id by {
            if spec_has_row(out, x) {
                let j = choose|j: int| 0 <= j < out.len() && out[j].id == x;
                assert(rows[j].id == x);
            }
            if spec_has_row(rows, x) {
                let j = choose|j: int| 0 <= j < rows.len() && rows[j].id == x;
                assert(out[j].id == x);
            }
        }
        assert(spec_has_row(out, id));
        let i2 = spec_row_index(out, id);
        assert(0 <= i2 < out.len() && out[i2].id == id);
        if i2 != i {
            assert(rows[i2].id == id);
            assert(false);
        }
        assert forall|x: Seq<char>| x != id && spec_has_row(rows, x) implies #[trigger] spec_row(
            out,
            x,
        ) == spec_row(rows, x) by {
            let j = spec_row_index(rows, x);
            assert(0 <= j < rows.len() && rows[j].id == x);
            assert(out[j].id == x);
            assert(spec_has_row(out, x));
            let j2 = spec_row_index(out, x);
            assert(0 <= j2 < out.len() && out[j2].id == x);
            if j2 != j {
                assert(rows[j2].id == x || (j2 == i && out[j2].id == id));
                assert(false);
            }
            assert(j != i);
        }
    } else {
        assert(out == rows.push(
            ModOptionsView { id, version: default_version, version_lock: false, enabled: true },
        ));
        assert(out[rows.len() as int].id == id);
        assert forall|j: int, k: int| 0 <= j < k < out.len() implies out[j].id != out[k].id by {
            if k < rows.len() {
                assert(out[j].id == rows[j].id && out[k].id == rows[k].id);
            } else {
                assert(out[j].id == rows[j].id);
                if rows[j].id == id {
                    assert(spec_has_row(rows, id));
                }
            }
        }
        assert forall|x: Seq<char>|
            #![trigger spec_has_row(out, x)]
            spec_has_row(out, x) == spec_has_row(rows, x) || x == id by {
            if spec_has_row(out, x) {
                let j = choose|j: int| 0 <= j < out.len() && out[j].id == x;
                if j < rows.len() {
                    assert(rows[j].id == x);
                }
            }
            if spec_has_row(rows, x) {
                let j = choose|j: int| 0 <= j < rows.len() && rows[j].id == x;
                assert(out[j].id == x);
            }
        }
        assert(spec_has_row(out, id));
        let i2 = spec_row_index(out, id);
        assert(0 <= i2 < out.len() && out[i2].id == id);
        if i2 != rows.len() {
            assert(rows[i2].id == id);
            assert(spec_has_row(rows, id));
            assert(false);
        }
        assert forall|x: Seq<char>| x != id && spec_has_row(rows, x) implies #[trigger] spec_row(
            out,
            x,
        ) == spec_row(rows, x) by {
            let j = spec_row_index(rows, x);
            assert(0 <= j < rows.len() && rows[j].id == x);
            assert(out[j].id == x);
            assert(spec_has_row(out, x));
            let j2 = spec_row_index(out, x);
            assert(0 <= j2 < out.len() && out[j2].id == x);
            if j2 != j {
                if j2 < rows.len() {
                    assert(rows[j2].id == x);
                    assert(false);
                } else {
                    assert(out[j2].id == id);
                    assert(false);
                }
            }
        }
    }
}

/// How selecting a version changes a well-formed store, row by row: other
/// rows are untouched, and the id's row keeps its lock and enabled flag.
pub proof fn lemma_spec_set_version_props(
    rows: Seq<ModOptionsView>,
    id: Seq<char>,
    version: Seq<char>,
)
    requires
        spec_rows_wf(rows),
    ensures
        spec_rows_wf(spec_set_version(rows, id, version)),
        forall|x: Seq<char>|
            #![trigger spec_has_row(spec_set_version(rows, id, version), x)]
            spec_has_row(spec_set_version(rows, id, version), x) == spec_has_row(rows, x),
        spec_has_row(rows, id) ==> spec_row(spec_set_version(rows, id, version), id)
            == (ModOptionsView { version, ..spec_row(rows, id) }),
        forall|x: Seq<char>|
            #![trigger spec_row(spec_set_version(rows, id, version), x)]
            x != id && spec_has_row(rows, x) ==> spec_row(spec_set_version(rows, id, version), x)
                == spec_row(rows, x),
{
    let out = spec_set_version(rows, id, version);
    if spec_has_row(rows, id) {
        let i = spec_row_index(rows, id);
        assert(0 <= i < rows.len() && rows[i].id == id);
        assert(out[i].id == id);
        assert forall|j: int, k: int| 0 <= j < k < out.len() implies out[j].id != out[k].id by {
            assert(out[j].id == rows[j].id && out[k].id == rows[k].id);
        }
        assert forall|x: Seq<char>|
            #![trigger spec_has_row(out, x)]
            spec_has_row(out, x) == spec_has_row(rows, x) by {
            if spec_has_row(out, x) {
                let j = choose|j: int| 0 <= j < out.len() && out[j].id == x;
                assert(rows[j].id == x);
            }
            if spec_has_row(rows, x) {
                let j = choose|j: int| 0 <= j < rows.len() && rows[j].id == x;
                assert(out[j].id == x);
            }
        }
        assert(spec_has_row(out, id));
        let i2 = spec_row_index(out, id);
        assert(0 <= i2 < out.len() && out[i2].id == id);
        if i2 != i {
            assert(rows[i2].id == id);
            assert(false);
        }
        assert forall|x: Seq<char>| x != id && spec_has_row(rows, x) implies #[trigger] spec_row(
            out,
            x,
        ) == spec_row(rows, x) by {
            let j = spec_row_index(rows, x);
            assert(0 <= j < rows.len() && rows[j].id == x);
            assert(out[j].id == x);
            assert(spec_has_row(out, x));
            let j2 = spec_row_index(out, x);
            assert(0 <= j2 < out.len() && out[j2].id == x);
            if j2 != j {
                assert(rows[j2].id == x || (j2 == i && out[j2].id == id));
                assert(false);
            }
            assert(j != i);
        }
    }
}

/// The first row of `rows` carrying `id`, if any.
pub open spec fn spec_first_row(rows: Seq<ModOptionsView>, id: Seq<char>) -> Option<ModOptionsView>
    decreases rows.len(),
{
    if rows.len() == 0 {
        None
    } else if rows[0].id == id {
        Some(rows[0])
    } else {
        spec_first_row(rows.drop_first(), id)
    }
}

proof fn lemma_first_row_at(rows: Seq<ModOptionsView>, id: Seq<char>, i: int)
    requires
        0 <= i < rows.len(),
        rows[i].id == id,
        forall|k: int| 0 <= k < i ==> rows[k].id != id,
    ensures
        spec_first_row(rows, id) == Some(rows[i]),
    decreases rows.len(),
{
    if i > 0 {
        lemma_first_row_at(rows.drop_first(), id, i - 1);
    }
}

proof fn lemma_has_row_push(rows: Seq<ModOptionsView>, x: ModOptionsView, id: Seq<char>)
    ensures
        spec_has_row(rows.push(x), id) == (spec_has_row(rows, id) || x.id == id),
{
    if spec_has_row(rows, id) {
        let j = choose|j: int| 0 <= j < rows.len() && rows[j].id == id;
        assert(rows.push(x)[j].id == id);
    }
    if x.id == id {
        assert(rows.push(x)[rows.len() as int].id == id);
    }
    if spec_has_row(rows.push(x), id) {
        let j = choose|j: int| 0 <= j < rows.push(x).len() && rows.push(x)[j].id == id;
        if j < rows.len() {
            assert(rows[j].id == id);
        }
    }
}

/// Stores the options of every mod the user has touched.
#[derive(Debug)]
pub struct LocalModOptions {
    mods: Vec<ModOptions>,
}

impl View for LocalModOptions {
    type V = Seq<ModOptionsView>;

    closed spec fn view(&self) -> Seq<ModOptionsView> {
        self.mods@.map_values(|r: ModOptions| r@)
    }
}

impl LocalModOptions {
    /// True when no two rows share an id: every constructor establishes this
    /// and every method preserves it.
    pub open spec fn wf(&self) -> bool {
        spec_rows_wf(self@)
    }

    /// An empty store, the state of a first run.
    pub fn new() -> (r: LocalModOptions)
        ensures
            r@ =~= Seq::<ModOptionsView>::empty(),
            r.wf(),
    {
        LocalModOptions { mods: Vec::new() }
    }

    /// Rebuilds a store from persisted rows, keeping the first row of each id
    /// so that the at-most-one-row-per-id invariant holds even if the
    /// document was tampered with. A well-formed document loads unchanged.
    pub fn from_rows(rows: &Vec<ModOptions>) -> (r: LocalModOptions)
        ensures
            r.wf(),
            forall|id: Seq<char>|
                spec_has_row(r@, id) == spec_has_row(rows@.map_values(|x: ModOptions| x@), id),
            forall|j: int|
                0 <= j < r@.len() ==> spec_first_row(rows@.map_values(|x: ModOptions| x@), r@[j].id)
                    == Some(r@[j]),
            spec_rows_wf(rows@.map_values(|x: ModOptions| x@)) ==> r@ == rows@.map_values(
                |x: ModOptions| x@,
            ),
    {
        let ghost all = rows@.map_values(|x: ModOptions| x@);
        let mut kept: Vec<ModOptions> = Vec::new();
        let ghost mut kv: Seq<ModOptionsView> = Seq::empty();
        let mut i: usize = 0;
        proof {
            assert(kv =~= kept@.map_values(|x: ModOptions| x@));
        }
        while i < rows.len()
            invariant
                i <= rows.len(),
                all == rows@.map_values(|x: ModOptions| x@),
                kv == kept@.map_values(|x: ModOptions| x@),
                spec_rows_wf(kv),
                forall|id: Seq<char>|
                    #![trigger spec_has_row(kv, id)]
                    #![trigger spec_has_row(all.take(i as int), id)]
                    spec_has_row(kv, id) == spec_has_row(all.take(i as int), id),
                forall|j: int|
                    0 <= j < kv.len() ==> spec_first_row(all, #[trigger] kv[j].id) == Some(kv[j]),
                spec_rows_wf(all) ==> kv =~= all.take(i as int),
            decreases rows.len() - i,
        {
            let mut seen = false;
            let mut k: usize = 0;
            while k < kept.len()
                invariant
                    k <= kept.len(),
                    kv == kept@.map_values(|x: ModOptions| x@),
                    i < rows.len(),
                    all == rows@.map_values(|x: ModOptions| x@),
                    seen == exists|j: int| 0 <= j < k && kv[j].id == all[i as int].id,
                decreases kept.len() - k,
            {
                if kept[k].id == rows[i].id {
                    proof {
                        assert(kv[k as int].id == all[i as int].id);
                    }
                    seen = true;
                }
                k = k + 1;
            }
            proof {
                assert(seen == spec_has_row(kv, all[i as int].id));
                assert(all.take(i + 1) =~= all.take(i as int).push(all[i as int]));
            }
            if !seen {
                proof {
                    assert(!spec_has_row(all.take(i as int), all[i as int].id));
                    assert forall|k2: int| 0 <= k2 < i implies all[k2].id != all[i as int].id by {
                        if all[k2].id == all[i as int].id {
                            assert(all.take(i as int)[k2].id == all[i as int].id);
                            assert(spec_has_row(all.take(i as int), all[i as int].id));
                        }
                    }
                    lemma_first_row_at(all, all[i as int].id, i as int);
                }
                let ghost old_kv = kv;
                kept.push(rows[i].duplicate());
                proof {
                    kv = kv.push(all[i as int]);
                    assert(kv =~= kept@.map_values(|x: ModOptions| x@));
                    assert forall|id: Seq<char>|
                        spec_has_row(kv, id) == spec_has_row(all.take(i + 1), id) by {
                        lemma_has_row_push(old_kv, all[i as int], id);
                        lemma_has_row_push(all.take(i as int), all[i as int], id);
                    }
                    assert forall|j: int| 0 <= j < kv.len() implies spec_first_row(
                        all,
                        #[trigger] kv[j].id,
                    ) == Some(kv[j]) by {
                        if j < old_kv.len() {
                            assert(kv[j] == old_kv[j]);
                        }
                    }
                }
            } else {
                proof {
                    assert forall|id: Seq<char>|
                        spec_has_row(kv, id) == spec_has_row(all.take(i + 1), id) by {
                        lemma_has_row_push(all.take(i as int), all[i as int], id);
                        if all[i as int].id == id {
                            assert(spec_has_row(kv, id));
                        }
                    }
                    if spec_rows_wf(all) {
                        assert(spec_has_row(all.take(i as int), all[i as int].id));
                        let j = choose|j: int|
                            0 <= j < all.take(i as int).len() && all.take(i as int)[j].id == all[i
                                as int].id;
                        assert(all[j].id == all[i as int].id);
                        assert(false);
                    }
                }
            }
            i = i + 1;
        }
        proof {
            assert(all.take(rows@.len() as int) =~= all);
        }
        LocalModOptions { mods: kept }
    }

    /// The rows as stored, for persistence by the caller.
    pub fn rows(&self) -> (r: &Vec<ModOptions>)
        ensures
            r@.map_values(|x: ModOptions| x@) == self@,
    {
        &self.mods
    }

    /// Whether `this_mod` is enabled; a mod with no row is disabled.
    pub fn is_mod_enabled(&self, this_mod: &Mod) -> (r: Result<bool, Error>)
        requires
            self.wf(),
        ensures
            r == Ok::<bool, Error>(
                spec_has_row(self@, this_mod.uuid@) && spec_row(self@, this_mod.uuid@).enabled,
            ),
    {
        let mut i: usize = 0;
        while i < self.mods.len()
            invariant
                self.wf(),
                i <= self.mods.len(),
                forall|j: int| 0 <= j < i ==> self@[j].id != this_mod.uuid@,
            decreases self.mods.len() - i,
        {
            if self.mods[i].id == this_mod.uuid {
                proof {
                    assert(self@[i as int].id == this_mod.uuid@);
                    assert(spec_has_row(self@, this_mod.uuid@));
                    let j = spec_row_index(self@, this_mod.uuid@);
                    assert(0 <= j < self@.len() && self@[j].id == this_mod.uuid@);
                    assert(j == i as int);
                }
                return Ok(self.mods[i].enabled);
            }
            i = i + 1;
        }
        proof {
            assert(!spec_has_row(self@, this_mod.uuid@));
        }
        Ok(false)
    }

    /// The index of the row carrying `id`, if one exists.
    fn find_row_index(&self, id: &String) -> (r: Option<usize>)
        requires
            self.wf(),
        ensures
            match r {
                Some(i) => spec_has_row(self@, id@) && i < self@.len() && spec_row_index(
                    self@,
                    id@,
                ) == i as int && self@[i as int].id == id@,
                None => !spec_has_row(self@, id@),
            },
    {
        let mut i: usize = 0;
        while i < self.mods.len()
            invariant
                self.wf(),
                i <= self.mods.len(),
                forall|j: int| 0 <= j < i ==> self@[j].id != id@,
            decreases self.mods.len() - i,
        {
            if self.mods[i].id == *id {
                proof {
                    assert(self@[i as int].id == id@);
                    assert(spec_has_row(self@, id@));
                    let j = spec_row_index(self@, id@);
                    assert(0 <= j < self@.len() && self@[j].id == id@);
                    assert(j == i as int);
                }
                return Some(i);
            }
            i = i + 1;
        }
        proof {
            assert(!spec_has_row(self@, id@));
        }
        None
    }

    /// Marks `mod_to_enable` enabled, inserting a row that selects its most
    /// recent version when the mod was never configured before. This is the
    /// only call that creates a row.
    pub fn enable_mod(&mut self, mod_to_enable: &Mod) -> (r: Result<(), Error>)
        requires
            old(self).wf(),
            spec_has_row(old(self)@, mod_to_enable.uuid@) || mod_to_enable.versions@.len() > 0,
        ensures
            final(self).wf(),
            r is Ok,
            final(self)@ == spec_enable(
                old(self)@,
                mod_to_enable.uuid@,
                mod_to_enable@.versions[0].version_number,
            ),
    {
        match self.find_row_index(&mod_to_enable.uuid) {
            Some(i) => {
                let updated = ModOptions {
                    id: self.mods[i].id.clone(),
                    version: self.mods[i].version.clone(),
                    version_lock: self.mods[i].version_lock,
                    enabled: true,
                };
                let ghost old_rows = self@;
                self.mods.set(i, updated);
                proof {
                    assert(self@ =~= spec_enable(
                        old_rows,
                        mod_to_enable.uuid@,
                        mod_to_enable@.versions[0].version_number,
                    ));
                    assert forall|j: int, k: int| 0 <= j < k < self@.len() implies self@[j].id
                        != self@[k].id by {
                        assert(self@[j].id == old_rows[j].id);
                        assert(self@[k].id == old_rows[k].id);
                    }
                }
            },
            None => {
                let row = ModOptions {
                    id: mod_to_enable.uuid.clone(),
                    version: mod_to_enable.versions[0].version_number.clone(),
                    version_lock: false,
                    enabled: true,
                };
                let ghost old_rows = self@;
                self.mods.push(row);
                proof {
                    assert(self@ =~= spec_enable(
                        old_rows,
                        mod_to_enable.uuid@,
                        mod_to_enable@.versions[0].version_number,
                    ));
                    assert forall|j: int, k: int| 0 <= j < k < self@.len() implies self@[j].id
                        != self@[k].id by {
                        if k < old_rows.len() {
                            assert(self@[j].id == old_rows[j].id);
                            assert(self@[k].id == old_rows[k].id);
                        } else {
                            assert(self@[j].id == old_rows[j].id);
                            if self@[j].id == mod_to_enable.uuid@ {
                                assert(spec_has_row(old_rows, mod_to_enable.uuid@));
                            }
                        }
                    }
                }
            },
        }
        Ok(())
    }

    /// Marks the mod `mod_id` enabled, inserting a row that selects
    /// `version` when the mod was never configured before. The dependency
    /// resolver uses this with the version it actually materialised.
    pub fn enable_mod_at_version(&mut self, mod_id: &String, version: &String)
        requires
            old(self).wf(),
        ensures
            final(self).wf(),
            final(self)@ == spec_enable(old(self)@, mod_id@, version@),
    {
        match self.find_row_index(mod_id) {
            Some(i) => {
                let updated = ModOptions {
                    id: self.mods[i].id.clone(),
                    version: self.mods[i].version.clone(),
                    version_lock: self.mods[i].version_lock,
                    enabled: true,
                };
                let ghost old_rows = self@;
                self.mods.set(i, updated);
                proof {
                    assert(self@ =~= spec_enable(old_rows, mod_id@, version@));
                    assert forall|j: int, k: int| 0 <= j < k < self@.len() implies self@[j].id
                        != self@[k].id by {
                        assert(self@[j].id == old_rows[j].id);
                        assert(self@[k].id == old_rows[k].id);
                    }
                }
            },
            None => {
                let row = ModOptions {
                    id: mod_id.clone(),
                    version: version.clone(),
                    version_lock: false,
                    enabled: true,
                };
                let ghost old_rows = self@;
                self.mods.push(row);
                proof {
                    assert(self@ =~= spec_enable(old_rows, mod_id@, version@));
                    assert forall|j: int, k: int| 0 <= j < k < self@.len() implies self@[j].id
                        != self@[k].id by {
                        if k < old_rows.len() {
                            assert(self@[j].id == old_rows[j].id);
                            assert(self@[k].id == old_rows[k].id);
                        } else {
                            assert(self@[j].id == old_rows[j].id);
                            if self@[j].id == mod_id@ {
                                assert(spec_has_row(old_rows, mod_id@));
                            }
                        }
                    }
                }
            },
        }
    }

    /// Clears the enabled flag of `mod_to_disable`. The row, its selected
    /// version and its lock survive for a future re-enable; an unknown id is
    /// a no-op.
    pub fn disable_mod(&mut self, mod_to_disable: &Mod) -> (r: Result<(), Error>)
        requires
            old(self).wf(),
        ensures
            final(self).wf(),
            r is Ok,
            final(self)@ == spec_disable(old(self)@, mod_to_disable.uuid@),
    {
        match self.find_row_index(&mod_to_disable.uuid) {
            Some(i) => {
                let updated = ModOptions {
                    id: self.mods[i].id.clone(),
                    version: self.mods[i].version.clone(),
                    version_lock: self.mods[i].version_lock,
                    enabled: false,
                };
                let ghost old_rows = self@;
                self.mods.set(i, updated);
                proof {
                    assert(self@ =~= spec_disable(old_rows, mod_to_disable.uuid@));
                    assert forall|j: int, k: int| 0 <= j < k < self@.len() implies self@[j].id
                        != self@[k].id by {
                        assert(self@[j].id == old_rows[j].id);
                        assert(self@[k].id == old_rows[k].id);
                    }
                }
            },
            None => {},
        }
        Ok(())
    }

    /// Enables or disables `mod_to_change` according to `enable`.
    pub fn set_mod_enabled(&mut self, mod_to_change: &Mod, enable: bool) -> (r: Result<(), Error>)
        requires
            old(self).wf(),
            enable ==> spec_has_row(old(self)@, mod_to_change.uuid@)
                || mod_to_change.versions@.len() > 0,
        ensures
            final(self).wf(),
            r is Ok,
            enable ==> final(self)@ == spec_enable(
                old(self)@,
                mod_to_change.uuid@,
                mod_to_change@.versions[0].version_number,
            ),
            !enable ==> final(self)@ == spec_disable(old(self)@, mod_to_change.uuid@),
    {
        if enable {
            self.enable_mod(mod_to_change)
        } else {
            self.disable_mod(mod_to_change)
        }
    }

    /// Selects `version` for the mod `mod_id`. An id with no row is a
    /// silent no-op: no row is created.
    pub fn set_mod_version(&mut self, mod_id: &String, version: &String) -> (r: Result<(), Error>)
        requires
            old(self).wf(),
        ensures
            final(self).wf(),
            r is Ok,
            final(self)@ == spec_set_version(old(self)@, mod_id@, version@),
            !spec_has_row(old(self)@, mod_id@) ==> final(self)@ == old(self)@,
    {
        match self.find_row_index(mod_id) {
            Some(i) => {
                let updated = ModOptions {
                    id: self.mods[i].id.clone(),
                    version: version.clone(),
                    version_lock: self.mods[i].version_lock,
                    enabled: self.mods[i].enabled,
                };
                let ghost old_rows = self@;
                self.mods.set(i, updated);
                proof {
                    assert(self@ =~= spec_set_version(old_rows, mod_id@, version@));
                    assert forall|j: int, k: int| 0 <= j < k < self@.len() implies self@[j].id
                        != self@[k].id by {
                        assert(self@[j].id == old_rows[j].id);
                        assert(self@[k].id == old_rows[k].id);
                    }
                }
            },
            None => {},
        }
        Ok(())
    }

    /// Sets the version lock of the mod `mod_id`. An id with no row is a
    /// silent no-op: no row is created.
    pub fn set_version_lock(&mut self, mod_id: &String, locked: bool) -> (r: Result<(), Error>)
        requires
            old(self).wf(),
        ensures
            final(self).wf(),
            r is Ok,
            final(self)@ == spec_set_lock(old(self)@, mod_id@, locked),
            !spec_has_row(old(self)@, mod_id@) ==> final(self)@ == old(self)@,
    {
        match self.find_row_index(mod_id) {
            Some(i) => {
                let updated = ModOptions {
                    id: self.mods[i].id.clone(),
                    version: self.mods[i].version.clone(),
                    version_lock: locked,
                    enabled: self.mods[i].enabled,
                };
                let ghost old_rows = self@;
                self.mods.set(i, updated);
                proof {
                    assert(self@ =~= spec_set_lock(old_rows, mod_id@, locked));
                    assert forall|j: int, k: int| 0 <= j < k < self@.len() implies self@[j].id
                        != self@[k].id by {
                        assert(self@[j].id == old_rows[j].id);
                        assert(self@[k].id == old_rows[k].id);
                    }
                }
            },
            None => {},
        }
        Ok(())
    }

    /// The version lock of the mod `mod_id`, or `None` when it has no row.
    pub fn get_version_lock(&self, mod_id: &String) -> (r: Option<bool>)
        requires
            self.wf(),
        ensures
            spec_has_row(self@, mod_id@) ==> r == Some(spec_row(self@, mod_id@).version_lock),
            !spec_has_row(self@, mod_id@) ==> r is None,
    {
        match self.find_row_index(mod_id) {
            Some(i) => Some(self.mods[i].version_lock),
            None => None,
        }
    }

    /// The row of the mod `mod_id`, if one exists.
    pub fn get_mod_options(&self, mod_id: String) -> (r: Option<&ModOptions>)
        requires
            self.wf(),
        ensures
            match r {
                Some(o) => spec_has_row(self@, mod_id@) && o@ == spec_row(self@, mod_id@),
                None => !spec_has_row(self@, mod_id@),
            },
    {
        match self.find_row_index(&mod_id) {
            Some(i) => Some(&self.mods[i]),
            None => None,
        }
    }

    /// A mutable borrow of the row of the mod `mod_id`, if one exists.
    /// Mutating through it rewrites exactly that row; the caller is
    /// responsible for keeping ids unique when it changes the id field.
    pub fn get_mod_options_mut(&mut self, mod_id: String) -> (r: Option<&mut ModOptions>)
        requires
            old(self).wf(),
        ensures
            match r {
                None => !spec_has_row(old(self)@, mod_id@) && final(self)@ == old(self)@,
                Some(o) => spec_has_row(old(self)@, mod_id@) && final(self)@ == old(self)@.update(
                    spec_row_index(old(self)@, mod_id@),
                    final(o)@,
                ),
            },
    {
        match self.find_row_index(&mod_id) {
            Some(i) => Some(&mut self.mods[i]),
            None => None,
        }
    }

    /// The ids of every enabled mod, in row order.
    pub fn get_enabled_mod_ids(&self) -> (r: Vec<String>)
        ensures
            r@.map_values(|s: String| s@) == self@.filter(|row: ModOptionsView| row.enabled)
                .map_values(|row: ModOptionsView| row.id),
    {
        let ghost pred = |row: ModOptionsView| row.enabled;
        let mut out: Vec<String> = Vec::new();
        let mut i: usize = 0;
        proof {
            assert(self@.take(0) =~= Seq::<ModOptionsView>::empty());
            reveal(Seq::filter);
        }
        while i < self.mods.len()
            invariant
                i <= self.mods.len(),
                pred == (|row: ModOptionsView| row.enabled),
                out@.map_values(|s: String| s@) =~= self@.take(i as int).filter(pred).map_values(
                    |row: ModOptionsView| row.id,
                ),
            decreases self.mods.len() - i,
        {
            let ghost prev = self@.take(i as int);
            let ghost prior = out@;
            proof {
                reveal(Seq::filter);
                assert(self@.take(i + 1).drop_last() =~= prev);
                assert(self@.take(i + 1).last() == self@[i as int]);
                if pred(self@[i as int]) {
                    assert(self@.take(i + 1).filter(pred) == prev.filter(pred).push(
                        self@[i as int],
                    ));
                } else {
                    assert(self@.take(i + 1).filter(pred) == prev.filter(pred));
                }
            }
            if self.mods[i].enabled {
                proof {
                    assert(self@[i as int].enabled);
                }
                out.push(self.mods[i].id.clone());
                proof {
                    assert(out@.map_values(|s: String| s@) =~= prior.map_values(
                        |s: String| s@,
                    ).push(self@[i as int].id));
                    assert(prev.filter(pred).push(self@[i as int]).map_values(
                        |row: ModOptionsView| row.id,
                    ) =~= prev.filter(pred).map_values(|row: ModOptionsView| row.id).push(
                        self@[i as int].id,
                    ));
                }
            } else {
                proof {
                    assert(!self@[i as int].enabled);
                }
            }
            i = i + 1;
        }
        proof {
            assert(self@.take(self@.len() as int) =~= self@);
        }
        out
    }
}

} // verus!

