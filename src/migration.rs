use vstd::prelude::*;
use crate::error::DbError;

verus! {

/// One reversible schema change: `up` brings the schema from version
/// `version - 1` to `version`, `down` takes it back.
#[derive(Clone, Copy, Debug)]
pub struct Migration {
    pub version: i32,
    pub up: &'static str,
    pub down: &'static str,
}

impl Migration {
    pub fn new(version: i32, up: &'static str, down: &'static str) -> (r: Migration)
        ensures
            r.version == version,
            r.up == up,
            r.down == down,
    {
        Migration { version, up, down }
    }
}

/// The versions of a list of definitions, in list order.
pub open spec fn versions(defs: Seq<Migration>) -> Seq<i32> {
    defs.map_values(|m: Migration| m.version)
}

/// Definitions carry positive versions in strictly ascending order.
pub open spec fn well_ordered(defs: Seq<Migration>) -> bool {
    &&& forall|i: int| 0 <= i < defs.len() ==> defs[i].version > 0
    &&& forall|i: int, j: int| 0 <= i < j < defs.len() ==> defs[i].version < defs[j].version
}

/// `a` is a leading part of `full`.
pub open spec fn prefix_of(a: Seq<i32>, full: Seq<i32>) -> bool {
    a.len() <= full.len() && forall|i: int| 0 <= i < a.len() ==> a[i] == full[i]
}

/// The ledger after applying, in ascending order, every definition not yet applied.
pub open spec fn after_apply_all(applied: Seq<i32>, full: Seq<i32>) -> Seq<i32> {
    applied + full.skip(applied.len() as int)
}

/// How many leading versions of `applied` are at most `target`.
pub open spec fn kept_count(applied: Seq<i32>, target: i32) -> nat
    decreases applied.len(),
{
    if applied.len() == 0 {
        0
    } else if applied[0] <= target {
        1 + kept_count(applied.skip(1), target)
    } else {
        0
    }
}

/// The ledger after reverting every applied version above `target`.
pub open spec fn after_rollback(applied: Seq<i32>, target: i32) -> Seq<i32> {
    applied.take(kept_count(applied, target) as int)
}

/// A rollback target must be an applied version.
pub open spec fn rollback_allowed(applied: Seq<i32>, target: i32) -> bool {
    applied.contains(target)
}

proof fn lemma_kept_count(s: Seq<i32>, t: i32, k: int)
    requires
        0 <= k <= s.len(),
        forall|j: int| 0 <= j < k ==> s[j] <= t,
        k == s.len() || s[k] > t,
    ensures
        kept_count(s, t) == k,
    decreases s.len(),
{
    if s.len() > 0 && k > 0 {
        let r = s.skip(1);
        assert forall|j: int| 0 <= j < k - 1 implies r[j] <= t by {
            assert(r[j] == s[j + 1]);
        }
        if k < s.len() {
            assert(r[k - 1] == s[k]);
        }
        lemma_kept_count(r, t, k - 1);
    }
}

/// Schema change 1, forward.
pub const MIGRATION_1_UP: &'static str = "CREATE TABLE IF NOT EXISTS properties (
                id INTEGER PRIMARY KEY AUTOINCREMENT,
                external_id TEXT NOT NULL,
                source TEXT NOT NULL,
                property_type TEXT,
                district TEXT NOT NULL,
                title TEXT NOT NULL,
                description TEXT,
                price_usd REAL NOT NULL,
                address TEXT NOT NULL,
                covered_size REAL,
                rooms INTEGER,
                antiquity INTEGER,
                url TEXT NOT NULL,
                created_at DATETIME NOT NULL,
                updated_at DATETIME NOT NULL,
                UNIQUE(source, external_id)
            )";

/// Schema change 1, backward.
pub const MIGRATION_1_DOWN: &'static str = "DROP TABLE IF EXISTS properties";

/// Schema change 2, forward.
pub const MIGRATION_2_UP: &'static str = "CREATE UNIQUE INDEX IF NOT EXISTS idx_properties_key ON properties(source, external_id)";

/// Schema change 2, backward.
pub const MIGRATION_2_DOWN: &'static str = "DROP INDEX IF EXISTS idx_properties_key";

/// Schema change 3, forward.
pub const MIGRATION_3_UP: &'static str = "CREATE TABLE IF NOT EXISTS property_price_history (
                id INTEGER PRIMARY KEY AUTOINCREMENT,
                property_id INTEGER NOT NULL,
                price_usd REAL NOT NULL,
                observed_at DATETIME NOT NULL,
                FOREIGN KEY(property_id) REFERENCES properties(id),
                UNIQUE(property_id, observed_at)
            )";

/// Schema change 3, backward.
pub const MIGRATION_3_DOWN: &'static str = "DROP TABLE IF EXISTS property_price_history";

/// Schema change 4, forward.
pub const MIGRATION_4_UP: &'static str = "CREATE TABLE IF NOT EXISTS property_images (
                id INTEGER PRIMARY KEY AUTOINCREMENT,
                property_id INTEGER NOT NULL,
                url TEXT NOT NULL,
                local_path TEXT NOT NULL,
                hash BLOB NOT NULL,
                created_at DATETIME NOT NULL,
                updated_at DATETIME NOT NULL,
                FOREIGN KEY(property_id) REFERENCES properties(id),
                UNIQUE(property_id, url)
            )";

/// Schema change 4, backward.
pub const MIGRATION_4_DOWN: &'static str = "DROP TABLE IF EXISTS property_images";

/// Schema change 5, forward.
pub const MIGRATION_5_UP: &'static str = "ALTER TABLE properties ADD COLUMN status TEXT NOT NULL DEFAULT 'active';
            CREATE INDEX IF NOT EXISTS idx_properties_status ON properties(status);";

/// Schema change 5, backward.
pub const MIGRATION_5_DOWN: &'static str = "DROP INDEX IF EXISTS idx_properties_status;
            ALTER TABLE properties DROP COLUMN status;";

/// Schema change 6, forward.
pub const MIGRATION_6_UP: &'static str = "CREATE INDEX IF NOT EXISTS idx_price_history_property
                ON property_price_history(property_id, observed_at)";

/// Schema change 6, backward.
pub const MIGRATION_6_DOWN: &'static str = "DROP INDEX IF EXISTS idx_price_history_property";

/// Schema change 7, forward.
pub const MIGRATION_7_UP: &'static str = "CREATE INDEX IF NOT EXISTS idx_properties_updated_at ON properties(updated_at)";

/// Schema change 7, backward.
pub const MIGRATION_7_DOWN: &'static str = "DROP INDEX IF EXISTS idx_properties_updated_at";

/// The schema changes this crate ships, oldest first.
pub fn migrations() -> (r: Vec<Migration>)
    ensures
        well_ordered(r@),
        r@.len() == 7,
        versions(r@) == seq![1i32, 2, 3, 4, 5, 6, 7],
        r@[0] == (Migration { version: 1, up: MIGRATION_1_UP, down: MIGRATION_1_DOWN }),
        r@[1] == (Migration { version: 2, up: MIGRATION_2_UP, down: MIGRATION_2_DOWN }),
        r@[2] == (Migration { version: 3, up: MIGRATION_3_UP, down: MIGRATION_3_DOWN }),
        r@[3] == (Migration { version: 4, up: MIGRATION_4_UP, down: MIGRATION_4_DOWN }),
        r@[4] == (Migration { version: 5, up: MIGRATION_5_UP, down: MIGRATION_5_DOWN }),
        r@[5] == (Migration { version: 6, up: MIGRATION_6_UP, down: MIGRATION_6_DOWN }),
        r@[6] == (Migration { version: 7, up: MIGRATION_7_UP, down: MIGRATION_7_DOWN }),
{
    let r = vec![
        Migration::new(1, MIGRATION_1_UP, MIGRATION_1_DOWN),
        Migration::new(2, MIGRATION_2_UP, MIGRATION_2_DOWN),
        Migration::new(3, MIGRATION_3_UP, MIGRATION_3_DOWN),
        Migration::new(4, MIGRATION_4_UP, MIGRATION_4_DOWN),
        Migration::new(5, MIGRATION_5_UP, MIGRATION_5_DOWN),
        Migration::new(6, MIGRATION_6_UP, MIGRATION_6_DOWN),
        Migration::new(7, MIGRATION_7_UP, MIGRATION_7_DOWN),
    ];
    assert(versions(r@) =~= seq![1i32, 2, 3, 4, 5, 6, 7]);
    r
}

/// Finds the definition of `version`.
pub fn find_migration(defs: &Vec<Migration>, version: i32) -> (r: Option<Migration>)
    ensures
        r is Some <==> versions(defs@).contains(version),
        r matches Some(m) ==> m.version == version && defs@.contains(m),
{
    let mut i: usize = 0;
    while i < defs.len()
        invariant
            i <= defs.len(),
            forall|j: int| 0 <= j < i ==> defs@[j].version != version,
        decreases defs.len() - i,
    {
        if defs[i].version == version {
            proof {
                assert(versions(defs@)[i as int] == version);
            }
            return Some(defs[i]);
        }
        i = i + 1;
    }
    proof {
        if versions(defs@).contains(version) {
            let j = choose|j: int| 0 <= j < versions(defs@).len() && versions(defs@)[j] == version;
            assert(defs@[j].version == version);
        }
    }
    None
}

/// The durable record of applied migrations: always the versions of the first
/// few definitions, in ascending order.
pub struct SchemaLedger {
    applied: Vec<i32>,
}

impl View for SchemaLedger {
    type V = Seq<i32>;

    closed spec fn view(&self) -> Seq<i32> {
        self.applied@
    }
}

impl SchemaLedger {
    /// The ledger is a contiguous prefix of the definitions.
    pub open spec fn wf(&self, defs: Seq<Migration>) -> bool {
        well_ordered(defs) && prefix_of(self@, versions(defs))
    }

    /// A ledger with nothing applied.
    pub fn new() -> (r: SchemaLedger)
        ensures
            r@ == Seq::<i32>::empty(),
    {
        SchemaLedger { applied: Vec::new() }
    }

    /// Rebuilds the ledger from the versions found in storage, ascending; any
    /// set that is not a contiguous prefix of the definitions is refused.
    pub fn from_applied(found: Vec<i32>, defs: &Vec<Migration>) -> (r: Result<SchemaLedger, DbError>)
        requires
            well_ordered(defs@),
        ensures
            r is Ok <==> prefix_of(found@, versions(defs@)),
            r matches Ok(l) ==> l@ == found@ && l.wf(defs@),
            r matches Err(e) ==> e == DbError::InvalidLedger,
    {
        if found.len() > defs.len() {
            return Err(DbError::InvalidLedger);
        }
        let mut i: usize = 0;
        while i < found.len()
            invariant
                i <= found.len() <= defs.len(),
                forall|j: int| 0 <= j < i ==> found@[j] == defs@[j].version,
            decreases found.len() - i,
        {
            if found[i] != defs[i].version {
                proof {
                    assert(versions(defs@).take(found@.len() as int)[i as int] == defs@[i as int].version);
                }
                return Err(DbError::InvalidLedger);
            }
            i = i + 1;
        }
        assert(found@ =~= versions(defs@).take(found@.len() as int));
        Ok(SchemaLedger { applied: found })
    }

    /// The applied versions, ascending.
    pub fn list_applied(&self) -> (r: Vec<i32>)
        ensures
            r@ == self@,
    {
        self.applied.clone()
    }

    /// The highest applied version, or 0 when nothing is applied.
    pub fn current_version(&self) -> (r: i32)
        ensures
            self@.len() == 0 ==> r == 0,
            self@.len() > 0 ==> r == self@.last(),
    {
        if self.applied.len() == 0 {
            0
        } else {
            self.applied[self.applied.len() - 1]
        }
    }

    /// The versions still to apply, in the order they must run.
    pub fn pending(&self, defs: &Vec<Migration>) -> (r: Vec<i32>)
        requires
            self.wf(defs@),
        ensures
            r@ == versions(defs@).skip(self@.len() as int),
    {
        let mut r: Vec<i32> = Vec::new();
        let mut i: usize = self.applied.len();
        while i < defs.len()
            invariant
                self.applied@.len() <= i <= defs.len(),
                r@ == versions(defs@).subrange(self.applied@.len() as int, i as int),
            decreases defs.len() - i,
        {
            r.push(defs[i].version);
            i = i + 1;
            assert(r@ =~= versions(defs@).subrange(self.applied@.len() as int, i as int));
        }
        assert(r@ =~= versions(defs@).skip(self@.len() as int));
        r
    }

    /// Records that `version` was applied; only the next pending version is
    /// accepted, so the ledger stays contiguous.
    pub fn record_applied(&mut self, defs: &Vec<Migration>, version: i32) -> (r: Result<(), DbError>)
        requires
            old(self).wf(defs@),
        ensures
            r is Ok <==> (old(self)@.len() < defs@.len() && version == defs@[old(self)@.len() as int].version),
            r is Ok ==> final(self)@ == old(self)@.push(version),
            r matches Err(e) ==> final(self)@ == old(self)@ && e == DbError::SchemaMismatch(version),
            final(self).wf(defs@),
    {
        let n = self.applied.len();
        if n < defs.len() && defs[n].version == version {
            self.applied.push(version);
            assert(self.applied@ =~= versions(defs@).take(n as int + 1));
            Ok(())
        } else {
            Err(DbError::SchemaMismatch(version))
        }
    }

    /// Records that the highest applied version was reverted.
    pub fn record_reverted(&mut self, defs: &Vec<Migration>, version: i32) -> (r: Result<(), DbError>)
        requires
            old(self).wf(defs@),
        ensures
            r is Ok <==> (old(self)@.len() > 0 && version == old(self)@.last()),
            r is Ok ==> final(self)@ == old(self)@.drop_last(),
            r matches Err(e) ==> final(self)@ == old(self)@ && e == DbError::NotFound,
            final(self).wf(defs@),
    {
        let n = self.applied.len();
        if n > 0 && self.applied[n - 1] == version {
            self.applied.pop();
            assert(self.applied@ =~= versions(defs@).take(n as int - 1));
            Ok(())
        } else {
            Err(DbError::NotFound)
        }
    }

    /// Applies every pending migration in ascending order; returns the versions
    /// that ran now.
    pub fn apply_all(&mut self, defs: &Vec<Migration>) -> (r: Vec<i32>)
        requires
            old(self).wf(defs@),
        ensures
            final(self)@ == after_apply_all(old(self)@, versions(defs@)),
            final(self)@ == versions(defs@),
            r@ == versions(defs@).skip(old(self)@.len() as int),
            final(self).wf(defs@),
    {
        let todo = self.pending(defs);
        let ghost start = self@;
        let mut i: usize = 0;
        while i < todo.len()
            invariant
                well_ordered(defs@),
                start == versions(defs@).take(start.len() as int),
                start.len() <= defs@.len(),
                todo@ == versions(defs@).skip(start.len() as int),
                i <= todo.len(),
                self.applied@ == versions(defs@).take(start.len() + i),
            decreases todo.len() - i,
        {
            self.applied.push(todo[i]);
            i = i + 1;
            assert(self.applied@ =~= versions(defs@).take(start.len() + i));
        }
        assert(self.applied@ =~= versions(defs@));
        assert(after_apply_all(start, versions(defs@)) =~= versions(defs@));
        todo
    }

    /// Reverts, highest first, every applied version above `target`; returns
    /// the reverted versions in the order they ran. A target that is not applied
    /// changes nothing and fails: with `SchemaMismatch` when no migration defines
    /// it (0 included), with `NotFound` when it is defined but not applied.
    pub fn rollback_to(&mut self, defs: &Vec<Migration>, target: i32) -> (r: Result<Vec<i32>, DbError>)
        requires
            old(self).wf(defs@),
        ensures
            r is Ok <==> rollback_allowed(old(self)@, target),
            r matches Ok(rev) ==> final(self)@ == after_rollback(old(self)@, target)
                && rev@ == old(self)@.skip(final(self)@.len() as int).reverse(),
            r is Ok ==> forall|i: int| 0 <= i < final(self)@.len() ==> final(self)@[i] <= target,
            r is Ok ==> forall|i: int| final(self)@.len() <= i < old(self)@.len() ==> old(self)@[i] > target,
            r matches Err(e) ==> final(self)@ == old(self)@ && e == (if versions(defs@).contains(target) {
                DbError::NotFound
            } else {
                DbError::SchemaMismatch(target)
            }),
            final(self).wf(defs@),
    {
        let ghost full = versions(defs@);
        let mut k: usize = 0;
        let mut found = false;
        while k < self.applied.len() && self.applied[k] <= target
            invariant
                k <= self.applied@.len(),
                forall|j: int| 0 <= j < k ==> self.applied@[j] <= target,
                found == (exists|j: int| 0 <= j < k && self.applied@[j] == target),
            decreases self.applied@.len() - k,
        {
            if self.applied[k] == target {
                found = true;
            }
            k = k + 1;
        }
        proof {
            lemma_kept_count(self.applied@, target, k as int);
            // applied versions are ascending, so a match can only sit below k
            assert forall|i: int, j: int| 0 <= i < j < self@.len() implies self@[i] < self@[j] by {
                assert(self@[i] == full[i] && self@[j] == full[j]);
                assert(defs@[i].version < defs@[j].version);
            }
            if self@.contains(target) {
                let j = choose|j: int| 0 <= j < self@.len() && self@[j] == target;
                if j >= k {
                    assert(self@[k as int] > target);
                    if j > k {
                        assert(self@[k as int] < self@[j]);
                    }
                }
            }
        }
        if !found {
            let def = find_migration(defs, target);
            proof {
                if self@.contains(target) {
                    let j = choose|j: int| 0 <= j < self@.len() && self@[j] == target;
                    assert(j < k);
                }
            }
            if def.is_some() {
                return Err(DbError::NotFound);
            } else {
                return Err(DbError::SchemaMismatch(target));
            }
        }
        let ghost before = self@;
        let mut rev: Vec<i32> = Vec::new();
        while self.applied.len() > k
            invariant
                k <= self.applied@.len() <= before.len(),
                self.applied@ == before.take(self.applied@.len() as int),
                rev@ == before.skip(self.applied@.len() as int).reverse(),
            decreases self.applied@.len(),
        {
            let ghost n = self.applied@.len();
            let v = self.applied.pop().unwrap();
            rev.push(v);
            proof {
                assert(self.applied@ =~= before.take(n - 1));
                assert(rev@ =~= before.skip(n - 1).reverse());
            }
        }
        proof {
            assert(self.applied@ =~= full.take(k as int));
            assert forall|i: int| k <= i < before.len() implies before[i] > target by {
                if i > k {
                    assert(before[k as int] < before[i]);
                }
            }
            let j = choose|j: int| 0 <= j < before.len() && before[j] == target;
            assert(j < k);
        }
        Ok(rev)
    }

    /// Reverts every applied version, highest first; returns them in the order
    /// they ran.
    pub fn rollback_all(&mut self, defs: &Vec<Migration>) -> (r: Vec<i32>)
        requires
            old(self).wf(defs@),
        ensures
            final(self)@ == Seq::<i32>::empty(),
            r@ == old(self)@.reverse(),
            final(self).wf(defs@),
    {
        let ghost before = self@;
        let mut rev: Vec<i32> = Vec::new();
        while self.applied.len() > 0
            invariant
                self.applied@.len() <= before.len(),
                self.applied@ == before.take(self.applied@.len() as int),
                rev@ == before.skip(self.applied@.len() as int).reverse(),
            decreases self.applied@.len(),
        {
            let ghost n = self.applied@.len();
            let v = self.applied.pop().unwrap();
            rev.push(v);
            proof {
                assert(self.applied@ =~= before.take(n - 1));
                assert(rev@ =~= before.skip(n - 1).reverse());
            }
        }
        assert(before.skip(0) =~= before);
        assert(self.applied@ =~= Seq::<i32>::empty());
        rev
    }
}

/// Applying all migrations, rolling back to an applied version, and
/// applying all again gives the ledger of a fresh apply-all from empty. The
/// rollback leaves a contiguous prefix of the definitions, which is what the
/// second pass starts from.
pub proof fn lemma_rollback_round_trip(defs: Seq<Migration>, start: Seq<i32>, target: i32)
    requires
        well_ordered(defs),
        prefix_of(start, versions(defs)),
        rollback_allowed(after_apply_all(start, versions(defs)), target),
    ensures
        ({
            let full = versions(defs);
            let back = after_rollback(after_apply_all(start, full), target);
            &&& prefix_of(back, full)
            &&& after_apply_all(back, full) == after_apply_all(Seq::<i32>::empty(), full)
        }),
{
    let full = versions(defs);
    assert(after_apply_all(start, full) =~= full);
    lemma_kept_count_bound(full, target);
    let back = after_rollback(full, target);
    assert(back =~= full.take(back.len() as int));
    assert(after_apply_all(back, full) =~= full);
    assert(after_apply_all(Seq::<i32>::empty(), full) =~= full);
}

proof fn lemma_kept_count_bound(s: Seq<i32>, t: i32)
    ensures
        kept_count(s, t) <= s.len(),
    decreases s.len(),
{
    if s.len() > 0 {
        lemma_kept_count_bound(s.skip(1), t);
    }
}

} // verus!
