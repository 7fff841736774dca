//! The shared state store: the catalog of database records and the cached
//! disk-quota figures, guarded by a reader/writer lock.

use vstd::prelude::*;
use vstd::rwlock::RwLock;
use vstd::rwlock::RwLockPredicate;
use std::sync::Arc;
use crate::text::str_eq;

verus! {

/// Cached disk-quota figures: consumed offset, total capacity and the two
/// alert thresholds, in bytes.
#[derive(Clone, Copy, Debug, PartialEq, Eq, Structural)]
pub struct DiskState {
    pub offset: u64,
    pub capacity: u64,
    pub soft_threshold: u64,
    pub hard_threshold: u64,
}

impl DiskState {
    pub fn new(offset: u64, capacity: u64, soft_threshold: u64, hard_threshold: u64) -> (d:
        DiskState)
        ensures
            d == (DiskState { offset, capacity, soft_threshold, hard_threshold }),
    {
        DiskState { offset, capacity, soft_threshold, hard_threshold }
    }

    pub fn offset(&self) -> (r: u64)
        ensures
            r == self.offset,
    {
        self.offset
    }

    pub fn capacity(&self) -> (r: u64)
        ensures
            r == self.capacity,
    {
        self.capacity
    }

    pub fn soft_threshold(&self) -> (r: u64)
        ensures
            r == self.soft_threshold,
    {
        self.soft_threshold
    }

    pub fn hard_threshold(&self) -> (r: u64)
        ensures
            r == self.hard_threshold,
    {
        self.hard_threshold
    }
}

impl Default for DiskState {
    /// The quota cached before the first disk refresh: all four figures zero.
    fn default() -> (d: Self)
        ensures
            d == (DiskState { offset: 0, capacity: 0, soft_threshold: 0, hard_threshold: 0 }),
    {
        DiskState { offset: 0, capacity: 0, soft_threshold: 0, hard_threshold: 0 }
    }
}

/// The mathematical value of one catalog record.
pub struct DatabaseView {
    pub name: Seq<char>,
    pub user: Option<Seq<char>>,
    pub modified: int,
    pub size: int,
}

/// One catalog record: a database's name, the login attributed as its owner
/// (if any), its last modification timestamp and its size in bytes.
#[derive(Debug)]
pub struct Database {
    name: String,
    user: Option<String>,
    modified: i64,
    size: u64,
}

impl View for Database {
    type V = DatabaseView;

    closed spec fn view(&self) -> DatabaseView {
        DatabaseView {
            name: self.name@,
            user: match self.user {
                Some(u) => Some(u@),
                None => None,
            },
            modified: self.modified as int,
            size: self.size as int,
        }
    }
}

impl Database {
    pub fn new(name: &str, user: Option<&String>, modified: i64, size: u64) -> (d: Database)
        ensures
            d@.name == name@,
            d@.user == (match user {
                Some(u) => Some(u@),
                None => None::<Seq<char>>,
            }),
            d@.modified == modified as int,
            d@.size == size as int,
    {
        Database { name: name.to_owned(), user: user.cloned(), modified, size }
    }

    pub fn name(&self) -> (r: &str)
        ensures
            r@ == self@.name,
    {
        self.name.as_str()
    }

    pub fn user(&self) -> (r: Option<&String>)
        ensures
            r.is_some() == self@.user.is_some(),
            r matches Some(u) ==> self@.user == Some(u@),
    {
        self.user.as_ref()
    }

    pub fn modified(&self) -> (r: i64)
        ensures
            r as int == self@.modified,
    {
        self.modified
    }

    pub fn size(&self) -> (r: u64)
        ensures
            r as int == self@.size,
    {
        self.size
    }
}

impl Clone for Database {
    fn clone(&self) -> (d: Self)
        ensures
            d@ == self@,
    {
        Database {
            name: self.name.clone(),
            user: self.user.clone(),
            modified: self.modified,
            size: self.size,
        }
    }
}

/// The record values of a sequence of catalog records.
pub open spec fn views_of(records: Seq<Database>) -> Seq<DatabaseView> {
    records.map_values(|d: Database| d@)
}

/// A catalog is well formed when no two records share a name.
pub open spec fn catalog_wf(cat: Seq<DatabaseView>) -> bool {
    forall|i: int, j: int|
        #![trigger cat[i], cat[j]]
        0 <= i < j < cat.len() ==> cat[i].name != cat[j].name
}

/// Some record in `cat` carries the name `name`.
pub open spec fn catalog_has_name(cat: Seq<DatabaseView>, name: Seq<char>) -> bool {
    exists|i: int| 0 <= i < cat.len() && #[trigger] cat[i].name == name
}

/// The position of the record named `name`; meaningful when such a record
/// exists (in a well-formed catalog it is then unique).
pub open spec fn catalog_index_of(cat: Seq<DatabaseView>, name: Seq<char>) -> int {
    choose|i: int| 0 <= i < cat.len() && #[trigger] cat[i].name == name
}

/// Inserting one record into a catalog keyed by name: an existing record with
/// the same name is replaced in place, otherwise the record is appended.
pub open spec fn catalog_put(cat: Seq<DatabaseView>, d: DatabaseView) -> Seq<DatabaseView> {
    if catalog_has_name(cat, d.name) {
        cat.update(catalog_index_of(cat, d.name), d)
    } else {
        cat.push(d)
    }
}

/// Inserting each record of `recs` in order, starting from `cat`.
pub open spec fn catalog_put_all(cat: Seq<DatabaseView>, recs: Seq<DatabaseView>) -> Seq<
    DatabaseView,
>
    decreases recs.len(),
{
    if recs.len() == 0 {
        cat
    } else {
        catalog_put(catalog_put_all(cat, recs.drop_last()), recs.last())
    }
}

/// The mathematical value of the whole store: the catalog and the quota.
pub struct StateView {
    pub catalog: Seq<DatabaseView>,
    pub disk: DiskState,
}

/// The snapshot behind the lock: the catalog mapping (records keyed by name)
/// and the cached disk quota.
#[derive(Debug)]
pub struct State {
    databases: Vec<Database>,
    disk_state: DiskState,
}

impl View for State {
    type V = StateView;

    closed spec fn view(&self) -> StateView {
        StateView { catalog: views_of(self.databases@), disk: self.disk_state }
    }
}

impl State {
    /// No two records of the catalog share a name.
    pub open spec fn wf(&self) -> bool {
        catalog_wf(self@.catalog)
    }

    /// A store as it exists at process start: no records, zero quota.
    pub fn new() -> (s: State)
        ensures
            s@.catalog == Seq::<DatabaseView>::empty(),
            s@.disk == (DiskState { offset: 0, capacity: 0, soft_threshold: 0, hard_threshold: 0 }),
            s.wf(),
    {
        let s = State { databases: Vec::new(), disk_state: DiskState::default() };
        proof {
            assert(s@.catalog =~= Seq::<DatabaseView>::empty());
        }
        s
    }

    /// A copy of the cached quota.
    pub fn disk_state(&self) -> (d: DiskState)
        ensures
            d == self@.disk,
    {
        self.disk_state
    }

    /// Overwrites the quota wholesale; the catalog is untouched.
    pub fn set_disk_state(&mut self, offset: u64, capacity: u64, soft_threshold: u64, hard_threshold: u64)
        ensures
            final(self)@.disk == (DiskState { offset, capacity, soft_threshold, hard_threshold }),
            final(self)@.catalog == old(self)@.catalog,
    {
        self.disk_state = DiskState::new(offset, capacity, soft_threshold, hard_threshold);
    }

    /// A copy of the current records, for the caller to visit one by one;
    /// the copy lets iteration happen outside any lock.
    pub fn for_each(&self) -> (records: Vec<Database>)
        ensures
            views_of(records@) == self@.catalog,
    {
        let mut records: Vec<Database> = Vec::new();
        proof {
            assert(views_of(records@) =~= views_of(self.databases@).take(0));
        }
        let mut i: usize = 0;
        while i < self.databases.len()
            invariant
                0 <= i <= self.databases.len(),
                views_of(records@) == views_of(self.databases@).take(i as int),
            decreases self.databases.len() - i,
        {
            let d = self.databases[i].clone();
            proof {
                assert(views_of(self.databases@).take(i as int).len() == i);
            }
            records.push(d);
            proof {
                assert(views_of(records@) =~= views_of(self.databases@).take(i + 1));
            }
            i += 1;
        }
        proof {
            assert(views_of(self.databases@).take(i as int) =~= views_of(self.databases@));
        }
        records
    }

    /// Inserts one record, replacing any record of the same name.
    pub fn put(&mut self, name: &str, user: Option<&String>, modified: i64, size: u64)
        requires
            old(self).wf(),
        ensures
            final(self).wf(),
            final(self)@.catalog == catalog_put(
                old(self)@.catalog,
                (DatabaseView {
                    name: name@,
                    user: match user {
                        Some(u) => Some(u@),
                        None => None::<Seq<char>>,
                    },
                    modified: modified as int,
                    size: size as int,
                }),
            ),
            final(self)@.disk == old(self)@.disk,
    {
        let d = Database::new(name, user, modified, size);
        let ghost cat = self@.catalog;
        let mut i: usize = 0;
        while i < self.databases.len()
            invariant
                0 <= i <= self.databases.len(),
                catalog_wf(cat),
                cat == views_of(self.databases@),
                self.databases@ == old(self).databases@,
                self.disk_state == old(self).disk_state,
                cat == old(self)@.catalog,
                d@ == (DatabaseView {
                    name: name@,
                    user: match user {
                        Some(u) => Some(u@),
                        None => None::<Seq<char>>,
                    },
                    modified: modified as int,
                    size: size as int,
                }),
                forall|t: int| 0 <= t < i ==> #[trigger] cat[t].name != name@,
            decreases self.databases.len() - i,
        {
            if str_eq(self.databases[i].name(), name) {
                proof {
                    assert(cat[i as int].name == name@);
                    assert(catalog_has_name(cat, d@.name));
                    let j = catalog_index_of(cat, d@.name);
                    assert(0 <= j < cat.len() && cat[j].name == d@.name);
                    assert(j == i as int) by {
                        if j < i as int {
                            assert(cat[j].name != cat[i as int].name);
                        } else if j > i as int {
                            assert(cat[i as int].name != cat[j].name);
                        }
                    }
                }
                self.databases[i] = d;
                proof {
                    assert(views_of(self.databases@) =~= cat.update(i as int, d@));
                }
                return ;
            }
            i += 1;
        }
        proof {
            assert(!catalog_has_name(cat, d@.name));
        }
        self.databases.push(d);
        proof {
            assert(views_of(self.databases@) =~= cat.push(d@));
            assert(catalog_wf(cat.push(d@)));
        }
    }

    /// Empties the catalog mapping; the quota is untouched.
    pub fn clear(&mut self)
        ensures
            final(self).wf(),
            final(self)@.catalog == Seq::<DatabaseView>::empty(),
            final(self)@.disk == old(self)@.disk,
    {
        self.databases.clear();
        proof {
            assert(views_of(self.databases@) =~= Seq::<DatabaseView>::empty());
        }
    }

    /// Discards the previous catalog and installs `records` as the new one,
    /// as a single transaction: the records are keyed by name, a later record
    /// of a name replacing an earlier one.
    pub fn replace_catalog(&mut self, records: Vec<Database>)
        ensures
            final(self).wf(),
            final(self)@.catalog == catalog_put_all(
                Seq::<DatabaseView>::empty(),
                views_of(records@),
            ),
            final(self)@.disk == old(self)@.disk,
    {
        self.clear();
        let n = records.len();
        let mut i: usize = 0;
        while i < n
            invariant
                0 <= i <= n,
                n == records@.len(),
                self.wf(),
                self@.catalog == catalog_put_all(
                    Seq::<DatabaseView>::empty(),
                    views_of(records@).take(i as int),
                ),
                self@.disk == old(self)@.disk,
            decreases n - i,
        {
            let r = &records[i];
            let nm = r.name();
            let us = r.user();
            let mo = r.modified();
            let sz = r.size();
            self.put(nm, us, mo, sz);
            proof {
                let vs = views_of(records@);
                assert(vs.take(i + 1).drop_last() =~= vs.take(i as int));
                assert(vs.take(i + 1).last() == vs[i as int]);
                assert(r@ == vs[i as int]);
                assert((DatabaseView {
                    name: nm@,
                    user: match us {
                        Some(u) => Some(u@),
                        None => None::<Seq<char>>,
                    },
                    modified: mo as int,
                    size: sz as int,
                }) == r@);
            }
            i += 1;
        }
        proof {
            assert(views_of(records@).take(n as int) =~= views_of(records@));
        }
    }
}

/// Failure to carry out a store operation; the store is then transiently
/// unavailable for that one call.
#[derive(Debug)]
pub struct StateError {
    message: String,
}

impl View for StateError {
    type V = Seq<char>;

    closed spec fn view(&self) -> Seq<char> {
        self.message@
    }
}

impl StateError {
    pub fn new(message: &str) -> (e: StateError)
        ensures
            e@ == message@,
    {
        StateError { message: message.to_owned() }
    }

    /// The human-readable description of the failure.
    pub fn message(&self) -> (r: &str)
        ensures
            r@ == self@,
    {
        self.message.as_str()
    }
}

pub type StateResult<T> = Result<T, StateError>;

/// The lock invariant of the store: every value it guards is well formed.
pub struct StoreInv;

impl RwLockPredicate<State> for StoreInv {
    open spec fn inv(self, v: State) -> bool {
        v.wf()
    }
}

/// A shared handle on the store. All mutation and every snapshot read go
/// through one reader/writer lock, so a reader always sees one whole `State`
/// value: a catalog replacement is all-or-nothing from the reader's side.
///
/// The lock acquisition itself cannot fail, so every operation returns `Ok`;
/// the `StateResult` signatures keep the store's interface explicit about
/// which calls touch the shared state.
#[derive(Clone)]
pub struct StateRef {
    inner: Arc<RwLock<State, StoreInv>>,
}

impl StateRef {
    /// The lock itself, for the refresh steps to run their whole update as
    /// one write transaction.
    pub(crate) fn lock(&self) -> (r: &RwLock<State, StoreInv>)
        ensures
            forall|v: State| #[trigger] r.inv(v) <==> v.wf(),
    {
        &self.inner
    }

    /// A copy of the cached quota, read under the lock; blocks only for the
    /// duration of the copy.
    pub fn disk_state(&self) -> (r: StateResult<DiskState>)
        ensures
            r.is_ok(),
    {
        let handle = self.inner.acquire_read();
        let d = handle.borrow().disk_state();
        handle.release_read();
        Ok(d)
    }

    /// Atomically overwrites the quota fields.
    pub fn set_disk_state(&self, offset: u64, capacity: u64, soft_threshold: u64, hard_threshold: u64) -> (r: StateResult<()>)
        ensures
            r.is_ok(),
    {
        let (mut st, write_handle) = self.inner.acquire_write();
        st.set_disk_state(offset, capacity, soft_threshold, hard_threshold);
        write_handle.release_write(st);
        Ok(())
    }

    /// The records of one point-in-time snapshot, copied out under a read
    /// lock for the caller to visit; never a mixture of two replacements.
    pub fn for_each(&self) -> (r: StateResult<Vec<Database>>)
        ensures
            r.is_ok(),
            r matches Ok(records) ==> catalog_wf(views_of(records@)),
    {
        let handle = self.inner.acquire_read();
        let records = handle.borrow().for_each();
        handle.release_read();
        Ok(records)
    }

    /// Inserts one record under the write lock, replacing any record of the
    /// same name.
    pub fn put(&self, name: &str, user: Option<&String>, modified: i64, size: u64) -> (r:
        StateResult<()>)
        ensures
            r.is_ok(),
    {
        let (mut st, write_handle) = self.inner.acquire_write();
        st.put(name, user, modified, size);
        write_handle.release_write(st);
        Ok(())
    }

    /// Empties the catalog mapping under the write lock.
    pub fn clear(&self) -> (r: StateResult<()>)
        ensures
            r.is_ok(),
    {
        let (mut st, write_handle) = self.inner.acquire_write();
        st.clear();
        write_handle.release_write(st);
        Ok(())
    }

    /// Discards the previous catalog and installs `records`, as one locked
    /// transaction: no reader sees the store between the discard and the
    /// last insert.
    pub fn replace_catalog(&self, records: Vec<Database>) -> (r: StateResult<()>)
        ensures
            r.is_ok(),
    {
        let (mut st, write_handle) = self.inner.acquire_write();
        st.replace_catalog(records);
        write_handle.release_write(st);
        Ok(())
    }
}

/// A fresh store: empty catalog, zero quota.
pub fn create() -> (r: StateRef)
{
    let st = State::new();
    StateRef { inner: Arc::new(RwLock::new(st, Ghost(StoreInv))) }
}

} // verus!
