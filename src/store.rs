//! The transactional store: a committed catalog read through read scopes and
//! changed only through one write scope at a time, all at once on commit.
//! A store is bound to a schema registry that must declare the catalog's
//! record type. Durable storage of the committed catalog and of the registry
//! it was made with is the caller's part: it hands both in at open time and
//! takes them out after a commit.
use vstd::prelude::*;
use crate::error::StoreError;
use crate::plant::ParseError;
use crate::query::{
    find_by_id, find_by_type, first_with_id, has_id, id_after, lemma_id_after, next_free_id, position_of_id,
    query_view, type_query, unique_ids,
};
use crate::schema::{declares, Models, SEED_MODEL_ID};
use crate::seed::{copy_all, Seed};

verus! {

/// A record `s` carrying the id `id` in place of its own.
pub open spec fn with_id(s: Seed, id: u64) -> Seed {
    Seed { id, ..s }
}

/// Appending a record whose id is not present keeps the ids unique.
pub proof fn lemma_push_unique(s: Seq<Seed>, x: Seed)
    requires
        unique_ids(s),
        !has_id(s, x.id),
    ensures
        unique_ids(s.push(x)),
{
    assert forall|i: int, j: int| 0 <= i < j < s.push(x).len() implies (#[trigger] s.push(x)[i]).id != (
    #[trigger] s.push(x)[j]).id by {
        if j == s.len() {
            assert(s.push(x)[i] == s[i]);
        } else {
            assert(s.push(x)[i] == s[i]);
            assert(s.push(x)[j] == s[j]);
        }
    }
}

/// Checks that no two records share an id.
pub fn ids_unique(records: &Vec<Seed>) -> (r: bool)
    ensures
        r == unique_ids(records@),
{
    let n = records.len();
    let mut j: usize = 0;
    while j < n
        invariant
            n == records@.len(),
            j <= n,
            unique_ids(records@.subrange(0, j as int)),
        decreases n - j,
    {
        let mut i: usize = 0;
        while i < j
            invariant
                n == records@.len(),
                i <= j < n,
                forall|k: int| 0 <= k < i ==> (#[trigger] records@[k]).id != records@[j as int].id,
            decreases j - i,
        {
            if records[i].id == records[j].id {
                assert(!unique_ids(records@)) by {
                    assert(records@[i as int].id == records@[j as int].id);
                }
                return false;
            }
            i = i + 1;
        }
        proof {
            let p = records@.subrange(0, j + 1);
            assert forall|a: int, b: int| 0 <= a < b < p.len() implies (#[trigger] p[a]).id != (#[trigger] p[b]).id by {
                assert(p[a] == records@[a]);
                assert(p[b] == records@[b]);
                if b < j {
                    assert(records@.subrange(0, j as int)[a] == records@[a]);
                    assert(records@.subrange(0, j as int)[b] == records@[b]);
                }
            }
        }
        j = j + 1;
    }
    assert(records@.subrange(0, n as int) =~= records@);
    true
}

/// Hands out record ids that never repeat: each id is one more than the
/// last, and an id given to a record directly pushes the counter past it.
pub struct IdCounter {
    next: u64,
    exhausted: bool,
}

impl IdCounter {
    /// The next id to hand out; `u64::MAX + 1` once every id is used.
    pub closed spec fn value(&self) -> int {
        if self.exhausted {
            u64::MAX + 1
        } else {
            self.next as int
        }
    }

    /// A counter past every id of `records`: one more than the largest, or
    /// zero for none.
    pub fn after(records: &Vec<Seed>) -> (r: IdCounter)
        ensures
            r.value() == id_after(records@),
            forall|i: int| 0 <= i < records@.len() ==> (#[trigger] records@[i]).id < r.value(),
    {
        proof {
            lemma_id_after(records@);
        }
        match next_free_id(records) {
            Some(n) => IdCounter { next: n, exhausted: false },
            None => IdCounter { next: 0, exhausted: true },
        }
    }

    /// Takes the next id; `None` once every id is used.
    pub fn take(&mut self) -> (r: Option<u64>)
        ensures
            match r {
                Some(id) => id == old(self).value() && final(self).value() == old(self).value() + 1,
                None => old(self).value() == u64::MAX + 1 && final(self).value() == old(self).value(),
            },
    {
        if self.exhausted {
            return None;
        }
        let id = self.next;
        if id == u64::MAX {
            self.exhausted = true;
        } else {
            self.next = id + 1;
        }
        Some(id)
    }

    /// Moves the counter past `id`, if it is not past it already.
    pub fn pass(&mut self, id: u64)
        ensures
            final(self).value() == if old(self).value() > id { old(self).value() } else { id + 1 },
    {
        if self.exhausted || self.next > id {
            return;
        }
        if id == u64::MAX {
            self.exhausted = true;
        } else {
            self.next = id + 1;
        }
    }

    /// A copy of the counter.
    pub fn copy(&self) -> (r: IdCounter)
        ensures
            r.value() == self.value(),
    {
        IdCounter { next: self.next, exhausted: self.exhausted }
    }
}

/// Every id of `s` lies below `n`.
pub open spec fn ids_below(s: Seq<Seed>, n: int) -> bool {
    forall|i: int| 0 <= i < s.len() ==> (#[trigger] s[i]).id < n
}

/// A persistent catalog with isolated read scopes and at most one open write
/// transaction. The write transaction's changes are staged inside the store
/// and reach the committed catalog only on commit.
pub struct Store {
    records: Vec<Seed>,
    ids: IdCounter,
    models: Models,
    writer_open: bool,
    serial: u64,
    staged: Vec<Seed>,
    staged_ids: IdCounter,
}

/// A consistent copy of the committed catalog, taken when the scope began.
pub struct ReadScope {
    records: Vec<Seed>,
}

/// The ticket of one write transaction. The store accepts it only while
/// that transaction is the open one.
pub struct WriteScope {
    serial: u64,
}

impl WriteScope {
    /// The number of the transaction that issued the ticket.
    pub closed spec fn serial(&self) -> u64 {
        self.serial
    }
}

/// The serial number that follows `n`.
pub open spec fn next_serial(n: u64) -> u64 {
    if n == u64::MAX {
        0
    } else {
        (n + 1) as u64
    }
}

impl Store {
    /// The committed catalog.
    pub closed spec fn records(&self) -> Seq<Seed> {
        self.records@
    }

    /// The declarations of the registry that the store was made with.
    pub closed spec fn schema(&self) -> Seq<(u32, u32)> {
        self.models.entries()
    }

    /// Whether a write transaction is open.
    pub closed spec fn writer_open(&self) -> bool {
        self.writer_open
    }

    /// The number of the last write transaction begun.
    pub closed spec fn serial(&self) -> u64 {
        self.serial
    }

    /// The catalog as the open write transaction has changed it.
    pub closed spec fn staged(&self) -> Seq<Seed> {
        self.staged@
    }

    /// The id that the next new committed record would get.
    pub closed spec fn next_id(&self) -> int {
        self.ids.value()
    }

    /// The id that the next new staged record gets.
    pub closed spec fn staged_next_id(&self) -> int {
        self.staged_ids.value()
    }

    /// `self` and `other` agree on all but the staged changes.
    pub open spec fn committed_as(&self, other: Store) -> bool {
        &&& self.records() == other.records()
        &&& self.next_id() == other.next_id()
        &&& self.schema() == other.schema()
        &&& self.writer_open() == other.writer_open()
        &&& self.serial() == other.serial()
    }

    /// `scope` is the ticket of the open write transaction.
    pub open spec fn is_current(&self, scope: WriteScope) -> bool {
        self.writer_open() && scope.serial() == self.serial()
    }

    /// Ids are unique and below their counters, committed and staged alike.
    pub open spec fn wf(&self) -> bool {
        &&& unique_ids(self.records())
        &&& ids_below(self.records(), self.next_id())
        &&& unique_ids(self.staged())
        &&& ids_below(self.staged(), self.staged_next_id())
        &&& self.next_id() <= self.staged_next_id()
    }

    /// A new store with an empty catalog under the registry `models`. A
    /// registry that does not declare the catalog's record type fails with
    /// `StoreInit`.
    pub fn create(models: &Models) -> (r: Result<Store, StoreError>)
        ensures
            match r {
                Ok(s) => declares(models.entries(), SEED_MODEL_ID) && s.wf() && s.records() == Seq::<Seed>::empty()
                    && s.schema() == models.entries() && !s.writer_open() && s.next_id() == 0,
                Err(e) => !declares(models.entries(), SEED_MODEL_ID) && e == StoreError::StoreInit,
            },
    {
        if !models.declares_id(SEED_MODEL_ID) {
            return Err(StoreError::StoreInit);
        }
        Ok(
            Store {
                records: Vec::new(),
                ids: IdCounter { next: 0, exhausted: false },
                models: models.copy(),
                writer_open: false,
                serial: 0,
                staged: Vec::new(),
                staged_ids: IdCounter { next: 0, exhausted: false },
            },
        )
    }

    /// Opens a store over a catalog read from storage, made with the
    /// registry `stored`, under the registry `models`. It fails with
    /// `StoreOpen` when the registries differ, when `models` does not declare
    /// the catalog's record type, or when two records share an id.
    pub fn open(records: Vec<Seed>, stored: &Models, models: &Models) -> (r: Result<Store, StoreError>)
        ensures
            match r {
                Ok(s) => unique_ids(records@) && stored.entries() == models.entries() && declares(
                    models.entries(),
                    SEED_MODEL_ID,
                ) && s.wf() && s.records() == records@ && s.schema() == models.entries() && !s.writer_open()
                    && s.next_id() == id_after(records@),
                Err(e) => (!unique_ids(records@) || stored.entries() != models.entries() || !declares(
                    models.entries(),
                    SEED_MODEL_ID,
                )) && e == StoreError::StoreOpen,
            },
    {
        if !stored.same_as(models) || !models.declares_id(SEED_MODEL_ID) || !ids_unique(&records) {
            return Err(StoreError::StoreOpen);
        }
        let ids = IdCounter::after(&records);
        let staged_ids = ids.copy();
        Ok(
            Store {
                records,
                ids,
                models: models.copy(),
                writer_open: false,
                serial: 0,
                staged: Vec::new(),
                staged_ids,
            },
        )
    }

    /// The registry that the store was made with, to be kept beside the
    /// catalog.
    pub fn models(&self) -> (r: &Models)
        ensures
            r.entries() == self.schema(),
    {
        &self.models
    }

    /// Starts a read transaction over the committed catalog as it is now.
    pub fn begin_read(&self) -> (r: ReadScope)
        ensures
            r.records() == self.records(),
    {
        ReadScope { records: copy_all(&self.records) }
    }

    /// Starts the write transaction. While one is open a second one fails
    /// with `WriteConflict` and changes nothing. Opening one changes no
    /// committed record.
    pub fn begin_write(&mut self) -> (r: Result<WriteScope, StoreError>)
        requires
            old(self).wf(),
        ensures
            final(self).wf(),
            final(self).records() == old(self).records(),
            final(self).schema() == old(self).schema(),
            final(self).next_id() == old(self).next_id(),
            match r {
                Ok(w) => !old(self).writer_open() && final(self).is_current(w) && final(self).serial() == next_serial(
                    old(self).serial(),
                ) && final(self).staged() == old(self).records() && final(self).staged_next_id() == old(self).next_id(),
                Err(e) => old(self).writer_open() && *final(self) == *old(self) && e == StoreError::WriteConflict,
            },
    {
        if self.writer_open {
            return Err(StoreError::WriteConflict);
        }
        self.serial = if self.serial == u64::MAX {
            0
        } else {
            self.serial + 1
        };
        self.writer_open = true;
        self.staged = copy_all(&self.records);
        self.staged_ids = self.ids.copy();
        Ok(WriteScope { serial: self.serial })
    }

    /// Looks a staged record up by id.
    pub fn staged_by_id(&self, id: u64) -> (r: Option<Seed>)
        ensures
            r == first_with_id(self.staged(), id),
    {
        find_by_id(&self.staged, id)
    }

    /// Stages a record under its own id. A ticket other than that of the open
    /// transaction fails with `WriteConflict`; an id already staged fails
    /// with `DuplicateKey`. Either failure changes nothing.
    pub fn insert(&mut self, scope: &WriteScope, seed: Seed) -> (r: Result<(), StoreError>)
        requires
            old(self).wf(),
        ensures
            final(self).wf(),
            match r {
                Ok(()) => old(self).is_current(*scope) && !has_id(old(self).staged(), seed.id) && final(self).committed_as(
                    *old(self),
                )
                    && final(self).staged() == old(self).staged().push(seed),
                Err(e) => *final(self) == *old(self) && if !old(self).is_current(*scope) {
                    e == StoreError::WriteConflict
                } else {
                    has_id(old(self).staged(), seed.id) && e == StoreError::DuplicateKey
                },
            },
    {
        if !self.writer_open || scope.serial != self.serial {
            return Err(StoreError::WriteConflict);
        }
        match position_of_id(&self.staged, seed.id) {
            Some(i) => Err(StoreError::DuplicateKey),
            None => {
                proof {
                    lemma_push_unique(self.staged@, seed);
                }
                self.staged_ids.pass(seed.id);
                self.staged.push(seed);
                Ok(())
            },
        }
    }

    /// Stages a record under a fresh id from the counter, which never goes
    /// down, and returns that id.
    pub fn insert_new(&mut self, scope: &WriteScope, seed: Seed) -> (r: Result<u64, StoreError>)
        requires
            old(self).wf(),
        ensures
            final(self).wf(),
            match r {
                Ok(id) => old(self).is_current(*scope) && id == old(self).staged_next_id() && final(self).committed_as(
                    *old(self),
                )
                    && final(self).staged() == old(self).staged().push(with_id(seed, id))
                    && final(self).staged_next_id() == id + 1,
                Err(e) => *final(self) == *old(self) && if !old(self).is_current(*scope) {
                    e == StoreError::WriteConflict
                } else {
                    old(self).staged_next_id() == u64::MAX + 1 && e == StoreError::IdsExhausted
                },
            },
    {
        if !self.writer_open || scope.serial != self.serial {
            return Err(StoreError::WriteConflict);
        }
        if self.staged_ids.exhausted {
            return Err(StoreError::IdsExhausted);
        }
        let id = match self.staged_ids.take() {
            Some(id) => id,
            None => return Err(StoreError::IdsExhausted),
        };
        let mut s = seed;
        s.id = id;
        proof {
            lemma_push_unique(self.staged@, s);
        }
        self.staged.push(s);
        Ok(id)
    }

    /// Removes the staged record with id `id` and returns it; `None` when no
    /// staged record carries that id. A ticket other than that of the open
    /// transaction fails with `WriteConflict` and changes nothing.
    pub fn delete(&mut self, scope: &WriteScope, id: u64) -> (r: Result<Option<Seed>, StoreError>)
        requires
            old(self).wf(),
        ensures
            final(self).wf(),
            match r {
                Ok(Some(s)) => old(self).is_current(*scope) && final(self).committed_as(*old(self)) && final(self).staged_next_id() == old(
                    self).staged_next_id() && exists|i: int|
                    0 <= i < old(self).staged().len() && old(self).staged()[i].id == id && s == old(self).staged()[i]
                        && final(self).staged() == old(self).staged().remove(i),
                Ok(None) => old(self).is_current(*scope) && !has_id(old(self).staged(), id) && final(self).committed_as(
                    *old(self),
                ) && final(self).staged() == old(self).staged() && final(self).staged_next_id() == old(self).staged_next_id(),
                Err(e) => !old(self).is_current(*scope) && *final(self) == *old(self) && e == StoreError::WriteConflict,
            },
    {
        if !self.writer_open || scope.serial != self.serial {
            return Err(StoreError::WriteConflict);
        }
        let ghost before = self.staged@;
        let r = remove_id(&mut self.staged, id);
        proof {
            if r is None {
                assert(self.staged@ =~= before);
            } else {
                assert forall|i: int| 0 <= i < self.staged@.len() implies (#[trigger] self.staged@[i]).id
                    < self.staged_ids.value() by {
                    let k = choose|k: int| 0 <= k < before.len() && before[k].id == id && self.staged@ == before.remove(k);
                    if i < k {
                        assert(self.staged@[i] == before[i]);
                    } else {
                        assert(self.staged@[i] == before[i + 1]);
                    }
                }
            }
        }
        Ok(r)
    }

    /// Makes every change of the open transaction visible at once and closes
    /// it. A ticket other than that of the open transaction fails with
    /// `WriteConflict` and changes nothing.
    pub fn commit(&mut self, scope: WriteScope) -> (r: Result<(), StoreError>)
        requires
            old(self).wf(),
        ensures
            final(self).wf(),
            final(self).schema() == old(self).schema(),
            match r {
                Ok(()) => old(self).is_current(scope) && final(self).records() == old(self).staged()
                    && final(self).next_id() == old(self).staged_next_id() && !final(self).writer_open(),
                Err(e) => !old(self).is_current(scope) && *final(self) == *old(self) && e == StoreError::WriteConflict,
            },
    {
        if !self.writer_open || scope.serial != self.serial {
            return Err(StoreError::WriteConflict);
        }
        self.records = copy_all(&self.staged);
        self.ids = self.staged_ids.copy();
        self.writer_open = false;
        Ok(())
    }

    /// Discards every change of the open transaction and closes it: the
    /// committed catalog stays as it was. A ticket other than that of the
    /// open transaction fails with `WriteConflict` and changes nothing.
    pub fn rollback(&mut self, scope: WriteScope) -> (r: Result<(), StoreError>)
        requires
            old(self).wf(),
        ensures
            final(self).wf(),
            final(self).records() == old(self).records(),
            final(self).schema() == old(self).schema(),
            final(self).next_id() == old(self).next_id(),
            match r {
                Ok(()) => old(self).is_current(scope) && !final(self).writer_open(),
                Err(e) => !old(self).is_current(scope) && *final(self) == *old(self) && e == StoreError::WriteConflict,
            },
    {
        if !self.writer_open || scope.serial != self.serial {
            return Err(StoreError::WriteConflict);
        }
        self.writer_open = false;
        Ok(())
    }
}

impl ReadScope {
    /// The catalog that the scope sees.
    pub closed spec fn records(&self) -> Seq<Seed> {
        self.records@
    }

    /// Looks a record up by id.
    pub fn get_by_id(&self, id: u64) -> (r: Option<Seed>)
        ensures
            r == first_with_id(self.records(), id),
    {
        find_by_id(&self.records, id)
    }

    /// Filters the records by the classification named in `type_text`.
    pub fn get_by_type(&self, type_text: &str) -> (r: Result<Option<Vec<Seed>>, ParseError>)
        ensures
            query_view(r) == type_query(self.records(), type_text@),
    {
        find_by_type(&self.records, type_text)
    }

    /// Every record that the scope sees, in scan order.
    pub fn scan_all(&self) -> (r: Vec<Seed>)
        ensures
            r@ == self.records(),
    {
        copy_all(&self.records)
    }
}

/// Removes the first record with id `id` from `records` and returns it.
pub fn remove_id(records: &mut Vec<Seed>, id: u64) -> (r: Option<Seed>)
    requires
        unique_ids(old(records)@),
    ensures
        unique_ids(final(records)@),
        match r {
            Some(s) => exists|i: int|
                0 <= i < old(records)@.len() && old(records)@[i].id == id && s == old(records)@[i] && final(records)@
                    == old(records)@.remove(i),
            None => !has_id(old(records)@, id) && final(records)@ == old(records)@,
        },
{
    match position_of_id(records, id) {
        None => None,
        Some(i) => {
            let ghost before = records@;
            let s = records.remove(i);
            proof {
                assert forall|a: int, b: int| 0 <= a < b < records@.len() implies (#[trigger] records@[a]).id != (
                #[trigger] records@[b]).id by {
                    let a0 = if a < i { a } else { a + 1 };
                    let b0 = if b < i { b } else { b + 1 };
                    assert(records@[a] == before[a0]);
                    assert(records@[b] == before[b0]);
                }
            }
            Some(s)
        },
    }
}

/// Replaces the record that carries `seed`'s id with `seed`.
pub fn replace_by_id(records: &mut Vec<Seed>, seed: Seed) -> (r: Result<(), StoreError>)
    requires
        unique_ids(old(records)@),
    ensures
        unique_ids(final(records)@),
        match r {
            Ok(()) => exists|i: int|
                0 <= i < old(records)@.len() && old(records)@[i].id == seed.id && final(records)@ == old(records)@.update(i, seed),
            Err(e) => !has_id(old(records)@, seed.id) && final(records)@ == old(records)@ && e
                == StoreError::NotFound,
        },
{
    match position_of_id(records, seed.id) {
        None => Err(StoreError::NotFound),
        Some(i) => {
            let ghost before = records@;
            records.set(i, seed);
            proof {
                assert forall|a: int, b: int| 0 <= a < b < records@.len() implies (#[trigger] records@[a]).id != (
                #[trigger] records@[b]).id by {
                    assert(records@[a].id == before[a].id);
                    assert(records@[b].id == before[b].id);
                }
            }
            Ok(())
        },
    }
}

} // verus!
