//! The snapshot store: a whole catalog held in memory, read from and written
//! to snapshot text in one piece.
use vstd::prelude::*;
use crate::codec::{decode, encode, encode_catalog, read_catalog};
use crate::error::StoreError;
use crate::plant::ParseError;
use crate::query::{
    find_by_id, find_by_type, first_with_id, has_id, id_after, query_view, type_query, unique_ids,
};
use crate::seed::{copy_all, view_ids_distinct, views, Seed};
use crate::store::{ids_below, ids_unique, lemma_push_unique, remove_id, replace_by_id, with_id, IdCounter};

verus! {

/// A catalog held in memory, with unique ids.
pub struct Seeds {
    seeds: Vec<Seed>,
    ids: IdCounter,
}

impl Seeds {
    /// The records, in insertion order.
    pub closed spec fn records(&self) -> Seq<Seed> {
        self.seeds@
    }

    /// The id that the next added record gets. It never goes down, so an
    /// id is never handed out twice, even after a delete.
    pub closed spec fn next_id(&self) -> int {
        self.ids.value()
    }

    /// The ids are unique and below the counter.
    pub open spec fn wf(&self) -> bool {
        unique_ids(self.records()) && ids_below(self.records(), self.next_id())
    }

    /// An empty catalog.
    pub fn new() -> (r: Seeds)
        ensures
            r.wf(),
            r.records() == Seq::<Seed>::empty(),
            r.next_id() == 0,
    {
        Seeds { seeds: Vec::new(), ids: IdCounter::after(&Vec::new()) }
    }

    /// Loads a catalog from snapshot text. Text that does not decode, or
    /// that holds two records with one id, fails with `SnapshotRead`.
    pub fn load(text: &str) -> (r: Result<Seeds, StoreError>)
        ensures
            match r {
                Ok(s) => s.wf() && s.next_id() == id_after(s.records()) && read_catalog(text@) == Some(
                    views(s.records()),
                ),
                Err(e) => e == StoreError::SnapshotRead && match read_catalog(text@) {
                    None => true,
                    Some(c) => !view_ids_distinct(c),
                },
            },
    {
        match decode(text) {
            Ok(v) => {
                if ids_unique(&v) {
                    let ids = IdCounter::after(&v);
                    Ok(Seeds { seeds: v, ids })
                } else {
                    proof {
                        let c = views(v@);
                        let (i, j) = choose|i: int, j: int|
                            0 <= i < j < v@.len() && (#[trigger] v@[i]).id == (#[trigger] v@[j]).id;
                        assert(c[i].id == c[j].id);
                    }
                    Err(StoreError::SnapshotRead)
                }
            },
            Err(_) => Err(StoreError::SnapshotRead),
        }
    }

    /// Decodes the records of a snapshot text; malformed text fails with
    /// `Decode`.
    pub fn import(text: &str) -> (r: Result<Vec<Seed>, StoreError>)
        ensures
            match r {
                Ok(v) => read_catalog(text@) == Some(views(v@)),
                Err(e) => e == StoreError::Decode && read_catalog(text@) is None,
            },
    {
        match decode(text) {
            Ok(v) => Ok(v),
            Err(_) => Err(StoreError::Decode),
        }
    }

    /// The snapshot text of the whole catalog.
    pub fn export(&self) -> (r: String)
        ensures
            r@ == encode_catalog(views(self.records())),
    {
        encode(&self.seeds)
    }

    /// Looks a record up by id.
    pub fn get_by_id(&self, id: u64) -> (r: Option<Seed>)
        ensures
            r == first_with_id(self.records(), id),
    {
        find_by_id(&self.seeds, id)
    }

    /// Filters the records by the classification named in `type_text`.
    pub fn get_by_type(&self, type_text: &str) -> (r: Result<Option<Vec<Seed>>, ParseError>)
        ensures
            query_view(r) == type_query(self.records(), type_text@),
    {
        find_by_type(&self.seeds, type_text)
    }

    /// A copy of every record; changing it leaves the store as it is.
    pub fn get_all(&self) -> (r: Vec<Seed>)
        ensures
            r@ == self.records(),
    {
        copy_all(&self.seeds)
    }

    /// Appends a record under the next id of the counter and returns that
    /// id.
    pub fn add(&mut self, seed: Seed) -> (r: Result<u64, StoreError>)
        requires
            old(self).wf(),
        ensures
            final(self).wf(),
            match r {
                Ok(id) => id == old(self).next_id() && final(self).next_id() == id + 1 && final(self).records()
                    == old(self).records().push(with_id(seed, id)),
                Err(e) => old(self).next_id() == u64::MAX + 1 && final(self).records() == old(self).records()
                    && final(self).next_id() == old(self).next_id() && e == StoreError::IdsExhausted,
            },
    {
        match self.ids.take() {
            None => Err(StoreError::IdsExhausted),
            Some(id) => {
                let mut s = seed;
                s.id = id;
                proof {
                    lemma_push_unique(self.seeds@, s);
                }
                self.seeds.push(s);
                Ok(id)
            },
        }
    }

    /// Replaces the record that carries `seed`'s id with `seed`, wholesale.
    /// An id that no record carries fails with `NotFound`.
    pub fn update(&mut self, seed: Seed) -> (r: Result<(), StoreError>)
        requires
            old(self).wf(),
        ensures
            final(self).wf(),
            final(self).next_id() == old(self).next_id(),
            match r {
                Ok(()) => exists|i: int|
                    0 <= i < old(self).records().len() && old(self).records()[i].id == seed.id && final(self).records()
                        == old(self).records().update(i, seed),
                Err(e) => !has_id(old(self).records(), seed.id) && final(self).records() == old(self).records() && e
                    == StoreError::NotFound,
            },
    {
        replace_by_id(&mut self.seeds, seed)
    }

    /// Removes the record with id `id` and returns it; `None` when no record
    /// carries that id.
    pub fn delete(&mut self, id: u64) -> (r: Option<Seed>)
        requires
            old(self).wf(),
        ensures
            final(self).wf(),
            final(self).next_id() == old(self).next_id(),
            match r {
                Some(s) => exists|i: int|
                    0 <= i < old(self).records().len() && old(self).records()[i].id == id && s == old(self).records()[i]
                        && final(self).records() == old(self).records().remove(i),
                None => !has_id(old(self).records(), id) && final(self).records() == old(self).records(),
            },
    {
        remove_id(&mut self.seeds, id)
    }
}

/// The catalog that the web service answers from.
pub struct SeedBank {
    seeds: Seeds,
}

impl SeedBank {
    /// A bank over a loaded catalog.
    pub fn init(seeds: Seeds) -> (r: SeedBank)
        ensures
            r.seeds() == seeds,
    {
        SeedBank { seeds }
    }

    /// The catalog of the bank.
    pub closed spec fn seeds(&self) -> Seeds {
        self.seeds
    }

    /// The catalog of the bank.
    pub fn catalog(&self) -> (r: &Seeds)
        ensures
            *r == self.seeds(),
    {
        &self.seeds
    }
}

} // verus!
