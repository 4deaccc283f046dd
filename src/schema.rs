//! The schema registry: the record types a transactional store persists,
//! each under a stable type id and a schema version.
use vstd::prelude::*;
use crate::error::StoreError;

verus! {

/// The type id under which catalog records are persisted.
pub const SEED_MODEL_ID: u32 = 1;

/// The schema version of catalog records.
pub const SEED_MODEL_VERSION: u32 = 1;

/// A set of declared record types: pairs of type id and version, each type id
/// declared once.
pub struct Models {
    entries: Vec<(u32, u32)>,
}

/// No type id occurs twice in `e`.
pub open spec fn ids_once(e: Seq<(u32, u32)>) -> bool {
    forall|i: int, j: int| 0 <= i < j < e.len() ==> (#[trigger] e[i]).0 != (#[trigger] e[j]).0
}

/// Some entry of `e` declares the type id `id`.
pub open spec fn declares(e: Seq<(u32, u32)>, id: u32) -> bool {
    exists|i: int| 0 <= i < e.len() && (#[trigger] e[i]).0 == id
}

impl Models {
    /// The declarations, in the order they were made.
    pub closed spec fn entries(&self) -> Seq<(u32, u32)> {
        self.entries@
    }

    /// Each type id is declared once.
    pub open spec fn wf(&self) -> bool {
        ids_once(self.entries())
    }

    /// An empty registry.
    pub fn new() -> (r: Models)
        ensures
            r.wf(),
            r.entries() == Seq::<(u32, u32)>::empty(),
    {
        Models { entries: Vec::new() }
    }

    /// Declares a record type. Declaring a type id again with the same
    /// version changes nothing; with another version it fails with
    /// `SchemaConflict`.
    pub fn define(&mut self, id: u32, version: u32) -> (r: Result<(), StoreError>)
        requires
            old(self).wf(),
        ensures
            final(self).wf(),
            match r {
                Ok(()) => if declares(old(self).entries(), id) {
                    old(self).entries().contains((id, version)) && final(self).entries() == old(self).entries()
                } else {
                    final(self).entries() == old(self).entries().push((id, version))
                },
                Err(e) => declares(old(self).entries(), id) && !old(self).entries().contains((id, version)) && e
                    == StoreError::SchemaConflict && final(self).entries() == old(self).entries(),
            },
    {
        let n = self.entries.len();
        let mut i: usize = 0;
        while i < n
            invariant
                n == self.entries@.len(),
                self.entries@ == old(self).entries@,
                ids_once(self.entries@),
                i <= n,
                forall|k: int| 0 <= k < i ==> (#[trigger] self.entries@[k]).0 != id,
            decreases n - i,
        {
            let (eid, ever) = self.entries[i];
            if eid == id {
                if ever == version {
                    assert(self.entries@[i as int] == (id, version));
                    return Ok(());
                } else {
                    proof {
                        assert(declares(self.entries@, id));
                        assert forall|k: int| 0 <= k < self.entries@.len() implies self.entries@[k] != (id, version) by {
                            if k != i && self.entries@[k].0 == id {
                                if k < i {
                                } else {
                                    assert(self.entries@[i as int].0 == self.entries@[k].0);
                                }
                            }
                        }
                        assert(!self.entries@.contains((id, version)));
                    }
                    return Err(StoreError::SchemaConflict);
                }
            }
            i = i + 1;
        }
        let ghost before = self.entries@;
        self.entries.push((id, version));
        proof {
            assert forall|a: int, b: int| 0 <= a < b < self.entries@.len() implies (#[trigger] self.entries@[a]).0
                != (#[trigger] self.entries@[b]).0 by {
                assert(self.entries@[a] == before[a]);
                if b < before.len() {
                    assert(self.entries@[b] == before[b]);
                }
            }
        }
        Ok(())
    }

    /// Whether both registries hold the same declarations in the same order.
    pub fn same_as(&self, other: &Models) -> (r: bool)
        ensures
            r == (self.entries() == other.entries()),
    {
        let n = self.entries.len();
        if n != other.entries.len() {
            return false;
        }
        let mut i: usize = 0;
        while i < n
            invariant
                n == self.entries@.len(),
                n == other.entries@.len(),
                i <= n,
                forall|k: int| 0 <= k < i ==> self.entries@[k] == other.entries@[k],
            decreases n - i,
        {
            if self.entries[i].0 != other.entries[i].0 || self.entries[i].1 != other.entries[i].1 {
                return false;
            }
            i = i + 1;
        }
        assert(self.entries@ =~= other.entries@);
        true
    }

    /// Whether the type id `id` is declared.
    pub fn declares_id(&self, id: u32) -> (r: bool)
        ensures
            r == declares(self.entries(), id),
    {
        let n = self.entries.len();
        let mut i: usize = 0;
        while i < n
            invariant
                n == self.entries@.len(),
                i <= n,
                forall|k: int| 0 <= k < i ==> (#[trigger] self.entries@[k]).0 != id,
            decreases n - i,
        {
            if self.entries[i].0 == id {
                return true;
            }
            i = i + 1;
        }
        false
    }

    /// A copy of the registry.
    pub fn copy(&self) -> (r: Models)
        ensures
            r.entries() == self.entries(),
    {
        let mut entries: Vec<(u32, u32)> = Vec::new();
        let n = self.entries.len();
        let mut i: usize = 0;
        while i < n
            invariant
                n == self.entries@.len(),
                i <= n,
                entries@ == self.entries@.subrange(0, i as int),
            decreases n - i,
        {
            entries.push(self.entries[i]);
            i = i + 1;
            assert(entries@ =~= self.entries@.subrange(0, i as int));
        }
        assert(self.entries@.subrange(0, n as int) =~= self.entries@);
        Models { entries }
    }
}

/// The registry of the catalog: its record type under its current version.
pub fn seed_models() -> (r: Models)
    ensures
        r.wf(),
        r.entries() == seq![(SEED_MODEL_ID, SEED_MODEL_VERSION)],
{
    let mut m = Models::new();
    let _ = m.define(SEED_MODEL_ID, SEED_MODEL_VERSION);
    assert(!declares(Seq::<(u32, u32)>::empty(), SEED_MODEL_ID));
    assert(m.entries() =~= seq![(SEED_MODEL_ID, SEED_MODEL_VERSION)]);
    m
}

} // verus!
