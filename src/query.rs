//! Lookups and filters over a materialized sequence of records, whichever
//! store produced it.
use vstd::prelude::*;
use crate::plant::{folds_to, plant_type_of, ParseError, PlantType};
use crate::seed::Seed;

verus! {

/// No two records of `s` share an id.
pub open spec fn unique_ids(s: Seq<Seed>) -> bool {
    forall|i: int, j: int| 0 <= i < j < s.len() ==> (#[trigger] s[i]).id != (#[trigger] s[j]).id
}

/// Some record of `s` has the id `id`.
pub open spec fn has_id(s: Seq<Seed>, id: u64) -> bool {
    exists|i: int| 0 <= i < s.len() && (#[trigger] s[i]).id == id
}

/// The first record of `s` with the id `id`, if any.
pub open spec fn first_with_id(s: Seq<Seed>, id: u64) -> Option<Seed>
    decreases s.len(),
{
    if s.len() == 0 {
        None
    } else if s[0].id == id {
        Some(s[0])
    } else {
        first_with_id(s.drop_first(), id)
    }
}

/// The records of `s` of classification `t`, in the order of `s`.
pub open spec fn of_type(s: Seq<Seed>, t: PlantType) -> Seq<Seed>
    decreases s.len(),
{
    if s.len() == 0 {
        Seq::empty()
    } else {
        of_type(s.drop_last(), t) + if s.last().plant_type == t {
            seq![s.last()]
        } else {
            Seq::empty()
        }
    }
}

/// The outcome of filtering `s` by the classification named in `text`:
/// an error for unknown text, `None` when nothing matches, else the matches.
pub open spec fn type_query(s: Seq<Seed>, text: Seq<char>) -> Result<Option<Seq<Seed>>, ParseError> {
    match plant_type_of(text) {
        None => Err(ParseError),
        Some(t) => if of_type(s, t).len() == 0 {
            Ok(None)
        } else {
            Ok(Some(of_type(s, t)))
        },
    }
}

/// The outcome of a filter as plain values.
pub open spec fn query_view(r: Result<Option<Vec<Seed>>, ParseError>) -> Result<Option<Seq<Seed>>, ParseError> {
    match r {
        Err(e) => Err(e),
        Ok(None) => Ok(None),
        Ok(Some(v)) => Ok(Some(v@)),
    }
}

/// One more than the largest id of `s`; zero for an empty sequence.
pub open spec fn id_after(s: Seq<Seed>) -> int
    decreases s.len(),
{
    if s.len() == 0 {
        0
    } else {
        let before = id_after(s.drop_last());
        let next = s.last().id + 1;
        if before >= next {
            before
        } else {
            next
        }
    }
}

proof fn lemma_first_with_id_step(s: Seq<Seed>, i: int)
    requires
        0 <= i < s.len(),
    ensures
        s.subrange(i, s.len() as int).drop_first() == s.subrange(i + 1, s.len() as int),
        s.subrange(i, s.len() as int)[0] == s[i],
{
    assert(s.subrange(i, s.len() as int).drop_first() =~= s.subrange(i + 1, s.len() as int));
}

/// Every id of `s` lies below `id_after(s)`, and `id_after(s)` is zero or
/// one more than some id of `s`.
pub proof fn lemma_id_after(s: Seq<Seed>)
    ensures
        forall|i: int| 0 <= i < s.len() ==> (#[trigger] s[i]).id < id_after(s),
        s.len() == 0 ==> id_after(s) == 0,
        s.len() > 0 ==> exists|i: int| 0 <= i < s.len() && (#[trigger] s[i]).id + 1 == id_after(s),
        0 <= id_after(s) <= u64::MAX + 1,
    decreases s.len(),
{
    if s.len() > 0 {
        let p = s.drop_last();
        lemma_id_after(p);
        assert forall|i: int| 0 <= i < s.len() implies (#[trigger] s[i]).id < id_after(s) by {
            if i < s.len() - 1 {
                assert(s[i] == p[i]);
            }
        }
        if id_after(p) >= s.last().id + 1 {
            let k = choose|k: int| 0 <= k < p.len() && (#[trigger] p[k]).id + 1 == id_after(p);
            assert(s[k] == p[k]);
        } else {
            assert(s[s.len() - 1].id + 1 == id_after(s));
        }
    }
}

/// Looks a record up by id: the first record with that id, or `None`.
pub fn find_by_id(records: &Vec<Seed>, id: u64) -> (r: Option<Seed>)
    ensures
        r == first_with_id(records@, id),
{
    let n = records.len();
    let mut i: usize = 0;
    assert(records@.subrange(0, n as int) =~= records@);
    while i < n
        invariant
            n == records@.len(),
            i <= n,
            first_with_id(records@, id) == first_with_id(records@.subrange(i as int, n as int), id),
        decreases n - i,
    {
        proof {
            lemma_first_with_id_step(records@, i as int);
        }
        if records[i].id == id {
            return Some(records[i].copy());
        }
        i = i + 1;
    }
    None
}

/// Filters records by the classification named in `type_text`. Unknown text
/// is an error; no match gives `None`; otherwise the matches in input order.
pub fn find_by_type(records: &Vec<Seed>, type_text: &str) -> (r: Result<Option<Vec<Seed>>, ParseError>)
    ensures
        query_view(r) == type_query(records@, type_text@),
{
    let t = match PlantType::parse(type_text) {
        Ok(t) => t,
        Err(e) => return Err(e),
    };
    let mut out: Vec<Seed> = Vec::new();
    let n = records.len();
    let mut i: usize = 0;
    while i < n
        invariant
            n == records@.len(),
            i <= n,
            out@ == of_type(records@.subrange(0, i as int), t),
        decreases n - i,
    {
        let ghost before = records@.subrange(0, i as int);
        if records[i].plant_type == t {
            out.push(records[i].copy());
        }
        i = i + 1;
        proof {
            let after = records@.subrange(0, i as int);
            assert(after.drop_last() =~= before);
            assert(after.last() == records@[i - 1]);
        }
    }
    assert(records@.subrange(0, n as int) =~= records@);
    if out.len() == 0 {
        Ok(None)
    } else {
        Ok(Some(out))
    }
}

/// The id that a new record gets: one more than the largest id present, or
/// zero for an empty sequence; `None` when the largest id is `u64::MAX`.
pub fn next_free_id(records: &Vec<Seed>) -> (r: Option<u64>)
    ensures
        match r {
            Some(n) => n == id_after(records@),
            None => id_after(records@) == u64::MAX + 1,
        },
        r matches Some(n) ==> !has_id(records@, n),
{
    let n = records.len();
    let mut i: usize = 0;
    let mut next: u64 = 0;
    while i < n
        invariant
            n == records@.len(),
            i <= n,
            next == id_after(records@.subrange(0, i as int)),
        decreases n - i,
    {
        let ghost before = records@.subrange(0, i as int);
        let id = records[i].id;
        if id == u64::MAX {
            proof {
                let upto = records@.subrange(0, i + 1);
                assert(upto.drop_last() =~= before);
                lemma_id_after(upto);
                lemma_id_after_monotone(records@, i + 1);
                lemma_id_after(records@);
            }
            return None;
        }
        if id + 1 > next {
            next = id + 1;
        }
        i = i + 1;
        proof {
            let after = records@.subrange(0, i as int);
            assert(after.drop_last() =~= before);
        }
    }
    assert(records@.subrange(0, n as int) =~= records@);
    proof {
        lemma_id_after(records@);
    }
    Some(next)
}

/// `id_after` of a prefix never exceeds `id_after` of the whole.
proof fn lemma_id_after_monotone(s: Seq<Seed>, k: int)
    requires
        0 <= k <= s.len(),
    ensures
        id_after(s.subrange(0, k)) <= id_after(s),
    decreases s.len() - k,
{
    if k < s.len() {
        lemma_id_after_monotone(s, k + 1);
        assert(s.subrange(0, k + 1).drop_last() =~= s.subrange(0, k));
    } else {
        assert(s.subrange(0, k) =~= s);
    }
}

/// In a sequence with unique ids, looking up an id finds the one record that
/// carries it, and finds nothing when no record carries it.
pub proof fn law_find_by_id_unique(records: Seq<Seed>, id: u64)
    requires
        unique_ids(records),
    ensures
        forall|k: int|
            0 <= k < records.len() && (#[trigger] records[k]).id == id ==> first_with_id(records, id) == Some(records[k]),
        !has_id(records, id) ==> first_with_id(records, id) is None,
    decreases records.len(),
{
    if records.len() > 0 {
        let rest = records.drop_first();
        assert(unique_ids(rest)) by {
            assert forall|i: int, j: int| 0 <= i < j < rest.len() implies (#[trigger] rest[i]).id != (#[trigger] rest[j]).id by {
                assert(rest[i] == records[i + 1]);
                assert(rest[j] == records[j + 1]);
            }
        }
        law_find_by_id_unique(rest, id);
        assert forall|k: int|
            0 <= k < records.len() && (#[trigger] records[k]).id == id implies first_with_id(records, id) == Some(records[k]) by {
            if k > 0 {
                assert(records[0].id != records[k].id);
                assert(rest[k - 1] == records[k]);
            }
        }
        if !has_id(records, id) {
            assert forall|i: int| 0 <= i < rest.len() implies (#[trigger] rest[i]).id != id by {
                assert(rest[i] == records[i + 1]);
            }
            assert(records[0].id != id);
        }
    }
}

/// "veg" and "vegetable" select the same records.
pub proof fn law_vegetable_alias(records: Seq<Seed>)
    ensures
        type_query(records, "veg"@) == type_query(records, "vegetable"@),
        type_query(records, "veg"@) is Ok,
{
    reveal_strlit("veg");
    reveal_strlit("vegetable");
    reveal_strlit("fruit");
    assert(!folds_to("veg"@, "fruit"@));
    assert(!folds_to("vegetable"@, "fruit"@));
    assert(folds_to("veg"@, "veg"@));
    assert(folds_to("vegetable"@, "vegetable"@));
}

/// Unknown classification text is an error, never an empty or absent result.
pub proof fn law_unknown_type_rejected(records: Seq<Seed>)
    ensures
        type_query(records, "unknown"@) == Err::<Option<Seq<Seed>>, ParseError>(ParseError),
{
    reveal_strlit("unknown");
    reveal_strlit("fruit");
    reveal_strlit("veg");
    reveal_strlit("vegetable");
    reveal_strlit("flower");
    reveal_strlit("tree");
    assert(!folds_to("unknown"@, "fruit"@));
    assert(!folds_to("unknown"@, "vegetable"@));
    assert(!folds_to("unknown"@, "flower"@));
    assert(!folds_to("unknown"@, "tree"@));
    assert(!folds_to("unknown"@, "veg"@));
}

/// The position of the first record with id `id`, or `None` when no record
/// carries it.
pub fn position_of_id(records: &Vec<Seed>, id: u64) -> (r: Option<usize>)
    ensures
        match r {
            Some(i) => i < records@.len() && records@[i as int].id == id && forall|j: int|
                0 <= j < i ==> (#[trigger] records@[j]).id != id,
            None => !has_id(records@, id),
        },
{
    let n = records.len();
    let mut i: usize = 0;
    while i < n
        invariant
            n == records@.len(),
            i <= n,
            forall|j: int| 0 <= j < i ==> (#[trigger] records@[j]).id != id,
        decreases n - i,
    {
        if records[i].id == id {
            return Some(i);
        }
        i = i + 1;
    }
    None
}

} // verus!
