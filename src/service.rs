//! The pieces of the web service and the command line that hold no I/O: the
//! request body for a filter, the kinds of item a command works on, and the
//! server handle.
use vstd::prelude::*;
use crate::plant::{folds_to, text_folds_to, ParseError};
use crate::query::{query_view, type_query};
use crate::seed::Seed;
use crate::snapshot::SeedBank;

verus! {

/// The body of a request for the records of one classification.
pub struct SeedRequest {
    pub plant_type: String,
}

impl SeedRequest {
    /// Answers the request from the bank's catalog.
    pub fn answer(&self, bank: &SeedBank) -> (r: Result<Option<Vec<Seed>>, ParseError>)
        ensures
            query_view(r) == type_query(bank.seeds().records(), self.plant_type@),
    {
        bank.catalog().get_by_type(self.plant_type.as_str())
    }
}

/// The kinds of item that a command can work on.
#[derive(PartialEq, Eq, Structural, Clone, Copy, Debug)]
pub enum Items {
    Seed,
}

impl Items {
    /// The name under which the item is given on the command line.
    pub fn name(&self) -> (r: &'static str)
        ensures
            r@ == "seed"@,
    {
        "seed"
    }

    /// Reads an item name: exactly, or ignoring ASCII case when asked to.
    pub fn parse(input: &str, ignore_case: bool) -> (r: Option<Items>)
        ensures
            r == (if input@ == "seed"@ || (ignore_case && folds_to(input@, "seed"@)) {
                Some(Items::Seed)
            } else {
                None
            }),
    {
        if str_equal(input, "seed") || (ignore_case && text_folds_to(input, "seed")) {
            Some(Items::Seed)
        } else {
            None
        }
    }
}

fn str_equal(a: &str, b: &str) -> (r: bool)
    ensures
        r == (a@ == b@),
{
    let n = a.unicode_len();
    if n != b.unicode_len() {
        return false;
    }
    let mut i: usize = 0;
    while i < n
        invariant
            n == a@.len(),
            n == b@.len(),
            i <= n,
            forall|k: int| 0 <= k < i ==> a@[k] == b@[k],
        decreases n - i,
    {
        if a.get_char(i) != b.get_char(i) {
            return false;
        }
        i = i + 1;
    }
    assert(a@ =~= b@);
    true
}

/// The handle of the web service; what it serves is set up where it starts.
pub struct Server {}

impl Server {
    pub fn init() -> (r: Server)
        ensures
            r == (Server {}),
    {
        Server {}
    }
}

} // verus!
