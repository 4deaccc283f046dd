//! Plant classification: parsing from free text and canonical rendering.
use vstd::prelude::*;

verus! {

/// The closed set of plant classifications.
#[derive(PartialEq, Eq, Structural, Clone, Copy, Debug)]
pub enum PlantType {
    Fruit,
    Vegetable,
    Flower,
    Tree,
}

/// Why a piece of text could not be read as a plant classification.
#[derive(PartialEq, Eq, Structural, Clone, Copy, Debug)]
pub struct ParseError;

/// The code of `c` with ASCII upper-case letters folded to lower case.
pub open spec fn folded_code(c: char) -> u32 {
    if 65 <= (c as u32) && (c as u32) <= 90 {
        ((c as u32) + 32) as u32
    } else {
        c as u32
    }
}

/// `t` equals the lower-case word `w` when ASCII case is ignored.
pub open spec fn folds_to(t: Seq<char>, w: Seq<char>) -> bool {
    &&& t.len() == w.len()
    &&& forall|i: int| 0 <= i < t.len() ==> folded_code(#[trigger] t[i]) == w[i] as u32
}

/// The classification that a piece of text names, if any. Case is ignored;
/// "veg" is accepted beside "vegetable".
pub open spec fn plant_type_of(t: Seq<char>) -> Option<PlantType> {
    if folds_to(t, "fruit"@) {
        Some(PlantType::Fruit)
    } else if folds_to(t, "veg"@) || folds_to(t, "vegetable"@) {
        Some(PlantType::Vegetable)
    } else if folds_to(t, "flower"@) {
        Some(PlantType::Flower)
    } else if folds_to(t, "tree"@) {
        Some(PlantType::Tree)
    } else {
        None
    }
}

/// The canonical name of a classification.
pub open spec fn canonical_name(p: PlantType) -> Seq<char> {
    match p {
        PlantType::Fruit => "Fruit"@,
        PlantType::Vegetable => "Vegetable"@,
        PlantType::Flower => "Flower"@,
        PlantType::Tree => "Tree"@,
    }
}

fn fold_code(c: char) -> (r: u32)
    ensures
        r == folded_code(c),
{
    let code = c as u32;
    if 65 <= code && code <= 90 {
        code + 32
    } else {
        code
    }
}

/// Whether `t` equals the lower-case word `w` when ASCII case is ignored.
pub fn text_folds_to(t: &str, w: &str) -> (r: bool)
    ensures
        r == folds_to(t@, w@),
{
    let n = t.unicode_len();
    if n != w.unicode_len() {
        return false;
    }
    let mut i: usize = 0;
    while i < n
        invariant
            n == t@.len(),
            n == w@.len(),
            i <= n,
            forall|k: int| 0 <= k < i ==> folded_code(#[trigger] t@[k]) == w@[k] as u32,
        decreases n - i,
    {
        if fold_code(t.get_char(i)) != w.get_char(i) as u32 {
            return false;
        }
        i = i + 1;
    }
    true
}

impl PlantType {
    /// Reads a classification from free text, ignoring ASCII case and
    /// accepting "veg" for `Vegetable`. Unknown text is an error.
    pub fn parse(text: &str) -> (r: Result<PlantType, ParseError>)
        ensures
            match plant_type_of(text@) {
                Some(p) => r == Ok::<PlantType, ParseError>(p),
                None => r == Err::<PlantType, ParseError>(ParseError),
            },
    {
        if text_folds_to(text, "fruit") {
            Ok(PlantType::Fruit)
        } else if text_folds_to(text, "veg") || text_folds_to(text, "vegetable") {
            Ok(PlantType::Vegetable)
        } else if text_folds_to(text, "flower") {
            Ok(PlantType::Flower)
        } else if text_folds_to(text, "tree") {
            Ok(PlantType::Tree)
        } else {
            Err(ParseError)
        }
    }

    /// The canonical name of the classification.
    pub fn name(&self) -> (r: &'static str)
        ensures
            r@ == canonical_name(*self),
    {
        match self {
            PlantType::Fruit => "Fruit",
            PlantType::Vegetable => "Vegetable",
            PlantType::Flower => "Flower",
            PlantType::Tree => "Tree",
        }
    }

    /// The canonical name of the classification, as an owned string.
    pub fn to_text(&self) -> (r: String)
        ensures
            r@ == canonical_name(*self),
    {
        String::from_str(self.name())
    }
}

/// Parsing the canonical name of a classification gives it back.
pub proof fn law_parse_canonical_name(p: PlantType)
    ensures
        plant_type_of(canonical_name(p)) == Some(p),
{
    reveal_strlit("Fruit");
    reveal_strlit("Vegetable");
    reveal_strlit("Flower");
    reveal_strlit("Tree");
    reveal_strlit("fruit");
    reveal_strlit("veg");
    reveal_strlit("vegetable");
    reveal_strlit("flower");
    reveal_strlit("tree");
    match p {
        PlantType::Fruit => {
            assert(folds_to(canonical_name(p), "fruit"@));
        },
        PlantType::Vegetable => {
            assert(!folds_to(canonical_name(p), "fruit"@));
            assert(folds_to(canonical_name(p), "vegetable"@));
        },
        PlantType::Flower => {
            assert(!folds_to(canonical_name(p), "fruit"@));
            assert(!folds_to(canonical_name(p), "veg"@));
            assert(!folds_to(canonical_name(p), "vegetable"@));
            assert(folds_to(canonical_name(p), "flower"@));
        },
        PlantType::Tree => {
            assert(!folds_to(canonical_name(p), "fruit"@));
            assert(!folds_to(canonical_name(p), "veg"@));
            assert(!folds_to(canonical_name(p), "vegetable"@));
            assert(!folds_to(canonical_name(p), "flower"@));
            assert(folds_to(canonical_name(p), "tree"@));
        },
    }
}

} // verus!
