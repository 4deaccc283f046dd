//! The catalog record.
use vstd::prelude::*;
use crate::plant::PlantType;

verus! {

/// One catalog entry: an identifier, a classification and eleven free-text
/// attributes.
#[derive(Clone, Debug, PartialEq, Eq)]
pub struct Seed {
    pub id: u64,
    pub plant_type: PlantType,
    pub name: String,
    pub variety: String,
    pub description: String,
    pub company: String,
    pub company_id: String,
    pub start_instructions: String,
    pub germinate_time: String,
    pub germinate_temp: String,
    pub transplant_time: String,
    pub final_spacing: String,
    pub harvest_time: String,
}

/// The number of free-text attributes of a record.
pub const TEXT_FIELDS: usize = 11;

/// A record as plain values: its text attributes in declaration order.
pub ghost struct SeedView {
    pub id: u64,
    pub plant_type: PlantType,
    pub texts: Seq<Seq<char>>,
}

impl SeedView {
    /// The view has all eleven text attributes.
    pub open spec fn wf(&self) -> bool {
        self.texts.len() == TEXT_FIELDS
    }
}

impl View for Seed {
    type V = SeedView;

    open spec fn view(&self) -> SeedView {
        SeedView {
            id: self.id,
            plant_type: self.plant_type,
            texts: seq![
                self.name@,
                self.variety@,
                self.description@,
                self.company@,
                self.company_id@,
                self.start_instructions@,
                self.germinate_time@,
                self.germinate_temp@,
                self.transplant_time@,
                self.final_spacing@,
                self.harvest_time@,
            ],
        }
    }
}

/// No two record views of `c` share an id.
pub open spec fn view_ids_distinct(c: Seq<SeedView>) -> bool {
    forall|i: int, j: int| 0 <= i < j < c.len() ==> (#[trigger] c[i]).id != (#[trigger] c[j]).id
}

/// The views of a sequence of records.
pub open spec fn views(s: Seq<Seed>) -> Seq<SeedView> {
    s.map_values(|x: Seed| x@)
}

impl Seed {
    /// Builds a record from a fully supplied set of fields.
    pub fn new(
        id: u64,
        plant_type: PlantType,
        name: String,
        variety: String,
        description: String,
        company: String,
        company_id: String,
        start_instructions: String,
        germinate_time: String,
        germinate_temp: String,
        transplant_time: String,
        final_spacing: String,
        harvest_time: String,
    ) -> (r: Seed)
        ensures
            r == (Seed {
                id,
                plant_type,
                name,
                variety,
                description,
                company,
                company_id,
                start_instructions,
                germinate_time,
                germinate_temp,
                transplant_time,
                final_spacing,
                harvest_time,
            }),
    {
        Seed {
            id,
            plant_type,
            name,
            variety,
            description,
            company,
            company_id,
            start_instructions,
            germinate_time,
            germinate_temp,
            transplant_time,
            final_spacing,
            harvest_time,
        }
    }

    /// An identical copy of the record.
    pub fn copy(&self) -> (r: Seed)
        ensures
            r == *self,
    {
        Seed {
            id: self.id,
            plant_type: self.plant_type,
            name: self.name.clone(),
            variety: self.variety.clone(),
            description: self.description.clone(),
            company: self.company.clone(),
            company_id: self.company_id.clone(),
            start_instructions: self.start_instructions.clone(),
            germinate_time: self.germinate_time.clone(),
            germinate_temp: self.germinate_temp.clone(),
            transplant_time: self.transplant_time.clone(),
            final_spacing: self.final_spacing.clone(),
            harvest_time: self.harvest_time.clone(),
        }
    }

    /// The text attribute at position `k`, in declaration order.
    pub fn text(&self, k: usize) -> (r: &String)
        requires
            k < TEXT_FIELDS,
        ensures
            r@ == self@.texts[k as int],
    {
        if k == 0 {
            &self.name
        } else if k == 1 {
            &self.variety
        } else if k == 2 {
            &self.description
        } else if k == 3 {
            &self.company
        } else if k == 4 {
            &self.company_id
        } else if k == 5 {
            &self.start_instructions
        } else if k == 6 {
            &self.germinate_time
        } else if k == 7 {
            &self.germinate_temp
        } else if k == 8 {
            &self.transplant_time
        } else if k == 9 {
            &self.final_spacing
        } else {
            &self.harvest_time
        }
    }
}

/// Copies every record of a sequence.
pub fn copy_all(records: &Vec<Seed>) -> (r: Vec<Seed>)
    ensures
        r@ == records@,
{
    let mut out: Vec<Seed> = Vec::new();
    let mut i: usize = 0;
    while i < records.len()
        invariant
            i <= records@.len(),
            out@ == records@.subrange(0, i as int),
        decreases records@.len() - i,
    {
        out.push(records[i].copy());
        i = i + 1;
        assert(out@ =~= records@.subrange(0, i as int));
    }
    assert(out@ =~= records@);
    out
}

} // verus!
