use vstd::prelude::*;

verus! {

/// One source row: an ordered list of text fields, addressed by position.
#[derive(Debug, Clone)]
pub struct Record {
    pub fields: Vec<String>,
}

/// The text of field `i` of a row, or the empty text when the row is shorter.
pub open spec fn field_of(fields: Seq<Seq<char>>, i: int) -> Seq<char> {
    if 0 <= i < fields.len() {
        fields[i]
    } else {
        Seq::empty()
    }
}

impl View for Record {
    type V = Seq<Seq<char>>;

    open spec fn view(&self) -> Seq<Seq<char>> {
        self.fields@.map_values(|s: String| s@)
    }
}

impl Record {
    pub fn new(fields: Vec<String>) -> (r: Record)
        ensures
            r.fields == fields,
    {
        Record { fields }
    }

    /// Field `i`, or the empty string where the row has no such field.
    pub fn get(&self, i: usize) -> (r: &str)
        ensures
            r@ == field_of(self@, i as int),
    {
        if i < self.fields.len() {
            self.fields[i].as_str()
        } else {
            proof {
                reveal_strlit("");
            }
            ""
        }
    }

    /// A copy of this row, field by field.
    pub fn duplicate(&self) -> (r: Record)
        ensures
            r@ == self@,
    {
        let mut fields: Vec<String> = Vec::new();
        let mut i: usize = 0;
        while i < self.fields.len()
            invariant
                i <= self.fields.len(),
                fields@.len() == i,
                forall|j: int| 0 <= j < i ==> fields@[j]@ == self.fields@[j]@,
            decreases self.fields.len() - i,
        {
            fields.push(self.fields[i].clone());
            i += 1;
        }
        let r = Record { fields };
        assert(r@ =~= self@);
        r
    }
}

} // verus!
