use vstd::prelude::*;
use crate::json::{Json, JsonV};

verus! {

/// How many substitutions one resolution may make.
pub const VAR_REPLACE_CREDITS: usize = 20;

/// The table of named values that placeholders refer to; where a name occurs more than
/// once, the latest entry is the one that counts.
pub struct VariableTable {
    pub entries: Vec<(String, Json)>,
}

impl VariableTable {
    pub open spec fn view(&self) -> Seq<(Seq<char>, JsonV)> {
        Seq::new(self.entries.len() as nat, |i: int| (self.entries@[i].0@, self.entries@[i].1@))
    }

    /// An empty table.
    pub fn new() -> (r: VariableTable)
        ensures
            r@.len() == 0,
    {
        VariableTable { entries: Vec::new() }
    }

    /// The value under `name`, where there is one.
    pub fn get(&self, name: &String) -> (r: Option<&Json>)
        ensures
            match r {
                Some(j) => table_get(self@, name@) == Some(j@),
                None => table_get(self@, name@) is None,
            },
    {
        let mut i: usize = self.entries.len();
        assert(self@.subrange(0, i as int) =~= self@);
        while i > 0
            invariant
                i <= self.entries.len(),
                table_get(self@, name@) == table_get(self@.subrange(0, i as int), name@),
            decreases i,
        {
            assert(self@.subrange(0, i as int).last() == self@[i - 1]);
            if self.entries[i - 1].0 == *name {
                return Some(&self.entries[i - 1].1);
            }
            assert(self@.subrange(0, i as int).drop_last() =~= self@.subrange(0, i - 1));
            i = i - 1;
        }
        None
    }

    /// Sets the value under `name`; it hides any earlier value under that name.
    pub fn insert(&mut self, name: String, value: Json)
        ensures
            forall|k: Seq<char>| #[trigger] table_get(final(self)@, k) == if k == name@ {
                Some(value@)
            } else {
                table_get(old(self)@, k)
            },
    {
        let ghost before = self@;
        self.entries.push((name, value));
        assert(self@.drop_last() =~= before);
    }
}

/// The value of the latest entry under `name`.
pub open spec fn table_get(t: Seq<(Seq<char>, JsonV)>, name: Seq<char>) -> Option<JsonV>
    decreases t.len(),
{
    if t.len() == 0 {
        None
    } else if t.last().0 == name {
        Some(t.last().1)
    } else {
        table_get(t.drop_last(), name)
    }
}

} // verus!
