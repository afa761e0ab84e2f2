use vstd::prelude::*;

verus! {

/// The position of a table among the tables of its database.
#[derive(Debug, Clone, Copy, PartialEq, Eq, Hash, Structural)]
pub struct TableId(usize);

/// The identity of a database.
#[derive(Debug, Clone, Copy, PartialEq, Eq, Hash, Structural)]
pub struct DatabaseId(usize);

impl TableId {
    pub closed spec fn spec_id(&self) -> usize {
        self.0
    }

    pub fn new(id: usize) -> (r: Self)
        ensures
            r.spec_id() == id,
    {
        TableId(id)
    }

    pub fn id(&self) -> (r: usize)
        ensures
            r == self.spec_id(),
    {
        self.0
    }
}

impl DatabaseId {
    pub closed spec fn spec_id(&self) -> usize {
        self.0
    }

    pub fn new(id: usize) -> (r: Self)
        ensures
            r.spec_id() == id,
    {
        DatabaseId(id)
    }

    pub fn id(&self) -> (r: usize)
        ensures
            r == self.spec_id(),
    {
        self.0
    }
}

} // verus!
