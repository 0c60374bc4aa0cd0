//! The primary key of a table: a designated column name.

use vstd::prelude::*;

verus! {

/// The primary key of a table, naming one of its columns.
#[derive(Debug)]
pub struct PrimaryKey(pub String);

impl View for PrimaryKey {
    type V = Seq<char>;

    open spec fn view(&self) -> Seq<char> {
        self.0@
    }
}

impl PrimaryKey {
    /// Wraps a column name as a primary key.
    pub fn new(name: String) -> (r: PrimaryKey)
        ensures
            r@ == name@,
    {
        Self(name)
    }
}

impl Clone for PrimaryKey {
    fn clone(&self) -> (r: Self)
        ensures
            r@ == self@,
    {
        PrimaryKey(self.0.clone())
    }
}

} // verus!
