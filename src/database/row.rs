//! A row: the columns of one record, by name.
use vstd::prelude::*;

use crate::store::Store;

verus! {

/// A row maps column names to values; a name occurs at most once.
#[derive(Debug)]
pub struct Row<Value> {
    /// The columns, by name.
    pub columns: Store<String, Value>,
}

impl<Value> View for Row<Value> {
    type V = Map<Seq<char>, Value>;

    open spec fn view(&self) -> Map<Seq<char>, Value> {
        self.columns@
    }
}

impl<Value> Row<Value> {
    /// A row without columns.
    pub fn create_row() -> (r: Self)
        ensures
            r@ == Map::<Seq<char>, Value>::empty(),
    {
        Row { columns: Store::new() }
    }

    /// Sets the column `name` to `value`, replacing any value it held.
    pub fn create_column(&mut self, name: &str, value: Value)
        ensures
            final(self)@ == old(self)@.insert(name@, value),
    {
        self.columns.insert(name.to_string(), value);
    }

    /// Removes the column `name`; nothing happens when there is none.
    pub fn delete_column(&mut self, name: &str)
        ensures
            final(self)@ == old(self)@.remove(name@),
    {
        self.columns.remove(&name.to_string());
    }

    /// The value of the column `name`, if the row has one.
    pub fn column(&self, name: &str) -> (r: Option<&Value>)
        ensures
            match r {
                Some(v) => self@.contains_key(name@) && *v == self@[name@],
                None => !self@.contains_key(name@),
            },
    {
        self.columns.get(&name.to_string())
    }

    /// The number of columns.
    pub fn len(&self) -> (r: usize)
        ensures
            r == self@.len(),
    {
        self.columns.len()
    }
}

} // verus!
