//! A database: tables by name.
use vstd::prelude::*;

use super::table::Table;
use crate::store::{
    lemma_views_of_dom, lemma_views_of_empty, lemma_views_of_insert, lemma_views_of_remove, views_of,
    Store,
};

verus! {

/// What a database holds: for each table name, the table's rows.
pub type DatabaseView<Value> = Map<Seq<char>, Map<u32, Map<Seq<char>, Value>>>;

/// A database maps table names to tables; a name occurs at most once.
#[derive(Debug)]
pub struct Database<Value> {
    /// The tables, by name.
    pub tables: Store<String, Table<Value>>,
}

impl<Value> View for Database<Value> {
    type V = DatabaseView<Value>;

    /// Each table seen through its own view.
    open spec fn view(&self) -> DatabaseView<Value> {
        views_of(self.tables@)
    }
}

impl<Value> Database<Value> {
    /// A database without tables.
    pub fn create_database() -> (r: Self)
        ensures
            r@ == DatabaseView::<Value>::empty(),
    {
        let r = Database { tables: Store::new() };
        proof {
            lemma_views_of_empty::<Seq<char>, Table<Value>>();
        }
        r
    }

    /// Puts `table` under `name`, dropping any table that was there.
    pub fn add_table(&mut self, name: &str, table: Table<Value>)
        ensures
            final(self)@ == old(self)@.insert(name@, table@),
    {
        proof {
            lemma_views_of_insert(self.tables@, name@, table);
        }
        self.tables.insert(name.to_string(), table);
    }

    /// Removes the table `name`; nothing happens when there is none.
    pub fn delete_table(&mut self, name: &str)
        ensures
            final(self)@ == old(self)@.remove(name@),
    {
        proof {
            lemma_views_of_remove(self.tables@, name@);
        }
        self.tables.remove(&name.to_string());
    }

    /// The table `name`, if there is one.
    pub fn table(&self, name: &str) -> (r: Option<&Table<Value>>)
        ensures
            match r {
                Some(t) => self@.contains_key(name@) && t@ == self@[name@],
                None => !self@.contains_key(name@),
            },
    {
        self.tables.get(&name.to_string())
    }

    /// A mutable borrow of the table `name`, if there is one; what the table
    /// becomes through it is what the database then holds under `name`.
    pub fn table_mut(&mut self, name: &str) -> (r: Option<&mut Table<Value>>)
        ensures
            r.is_some() == old(self)@.contains_key(name@),
            r.is_some() ==> (*r.unwrap())@ == old(self)@[name@] && final(self)@ == old(
                self,
            )@.insert(name@, (*final(r.unwrap()))@),
            r.is_none() ==> final(self)@ == old(self)@,
    {
        proof {
            assert forall|x: Table<Value>| #[trigger]
                views_of(self.tables@.insert(name@, x)) == self@.insert(name@, x@) by {
                lemma_views_of_insert(self.tables@, name@, x);
            }
        }
        self.tables.get_mut(&name.to_string())
    }

    /// The number of tables.
    pub fn len(&self) -> (r: usize)
        ensures
            r == self@.len(),
    {
        proof {
            lemma_views_of_dom(self.tables@);
        }
        self.tables.len()
    }
}

} // verus!
