//! An in-memory store organised as a tree of exclusively owned containers:
//! an environment of named databases, each of named tables, each of rows
//! under `u32` primary keys, each of named columns holding a value.
//!
//! Every container inserts by replacing: a name or key that is already
//! present gets the new child, and the old one is dropped whole. Removing an
//! absent name or key changes nothing. No operation fails.
use vstd::prelude::*;

pub mod database;
pub mod laws;
pub mod store;

use database::database::{Database, DatabaseView};
use store::{
    lemma_views_of_dom, lemma_views_of_empty, lemma_views_of_insert, lemma_views_of_remove, views_of,
    Store,
};

verus! {

/// What an environment holds: for each database name, the database's tables.
pub type EnvironmentView<Value> = Map<Seq<char>, DatabaseView<Value>>;

/// The environment: the root of the tree, mapping database names to databases.
#[derive(Debug)]
pub struct JSDB<Value> {
    /// The databases, by name.
    pub databases: Store<String, Database<Value>>,
}

impl<Value> View for JSDB<Value> {
    type V = EnvironmentView<Value>;

    /// Each database seen through its own view.
    open spec fn view(&self) -> EnvironmentView<Value> {
        views_of(self.databases@)
    }
}

impl<Value> JSDB<Value> {
    /// An environment without databases.
    pub fn new() -> (r: Self)
        ensures
            r@ == EnvironmentView::<Value>::empty(),
    {
        let r = JSDB { databases: Store::new() };
        proof {
            lemma_views_of_empty::<Seq<char>, Database<Value>>();
        }
        r
    }

    /// Puts `database` under `name`, dropping any database that was there.
    pub fn add_database(&mut self, name: &str, database: Database<Value>)
        ensures
            final(self)@ == old(self)@.insert(name@, database@),
    {
        proof {
            lemma_views_of_insert(self.databases@, name@, database);
        }
        self.databases.insert(name.to_string(), database);
    }

    /// Removes the database `name`; nothing happens when there is none.
    pub fn delete_database(&mut self, name: &str)
        ensures
            final(self)@ == old(self)@.remove(name@),
    {
        proof {
            lemma_views_of_remove(self.databases@, name@);
        }
        self.databases.remove(&name.to_string());
    }

    /// The database `name`, if there is one.
    pub fn database(&self, name: &str) -> (r: Option<&Database<Value>>)
        ensures
            match r {
                Some(d) => self@.contains_key(name@) && d@ == self@[name@],
                None => !self@.contains_key(name@),
            },
    {
        self.databases.get(&name.to_string())
    }

    /// A mutable borrow of the database `name`, if there is one; what the
    /// database becomes through it is what the environment then holds there.
    pub fn database_mut(&mut self, name: &str) -> (r: Option<&mut Database<Value>>)
        ensures
            r.is_some() == old(self)@.contains_key(name@),
            r.is_some() ==> (*r.unwrap())@ == old(self)@[name@] && final(self)@ == old(
                self,
            )@.insert(name@, (*final(r.unwrap()))@),
            r.is_none() ==> final(self)@ == old(self)@,
    {
        proof {
            assert forall|x: Database<Value>| #[trigger]
                views_of(self.databases@.insert(name@, x)) == self@.insert(name@, x@) by {
                lemma_views_of_insert(self.databases@, name@, x);
            }
        }
        self.databases.get_mut(&name.to_string())
    }

    /// The number of databases.
    pub fn len(&self) -> (r: usize)
        ensures
            r == self@.len(),
    {
        proof {
            lemma_views_of_dom(self.databases@);
        }
        self.databases.len()
    }
}

} // verus!
