//! A table: rows under their `u32` primary keys.
use vstd::prelude::*;

use super::row::Row;
use crate::store::{
    lemma_views_of_dom, lemma_views_of_empty, lemma_views_of_insert, lemma_views_of_remove, views_of,
    Store,
};

verus! {

/// A table maps primary keys to rows; a key occurs at most once.
#[derive(Debug)]
pub struct Table<Value> {
    /// The rows, by primary key.
    pub rows: Store<u32, Row<Value>>,
}

impl<Value> View for Table<Value> {
    type V = Map<u32, Map<Seq<char>, Value>>;

    /// Each row seen through its own view.
    open spec fn view(&self) -> Map<u32, Map<Seq<char>, Value>> {
        views_of(self.rows@)
    }
}

impl<Value> Table<Value> {
    /// A table without rows.
    pub fn create_table() -> (r: Self)
        ensures
            r@ == Map::<u32, Map<Seq<char>, Value>>::empty(),
    {
        let r = Table { rows: Store::new() };
        proof {
            lemma_views_of_empty::<u32, Row<Value>>();
        }
        r
    }

    /// Puts `row` under `primary_key`, dropping any row that was there.
    pub fn add_row(&mut self, primary_key: u32, row: Row<Value>)
        ensures
            final(self)@ == old(self)@.insert(primary_key, row@),
    {
        proof {
            lemma_views_of_insert(self.rows@, primary_key, row);
        }
        self.rows.insert(primary_key, row);
    }

    /// Removes the row under `primary_key`; nothing happens when there is none.
    pub fn delete_row(&mut self, primary_key: u32)
        ensures
            final(self)@ == old(self)@.remove(primary_key),
    {
        proof {
            lemma_views_of_remove(self.rows@, primary_key);
        }
        self.rows.remove(&primary_key);
    }

    /// The row under `primary_key`, if there is one.
    pub fn row(&self, primary_key: u32) -> (r: Option<&Row<Value>>)
        ensures
            match r {
                Some(row) => self@.contains_key(primary_key) && row@ == self@[primary_key],
                None => !self@.contains_key(primary_key),
            },
    {
        self.rows.get(&primary_key)
    }

    /// A mutable borrow of the row under `primary_key`, if there is one;
    /// what the row becomes through it is what the table then holds there.
    pub fn row_mut(&mut self, primary_key: u32) -> (r: Option<&mut Row<Value>>)
        ensures
            r.is_some() == old(self)@.contains_key(primary_key),
            r.is_some() ==> (*r.unwrap())@ == old(self)@[primary_key] && final(self)@ == old(
                self,
            )@.insert(primary_key, (*final(r.unwrap()))@),
            r.is_none() ==> final(self)@ == old(self)@,
    {
        proof {
            assert forall|x: Row<Value>| #[trigger]
                views_of(self.rows@.insert(primary_key, x)) == self@.insert(primary_key, x@) by {
                lemma_views_of_insert(self.rows@, primary_key, x);
            }
        }
        self.rows.get_mut(&primary_key)
    }

    /// The number of rows.
    pub fn len(&self) -> (r: usize)
        ensures
            r == self@.len(),
    {
        proof {
            lemma_views_of_dom(self.rows@);
        }
        self.rows.len()
    }
}

} // verus!
