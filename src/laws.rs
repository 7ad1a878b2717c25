//! Properties that hold of every container in the tree.
//!
//! Each container (`Row`, `Table`, `Database`, `JSDB`) is seen as a map from
//! the names or keys of its children to their views, and each of its
//! insertion and deletion functions is specified as `Map::insert` or
//! `Map::remove` on that view (`create_column`, `add_row`, `add_table`,
//! `add_database`; `delete_column`, `delete_row`, `delete_table`,
//! `delete_database`). Its lookup functions return the child that the view
//! holds under the name or key. The laws below are stated over such views.
use vstd::prelude::*;

use crate::EnvironmentView;

verus! {

/// After inserting `v` under `k`, looking up `k` finds `v`.
pub proof fn law_insert_then_lookup<K, V>(before: Map<K, V>, k: K, v: V)
    ensures
        before.insert(k, v).contains_key(k),
        before.insert(k, v)[k] == v,
{
}

/// Inserting `v1` and then `v2` under the same `k` leaves one entry at `k`,
/// holding `v2`, exactly as inserting `v2` alone would; the second insertion
/// does not change the number of children.
pub proof fn law_overwrite<K, V>(before: Map<K, V>, k: K, v1: V, v2: V)
    ensures
        before.insert(k, v1).insert(k, v2) == before.insert(k, v2),
        before.insert(k, v1).insert(k, v2)[k] == v2,
        before.insert(k, v1).insert(k, v2).len() == before.insert(k, v1).len(),
{
    assert(before.insert(k, v1).insert(k, v2) =~= before.insert(k, v2));
    assert(before.insert(k, v1).insert(k, v2).dom() =~= before.insert(k, v1).dom());
}

/// Deleting a present `k` lowers the number of children by one, and `k` is
/// then absent.
pub proof fn law_delete_present<K, V>(before: Map<K, V>, k: K)
    requires
        before.dom().finite(),
        before.contains_key(k),
    ensures
        before.remove(k).len() == before.len() - 1,
        !before.remove(k).contains_key(k),
{
}

/// Deleting an absent `k` changes neither the children nor their number.
pub proof fn law_delete_absent<K, V>(before: Map<K, V>, k: K)
    requires
        !before.contains_key(k),
    ensures
        before.remove(k) == before,
        before.remove(k).len() == before.len(),
{
    assert(before.remove(k) =~= before);
}

/// Replacing the row under `key` in table `t1` of database `d1` leaves every
/// other table as it was, in that database and in every other one; in
/// particular the row under the same `key` in another table is untouched.
pub proof fn law_tree_independence<Value>(
    env: EnvironmentView<Value>,
    d1: Seq<char>,
    t1: Seq<char>,
    key: u32,
    row: Map<Seq<char>, Value>,
    d2: Seq<char>,
    t2: Seq<char>,
)
    requires
        env.contains_key(d1),
        env[d1].contains_key(t1),
        d1 != d2 || t1 != t2,
    ensures
        ({
            let after = env.insert(d1, env[d1].insert(t1, env[d1][t1].insert(key, row)));
            &&& after.contains_key(d2) == env.contains_key(d2)
            &&& env.contains_key(d2) ==> after[d2].contains_key(t2) == env[d2].contains_key(t2)
            &&& env.contains_key(d2) && env[d2].contains_key(t2) ==> after[d2][t2] == env[d2][t2]
        }),
{
}

} // verus!
