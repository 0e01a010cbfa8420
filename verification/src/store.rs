//! The reference store: an in-memory picture of the one relation the
//! bootstrap touches, with the behaviour the loader relies on — an
//! existence flag, rows kept in insertion order, and a primary-key check on
//! the first bound column. Each insertion is its own autocommit unit:
//! nothing groups rows into a transaction, and nothing ever rolls one back.
use crate::record::Value;
use crate::record::ValueV;
use crate::record::value_eq;
use vstd::prelude::*;

verus! {

/// Whether some row already holds `key` in its first (primary-key) column.
pub open spec fn has_key(rows: Seq<Seq<ValueV>>, key: ValueV) -> bool {
    exists|i: int| 0 <= i < rows.len() && #[trigger] rows[i].len() > 0 && rows[i][0] == key
}

pub struct MemStore {
    pub table_exists: bool,
    pub rows: Vec<Vec<Value>>,
}

pub ghost struct MemStoreV {
    pub table_exists: bool,
    pub rows: Seq<Seq<ValueV>>,
}

impl View for MemStore {
    type V = MemStoreV;

    open spec fn view(&self) -> MemStoreV {
        MemStoreV { table_exists: self.table_exists, rows: self.rows.deep_view() }
    }
}

impl MemStore {
    /// A fresh store: no relation yet, no rows.
    pub fn new() -> (s: MemStore)
        ensures
            !s@.table_exists,
            s@.rows == Seq::<Seq<ValueV>>::empty(),
    {
        let s = MemStore { table_exists: false, rows: Vec::new() };
        proof {
            assert(s@.rows =~= Seq::<Seq<ValueV>>::empty());
        }
        s
    }

    /// Whether the catalog already has the relation.
    pub fn has_table(&self) -> (r: bool)
        ensures
            r == self@.table_exists,
    {
        self.table_exists
    }

    /// Executes the idempotent creation: afterwards the relation exists;
    /// rows are untouched.
    pub fn create_table(&mut self)
        ensures
            final(self)@.table_exists,
            final(self)@.rows == old(self)@.rows,
    {
        self.table_exists = true;
    }

    /// Executes one insertion. It is rejected exactly when the primary-key
    /// column repeats an existing row's key; otherwise the row is appended.
    pub fn insert(&mut self, vals: Vec<Value>) -> (ok: bool)
        requires
            vals@.len() > 0,
        ensures
            ok == !has_key(old(self)@.rows, vals.deep_view()[0]),
            final(self)@.table_exists == old(self)@.table_exists,
            ok ==> final(self)@.rows == old(self)@.rows.push(vals.deep_view()),
            !ok ==> final(self)@.rows == old(self)@.rows,
    {
        let ghost rows0 = self@.rows;
        let mut i: usize = 0;
        while i < self.rows.len()
            invariant
                i <= self.rows.len(),
                rows0 == self@.rows,
                vals@.len() > 0,
                forall|k: int|
                    0 <= k < i ==> !(#[trigger] rows0[k].len() > 0 && rows0[k][0]
                        == vals.deep_view()[0]),
            decreases self.rows.len() - i,
        {
            let row = &self.rows[i];
            if row.len() > 0 && value_eq(&row[0], &vals[0]) {
                proof {
                    assert(rows0[i as int].len() > 0 && rows0[i as int][0] == vals.deep_view()[0]);
                    assert(has_key(rows0, vals.deep_view()[0]));
                }
                return false;
            }
            i += 1;
        }
        proof {
            assert(!has_key(rows0, vals.deep_view()[0]));
        }
        let ghost pushed = vals.deep_view();
        self.rows.push(vals);
        proof {
            assert(self@.rows =~= rows0.push(pushed));
        }
        true
    }
}

} // verus!
