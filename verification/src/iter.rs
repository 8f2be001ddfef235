//! Iterate over a table

use crate::schema::{IndexDesc, TableDesc};
use crate::storage;
use crate::storage::TxnId;
use crate::table::Table;
use std::marker::PhantomData;
use vstd::prelude::*;

verus! {

/// Phantom type to iterate over keys.
pub struct Keys;

/// Phantom type to iterate over Values.
pub struct Values;

/// Phantom type to iterate over key/value pairs.
pub struct KeysAndValues;

/// An iterator for a single table (described by the generic parameter `D`) in the KV store.
///
/// The lifetime `'a` is that of the borrow of the table.
#[verifier::reject_recursive_types(D)]
pub struct TableIterator<'a, D: TableDesc, Kind> {
    rows: Vec<(&'a D::Key, &'a D::Value)>,
    /// The number of rows which have been yielded.
    yielded: usize,
    _kind: PhantomData<Kind>,
}

impl<'a, D: TableDesc, Kind> TableIterator<'a, D, Kind> {
    /// The rows which are still to be yielded.
    pub closed spec fn left(&self) -> Seq<(&'a D::Key, &'a D::Value)> {
        self.rows@.skip(self.yielded as int)
    }

    /// No more than all rows have been yielded.
    #[verifier::type_invariant]
    spec fn within(&self) -> bool {
        self.yielded <= self.rows@.len()
    }

    /// Iterate over `rows`.
    pub fn new(rows: Vec<(&'a D::Key, &'a D::Value)>) -> (r: Self)
        ensures
            r.left() == rows@,
    {
        let r = TableIterator { rows, yielded: 0, _kind: PhantomData };
        assert(r.left() =~= rows@);
        r
    }

    fn next_row(&mut self) -> (r: Option<(&'a D::Key, &'a D::Value)>)
        ensures
            r is Some <==> old(self).left().len() > 0,
            r is None ==> *final(self) == *old(self),
            r matches Some(row) ==> row == old(self).left()[0] && final(self).left() == old(
                self,
            ).left().skip(1),
    {
        proof {
            use_type_invariant(&*self);
        }
        if self.yielded < self.rows.len() {
            let (k, v) = self.rows[self.yielded];
            let ghost n = self.yielded as int;
            self.yielded = self.yielded + 1;
            assert(self.rows@.skip(n).skip(1) =~= self.rows@.skip(n + 1));
            Some((k, v))
        } else {
            None
        }
    }
}

impl<'a, D: TableDesc> TableIterator<'a, D, KeysAndValues> {
    /// The next key/value pair.
    pub fn next(&mut self) -> (r: Option<(&'a D::Key, &'a D::Value)>)
        ensures
            r is Some <==> old(self).left().len() > 0,
            r is None ==> *final(self) == *old(self),
            r matches Some(row) ==> row == old(self).left()[0] && final(self).left() == old(
                self,
            ).left().skip(1),
    {
        self.next_row()
    }
}

impl<'a, D: TableDesc> TableIterator<'a, D, Keys> {
    /// The next key.
    pub fn next(&mut self) -> (r: Option<&'a D::Key>)
        ensures
            r is Some <==> old(self).left().len() > 0,
            r is None ==> *final(self) == *old(self),
            r matches Some(key) ==> key == old(self).left()[0].0 && final(self).left() == old(
                self,
            ).left().skip(1),
    {
        match self.next_row() {
            Some((k, _)) => Some(k),
            None => None,
        }
    }
}

impl<'a, D: TableDesc> TableIterator<'a, D, Values> {
    /// The next value.
    pub fn next(&mut self) -> (r: Option<&'a D::Value>)
        ensures
            r is Some <==> old(self).left().len() > 0,
            r is None ==> *final(self) == *old(self),
            r matches Some(value) ==> value == old(self).left()[0].1 && final(self).left() == old(
                self,
            ).left().skip(1),
    {
        match self.next_row() {
            Some((_, v)) => Some(v),
            None => None,
        }
    }
}

/// An iterator for an indexed table (described by the generic parameter `D`) in the KV
/// store.
///
/// As for [`TableIterator`], `'a` is the lifetime of the borrow of the (base) table.
#[verifier::reject_recursive_types(D)]
pub struct IndexIterator<'a, D: IndexDesc, Kind> {
    base: &'a Table<D::BaseTable>,
    /// The entries of the index.
    entries: Vec<(&'a D::Key, &'a D::BaseKey)>,
    /// The number of entries which have been yielded.
    yielded: usize,
    txn_id: TxnId,
    _kind: PhantomData<Kind>,
}

impl<'a, D: IndexDesc, Kind> IndexIterator<'a, D, Kind> {
    /// The entries of the index which are still to be yielded.
    pub closed spec fn left(&self) -> Seq<(&'a D::Key, &'a D::BaseKey)> {
        self.entries@.skip(self.yielded as int)
    }

    /// The rows of the base table.
    pub closed spec fn rows(&self) -> Map<D::BaseKey, D::Row> {
        self.base.state(self.txn_id).rows
    }

    /// Each entry of the index leads to a row of the base table.
    #[verifier::type_invariant]
    spec fn within(&self) -> bool {
        &&& self.yielded <= self.entries@.len()
        &&& storage::key_model::<D::BaseKey>()
        &&& forall|i: int|
            0 <= i < self.entries@.len() ==> self.base.state(self.txn_id).rows.contains_key(
                *(#[trigger] self.entries@[i]).1,
            )
    }

    /// Iterate over `entries` and the rows of `base` (as visible at `txn_id`) which they lead to.
    pub fn new(
        base: &'a Table<D::BaseTable>,
        entries: Vec<(&'a D::Key, &'a D::BaseKey)>,
        txn_id: TxnId,
    ) -> (r: Self)
        requires
            storage::key_model::<D::BaseKey>(),
            forall|i: int|
                0 <= i < entries@.len() ==> base.state(txn_id).rows.contains_key(
                    *(#[trigger] entries@[i]).1,
                ),
        ensures
            r.left() == entries@,
            r.rows() == base.state(txn_id).rows,
    {
        let r = IndexIterator { base, entries, yielded: 0, txn_id, _kind: PhantomData };
        assert(r.left() =~= entries@);
        r
    }

    fn next_entry(&mut self) -> (r: Option<(&'a D::Key, &'a D::BaseKey)>)
        ensures
            r is Some <==> old(self).left().len() > 0,
            r is None ==> *final(self) == *old(self),
            r matches Some(entry) ==> entry == old(self).left()[0] && final(self).left() == old(
                self,
            ).left().skip(1) && final(self).rows().contains_key(*entry.1),
            final(self).rows() == old(self).rows(),
            final(self).base == old(self).base,
            final(self).txn_id == old(self).txn_id,
    {
        proof {
            use_type_invariant(&*self);
        }
        if self.yielded < self.entries.len() {
            let (k, bk) = self.entries[self.yielded];
            let ghost n = self.yielded as int;
            self.yielded = self.yielded + 1;
            assert(self.entries@.skip(n).skip(1) =~= self.entries@.skip(n + 1));
            Some((k, bk))
        } else {
            None
        }
    }
}

impl<'a, D: IndexDesc> IndexIterator<'a, D, KeysAndValues> {
    /// The next index key, with the row that it identifies.
    pub fn next(&mut self) -> (r: Option<(&'a D::Key, &'a D::BaseKey, &'a D::Row)>)
        ensures
            r is Some <==> old(self).left().len() > 0,
            r is None ==> *final(self) == *old(self),
            r matches Some((k, bk, v)) ==> {
                &&& (k, bk) == old(self).left()[0]
                &&& old(self).rows().contains_key(*bk)
                &&& *v == old(self).rows()[*bk]
                &&& final(self).left() == old(self).left().skip(1)
            },
            final(self).rows() == old(self).rows(),
    {
        proof {
            use_type_invariant(&*self);
        }
        match self.next_entry() {
            Some((k, bk)) => match self.base.get(bk, self.txn_id) {
                Some(value) => Some((k, bk, value)),
                None => None,
            },
            None => None,
        }
    }
}

impl<'a, D: IndexDesc> IndexIterator<'a, D, Keys> {
    /// The next index key.
    pub fn next(&mut self) -> (r: Option<&'a D::Key>)
        ensures
            r is Some <==> old(self).left().len() > 0,
            r is None ==> *final(self) == *old(self),
            r matches Some(key) ==> key == old(self).left()[0].0 && final(self).left() == old(
                self,
            ).left().skip(1),
            final(self).rows() == old(self).rows(),
    {
        match self.next_entry() {
            Some((k, _)) => Some(k),
            None => None,
        }
    }
}

/// The number of items which were taken from an iterator that had `before` items left and has
/// `after` items left.
pub open spec fn taken(before: nat, after: nat) -> nat {
    if after <= before {
        (before - after) as nat
    } else {
        0
    }
}

/// An iterator over the rows of a table with mutable access to the values.
///
/// Only the rows which are taken from it are changed.
#[verifier::reject_recursive_types(D)]
pub struct TableIterMut<'a, D: TableDesc> {
    /// The rows which are still to be yielded, the next one last.
    rows: Vec<(&'a D::Key, &'a mut D::Value)>,
}

impl<'a, D: TableDesc> TableIterMut<'a, D> {
    /// The rows which are still to be yielded.
    pub closed spec fn left(&self) -> Seq<(&'a D::Key, &'a mut D::Value)> {
        self.rows@.reverse()
    }

    /// Iterate over `rows`.
    pub fn new(rows: Vec<(&'a D::Key, &'a mut D::Value)>) -> (r: Self)
        ensures
            r.left() == rows@,
    {
        let ghost all = rows@;
        let r = TableIterMut { rows: reversed(rows) };
        assert(r.left() =~= all);
        r
    }

    /// The number of rows which are still to be yielded.
    pub fn remaining(&self) -> (r: usize)
        ensures
            r == self.left().len(),
    {
        self.rows.len()
    }

    /// The next key, with mutable access to its value.
    pub fn next(&mut self) -> (r: Option<(&'a D::Key, &'a mut D::Value)>)
        ensures
            r is Some <==> old(self).left().len() > 0,
            r is None ==> final(self).left() == old(self).left(),
            r matches Some(row) ==> row == old(self).left()[0] && final(self).left() == old(
                self,
            ).left().skip(1),
    {
        let ghost all = self.rows@;
        let r = self.rows.pop();
        assert(r is Some ==> self.rows@.reverse() =~= all.reverse().skip(1));
        r
    }
}

/// An iterator over the rows of a table which have an entry in the index `D`, with mutable access
/// to the values.
///
/// Only the rows which are taken from it are changed.
#[verifier::reject_recursive_types(D)]
pub struct IndexIterMut<'a, D: IndexDesc> {
    /// The rows which are still to be yielded, the next one last.
    rows: Vec<(&'a D::Key, &'a D::BaseKey, &'a mut D::Row)>,
}

impl<'a, D: IndexDesc> IndexIterMut<'a, D> {
    /// The rows which are still to be yielded.
    pub closed spec fn left(&self) -> Seq<(&'a D::Key, &'a D::BaseKey, &'a mut D::Row)> {
        self.rows@.reverse()
    }

    /// Iterate over `rows`.
    pub fn new(rows: Vec<(&'a D::Key, &'a D::BaseKey, &'a mut D::Row)>) -> (r: Self)
        ensures
            r.left() == rows@,
    {
        let ghost all = rows@;
        let r = IndexIterMut { rows: reversed(rows) };
        assert(r.left() =~= all);
        r
    }

    /// The number of rows which are still to be yielded.
    pub fn remaining(&self) -> (r: usize)
        ensures
            r == self.left().len(),
    {
        self.rows.len()
    }

    /// The next index key, with the key of the row that it identifies and mutable access to its
    /// value.
    pub fn next(&mut self) -> (r: Option<(&'a D::Key, &'a D::BaseKey, &'a mut D::Row)>)
        ensures
            r is Some <==> old(self).left().len() > 0,
            r is None ==> final(self).left() == old(self).left(),
            r matches Some(row) ==> row == old(self).left()[0] && final(self).left() == old(
                self,
            ).left().skip(1),
    {
        let ghost all = self.rows@;
        let r = self.rows.pop();
        assert(r is Some ==> self.rows@.reverse() =~= all.reverse().skip(1));
        r
    }
}

/// The items in reverse order.
fn reversed<A>(items: Vec<A>) -> (r: Vec<A>)
    ensures
        r@ == items@.reverse(),
{
    let ghost all = items@;
    let mut items = items;
    let mut r: Vec<A> = Vec::new();
    while items.len() > 0
        invariant
            items@.len() <= all.len(),
            items@ == all.take(items@.len() as int),
            r@ == all.skip(items@.len() as int).reverse(),
        decreases items.len(),
    {
        let ghost m = items@.len() - 1;
        if let Some(item) = items.pop() {
            r.push(item);
            assert(items@ =~= all.take(m));
            assert(r@ =~= all.skip(m).reverse());
        }
    }
    assert(all.skip(0) =~= all);
    r
}

} // verus!
