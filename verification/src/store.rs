//! The entity store: one table of rows for each entity family, with the
//! scope of each row and the links from a row to its parents.

use crate::error::Error;
use crate::find::{first_where, lemma_first_found, lemma_first_is_first, lemma_first_missing};
use crate::store::filter::{holds, Column, Filter, FilterView, LiteralView, Op};
use crate::store::row::{
    applied, changes, check_conforms, conforms, dirty, merge_cells, rows, NewRow, NewRowView, Row,
    RowView, Update, UpdateView,
};
use crate::store::schema::{Family, FAMILIES};
use vstd::prelude::*;

pub mod filter;
pub mod laws;
pub mod parse;
pub mod row;
pub mod schema;

verus! {

/// The rows of one family.
#[derive(Clone, PartialEq, Eq, Debug)]
pub struct Table {
    rows: Vec<Row>,
    next_id: i32,
}

/// The store: a table for each family.
#[derive(Clone, PartialEq, Eq, Debug)]
pub struct Database {
    tables: Vec<Table>,
}

/// The mathematical value of a [`Table`].
pub struct TableView {
    pub rows: Seq<RowView>,
    /// The id that the next new row gets.
    pub next_id: i32,
}

/// The mathematical value of a [`Database`].
pub struct DatabaseView {
    pub tables: Seq<TableView>,
}

impl View for Table {
    type V = TableView;

    closed spec fn view(&self) -> TableView {
        TableView { rows: rows(self.rows@), next_id: self.next_id }
    }
}

impl View for Database {
    type V = DatabaseView;

    closed spec fn view(&self) -> DatabaseView {
        DatabaseView { tables: self.tables@.map_values(|t: Table| t@) }
    }
}

/// The filter that holds of the row with the id `id`.
pub open spec fn id_is(id: i32) -> FilterView {
    FilterView::Cmp(Column::Id, Op::Eq, LiteralView::Int(id as i64))
}

/// The filter that holds of the rows whose parent at place `p` has the id `id`.
pub open spec fn parent_is(p: usize, id: i32) -> FilterView {
    FilterView::Cmp(Column::Parent(p), Op::Eq, LiteralView::Int(id as i64))
}

/// The filter that holds of the rows that are in scope.
pub open spec fn in_scope() -> FilterView {
    FilterView::Cmp(Column::Unscoped, Op::Eq, LiteralView::Int(0))
}

impl TableView {
    /// The place of the row with the id `id`.
    pub open spec fn by_id(self, id: i32) -> Option<int> {
        first_where(self.rows, |r: RowView| r.id == id)
    }

    /// The place of the row with the value `value`.
    pub open spec fn by_value(self, value: Seq<char>) -> Option<int> {
        first_where(self.rows, |r: RowView| r.value == value)
    }

    /// Whether a row has the id `id`.
    pub open spec fn has_id(self, id: i32) -> bool {
        exists|j: int| 0 <= j < self.rows.len() && (#[trigger] self.rows[j]).id == id
    }

    /// The invariant of a table of the family `f`: ids are positive, below
    /// the next id, and occur once; a value occurs once; every row has the
    /// attributes and the number of parents of its family.
    pub open spec fn ok(self, f: Family) -> bool {
        &&& 1 <= self.next_id
        &&& forall|i: int|
            0 <= i < self.rows.len() ==> 1 <= (#[trigger] self.rows[i]).id < self.next_id
        &&& forall|i: int, j: int|
            0 <= i < j < self.rows.len() ==> (#[trigger] self.rows[i]).id != (
            #[trigger] self.rows[j]).id && self.rows[i].value != self.rows[j].value
        &&& forall|i: int|
            0 <= i < self.rows.len() ==> conforms((#[trigger] self.rows[i]).attrs, f.kinds())
                && self.rows[i].parents.len() == f.parent_families().len()
    }
}

impl DatabaseView {
    /// The table of a family.
    pub open spec fn table(self, f: Family) -> TableView {
        self.tables[f.place()]
    }

    /// The store with another table for the family `f`.
    pub open spec fn with_table(self, f: Family, t: TableView) -> DatabaseView {
        DatabaseView { tables: self.tables.update(f.place(), t) }
    }

    /// Whether the store holds each of the parents that `parents` names for
    /// a row of the family `f`.
    pub open spec fn parents_present(self, f: Family, parents: Seq<i32>) -> bool {
        forall|p: int|
            0 <= p < f.parent_families().len() && p < parents.len() ==> self.table(
                f.parent_families()[p],
            ).has_id(#[trigger] parents[p])
    }

    /// Whether every row of the family `f` has its parents in the store.
    pub open spec fn linked(self, f: Family) -> bool {
        forall|i: int|
            0 <= i < self.table(f).rows.len() ==> self.parents_present(
                f,
                (#[trigger] self.table(f).rows[i]).parents,
            )
    }

    /// The invariant of the store: it has a table for each family, each
    /// table meets its own invariant, and every row has its parents.
    pub open spec fn wf(self) -> bool {
        &&& self.tables.len() == FAMILIES
        &&& forall|k: int|
            0 <= k < FAMILIES ==> (#[trigger] self.tables[k]).ok(Family::at(k)) && self.linked(
                Family::at(k),
            )
    }

    /// The rows of the family `f` that match `filter`, in the order of the
    /// table.
    pub open spec fn selected(self, f: Family, filter: FilterView) -> Seq<RowView> {
        self.table(f).rows.filter(|r: RowView| holds(filter, r))
    }

    /// The row of the family `f` with the id `id`, or `NotFound`.
    pub open spec fn row_by_id(self, f: Family, id: i32) -> Result<RowView, Error> {
        match self.table(f).by_id(id) {
            Some(i) => Ok(self.table(f).rows[i]),
            None => Err(Error::NotFound),
        }
    }

    /// The row of the family `f` with the value `value`, if there is one.
    pub open spec fn row_by_value(self, f: Family, value: Seq<char>) -> Option<RowView> {
        match self.table(f).by_value(value) {
            Some(i) => Some(self.table(f).rows[i]),
            None => None,
        }
    }

    /// The store after `new` was inserted into the family `f`, with the id
    /// of the row. Where the value is there already, its id is returned and
    /// nothing changes. Else `StorageError` where the record has not the
    /// attributes or the number of parents of the family, `NotFound` where
    /// one of its parents is missing, and `StorageError` where the ids are
    /// used up. Else the row is added, in scope, with the next id.
    pub open spec fn inserted(self, f: Family, new: NewRowView) -> Result<
        (i32, DatabaseView),
        Error,
    > {
        let t = self.table(f);
        match t.by_value(new.value) {
            Some(i) => Ok((t.rows[i].id, self)),
            None => if !conforms(new.attrs, f.kinds()) || new.parents.len()
                != f.parent_families().len() {
                Err(Error::StorageError)
            } else if !self.parents_present(f, new.parents) {
                Err(Error::NotFound)
            } else if t.next_id == i32::MAX {
                Err(Error::StorageError)
            } else {
                Ok(
                    (
                        t.next_id,
                        self.with_table(
                            f,
                            TableView {
                                rows: t.rows.push(
                                    RowView {
                                        id: t.next_id,
                                        value: new.value,
                                        unscoped: false,
                                        parents: new.parents,
                                        attrs: new.attrs,
                                    },
                                ),
                                next_id: (t.next_id + 1) as i32,
                            },
                        ),
                    ),
                )
            },
        }
    }

    /// The store after `update` was applied to the family `f`, with the id
    /// of the row. `NotFound` where no row has the id; `StorageError` where
    /// the update has not the attributes of the family. Else each attribute
    /// that the update names takes its value.
    pub open spec fn updated(self, f: Family, update: UpdateView) -> Result<
        (i32, DatabaseView),
        Error,
    > {
        let t = self.table(f);
        match t.by_id(update.id) {
            None => Err(Error::NotFound),
            Some(i) => if !conforms(update.attrs, f.kinds()) {
                Err(Error::StorageError)
            } else {
                Ok(
                    (
                        update.id,
                        self.with_table(
                            f,
                            TableView {
                                rows: t.rows.update(
                                    i,
                                    RowView {
                                        attrs: applied(t.rows[i].attrs, update.attrs),
                                        ..t.rows[i]
                                    },
                                ),
                                ..t
                            },
                        ),
                    ),
                )
            },
        }
    }

    /// The update that an upsert of `new` makes to the row at place `i` of
    /// the family `f`.
    pub open spec fn merge(self, f: Family, i: int, new: NewRowView) -> UpdateView {
        let row = self.table(f).rows[i];
        UpdateView { id: row.id, attrs: changes(new.attrs, row.attrs) }
    }

    /// The store after an upsert of `new` into the family `f`, with the id
    /// of the row. Where the value is not there yet, this is an insert. Else
    /// the update that holds the attributes of `new` that differ from the
    /// stored ones is applied, if it holds any.
    pub open spec fn upserted(self, f: Family, new: NewRowView) -> Result<
        (i32, DatabaseView),
        Error,
    > {
        match self.table(f).by_value(new.value) {
            None => self.inserted(f, new),
            Some(i) => {
                let update = self.merge(f, i, new);
                if dirty(update.attrs) {
                    self.updated(f, update)
                } else {
                    Ok((update.id, self))
                }
            },
        }
    }

    /// The store after the rows of the family `f` that match `filter` got
    /// the scope flag `unscoped`, with the number of those rows.
    pub open spec fn rescoped(self, f: Family, filter: FilterView, unscoped: bool) -> (
        int,
        DatabaseView,
    ) {
        let t = self.table(f);
        (
            t.rows.filter(|r: RowView| holds(filter, r)).len() as int,
            self.with_table(
                f,
                TableView {
                    rows: t.rows.map_values(
                        |r: RowView|
                            if holds(filter, r) {
                                RowView { unscoped, ..r }
                            } else {
                                r
                            },
                    ),
                    ..t
                },
            ),
        )
    }

    /// Replacing the table of a family by one that meets the invariant of a
    /// table, keeps every id, and holds only rows whose parents are in the
    /// store, keeps the invariant of the store.
    pub proof fn lemma_with_table_wf(self, f: Family, t: TableView)
        requires
            self.wf(),
            t.ok(f),
            forall|id: i32| self.table(f).has_id(id) ==> t.has_id(id),
            forall|i: int|
                0 <= i < t.rows.len() ==> self.parents_present(f, (#[trigger] t.rows[i]).parents),
        ensures
            self.with_table(f, t).wf(),
    {
        let next = self.with_table(f, t);
        f.lemma_parents_precede();
        assert forall|k: int| 0 <= k < FAMILIES implies (#[trigger] next.tables[k]).ok(
            Family::at(k),
        ) && next.linked(Family::at(k)) by {
            let g = Family::at(k);
            g.lemma_parents_precede();
            assert(g.place() == k);
            assert(self.tables[k].ok(g) && self.linked(g));
            assert forall|i: int| 0 <= i < next.table(g).rows.len() implies next.parents_present(
                g,
                (#[trigger] next.table(g).rows[i]).parents,
            ) by {
                let row = next.table(g).rows[i];
                assert(self.parents_present(g, row.parents)) by {
                    if k != f.place() {
                        assert(next.table(g) == self.table(g));
                        assert(self.table(g).rows[i] == row);
                    }
                }
                assert forall|p: int|
                    0 <= p < g.parent_families().len() && p < row.parents.len() implies next.table(
                    g.parent_families()[p],
                ).has_id(#[trigger] row.parents[p]) by {
                    let h = g.parent_families()[p];
                    assert(self.table(h).has_id(row.parents[p]));
                    h.lemma_parents_precede();
                    if h.place() == f.place() {
                        assert(h == f);
                    } else {
                        assert(next.table(h) == self.table(h));
                    }
                }
            }
        }
    }

    /// The store after the row `row`, as it was stored before, was put back
    /// into the family `f`. `StorageError` where the row has not a positive
    /// id below the greatest, or not the attributes or the number of
    /// parents of the family; else `AlreadyExists` where its id or its
    /// value is there already; else `NotFound` where one of its parents is
    /// missing. Else the row is added as it is, and the next id is moved
    /// behind its id.
    pub open spec fn restored(self, f: Family, row: RowView) -> Result<DatabaseView, Error> {
        let t = self.table(f);
        if row.id < 1 || row.id == i32::MAX || !conforms(row.attrs, f.kinds())
            || row.parents.len() != f.parent_families().len() {
            Err(Error::StorageError)
        } else if t.has_id(row.id) || t.by_value(row.value) is Some {
            Err(Error::AlreadyExists)
        } else if !self.parents_present(f, row.parents) {
            Err(Error::NotFound)
        } else {
            Ok(
                self.with_table(
                    f,
                    TableView {
                        rows: t.rows.push(row),
                        next_id: if t.next_id > row.id {
                            t.next_id
                        } else {
                            (row.id + 1) as i32
                        },
                    },
                ),
            )
        }
    }

    /// Putting a row back keeps the invariant of the store.
    pub proof fn lemma_restored_wf(self, f: Family, row: RowView)
        requires
            self.wf(),
        ensures
            self.restored(f, row) matches Ok(next) ==> next.wf(),
    {
        f.lemma_parents_precede();
        if let Ok(next) = self.restored(f, row) {
            let t = self.table(f);
            let u = next.table(f);
            assert(t.ok(f));
            assert(self.linked(f));
            lemma_first_is_first(t.rows, |r: RowView| r.value == row.value);
            assert(u.rows == t.rows.push(row));
            assert forall|id: i32| t.has_id(id) implies u.has_id(id) by {
                let j = choose|j: int| 0 <= j < t.rows.len() && (#[trigger] t.rows[j]).id == id;
                assert(u.rows[j].id == id);
            }
            assert forall|i: int| 0 <= i < u.rows.len() implies self.parents_present(
                f,
                (#[trigger] u.rows[i]).parents,
            ) by {
                if i < t.rows.len() {
                    assert(u.rows[i] == t.rows[i]);
                }
            }
            assert(u.ok(f)) by {
                assert forall|i: int| 0 <= i < u.rows.len() implies 1 <= (
                #[trigger] u.rows[i]).id < u.next_id by {
                    if i < t.rows.len() {
                        assert(u.rows[i] == t.rows[i]);
                    }
                }
                assert forall|i: int, j: int| 0 <= i < j < u.rows.len() implies (
                #[trigger] u.rows[i]).id != (#[trigger] u.rows[j]).id && u.rows[i].value
                    != u.rows[j].value by {
                    assert(u.rows[i] == t.rows[i]);
                    if j < t.rows.len() {
                        assert(u.rows[j] == t.rows[j]);
                    }
                }
                assert forall|i: int| 0 <= i < u.rows.len() implies conforms(
                    (#[trigger] u.rows[i]).attrs,
                    f.kinds(),
                ) && u.rows[i].parents.len() == f.parent_families().len() by {
                    if i < t.rows.len() {
                        assert(u.rows[i] == t.rows[i]);
                    }
                }
            }
            self.lemma_with_table_wf(f, u);
            assert(next =~= self.with_table(f, u));
        }
    }

    /// An insert keeps the invariant of the store.
    pub proof fn lemma_inserted_wf(self, f: Family, new: NewRowView)
        requires
            self.wf(),
        ensures
            self.inserted(f, new) matches Ok(next) ==> next.1.wf(),
    {
        f.lemma_parents_precede();
        if let Ok((id, next)) = self.inserted(f, new) {
            let t = self.table(f);
            assert(t.ok(f));
            if t.by_value(new.value) is None {
                let u = next.table(f);
                lemma_first_is_first(t.rows, |r: RowView| r.value == new.value);
                assert(u.rows == t.rows.push(u.rows.last()));
                assert forall|id: i32| t.has_id(id) implies u.has_id(id) by {
                    let j = choose|j: int| 0 <= j < t.rows.len() && (#[trigger] t.rows[j]).id == id;
                    assert(u.rows[j].id == id);
                }
                assert forall|i: int| 0 <= i < u.rows.len() implies self.parents_present(
                    f,
                    (#[trigger] u.rows[i]).parents,
                ) by {
                    if i < t.rows.len() {
                        assert(self.linked(f));
                        assert(u.rows[i] == t.rows[i]);
                    }
                }
                assert(u.ok(f)) by {
                    assert forall|i: int| 0 <= i < u.rows.len() implies 1 <= (
                    #[trigger] u.rows[i]).id < u.next_id by {
                        if i < t.rows.len() {
                            assert(u.rows[i] == t.rows[i]);
                        }
                    }
                    assert forall|i: int, j: int| 0 <= i < j < u.rows.len() implies (
                    #[trigger] u.rows[i]).id != (#[trigger] u.rows[j]).id && u.rows[i].value
                        != u.rows[j].value by {
                        assert(u.rows[i] == t.rows[i]);
                        if j < t.rows.len() {
                            assert(u.rows[j] == t.rows[j]);
                        }
                    }
                    assert forall|i: int| 0 <= i < u.rows.len() implies conforms(
                        (#[trigger] u.rows[i]).attrs,
                        f.kinds(),
                    ) && u.rows[i].parents.len() == f.parent_families().len() by {
                        if i < t.rows.len() {
                            assert(u.rows[i] == t.rows[i]);
                        }
                    }
                }
                self.lemma_with_table_wf(f, u);
                assert(next =~= self.with_table(f, u));
            }
        }
    }

    /// An update keeps the invariant of the store.
    pub proof fn lemma_updated_wf(self, f: Family, update: UpdateView)
        requires
            self.wf(),
        ensures
            self.updated(f, update) matches Ok(next) ==> next.1.wf(),
    {
        f.lemma_parents_precede();
        if let Ok((id, next)) = self.updated(f, update) {
            let t = self.table(f);
            let u = next.table(f);
            let at = t.by_id(update.id)->0;
            lemma_first_is_first(t.rows, |r: RowView| r.id == update.id);
            assert(t.ok(f));
            assert(self.linked(f));
            assert forall|i: int| 0 <= i < u.rows.len() implies (#[trigger] u.rows[i]).id
                == t.rows[i].id && u.rows[i].value == t.rows[i].value && u.rows[i].parents
                == t.rows[i].parents && u.rows[i].unscoped == t.rows[i].unscoped by {}
            assert forall|id: i32| t.has_id(id) implies u.has_id(id) by {
                let j = choose|j: int| 0 <= j < t.rows.len() && (#[trigger] t.rows[j]).id == id;
                assert(u.rows[j].id == id);
            }
            assert forall|i: int| 0 <= i < u.rows.len() implies conforms(
                (#[trigger] u.rows[i]).attrs,
                f.kinds(),
            ) by {
                if i != at {
                    assert(u.rows[i] == t.rows[i]);
                }
            }
            assert(u.ok(f));
            self.lemma_with_table_wf(f, u);
            assert(next =~= self.with_table(f, u));
        }
    }

    /// An upsert keeps the invariant of the store.
    pub proof fn lemma_upserted_wf(self, f: Family, new: NewRowView)
        requires
            self.wf(),
        ensures
            self.upserted(f, new) matches Ok(next) ==> next.1.wf(),
    {
        self.lemma_inserted_wf(f, new);
        if let Some(i) = self.table(f).by_value(new.value) {
            self.lemma_updated_wf(f, self.merge(f, i, new));
        }
    }

    /// A change of scope keeps the invariant of the store.
    pub proof fn lemma_rescoped_wf(self, f: Family, filter: FilterView, unscoped: bool)
        requires
            self.wf(),
        ensures
            self.rescoped(f, filter, unscoped).1.wf(),
    {
        f.lemma_parents_precede();
        let next = self.rescoped(f, filter, unscoped).1;
        let t = self.table(f);
        let u = next.table(f);
        assert(t.ok(f));
        assert(self.linked(f));
        assert forall|i: int| 0 <= i < u.rows.len() implies (#[trigger] u.rows[i]).id
            == t.rows[i].id && u.rows[i].value == t.rows[i].value && u.rows[i].parents
            == t.rows[i].parents && u.rows[i].attrs == t.rows[i].attrs by {}
        assert forall|id: i32| t.has_id(id) implies u.has_id(id) by {
            let j = choose|j: int| 0 <= j < t.rows.len() && (#[trigger] t.rows[j]).id == id;
            assert(u.rows[j].id == id);
        }
        assert(u.ok(f));
        self.lemma_with_table_wf(f, u);
        assert(next =~= self.with_table(f, u));
    }

    /// The store in which the family `f` has lost the rows whose parents
    /// are missing.
    pub open spec fn pruned(self, f: Family) -> DatabaseView {
        let t = self.table(f);
        self.with_table(
            f,
            TableView {
                rows: t.rows.filter(|r: RowView| self.parents_present(f, r.parents)),
                ..t
            },
        )
    }

    /// The store in which the first `upto` families, one after the other,
    /// have lost the rows whose parents are missing. As every family stands
    /// behind the families of its parents, a row is lost exactly if one of
    /// its ancestors is.
    pub open spec fn swept(self, upto: int) -> DatabaseView
        decreases upto,
    {
        if upto <= 0 {
            self
        } else {
            self.swept(upto - 1).pruned(Family::at(upto - 1))
        }
    }

    /// The store after the rows of the family `f` that match `filter` were
    /// deleted, with their number. The deletion cascades: the rows that
    /// descend from a deleted row are deleted with it.
    pub open spec fn deleted(self, f: Family, filter: FilterView) -> (int, DatabaseView) {
        let t = self.table(f);
        let kept = t.rows.filter(|r: RowView| !holds(filter, r));
        (
            t.rows.len() - kept.len(),
            self.with_table(f, TableView { rows: kept, ..t }).swept(FAMILIES as int),
        )
    }

    /// The part of the invariant that holds while a deletion cascades: each
    /// table meets its own invariant, and the rows of the first `upto`
    /// families have their parents.
    pub open spec fn wf_upto(self, upto: int) -> bool {
        &&& self.tables.len() == FAMILIES
        &&& forall|k: int| 0 <= k < FAMILIES ==> (#[trigger] self.tables[k]).ok(Family::at(k))
        &&& forall|k: int| 0 <= k < upto && k < FAMILIES ==> self.linked(#[trigger] Family::at(k))
    }

    /// Every table of `self` holds only rows of the same table of `other`,
    /// and gives the next row the same id.
    pub open spec fn within(self, other: DatabaseView) -> bool {
        &&& self.tables.len() == other.tables.len()
        &&& forall|k: int, i: int|
            0 <= k < self.tables.len() && 0 <= i < self.tables[k].rows.len()
                ==> other.tables[k].rows.contains(#[trigger] self.tables[k].rows[i])
        &&& forall|k: int|
            0 <= k < self.tables.len() ==> (#[trigger] self.tables[k]).next_id
                == other.tables[k].next_id
    }

    /// Pruning one more family extends the invariant by that family.
    pub proof fn lemma_pruned(self, k: int)
        requires
            0 <= k < FAMILIES,
            self.wf_upto(k),
        ensures
            self.pruned(Family::at(k)).wf_upto(k + 1),
            self.pruned(Family::at(k)).within(self),
    {
        let f = Family::at(k);
        f.lemma_parents_precede();
        let next = self.pruned(f);
        let t = self.table(f);
        let keep = |r: RowView| self.parents_present(f, r.parents);
        lemma_filter_rows(t.rows, keep);
        assert(self.tables[k].ok(f));
        assert forall|j: int| 0 <= j < FAMILIES implies (#[trigger] next.tables[j]).ok(
            Family::at(j),
        ) by {
            if j != k {
                assert(next.tables[j] == self.tables[j]);
            }
        }
        assert forall|j: int| 0 <= j < k + 1 && j < FAMILIES implies next.linked(
            #[trigger] Family::at(j),
        ) by {
            let g = Family::at(j);
            g.lemma_parents_precede();
            assert forall|i: int| 0 <= i < next.table(g).rows.len() implies next.parents_present(
                g,
                (#[trigger] next.table(g).rows[i]).parents,
            ) by {
                let row = next.table(g).rows[i];
                if j == k {
                    assert(keep(row));
                } else {
                    assert(self.linked(g));
                    assert(next.table(g) == self.table(g));
                }
                assert(self.parents_present(g, row.parents));
                assert forall|p: int|
                    0 <= p < g.parent_families().len() && p < row.parents.len() implies next.table(
                    g.parent_families()[p],
                ).has_id(#[trigger] row.parents[p]) by {
                    let h = g.parent_families()[p];
                    assert(h.place() < k);
                    assert(next.table(h) == self.table(h));
                }
            }
        }
        assert forall|j: int, i: int|
            0 <= j < next.tables.len() && 0 <= i < next.tables[j].rows.len()
                implies self.tables[j].rows.contains(#[trigger] next.tables[j].rows[i]) by {
            if j != k {
                assert(next.tables[j] == self.tables[j]);
            }
        }
    }

    /// A sweep over the first `upto` families establishes the invariant for
    /// them, and only removes rows.
    pub proof fn lemma_swept(self, upto: int)
        requires
            0 <= upto <= FAMILIES,
            self.wf_upto(0),
        ensures
            self.swept(upto).wf_upto(upto),
            self.swept(upto).within(self),
        decreases upto,
    {
        if upto > 0 {
            self.lemma_swept(upto - 1);
            let mid = self.swept(upto - 1);
            mid.lemma_pruned(upto - 1);
            let next = self.swept(upto);
            assert forall|k: int, i: int|
                0 <= k < next.tables.len() && 0 <= i < next.tables[k].rows.len()
                    implies self.tables[k].rows.contains(#[trigger] next.tables[k].rows[i]) by {
                let row = next.tables[k].rows[i];
                assert(mid.tables[k].rows.contains(row));
                let j = choose|j: int| 0 <= j < mid.tables[k].rows.len() && mid.tables[k].rows[j]
                    == row;
                assert(self.tables[k].rows.contains(mid.tables[k].rows[j]));
            }
        }
    }

    /// A deletion keeps the invariant of the store, and only removes rows:
    /// from the family none but those that do not match the filter stay.
    pub proof fn lemma_deleted_wf(self, f: Family, filter: FilterView)
        requires
            self.wf(),
        ensures
            self.deleted(f, filter).1.wf(),
            self.deleted(f, filter).1.within(self),
            0 <= self.deleted(f, filter).0 <= self.table(f).rows.len(),
            forall|i: int|
                0 <= i < self.deleted(f, filter).1.table(f).rows.len() ==> !holds(
                    filter,
                    #[trigger] self.deleted(f, filter).1.table(f).rows[i],
                ),
    {
        f.lemma_parents_precede();
        let t = self.table(f);
        let keep = |r: RowView| !holds(filter, r);
        lemma_filter_rows(t.rows, keep);
        let start = self.with_table(f, TableView { rows: t.rows.filter(keep), ..t });
        assert(t.ok(f));
        assert forall|k: int| 0 <= k < FAMILIES implies (#[trigger] start.tables[k]).ok(
            Family::at(k),
        ) by {
            if k != f.place() {
                assert(start.tables[k] == self.tables[k]);
                assert(self.tables[k].ok(Family::at(k)));
            }
        }
        start.lemma_swept(FAMILIES as int);
        let next = start.swept(FAMILIES as int);
        assert forall|k: int| 0 <= k < FAMILIES implies (#[trigger] next.tables[k]).ok(
            Family::at(k),
        ) && next.linked(Family::at(k)) by {}
        assert forall|k: int, i: int|
            0 <= k < next.tables.len() && 0 <= i < next.tables[k].rows.len()
                implies self.tables[k].rows.contains(#[trigger] next.tables[k].rows[i]) by {
            let row = next.tables[k].rows[i];
            assert(start.tables[k].rows.contains(row));
            if k != f.place() {
                assert(start.tables[k] == self.tables[k]);
            } else {
                let j = choose|j: int| 0 <= j < start.tables[k].rows.len()
                    && start.tables[k].rows[j] == row;
                assert(keep(start.tables[k].rows[j]));
            }
        }
        assert forall|i: int| 0 <= i < next.table(f).rows.len() implies !holds(
            filter,
            #[trigger] next.table(f).rows[i],
        ) by {
            let row = next.table(f).rows[i];
            assert(start.tables[f.place()].rows.contains(row));
            let j = choose|j: int| 0 <= j < start.table(f).rows.len() && start.table(f).rows[j]
                == row;
            assert(keep(start.table(f).rows[j]));
        }
    }
}

/// No two rows have the same id or the same value.
pub open spec fn distinct(s: Seq<RowView>) -> bool {
    forall|i: int, j: int|
        0 <= i < j < s.len() ==> (#[trigger] s[i]).id != (#[trigger] s[j]).id && s[i].value
            != s[j].value
}

/// What a filter keeps of a list of rows: exactly the rows of which the
/// predicate holds, and no row twice where none was there twice.
pub proof fn lemma_filter_rows(s: Seq<RowView>, p: spec_fn(RowView) -> bool)
    ensures
        s.filter(p).len() <= s.len(),
        forall|j: int|
            0 <= j < s.filter(p).len() ==> p(#[trigger] s.filter(p)[j]) && s.contains(
                s.filter(p)[j],
            ),
        forall|i: int| 0 <= i < s.len() && p(#[trigger] s[i]) ==> s.filter(p).contains(s[i]),
        distinct(s) ==> distinct(s.filter(p)),
    decreases s.len(),
{
    if s.len() == 0 {
        Seq::lemma_filter_len(s, p);
    } else {
        let head = s.drop_last();
        let x = s.last();
        lemma_filter_rows(head, p);
        assert(s =~= head.push(x));
        Seq::lemma_filter_push(head, x, p);
        let t0 = head.filter(p);
        let t = s.filter(p);
        assert forall|j: int| 0 <= j < t.len() implies p(#[trigger] t[j]) && s.contains(t[j]) by {
            if j < t0.len() {
                assert(t[j] == t0[j]);
                assert(head.contains(t0[j]));
                let i = choose|i: int| 0 <= i < head.len() && head[i] == t0[j];
                assert(s[i] == t[j]);
            } else {
                assert(t[j] == x);
                assert(s[s.len() - 1] == x);
            }
        }
        assert forall|i: int| 0 <= i < s.len() && p(#[trigger] s[i]) implies t.contains(s[i]) by {
            if i < head.len() {
                assert(head[i] == s[i]);
                assert(t0.contains(head[i]));
                let j = choose|j: int| 0 <= j < t0.len() && t0[j] == head[i];
                assert(t[j] == s[i]);
            } else {
                assert(t[t.len() - 1] == x);
            }
        }
        if distinct(s) {
            assert(distinct(head)) by {
                assert forall|i: int, j: int| 0 <= i < j < head.len() implies (
                #[trigger] head[i]).id != (#[trigger] head[j]).id && head[i].value
                    != head[j].value by {
                    assert(head[i] == s[i] && head[j] == s[j]);
                }
            }
            assert forall|i: int, j: int| 0 <= i < j < t.len() implies (#[trigger] t[i]).id != (
            #[trigger] t[j]).id && t[i].value != t[j].value by {
                assert(t[i] == t0[i]);
                if j < t0.len() {
                    assert(t[j] == t0[j]);
                } else {
                    assert(t[j] == x);
                    assert(head.contains(t0[i]));
                    let a = choose|a: int| 0 <= a < head.len() && head[a] == t0[i];
                    assert(s[a] == t0[i] && s[s.len() - 1] == x);
                }
            }
        }
    }
}

impl Table {
    fn by_id(&self, id: i32) -> (r: Option<usize>)
        ensures
            match r {
                Some(i) => self@.by_id(id) == Some(i as int) && i < self.rows.len()
                    && self@.rows[i as int].id == id && self@.has_id(id),
                None => self@.by_id(id) is None && !self@.has_id(id),
            },
    {
        let ghost p = |r: RowView| r.id == id;
        let mut i: usize = 0;
        while i < self.rows.len()
            invariant
                i <= self.rows.len(),
                p == |r: RowView| r.id == id,
                forall|j: int| 0 <= j < i ==> !p(#[trigger] self@.rows[j]),
            decreases self.rows.len() - i,
        {
            assert(self@.rows[i as int] == self.rows@[i as int]@);
            if self.rows[i].id == id {
                proof {
                    lemma_first_found(self@.rows, p, i as int);
                }
                return Some(i);
            }
            i += 1;
        }
        proof {
            lemma_first_missing(self@.rows, p);
        }
        None
    }

    fn by_value(&self, value: &String) -> (r: Option<usize>)
        ensures
            match r {
                Some(i) => self@.by_value(value@) == Some(i as int) && i < self.rows.len(),
                None => self@.by_value(value@) is None,
            },
    {
        let ghost p = |r: RowView| r.value == value@;
        let mut i: usize = 0;
        while i < self.rows.len()
            invariant
                i <= self.rows.len(),
                p == |r: RowView| r.value == value@,
                forall|j: int| 0 <= j < i ==> !p(#[trigger] self@.rows[j]),
            decreases self.rows.len() - i,
        {
            assert(self@.rows[i as int] == self.rows@[i as int]@);
            if self.rows[i].value == *value {
                proof {
                    lemma_first_found(self@.rows, p, i as int);
                }
                return Some(i);
            }
            i += 1;
        }
        proof {
            lemma_first_missing(self@.rows, p);
        }
        None
    }

    fn select(&self, filter: &Filter) -> (r: Vec<Row>)
        ensures
            rows(r@) == self@.rows.filter(|r: RowView| holds(filter@, r)),
    {
        let ghost p = |r: RowView| holds(filter@, r);
        let mut out: Vec<Row> = Vec::new();
        let mut i: usize = 0;
        assert(self@.rows.take(0) =~= Seq::<RowView>::empty());
        assert(rows(out@) =~= Seq::<RowView>::empty());
        while i < self.rows.len()
            invariant
                i <= self.rows.len(),
                p == |r: RowView| holds(filter@, r),
                rows(out@) == self@.rows.take(i as int).filter(p),
            decreases self.rows.len() - i,
        {
            let row = &self.rows[i];
            let ghost seen = self@.rows.take(i as int);
            proof {
                assert(self@.rows[i as int] == row@);
                assert(self@.rows.take(i + 1) =~= seen.push(row@));
                Seq::lemma_filter_push(seen, row@, p);
            }
            if filter.matches(row) {
                let ghost prev = out@;
                out.push(row.duplicate());
                assert(rows(out@) =~= rows(prev).push(row@));
            }
            i += 1;
        }
        assert(self@.rows.take(i as int) =~= self@.rows);
        out
    }
}

impl Database {
    /// Whether the store meets its invariant.
    pub open spec fn wf(&self) -> bool {
        self@.wf()
    }

    /// A store without rows.
    pub fn new() -> (r: Database)
        ensures
            r.wf(),
            forall|k: int|
                0 <= k < FAMILIES ==> (#[trigger] r@.tables[k]).rows.len() == 0
                    && r@.tables[k].next_id == 1,
    {
        let mut tables: Vec<Table> = Vec::new();
        let mut k: usize = 0;
        while k < FAMILIES
            invariant
                k <= FAMILIES,
                tables.len() == k,
                forall|j: int|
                    0 <= j < k ==> (#[trigger] tables@[j])@.rows.len() == 0 && tables@[j]@.next_id
                        == 1,
            decreases FAMILIES - k,
        {
            let t = Table { rows: Vec::new(), next_id: 1 };
            assert(t@.rows =~= Seq::<RowView>::empty());
            tables.push(t);
            k += 1;
        }
        let db = Database { tables };
        assert(db@.tables.len() == FAMILIES);
        assert forall|j: int| 0 <= j < FAMILIES implies (#[trigger] db@.tables[j]).rows.len() == 0
            && db@.tables[j].next_id == 1 by {
            assert(db@.tables[j] == db.tables@[j]@);
        }
        db
    }

    /// Every row of the family.
    pub fn list(&self, family: Family) -> (r: Result<Vec<Row>, Error>)
        requires
            self.wf(),
        ensures
            r matches Ok(v) && rows(v@) == self@.table(family).rows,
    {
        let table = &self.tables[family.index()];
        assert(self@.table(family) == table@);
        let mut out: Vec<Row> = Vec::new();
        let mut i: usize = 0;
        assert(rows(out@) =~= table@.rows.take(0));
        while i < table.rows.len()
            invariant
                i <= table.rows.len(),
                rows(out@) == table@.rows.take(i as int),
            decreases table.rows.len() - i,
        {
            let ghost prev = out@;
            out.push(table.rows[i].duplicate());
            assert(rows(out@) =~= rows(prev).push(table.rows@[i as int]@));
            assert(table@.rows.take(i + 1) =~= table@.rows.take(i as int).push(
                table.rows@[i as int]@,
            ));
            i += 1;
        }
        assert(table@.rows.take(i as int) =~= table@.rows);
        Ok(out)
    }

    /// The rows of the family that match the filter, in the order of the table.
    pub fn filter(&self, family: Family, filter: &Filter) -> (r: Result<Vec<Row>, Error>)
        requires
            self.wf(),
        ensures
            r matches Ok(v) && rows(v@) == self@.selected(family, filter@),
    {
        let table = &self.tables[family.index()];
        assert(self@.table(family) == table@);
        Ok(table.select(filter))
    }

    /// The rows of the family that are in scope.
    pub fn default_select(&self, family: Family) -> (r: Result<Vec<Row>, Error>)
        requires
            self.wf(),
        ensures
            r matches Ok(v) && rows(v@) == self@.selected(family, in_scope()),
    {
        self.filter(family, &Filter::in_scope())
    }

    /// The row with the id `id`, or `NotFound`.
    pub fn by_id(&self, family: Family, id: i32) -> (r: Result<Row, Error>)
        requires
            self.wf(),
        ensures
            match self@.row_by_id(family, id) {
                Ok(row) => r matches Ok(found) && found@ == row,
                Err(e) => r == Err::<Row, Error>(e),
            },
    {
        let table = &self.tables[family.index()];
        assert(self@.table(family) == table@);
        match table.by_id(id) {
            Some(i) => {
                assert(table@.rows[i as int] == table.rows@[i as int]@);
                Ok(table.rows[i].duplicate())
            },
            None => Err(Error::NotFound),
        }
    }

    /// The row with the value `value`, if there is one.
    pub fn get_opt(&self, family: Family, value: &str) -> (r: Result<Option<Row>, Error>)
        requires
            self.wf(),
        ensures
            match self@.row_by_value(family, value@) {
                Some(row) => r matches Ok(Some(found)) && found@ == row,
                None => r == Ok::<Option<Row>, Error>(None),
            },
    {
        let table = &self.tables[family.index()];
        assert(self@.table(family) == table@);
        let wanted = value.to_owned();
        match table.by_value(&wanted) {
            Some(i) => {
                assert(table@.rows[i as int] == table.rows@[i as int]@);
                Ok(Some(table.rows[i].duplicate()))
            },
            None => Ok(None),
        }
    }

    /// The row with the value `value`, or `NotFound`.
    pub fn get(&self, family: Family, value: &str) -> (r: Result<Row, Error>)
        requires
            self.wf(),
        ensures
            match self@.row_by_value(family, value@) {
                Some(row) => r matches Ok(found) && found@ == row,
                None => r == Err::<Row, Error>(Error::NotFound),
            },
    {
        match self.get_opt(family, value)? {
            Some(row) => Ok(row),
            None => Err(Error::NotFound),
        }
    }
}

impl Database {
    /// Whether the store holds each of the parents that `parents` names for
    /// a row of the family.
    fn has_parents(&self, family: Family, parents: &Vec<i32>) -> (r: bool)
        requires
            self@.tables.len() == FAMILIES,
        ensures
            r == self@.parents_present(family, parents@),
    {
        let families = family.parents();
        let mut p: usize = 0;
        while p < families.len() && p < parents.len()
            invariant
                self@.tables.len() == FAMILIES,
                families@ == family.parent_families(),
                forall|q: int|
                    0 <= q < p ==> self@.table(family.parent_families()[q]).has_id(
                        #[trigger] parents@[q],
                    ),
            decreases families.len() - p,
        {
            let parent = families[p];
            let table = &self.tables[parent.index()];
            assert(self@.table(parent) == table@);
            if table.by_id(parents[p]).is_none() {
                return false;
            }
            p += 1;
        }
        true
    }

    /// Inserts `new` into the family and returns the id of its row. A value
    /// that is there already keeps its row, whose id is returned. On an
    /// error the store is as before.
    pub fn insert(&mut self, family: Family, new: NewRow) -> (r: Result<i32, Error>)
        requires
            old(self).wf(),
        ensures
            final(self).wf(),
            match old(self)@.inserted(family, new@) {
                Ok((id, next)) => r == Ok::<i32, Error>(id) && final(self)@ == next,
                Err(e) => r == Err::<i32, Error>(e) && final(self)@ == old(self)@,
            },
    {
        proof {
            old(self)@.lemma_inserted_wf(family, new@);
        }
        let k = family.index();
        assert(self@.table(family) == self.tables@[k as int]@);
        if let Some(i) = self.tables[k].by_value(&new.value) {
            return Ok(self.tables[k].rows[i].id);
        }
        let kinds = family.attribute_kinds();
        let parents = family.parents();
        if !check_conforms(&new.attrs, &kinds) || new.parents.len() != parents.len() {
            return Err(Error::StorageError);
        }
        if !self.has_parents(family, &new.parents) {
            return Err(Error::NotFound);
        }
        let id = self.tables[k].next_id;
        if id == i32::MAX {
            return Err(Error::StorageError);
        }
        let row = Row {
            id,
            value: new.value,
            unscoped: false,
            parents: new.parents,
            attrs: new.attrs,
        };
        let ghost before = self.tables@[k as int]@;
        self.tables[k].rows.push(row);
        self.tables[k].next_id = id + 1;
        proof {
            let next = old(self)@.inserted(family, new@)->Ok_0.1;
            assert(self.tables@[k as int]@.rows =~= before.rows.push(row@));
            assert(self@.tables =~= next.tables);
        }
        Ok(id)
    }

    /// Puts back a row as it was stored before, with its id and its scope.
    /// On an error the store is as before.
    pub fn restore(&mut self, family: Family, row: Row) -> (r: Result<(), Error>)
        requires
            old(self).wf(),
        ensures
            final(self).wf(),
            match old(self)@.restored(family, row@) {
                Ok(next) => r is Ok && final(self)@ == next,
                Err(e) => r == Err::<(), Error>(e) && final(self)@ == old(self)@,
            },
    {
        proof {
            old(self)@.lemma_restored_wf(family, row@);
        }
        let k = family.index();
        assert(self@.table(family) == self.tables@[k as int]@);
        let kinds = family.attribute_kinds();
        let parents = family.parents();
        if row.id < 1 || row.id == i32::MAX || !check_conforms(&row.attrs, &kinds)
            || row.parents.len() != parents.len() {
            return Err(Error::StorageError);
        }
        if self.tables[k].by_id(row.id).is_some() || self.tables[k].by_value(&row.value).is_some() {
            return Err(Error::AlreadyExists);
        }
        if !self.has_parents(family, &row.parents) {
            return Err(Error::NotFound);
        }
        let ghost before = self.tables@[k as int]@;
        if self.tables[k].next_id <= row.id {
            self.tables[k].next_id = row.id + 1;
        }
        self.tables[k].rows.push(row);
        proof {
            let next = old(self)@.restored(family, row@)->Ok_0;
            assert(self.tables@[k as int]@.rows =~= before.rows.push(row@));
            assert(self@.tables =~= next.tables);
        }
        Ok(())
    }

    /// Applies `update` to the row of the family with the id of the update
    /// and returns that id. On an error the store is as before.
    pub fn update(&mut self, family: Family, update: &Update) -> (r: Result<i32, Error>)
        requires
            old(self).wf(),
        ensures
            final(self).wf(),
            match old(self)@.updated(family, update@) {
                Ok((id, next)) => r == Ok::<i32, Error>(id) && final(self)@ == next,
                Err(e) => r == Err::<i32, Error>(e) && final(self)@ == old(self)@,
            },
    {
        proof {
            old(self)@.lemma_updated_wf(family, update@);
        }
        let k = family.index();
        assert(self@.table(family) == self.tables@[k as int]@);
        let i = match self.tables[k].by_id(update.id) {
            Some(i) => i,
            None => {
                return Err(Error::NotFound);
            },
        };
        let kinds = family.attribute_kinds();
        if !check_conforms(&update.attrs, &kinds) {
            return Err(Error::StorageError);
        }
        let ghost before = self.tables@[k as int]@;
        assert(before.rows[i as int] == self.tables@[k as int].rows@[i as int]@);
        let merged = merge_cells(&self.tables[k].rows[i].attrs, &update.attrs);
        self.tables[k].rows[i].attrs = merged;
        proof {
            let next = old(self)@.updated(family, update@)->Ok_0.1;
            let now = self.tables@[k as int]@;
            assert forall|j: int| 0 <= j < before.rows.len() implies now.rows[j] == next.table(
                family,
            ).rows[j] by {
                assert(now.rows[j] == self.tables@[k as int].rows@[j]@);
                assert(before.rows[j] == old(self).tables@[k as int].rows@[j]@);
            }
            assert(now.rows =~= next.table(family).rows);
            assert(self@.tables =~= next.tables);
        }
        Ok(update.id)
    }

    /// Inserts `new` into the family, or merges it into the row that has
    /// its value: each attribute of `new` that is known and differs from
    /// the stored one replaces it. Returns the id of the row. On an error
    /// the store is as before.
    pub fn upsert(&mut self, family: Family, new: NewRow) -> (r: Result<i32, Error>)
        requires
            old(self).wf(),
        ensures
            final(self).wf(),
            match old(self)@.upserted(family, new@) {
                Ok((id, next)) => r == Ok::<i32, Error>(id) && final(self)@ == next,
                Err(e) => r == Err::<i32, Error>(e) && final(self)@ == old(self)@,
            },
    {
        proof {
            old(self)@.lemma_upserted_wf(family, new@);
        }
        let k = family.index();
        assert(self@.table(family) == self.tables@[k as int]@);
        match self.tables[k].by_value(&new.value) {
            None => self.insert(family, new),
            Some(i) => {
                assert(self@.table(family).rows[i as int]
                    == self.tables@[k as int].rows@[i as int]@);
                let update = new.upsert(&self.tables[k].rows[i]);
                assert(update@ == self@.merge(family, i as int, new@));
                if update.is_dirty() {
                    self.update(family, &update)
                } else {
                    Ok(update.id)
                }
            },
        }
    }

    fn rescope(&mut self, family: Family, filter: &Filter, unscoped: bool) -> (r: usize)
        requires
            old(self).wf(),
        ensures
            final(self).wf(),
            r == old(self)@.rescoped(family, filter@, unscoped).0,
            final(self)@ == old(self)@.rescoped(family, filter@, unscoped).1,
    {
        proof {
            old(self)@.lemma_rescoped_wf(family, filter@, unscoped);
        }
        let k = family.index();
        let ghost before = self.tables@[k as int]@;
        let ghost p = |r: RowView| holds(filter@, r);
        let ghost change = |r: RowView|
            if holds(filter@, r) {
                RowView { unscoped, ..r }
            } else {
                r
            };
        let n = self.tables[k].rows.len();
        let mut count: usize = 0;
        let mut i: usize = 0;
        assert(before.rows.take(0) =~= Seq::<RowView>::empty());
        while i < n
            invariant
                i <= n,
                k == family.place(),
                k < self.tables.len(),
                self.tables.len() == old(self).tables.len(),
                before == old(self).tables@[k as int]@,
                n == before.rows.len(),
                p == |r: RowView| holds(filter@, r),
                change == |r: RowView|
                    if holds(filter@, r) {
                        RowView { unscoped, ..r }
                    } else {
                        r
                    },
                forall|j: int|
                    0 <= j < self.tables.len() && j != k ==> self.tables@[j] == old(
                        self,
                    ).tables@[j],
                self.tables@[k as int]@.next_id == before.next_id,
                self.tables@[k as int]@.rows.len() == n,
                forall|j: int|
                    0 <= j < i ==> self.tables@[k as int]@.rows[j] == change(before.rows[j]),
                forall|j: int| i <= j < n ==> self.tables@[k as int]@.rows[j] == before.rows[j],
                count == before.rows.take(i as int).filter(p).len(),
                count <= i,
            decreases n - i,
        {
            let ghost prev = self.tables@[k as int]@;
            assert(prev.rows[i as int] == self.tables@[k as int].rows@[i as int]@);
            proof {
                assert(before.rows.take(i + 1) =~= before.rows.take(i as int).push(
                    before.rows[i as int],
                ));
                Seq::lemma_filter_push(before.rows.take(i as int), before.rows[i as int], p);
            }
            if filter.matches(&self.tables[k].rows[i]) {
                self.tables[k].rows[i].unscoped = unscoped;
                count += 1;
                proof {
                    let now = self.tables@[k as int]@;
                    assert(now.rows[i as int] == self.tables@[k as int].rows@[i as int]@);
                    assert forall|j: int| 0 <= j < n && j != i implies now.rows[j]
                        == prev.rows[j] by {
                        assert(now.rows[j] == self.tables@[k as int].rows@[j]@);
                    }
                }
            }
            i += 1;
        }
        proof {
            let next = old(self)@.rescoped(family, filter@, unscoped).1;
            assert(before.rows.take(n as int) =~= before.rows);
            assert(self.tables@[k as int]@.rows =~= next.table(family).rows);
            assert(self@.tables =~= next.tables);
        }
        count
    }

    /// Puts the rows of the family that match the filter in scope and
    /// returns their number.
    pub fn scope(&mut self, family: Family, filter: &Filter) -> (r: Result<usize, Error>)
        requires
            old(self).wf(),
        ensures
            final(self).wf(),
            r matches Ok(n) && n == old(self)@.rescoped(family, filter@, false).0,
            final(self)@ == old(self)@.rescoped(family, filter@, false).1,
    {
        Ok(self.rescope(family, filter, false))
    }

    /// Puts the rows of the family that match the filter out of scope and
    /// returns their number.
    pub fn noscope(&mut self, family: Family, filter: &Filter) -> (r: Result<usize, Error>)
        requires
            old(self).wf(),
        ensures
            final(self).wf(),
            r matches Ok(n) && n == old(self)@.rescoped(family, filter@, true).0,
            final(self)@ == old(self)@.rescoped(family, filter@, true).1,
    {
        Ok(self.rescope(family, filter, true))
    }
}

impl Table {
    /// The rows that do not match the filter.
    fn reject(&self, filter: &Filter) -> (r: Vec<Row>)
        ensures
            rows(r@) == self@.rows.filter(|r: RowView| !holds(filter@, r)),
    {
        let ghost p = |r: RowView| !holds(filter@, r);
        let mut out: Vec<Row> = Vec::new();
        let mut i: usize = 0;
        assert(self@.rows.take(0) =~= Seq::<RowView>::empty());
        assert(rows(out@) =~= Seq::<RowView>::empty());
        while i < self.rows.len()
            invariant
                i <= self.rows.len(),
                p == |r: RowView| !holds(filter@, r),
                rows(out@) == self@.rows.take(i as int).filter(p),
            decreases self.rows.len() - i,
        {
            let row = &self.rows[i];
            let ghost seen = self@.rows.take(i as int);
            proof {
                assert(self@.rows[i as int] == row@);
                assert(self@.rows.take(i + 1) =~= seen.push(row@));
                Seq::lemma_filter_push(seen, row@, p);
            }
            if !filter.matches(row) {
                let ghost prev = out@;
                out.push(row.duplicate());
                assert(rows(out@) =~= rows(prev).push(row@));
            }
            i += 1;
        }
        assert(self@.rows.take(i as int) =~= self@.rows);
        out
    }
}

impl Database {
    /// Removes from the family the rows whose parents are missing.
    fn prune(&mut self, family: Family)
        requires
            old(self)@.tables.len() == FAMILIES,
        ensures
            final(self)@ == old(self)@.pruned(family),
    {
        let k = family.index();
        let ghost before = self@;
        let ghost t = self.tables@[k as int]@;
        let ghost p = |r: RowView| before.parents_present(family, r.parents);
        let mut out: Vec<Row> = Vec::new();
        let n = self.tables[k].rows.len();
        let mut i: usize = 0;
        assert(t.rows.take(0) =~= Seq::<RowView>::empty());
        assert(rows(out@) =~= Seq::<RowView>::empty());
        while i < n
            invariant
                i <= n,
                k == family.place(),
                k < self.tables.len(),
                self@ == before,
                before.tables.len() == FAMILIES,
                t == self.tables@[k as int]@,
                n == t.rows.len(),
                p == |r: RowView| before.parents_present(family, r.parents),
                rows(out@) == t.rows.take(i as int).filter(p),
            decreases n - i,
        {
            let ghost seen = t.rows.take(i as int);
            proof {
                assert(t.rows[i as int] == self.tables@[k as int].rows@[i as int]@);
                assert(t.rows.take(i + 1) =~= seen.push(t.rows[i as int]));
                Seq::lemma_filter_push(seen, t.rows[i as int], p);
            }
            if self.has_parents(family, &self.tables[k].rows[i].parents) {
                let ghost prev = out@;
                out.push(self.tables[k].rows[i].duplicate());
                assert(rows(out@) =~= rows(prev).push(t.rows[i as int]));
            }
            i += 1;
        }
        assert(t.rows.take(n as int) =~= t.rows);
        self.tables[k].rows = out;
        proof {
            assert(before.table(family) == t);
            assert(self@.tables =~= before.pruned(family).tables);
        }
    }

    /// Removes, family after family, the rows whose parents are missing.
    fn sweep(&mut self)
        requires
            old(self)@.tables.len() == FAMILIES,
        ensures
            final(self)@ == old(self)@.swept(FAMILIES as int),
    {
        let mut k: usize = 0;
        while k < FAMILIES
            invariant
                k <= FAMILIES,
                self@.tables.len() == FAMILIES,
                self@ == old(self)@.swept(k as int),
            decreases FAMILIES - k,
        {
            self.prune(Family::from_index(k));
            k += 1;
        }
    }

    /// Deletes the rows of the family that match the filter, and with them
    /// the rows that descend from them. Returns the number of rows of the
    /// family that were deleted.
    pub fn delete(&mut self, family: Family, filter: &Filter) -> (r: Result<usize, Error>)
        requires
            old(self).wf(),
        ensures
            final(self).wf(),
            r matches Ok(n) && n == old(self)@.deleted(family, filter@).0,
            final(self)@ == old(self)@.deleted(family, filter@).1,
    {
        proof {
            old(self)@.lemma_deleted_wf(family, filter@);
        }
        let k = family.index();
        let ghost t = self.tables@[k as int]@;
        assert(self@.table(family) == t);
        let kept = self.tables[k].reject(filter);
        let before = self.tables[k].rows.len();
        let count = before - kept.len();
        self.tables[k].rows = kept;
        proof {
            let start = old(self)@.with_table(
                family,
                TableView { rows: t.rows.filter(|r: RowView| !holds(filter@, r)), ..t },
            );
            assert(self@.tables =~= start.tables);
        }
        self.sweep();
        Ok(count)
    }

    /// Deletes the row of the family with the id `id`, and with it the rows
    /// that descend from it. Returns the number of rows of the family that
    /// were deleted: one, or none where no row has the id.
    pub fn delete_id(&mut self, family: Family, id: i32) -> (r: Result<usize, Error>)
        requires
            old(self).wf(),
        ensures
            final(self).wf(),
            r matches Ok(n) && n == old(self)@.deleted(family, id_is(id)).0,
            final(self)@ == old(self)@.deleted(family, id_is(id)).1,
    {
        self.delete(family, &Filter::by_id(id))
    }
}

impl Table {
    fn duplicate(&self) -> (r: Table)
        ensures
            r@ == self@,
    {
        let mut out: Vec<Row> = Vec::new();
        let mut i: usize = 0;
        assert(rows(out@) =~= self@.rows.take(0));
        while i < self.rows.len()
            invariant
                i <= self.rows.len(),
                rows(out@) == self@.rows.take(i as int),
            decreases self.rows.len() - i,
        {
            let ghost prev = out@;
            out.push(self.rows[i].duplicate());
            assert(rows(out@) =~= rows(prev).push(self.rows@[i as int]@));
            assert(self@.rows.take(i + 1) =~= self@.rows.take(i as int).push(
                self.rows@[i as int]@,
            ));
            i += 1;
        }
        assert(self@.rows.take(i as int) =~= self@.rows);
        Table { rows: out, next_id: self.next_id }
    }
}

impl Database {
    /// A copy of the store.
    pub fn duplicate(&self) -> (r: Database)
        ensures
            r@ == self@,
    {
        let mut tables: Vec<Table> = Vec::new();
        let mut k: usize = 0;
        while k < self.tables.len()
            invariant
                k <= self.tables.len(),
                tables.len() == k,
                forall|j: int| 0 <= j < k ==> (#[trigger] tables@[j])@ == self.tables@[j]@,
            decreases self.tables.len() - k,
        {
            tables.push(self.tables[k].duplicate());
            k += 1;
        }
        let db = Database { tables };
        assert(db@.tables =~= self@.tables);
        db
    }

    /// The rows of the family `child` whose parent at place `p` is the row
    /// `id`, in the order of the table.
    pub fn children(&self, child: Family, p: usize, id: i32) -> (r: Result<Vec<Row>, Error>)
        requires
            self.wf(),
        ensures
            r matches Ok(v) && rows(v@) == self@.selected(child, parent_is(p, id)),
    {
        let by_parent = Filter::Cmp(Column::Parent(p), Op::Eq, crate::store::filter::Literal::Int(
            id as i64,
        ));
        assert(by_parent@ == parent_is(p, id));
        self.filter(child, &by_parent)
    }
}

} // verus!
