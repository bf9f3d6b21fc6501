//! What holds of the store over several operations.

use crate::error::Error;
use crate::find::{lemma_first_is_first, lemma_first_missing, lemma_first_push, lemma_first_update};
use crate::store::filter::{holds, FilterView};
use crate::store::row::{NewRowView, RowView};
use crate::store::schema::Family;
use crate::store::{id_is, in_scope, lemma_filter_rows, DatabaseView};
use vstd::prelude::*;

verus! {

impl DatabaseView {
    /// Two inserts of the same value, one after the other, return the same
    /// id, and the second changes nothing.
    pub proof fn law_insert_twice(self, f: Family, first: NewRowView, second: NewRowView)
        requires
            self.wf(),
            first.value == second.value,
            self.inserted(f, first) is Ok,
        ensures
            self.inserted(f, first)->Ok_0.1.inserted(f, second) == Ok::<(i32, DatabaseView), Error>(
                self.inserted(f, first)->Ok_0,
            ),
    {
        f.lemma_parents_precede();
        let (id, next) = self.inserted(f, first)->Ok_0;
        let t = self.table(f);
        let by_value = |r: RowView| r.value == first.value;
        lemma_first_is_first(t.rows, by_value);
        if t.by_value(first.value) is None {
            lemma_first_push(t.rows, by_value, next.table(f).rows.last());
        }
    }

    /// After an upsert, the row with the value of the record has the id
    /// that the upsert returned, and holds every attribute that the record
    /// knows.
    pub proof fn law_upsert_reflects(self, f: Family, new: NewRowView)
        requires
            self.wf(),
            self.upserted(f, new) is Ok,
        ensures
            ({
                let (id, next) = self.upserted(f, new)->Ok_0;
                next.row_by_value(f, new.value) matches Some(row) && row.id == id && forall|a: int|
                    0 <= a < new.attrs.len() && (#[trigger] new.attrs[a]) is Some ==> a
                        < row.attrs.len() && row.attrs[a] == new.attrs[a]
            }),
    {
        f.lemma_parents_precede();
        let (id, next) = self.upserted(f, new)->Ok_0;
        let t = self.table(f);
        let by_value = |r: RowView| r.value == new.value;
        lemma_first_is_first(t.rows, by_value);
        assert(t.ok(f));
        match t.by_value(new.value) {
            None => {
                lemma_first_push(t.rows, by_value, next.table(f).rows.last());
            },
            Some(i) => {
                let update = self.merge(f, i, new);
                let row = t.rows[i];
                if crate::store::row::dirty(update.attrs) {
                    lemma_first_is_first(t.rows, |r: RowView| r.id == update.id);
                    let at = t.by_id(update.id)->0;
                    assert(at == i) by {
                        if at < i {
                            assert(t.rows[at].id != t.rows[i].id);
                        } else if i < at {
                            assert(t.rows[i].id != t.rows[at].id);
                        }
                    }
                    lemma_first_update(t.rows, by_value, i, next.table(f).rows[i]);
                } else {
                    assert forall|a: int|
                        0 <= a < new.attrs.len() && (#[trigger] new.attrs[a]) is Some implies a
                        < row.attrs.len() && row.attrs[a] == new.attrs[a] by {
                        assert(update.attrs[a] is None);
                    }
                }
            },
        }
    }

    /// An upsert unsets nothing: every row that was there is still there, at
    /// its place and with its id, and every attribute that it knew it still
    /// knows. The other families are as before.
    pub proof fn law_upsert_keeps(self, f: Family, new: NewRowView)
        requires
            self.wf(),
            self.upserted(f, new) is Ok,
        ensures
            ({
                let next = self.upserted(f, new)->Ok_0.1;
                &&& next.table(f).rows.len() >= self.table(f).rows.len()
                &&& forall|i: int|
                    0 <= i < self.table(f).rows.len() ==> (#[trigger] next.table(f).rows[i]).id
                        == self.table(f).rows[i].id && next.table(f).rows[i].attrs.len()
                        == self.table(f).rows[i].attrs.len() && forall|a: int|
                        0 <= a < self.table(f).rows[i].attrs.len() && (
                        #[trigger] self.table(f).rows[i].attrs[a]) is Some ==> next.table(
                            f,
                        ).rows[i].attrs[a] is Some
                &&& forall|g: Family| g != f ==> next.table(g) == self.table(g)
            }),
    {
        f.lemma_parents_precede();
        let next = self.upserted(f, new)->Ok_0.1;
        assert forall|g: Family| g != f implies next.table(g) == self.table(g) by {
            g.lemma_parents_precede();
        }
    }

    /// After `delete_id`, no row of the family has the id.
    pub proof fn law_deleted_id_is_gone(self, f: Family, id: i32)
        requires
            self.wf(),
        ensures
            self.deleted(f, id_is(id)).1.row_by_id(f, id) == Err::<RowView, Error>(
                Error::NotFound,
            ),
            !self.deleted(f, id_is(id)).1.table(f).has_id(id),
    {
        self.lemma_deleted_wf(f, id_is(id));
        let next = self.deleted(f, id_is(id)).1;
        assert forall|i: int| 0 <= i < next.table(f).rows.len() implies (
        #[trigger] next.table(f).rows[i]).id != id by {
            assert(!holds(id_is(id), next.table(f).rows[i]));
        }
        lemma_first_missing(next.table(f).rows, |r: RowView| r.id == id);
    }

    /// A deletion cascades: once a row is deleted by its id, no row names
    /// it as a parent.
    pub proof fn law_delete_cascades(self, f: Family, id: i32, child: Family, p: int, i: int)
        requires
            self.wf(),
            0 <= p < child.parent_families().len(),
            child.parent_families()[p] == f,
            0 <= i < self.deleted(f, id_is(id)).1.table(child).rows.len(),
        ensures
            self.deleted(f, id_is(id)).1.table(child).rows[i].parents[p] != id,
    {
        self.law_deleted_id_is_gone(f, id);
        self.lemma_deleted_wf(f, id_is(id));
        child.lemma_parents_precede();
        let next = self.deleted(f, id_is(id)).1;
        assert(next.tables[child.place()].ok(child) && next.linked(child));
        let row = next.table(child).rows[i];
        assert(next.parents_present(child, row.parents));
        assert(next.table(f).has_id(row.parents[p]));
    }

    /// After `scope`, the rows in scope include every row that matched the
    /// filter.
    pub proof fn law_scope_shows(self, f: Family, filter: FilterView, i: int)
        requires
            self.wf(),
            0 <= i < self.table(f).rows.len(),
            holds(filter, self.table(f).rows[i]),
        ensures
            self.rescoped(f, filter, false).1.selected(f, in_scope()).contains(
                RowView { unscoped: false, ..self.table(f).rows[i] },
            ),
    {
        f.lemma_parents_precede();
        let next = self.rescoped(f, filter, false).1;
        let row = next.table(f).rows[i];
        assert(row == RowView { unscoped: false, ..self.table(f).rows[i] });
        lemma_filter_rows(next.table(f).rows, |r: RowView| holds(in_scope(), r));
        assert(holds(in_scope(), row));
    }

    /// After `noscope`, the rows in scope include no row that matched the
    /// filter.
    pub proof fn law_noscope_hides(self, f: Family, filter: FilterView, i: int, j: int)
        requires
            self.wf(),
            0 <= i < self.table(f).rows.len(),
            holds(filter, self.table(f).rows[i]),
            0 <= j < self.rescoped(f, filter, true).1.selected(f, in_scope()).len(),
        ensures
            self.rescoped(f, filter, true).1.selected(f, in_scope())[j].id != self.table(
                f,
            ).rows[i].id,
    {
        f.lemma_parents_precede();
        let t = self.table(f);
        let next = self.rescoped(f, filter, true).1;
        let u = next.table(f);
        lemma_filter_rows(u.rows, |r: RowView| holds(in_scope(), r));
        let shown = next.selected(f, in_scope())[j];
        assert(u.rows.contains(shown));
        let k = choose|k: int| 0 <= k < u.rows.len() && u.rows[k] == shown;
        assert(holds(in_scope(), shown));
        assert(t.ok(f));
        if k != i {
            assert(u.rows[k].id == t.rows[k].id);
            if k < i {
                assert(t.rows[k].id != t.rows[i].id);
            } else {
                assert(t.rows[i].id != t.rows[k].id);
            }
        } else {
            assert(u.rows[i].unscoped);
        }
    }
}

} // verus!
