//! Rows of the entity store, the records that are inserted, and the updates
//! that an upsert derives.

use crate::store::schema::Kind;
use vstd::prelude::*;

verus! {

/// The value of an attribute.
#[derive(Clone, PartialEq, Eq, Debug)]
pub enum Datum {
    Int(i64),
    Text(String),
    Bool(bool),
    /// A single-precision number, held as its IEEE-754 bits.
    Real(u32),
}

/// The mathematical value of a [`Datum`].
pub enum DatumView {
    Int(i64),
    Text(Seq<char>),
    Bool(bool),
    Real(u32),
}

impl DatumView {
    /// The kind of column that holds such a value.
    pub open spec fn kind(self) -> Kind {
        match self {
            DatumView::Int(_) => Kind::Integer,
            DatumView::Text(_) => Kind::Text,
            DatumView::Bool(_) => Kind::Boolean,
            DatumView::Real(_) => Kind::Real,
        }
    }
}

impl View for Datum {
    type V = DatumView;

    open spec fn view(&self) -> DatumView {
        match self {
            Datum::Int(n) => DatumView::Int(*n),
            Datum::Text(s) => DatumView::Text(s@),
            Datum::Bool(b) => DatumView::Bool(*b),
            Datum::Real(bits) => DatumView::Real(*bits),
        }
    }
}

/// The view of an attribute: `None` where the attribute is unknown.
pub open spec fn cell(c: Option<Datum>) -> Option<DatumView> {
    match c {
        Some(d) => Some(d@),
        None => None,
    }
}

/// The views of the attributes of a row.
pub open spec fn cells(cs: Seq<Option<Datum>>) -> Seq<Option<DatumView>> {
    cs.map_values(|c: Option<Datum>| cell(c))
}

/// Whether attributes are those of a family with the given kinds: there is
/// one for each kind, and each that is known is of its kind.
pub open spec fn conforms(attrs: Seq<Option<DatumView>>, kinds: Seq<Kind>) -> bool {
    &&& attrs.len() == kinds.len()
    &&& forall|i: int|
        0 <= i < attrs.len() ==> ((#[trigger] attrs[i]) matches Some(d) ==> d.kind() == kinds[i])
}

/// What an upsert writes to an attribute: the incoming value where there is
/// one and it differs from the stored value, else nothing.
pub open spec fn change(incoming: Option<DatumView>, existing: Option<DatumView>) -> Option<
    DatumView,
> {
    if incoming is Some && incoming != existing {
        incoming
    } else {
        None
    }
}

/// What an upsert writes to the attributes of a row.
pub open spec fn changes(incoming: Seq<Option<DatumView>>, existing: Seq<Option<DatumView>>) -> Seq<
    Option<DatumView>,
> {
    Seq::new(
        incoming.len(),
        |i: int|
            if i < existing.len() {
                change(incoming[i], existing[i])
            } else {
                incoming[i]
            },
    )
}

/// Whether an update writes anything.
pub open spec fn dirty(attrs: Seq<Option<DatumView>>) -> bool {
    exists|i: int| 0 <= i < attrs.len() && (#[trigger] attrs[i]) is Some
}

/// The attributes of a row after an update: each attribute that the update
/// names takes the value of the update, every other stays as it is.
pub open spec fn applied(existing: Seq<Option<DatumView>>, update: Seq<Option<DatumView>>) -> Seq<
    Option<DatumView>,
> {
    Seq::new(
        existing.len(),
        |i: int|
            if i < update.len() && update[i] is Some {
                update[i]
            } else {
                existing[i]
            },
    )
}

impl Datum {
    /// The kind of column that holds this value.
    pub fn kind(&self) -> (r: Kind)
        ensures
            r == self@.kind(),
    {
        match self {
            Datum::Int(_) => Kind::Integer,
            Datum::Text(_) => Kind::Text,
            Datum::Bool(_) => Kind::Boolean,
            Datum::Real(_) => Kind::Real,
        }
    }

    /// A copy of the value.
    pub fn duplicate(&self) -> (r: Datum)
        ensures
            r@ == self@,
    {
        match self {
            Datum::Int(n) => Datum::Int(*n),
            Datum::Text(s) => Datum::Text(s.clone()),
            Datum::Bool(b) => Datum::Bool(*b),
            Datum::Real(bits) => Datum::Real(*bits),
        }
    }

    /// Whether two values are the same.
    pub fn same(&self, other: &Datum) -> (r: bool)
        ensures
            r == (self@ == other@),
    {
        match (self, other) {
            (Datum::Int(a), Datum::Int(b)) => *a == *b,
            (Datum::Text(a), Datum::Text(b)) => {
                let r = *a == *b;
                assert(r == (self@ == other@)) by {
                    if self@ == other@ {
                        assert(a@ == b@);
                    }
                }
                r
            },
            (Datum::Bool(a), Datum::Bool(b)) => *a == *b,
            (Datum::Real(a), Datum::Real(b)) => *a == *b,
            _ => false,
        }
    }
}

/// A copy of an attribute.
pub fn copy_cell(c: &Option<Datum>) -> (r: Option<Datum>)
    ensures
        cell(r) == cell(*c),
{
    match c {
        Some(d) => Some(d.duplicate()),
        None => None,
    }
}

/// Whether two attributes are the same.
pub fn same_cell(a: &Option<Datum>, b: &Option<Datum>) -> (r: bool)
    ensures
        r == (cell(*a) == cell(*b)),
{
    match (a, b) {
        (Some(x), Some(y)) => x.same(y),
        (None, None) => true,
        _ => false,
    }
}

/// A copy of the attributes of a row.
pub fn copy_cells(cs: &Vec<Option<Datum>>) -> (r: Vec<Option<Datum>>)
    ensures
        cells(r@) == cells(cs@),
{
    let mut out: Vec<Option<Datum>> = Vec::new();
    let mut i: usize = 0;
    while i < cs.len()
        invariant
            i <= cs.len(),
            cells(out@) == cells(cs@).take(i as int),
        decreases cs.len() - i,
    {
        let c = copy_cell(&cs[i]);
        let ghost prev = out@;
        out.push(c);
        assert(cells(out@) =~= cells(prev).push(cell(c)));
        assert(cells(cs@)[i as int] == cell(cs@[i as int]));
        assert(cells(cs@).take(i + 1) =~= cells(cs@).take(i as int).push(cells(cs@)[i as int]));
        i += 1;
    }
    assert(cells(cs@).take(i as int) =~= cells(cs@));
    out
}

/// The attributes of a row after an update.
pub fn merge_cells(existing: &Vec<Option<Datum>>, update: &Vec<Option<Datum>>) -> (r: Vec<
    Option<Datum>,
>)
    ensures
        cells(r@) == applied(cells(existing@), cells(update@)),
{
    let ghost target = applied(cells(existing@), cells(update@));
    let mut out: Vec<Option<Datum>> = Vec::new();
    let mut i: usize = 0;
    while i < existing.len()
        invariant
            i <= existing.len(),
            target == applied(cells(existing@), cells(update@)),
            cells(out@) == target.take(i as int),
        decreases existing.len() - i,
    {
        assert(cells(existing@)[i as int] == cell(existing@[i as int]));
        let c = if i < update.len() && update[i].is_some() {
            assert(cells(update@)[i as int] == cell(update@[i as int]));
            copy_cell(&update[i])
        } else {
            if i < update.len() {
                assert(cells(update@)[i as int] == cell(update@[i as int]));
            }
            copy_cell(&existing[i])
        };
        let ghost prev = out@;
        out.push(c);
        assert(cells(out@) =~= cells(prev).push(cell(c)));
        assert(target.take(i + 1) =~= target.take(i as int).push(target[i as int]));
        i += 1;
    }
    assert(target.take(i as int) =~= target);
    out
}

/// A copy of a list of ids.
pub fn copy_ids(ids: &Vec<i32>) -> (r: Vec<i32>)
    ensures
        r@ == ids@,
{
    let mut out: Vec<i32> = Vec::new();
    let mut i: usize = 0;
    while i < ids.len()
        invariant
            i <= ids.len(),
            out@ == ids@.take(i as int),
        decreases ids.len() - i,
    {
        out.push(ids[i]);
        assert(out@ =~= ids@.take(i + 1));
        i += 1;
    }
    assert(ids@.take(i as int) =~= ids@);
    out
}

/// Whether attributes are those of a family with the given kinds.
pub fn check_conforms(attrs: &Vec<Option<Datum>>, kinds: &Vec<Kind>) -> (r: bool)
    ensures
        r == conforms(cells(attrs@), kinds@),
{
    if attrs.len() != kinds.len() {
        return false;
    }
    let mut i: usize = 0;
    while i < attrs.len()
        invariant
            i <= attrs.len(),
            attrs.len() == kinds.len(),
            forall|k: int|
                0 <= k < i ==> ((#[trigger] cells(attrs@)[k]) matches Some(d) ==> d.kind()
                    == kinds@[k]),
        decreases attrs.len() - i,
    {
        assert(cells(attrs@)[i as int] == cell(attrs@[i as int]));
        match &attrs[i] {
            Some(d) => {
                if d.kind() != kinds[i] {
                    return false;
                }
            },
            None => {},
        }
        i += 1;
    }
    true
}

/// A row of the store.
#[derive(Clone, PartialEq, Eq, Debug)]
pub struct Row {
    pub id: i32,
    pub value: String,
    pub unscoped: bool,
    /// The ids of the parents, one for each parent family.
    pub parents: Vec<i32>,
    /// The optional attributes, one for each attribute of the family.
    pub attrs: Vec<Option<Datum>>,
}

/// The mathematical value of a [`Row`].
pub struct RowView {
    pub id: i32,
    pub value: Seq<char>,
    pub unscoped: bool,
    pub parents: Seq<i32>,
    pub attrs: Seq<Option<DatumView>>,
}

impl View for Row {
    type V = RowView;

    open spec fn view(&self) -> RowView {
        RowView {
            id: self.id,
            value: self.value@,
            unscoped: self.unscoped,
            parents: self.parents@,
            attrs: cells(self.attrs@),
        }
    }
}

/// The views of a list of rows.
pub open spec fn rows(v: Seq<Row>) -> Seq<RowView> {
    v.map_values(|r: Row| r@)
}

impl Row {
    /// A copy of the row.
    pub fn duplicate(&self) -> (r: Row)
        ensures
            r@ == self@,
    {
        Row {
            id: self.id,
            value: self.value.clone(),
            unscoped: self.unscoped,
            parents: copy_ids(&self.parents),
            attrs: copy_cells(&self.attrs),
        }
    }

    /// Whether the row is in scope.
    pub fn scoped(&self) -> (r: bool)
        ensures
            r == !self@.unscoped,
    {
        !self.unscoped
    }
}

/// A record to insert: a row that has no id yet.
#[derive(Clone, PartialEq, Eq, Debug)]
pub struct NewRow {
    pub value: String,
    pub parents: Vec<i32>,
    pub attrs: Vec<Option<Datum>>,
}

/// The mathematical value of a [`NewRow`].
pub struct NewRowView {
    pub value: Seq<char>,
    pub parents: Seq<i32>,
    pub attrs: Seq<Option<DatumView>>,
}

impl View for NewRow {
    type V = NewRowView;

    open spec fn view(&self) -> NewRowView {
        NewRowView { value: self.value@, parents: self.parents@, attrs: cells(self.attrs@) }
    }
}

/// An update of the optional attributes of the row `id`: an attribute that
/// is `None` is left as it is.
#[derive(Clone, PartialEq, Eq, Debug)]
pub struct Update {
    pub id: i32,
    pub attrs: Vec<Option<Datum>>,
}

/// The mathematical value of an [`Update`].
pub struct UpdateView {
    pub id: i32,
    pub attrs: Seq<Option<DatumView>>,
}

impl View for Update {
    type V = UpdateView;

    open spec fn view(&self) -> UpdateView {
        UpdateView { id: self.id, attrs: cells(self.attrs@) }
    }
}

impl NewRow {
    /// A copy of the record.
    pub fn duplicate(&self) -> (r: NewRow)
        ensures
            r@ == self@,
    {
        NewRow {
            value: self.value.clone(),
            parents: copy_ids(&self.parents),
            attrs: copy_cells(&self.attrs),
        }
    }

    /// The update that an upsert of this record makes to the row `existing`:
    /// for each attribute, the incoming value where there is one and it
    /// differs from the stored value.
    pub fn upsert(self, existing: &Row) -> (r: Update)
        ensures
            r@.id == existing.id,
            r@.attrs == changes(self@.attrs, existing@.attrs),
    {
        let mut attrs: Vec<Option<Datum>> = Vec::new();
        let mut i: usize = 0;
        while i < self.attrs.len()
            invariant
                i <= self.attrs.len(),
                cells(attrs@) == changes(self@.attrs, existing@.attrs).take(i as int),
            decreases self.attrs.len() - i,
        {
            assert(cells(self.attrs@)[i as int] == cell(self.attrs@[i as int]));
            let keep = if i < existing.attrs.len() {
                assert(cells(existing.attrs@)[i as int] == cell(existing.attrs@[i as int]));
                self.attrs[i].is_some() && !same_cell(&self.attrs[i], &existing.attrs[i])
            } else {
                true
            };
            let c = if keep {
                copy_cell(&self.attrs[i])
            } else {
                None
            };
            let ghost prev = attrs@;
            let ghost all = changes(self@.attrs, existing@.attrs);
            attrs.push(c);
            assert(cells(attrs@) =~= cells(prev).push(cell(c)));
            assert(cell(c) == all[i as int]);
            assert(all.take(i + 1) =~= all.take(i as int).push(all[i as int]));
            i += 1;
        }
        assert(changes(self@.attrs, existing@.attrs).take(i as int) =~= changes(
            self@.attrs,
            existing@.attrs,
        ));
        Update { id: existing.id, attrs }
    }
}

impl Update {
    /// Whether the update writes anything.
    pub fn is_dirty(&self) -> (r: bool)
        ensures
            r == dirty(self@.attrs),
    {
        let mut i: usize = 0;
        while i < self.attrs.len()
            invariant
                i <= self.attrs.len(),
                forall|k: int| 0 <= k < i ==> (#[trigger] cells(self.attrs@)[k]) is None,
            decreases self.attrs.len() - i,
        {
            assert(cells(self.attrs@)[i as int] == cell(self.attrs@[i as int]));
            if self.attrs[i].is_some() {
                return true;
            }
            i += 1;
        }
        false
    }

    /// Drops from the update what the row `existing` holds already.
    pub fn changeset(&mut self, existing: &Row)
        ensures
            final(self)@.id == old(self)@.id,
            final(self)@.attrs == changes(old(self)@.attrs, existing@.attrs),
    {
        let mut i: usize = 0;
        let ghost before = self@.attrs;
        while i < self.attrs.len()
            invariant
                i <= self.attrs.len(),
                self.id == old(self).id,
                before == old(self)@.attrs,
                self@.attrs.len() == before.len(),
                forall|k: int|
                    0 <= k < i ==> (#[trigger] self@.attrs[k]) == changes(
                        before,
                        existing@.attrs,
                    )[k],
                forall|k: int| i <= k < before.len() ==> (#[trigger] self@.attrs[k]) == before[k],
            decreases self.attrs.len() - i,
        {
            assert(cells(self.attrs@)[i as int] == cell(self.attrs@[i as int]));
            let ghost prev = self@.attrs;
            if i < existing.attrs.len() {
                assert(cells(existing.attrs@)[i as int] == cell(existing.attrs@[i as int]));
                if same_cell(&self.attrs[i], &existing.attrs[i]) {
                    self.attrs.set(i, None);
                    assert(self@.attrs =~= prev.update(i as int, None));
                }
            }
            i += 1;
        }
        assert(self@.attrs =~= changes(before, existing@.attrs));
    }
}

} // verus!
