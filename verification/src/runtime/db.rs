//! The database functions of the host interface, and the transaction in
//! which the observations of one seed are collected.
//!
//! A module makes its observations on a copy of the store, so that nothing
//! is visible before the seed is done. The transaction keeps them in a
//! log; to commit is to make them again, in order, on the store as it then
//! is.

use crate::error::Error;
use crate::find::lemma_first_is_first;
use crate::runtime::State;
use crate::store::row::{
    cells, changes, copy_cells, dirty, rows, Datum, DatumView, NewRow, NewRowView, Row, RowView,
    Update, UpdateView,
};
use crate::store::schema::Family;
use crate::store::{in_scope, Database, DatabaseView};
use vstd::prelude::*;

verus! {

/// What a run has done so far.
#[derive(Clone, Copy, PartialEq, Eq, Debug)]
pub struct Summary {
    /// The seeds that were processed.
    pub seeds: u64,
    /// The observations that added a row.
    pub added: u64,
    /// The observations that changed a row.
    pub updated: u64,
    /// The seeds whose transaction was rolled back.
    pub errors: u64,
}

/// What an observation did to the store.
#[derive(Clone, Copy, PartialEq, Eq, Debug, Structural)]
pub enum Effect {
    Added,
    Updated,
    Unchanged,
}

/// An observation of a module.
#[derive(Clone, PartialEq, Eq, Debug)]
pub enum Observation {
    /// `db_insert`: a record to upsert into a family.
    Insert(Family, NewRow),
    /// `db_update`: attributes for the row of a family with a value.
    Update(Family, String, Vec<Option<Datum>>),
}

/// The mathematical value of an [`Observation`].
pub enum ObservationView {
    Insert(Family, NewRowView),
    Update(Family, Seq<char>, Seq<Option<DatumView>>),
}

impl View for Observation {
    type V = ObservationView;

    open spec fn view(&self) -> ObservationView {
        match self {
            Observation::Insert(f, record) => ObservationView::Insert(*f, record@),
            Observation::Update(f, key, attrs) => ObservationView::Update(*f, key@, cells(attrs@)),
        }
    }
}

/// The views of a list of observations.
pub open spec fn observations(v: Seq<Observation>) -> Seq<ObservationView> {
    v.map_values(|o: Observation| o@)
}

/// The transaction of one seed: the copy of the store on which the seed
/// makes its observations, and the log of the observations that were made.
pub struct Transaction {
    work: Database,
    log: Vec<Observation>,
    base: Ghost<DatabaseView>,
}

/// The mathematical value of a [`Transaction`].
pub struct TransactionView {
    /// The store as it was when the transaction began.
    pub base: DatabaseView,
    /// The store as the seed sees it.
    pub work: DatabaseView,
    pub log: Seq<ObservationView>,
}

impl View for Transaction {
    type V = TransactionView;

    closed spec fn view(&self) -> TransactionView {
        TransactionView { base: self.base@, work: self.work@, log: observations(self.log@) }
    }
}

/// The sum of two counters, which stays at the greatest number once it is
/// reached.
pub open spec fn plus(a: u64, b: u64) -> u64 {
    if a + b > u64::MAX {
        u64::MAX
    } else {
        (a + b) as u64
    }
}

/// The sum of two counters.
pub fn add_up(a: u64, b: u64) -> (r: u64)
    ensures
        r == plus(a, b),
{
    if a > u64::MAX - b {
        u64::MAX
    } else {
        a + b
    }
}

/// The store after an observation, with the id of the row and what the
/// observation did. `db_insert` upserts its record: a value that is new adds
/// a row, one that is known is updated where an attribute differs.
/// `db_update` finds its row by the value, `NotFound` where there is none,
/// and writes the attributes that differ from the stored ones.
pub open spec fn observed(db: DatabaseView, o: ObservationView) -> Result<
    (i32, DatabaseView, Effect),
    Error,
> {
    match o {
        ObservationView::Insert(f, record) => match db.table(f).by_value(record.value) {
            None => match db.inserted(f, record) {
                Err(e) => Err(e),
                Ok((id, next)) => Ok((id, next, Effect::Added)),
            },
            Some(i) => {
                let update = db.merge(f, i, record);
                if dirty(update.attrs) {
                    match db.updated(f, update) {
                        Err(e) => Err(e),
                        Ok((id, next)) => Ok((id, next, Effect::Updated)),
                    }
                } else {
                    Ok((update.id, db, Effect::Unchanged))
                }
            },
        },
        ObservationView::Update(f, key, attrs) => match db.table(f).by_value(key) {
            None => Err(Error::NotFound),
            Some(i) => {
                let row = db.table(f).rows[i];
                let update = UpdateView { id: row.id, attrs: changes(attrs, row.attrs) };
                if dirty(update.attrs) {
                    match db.updated(f, update) {
                        Err(e) => Err(e),
                        Ok((id, next)) => Ok((id, next, Effect::Updated)),
                    }
                } else {
                    Ok((row.id, db, Effect::Unchanged))
                }
            },
        },
    }
}

/// The store after the observations of a log, made in order, with the
/// number of those that added a row and of those that changed one; the
/// error of the first that fails.
pub open spec fn replayed(db: DatabaseView, log: Seq<ObservationView>) -> Result<
    (DatabaseView, u64, u64),
    Error,
>
    decreases log.len(),
{
    if log.len() == 0 {
        Ok((db, 0, 0))
    } else {
        match replayed(db, log.drop_last()) {
            Err(e) => Err(e),
            Ok((mid, added, updated)) => match observed(mid, log.last()) {
                Err(e) => Err(e),
                Ok((_, next, effect)) => Ok(
                    (
                        next,
                        plus(
                            added,
                            if effect == Effect::Added {
                                1
                            } else {
                                0
                            },
                        ),
                        plus(
                            updated,
                            if effect == Effect::Updated {
                                1
                            } else {
                                0
                            },
                        ),
                    ),
                ),
            },
        }
    }
}

/// An observation keeps the invariant of the store.
pub proof fn lemma_observed_wf(db: DatabaseView, o: ObservationView)
    requires
        db.wf(),
    ensures
        observed(db, o) matches Ok(r) ==> r.1.wf(),
{
    match o {
        ObservationView::Insert(f, record) => {
            db.lemma_inserted_wf(f, record);
            if let Some(i) = db.table(f).by_value(record.value) {
                db.lemma_updated_wf(f, db.merge(f, i, record));
            }
        },
        ObservationView::Update(f, key, attrs) => {
            if let Some(i) = db.table(f).by_value(key) {
                let row = db.table(f).rows[i];
                db.lemma_updated_wf(f, UpdateView { id: row.id, attrs: changes(attrs, row.attrs) });
            }
        },
    }
}

/// A log of observations keeps the invariant of the store.
pub proof fn law_log_keeps_invariant(db: DatabaseView, log: Seq<ObservationView>)
    requires
        db.wf(),
    ensures
        replayed(db, log) matches Ok(r) ==> r.0.wf(),
    decreases log.len(),
{
    if log.len() > 0 {
        law_log_keeps_invariant(db, log.drop_last());
        if let Ok((mid, _, _)) = replayed(db, log.drop_last()) {
            lemma_observed_wf(mid, log.last());
        }
    }
}

impl Summary {
    /// A summary of nothing.
    pub fn new() -> (r: Summary)
        ensures
            r == (Summary { seeds: 0, added: 0, updated: 0, errors: 0 }),
    {
        Summary { seeds: 0, added: 0, updated: 0, errors: 0 }
    }

    /// The summary after one more seed: one whose transaction was committed
    /// with the given numbers of observations, or one that was rolled back.
    pub open spec fn after(self, committed: Option<(u64, u64)>) -> Summary {
        match committed {
            Some((added, updated)) => Summary {
                seeds: plus(self.seeds, 1),
                added: plus(self.added, added),
                updated: plus(self.updated, updated),
                errors: self.errors,
            },
            None => Summary { seeds: plus(self.seeds, 1), errors: plus(self.errors, 1), ..self },
        }
    }
}

/// Whether the seed asks for its transaction to be committed: the entry
/// point of the module returned without an error, and the error slot is
/// empty.
pub open spec fn commits(outcome: Result<(), Error>, state: State) -> bool {
    outcome is Ok && state.error is None
}

/// What the end of the transaction of a seed makes of the store: where the
/// seed asks for it and every observation of the log can be made on the
/// store, the store after them, with their numbers; else nothing.
pub open spec fn committed(
    db: DatabaseView,
    log: Seq<ObservationView>,
    outcome: Result<(), Error>,
    state: State,
) -> Option<(DatabaseView, u64, u64)> {
    if commits(outcome, state) {
        match replayed(db, log) {
            Ok(r) => Some(r),
            Err(_) => None,
        }
    } else {
        None
    }
}

/// The seeds of a module: the rows of its source family that are in scope,
/// or none where it names no source.
pub fn seeds(db: &Database, source: Option<Family>) -> (r: Result<Vec<Row>, Error>)
    requires
        db.wf(),
    ensures
        r matches Ok(v) && rows(v@) == (match source {
            Some(f) => db@.selected(f, in_scope()),
            None => Seq::empty(),
        }),
{
    match source {
        Some(f) => db.default_select(f),
        None => {
            let v: Vec<Row> = Vec::new();
            assert(rows(v@) =~= Seq::<RowView>::empty());
            Ok(v)
        },
    }
}

impl Observation {
    /// A copy of the observation.
    pub fn duplicate(&self) -> (r: Observation)
        ensures
            r@ == self@,
    {
        match self {
            Observation::Insert(f, record) => Observation::Insert(*f, record.duplicate()),
            Observation::Update(f, key, attrs) => Observation::Update(
                *f,
                key.clone(),
                copy_cells(attrs),
            ),
        }
    }

    /// Makes the observation on the store. On an error the store is as
    /// before.
    pub fn apply(&self, db: &mut Database) -> (r: Result<(i32, Effect), Error>)
        requires
            old(db).wf(),
        ensures
            final(db).wf(),
            match observed(old(db)@, self@) {
                Ok((id, next, effect)) => r == Ok::<(i32, Effect), Error>((id, effect))
                    && final(db)@ == next,
                Err(e) => r == Err::<(i32, Effect), Error>(e) && final(db)@ == old(db)@,
            },
    {
        match self {
            Observation::Insert(f, record) => {
                proof {
                    lemma_first_is_first(
                        db@.table(*f).rows,
                        |r: RowView| r.value == record@.value,
                    );
                }
                let ghost i = db@.table(*f).by_value(record@.value);
                match db.get_opt(*f, record.value.as_str())? {
                    None => {
                        let id = db.insert(*f, record.duplicate())?;
                        Ok((id, Effect::Added))
                    },
                    Some(existing) => {
                        let update = record.duplicate().upsert(&existing);
                        assert(update@ == db@.merge(*f, i->0, record@));
                        if update.is_dirty() {
                            let id = db.update(*f, &update)?;
                            Ok((id, Effect::Updated))
                        } else {
                            Ok((update.id, Effect::Unchanged))
                        }
                    },
                }
            },
            Observation::Update(f, key, attrs) => {
                proof {
                    lemma_first_is_first(db@.table(*f).rows, |r: RowView| r.value == key@);
                }
                match db.get_opt(*f, key.as_str())? {
                    None => Err(Error::NotFound),
                    Some(existing) => {
                        let mut update = Update { id: existing.id, attrs: copy_cells(attrs) };
                        update.changeset(&existing);
                        if update.is_dirty() {
                            let id = db.update(*f, &update)?;
                            Ok((id, Effect::Updated))
                        } else {
                            Ok((existing.id, Effect::Unchanged))
                        }
                    },
                }
            },
        }
    }
}

impl TransactionView {
    /// The transaction after an observation that its store takes, with the
    /// id of the row.
    pub open spec fn after(self, o: ObservationView) -> Result<(i32, TransactionView), Error> {
        match observed(self.work, o) {
            Err(e) => Err(e),
            Ok((id, next, _)) => Ok(
                (id, TransactionView { work: next, log: self.log.push(o), ..self }),
            ),
        }
    }
}

impl Transaction {
    /// The invariant of a transaction: its store meets its own invariant,
    /// and is the store that it began on after the observations of the log.
    pub open spec fn wf(&self) -> bool {
        &&& self@.base.wf()
        &&& self@.work.wf()
        &&& replayed(self@.base, self@.log) matches Ok(r) && r.0 == self@.work
    }

    /// Begins the transaction of a seed on the store as it is.
    pub fn begin(db: &Database) -> (r: Transaction)
        requires
            db.wf(),
        ensures
            r.wf(),
            r@ == (TransactionView { base: db@, work: db@, log: Seq::empty() }),
    {
        let tx = Transaction { work: db.duplicate(), log: Vec::new(), base: Ghost(db@) };
        assert(observations(tx.log@) =~= Seq::<ObservationView>::empty());
        tx
    }

    /// Makes an observation on the store of the transaction and notes it
    /// in the log.
    fn observe(&mut self, o: Observation) -> (r: Result<i32, Error>)
        requires
            old(self).wf(),
        ensures
            final(self).wf(),
            match old(self)@.after(o@) {
                Ok((id, next)) => r == Ok::<i32, Error>(id) && final(self)@ == next,
                Err(e) => r == Err::<i32, Error>(e) && final(self)@ == old(self)@,
            },
    {
        match o.apply(&mut self.work) {
            Ok((id, _)) => {
                let ghost before = observations(self.log@);
                self.log.push(o);
                proof {
                    let log = observations(self.log@);
                    assert(log =~= before.push(o@));
                    assert(log.drop_last() =~= before);
                    assert(log.last() == o@);
                }
                Ok(id)
            },
            Err(e) => Err(e),
        }
    }

    /// Host function `db_insert`: upserts `record` into the family and
    /// returns the id of its row. On an error the transaction is as
    /// before, and the error is recorded in the error slot.
    pub fn db_insert(&mut self, family: Family, record: NewRow, state: &mut State) -> (r: Result<
        i32,
        Error,
    >)
        requires
            old(self).wf(),
        ensures
            final(self).wf(),
            match old(self)@.after(ObservationView::Insert(family, record@)) {
                Ok((id, next)) => r == Ok::<i32, Error>(id) && final(self)@ == next,
                Err(e) => r == Err::<i32, Error>(e) && final(self)@ == old(self)@,
            },
            *final(state) == old(state).after(r),
    {
        let found = self.observe(Observation::Insert(family, record));
        state.checked(found)
    }

    /// Host function `db_update`: writes to the row with the value `key`
    /// the attributes of `attrs` that differ from the stored ones, and
    /// returns the id of the row. On an error the transaction is as before,
    /// and the error is recorded in the error slot.
    pub fn db_update(
        &mut self,
        family: Family,
        key: &str,
        attrs: Vec<Option<Datum>>,
        state: &mut State,
    ) -> (r: Result<i32, Error>)
        requires
            old(self).wf(),
        ensures
            final(self).wf(),
            match old(self)@.after(ObservationView::Update(family, key@, cells(attrs@))) {
                Ok((id, next)) => r == Ok::<i32, Error>(id) && final(self)@ == next,
                Err(e) => r == Err::<i32, Error>(e) && final(self)@ == old(self)@,
            },
            *final(state) == old(state).after(r),
    {
        let found = self.observe(Observation::Update(family, key.to_owned(), attrs));
        state.checked(found)
    }

    /// Host function `db_select`: the id of the row with the value `value`,
    /// if the family has one.
    pub fn db_select(&self, family: Family, value: &str, state: &mut State) -> (r: Result<
        Option<i32>,
        Error,
    >)
        requires
            self.wf(),
        ensures
            r == Ok::<Option<i32>, Error>(
                match self@.work.row_by_value(family, value@) {
                    Some(row) => Some(row.id),
                    None => None,
                },
            ),
            *final(state) == old(state).after(r),
    {
        let found = match self.work.get_opt(family, value) {
            Ok(Some(row)) => Ok(Some(row.id)),
            Ok(None) => Ok(None),
            Err(e) => Err(e),
        };
        state.checked(found)
    }

    /// Ends the transaction of a seed. Where the entry point returned
    /// without an error and the error slot is empty, the observations of
    /// the log are made on the store, all or none, and the summary counts
    /// them. Where the seed failed, or an observation cannot be made, the
    /// store stays as it was, and the summary counts an error. Either way
    /// the summary counts the seed.
    pub fn finish(
        self,
        db: &mut Database,
        outcome: Result<(), Error>,
        state: &State,
        summary: &mut Summary,
    )
        requires
            self.wf(),
            old(db).wf(),
        ensures
            final(db).wf(),
            match committed(old(db)@, self@.log, outcome, *state) {
                Some((next, added, updated)) => final(db)@ == next
                    && *final(summary) == old(summary).after(Some((added, updated))),
                None => final(db)@ == old(db)@ && *final(summary) == old(summary).after(None),
            },
    {
        summary.seeds = add_up(summary.seeds, 1);
        if !(outcome.is_ok() && state.last_error().is_none()) {
            summary.errors = add_up(summary.errors, 1);
            return ;
        }
        let ghost log = observations(self.log@);
        let mut next = db.duplicate();
        let mut added: u64 = 0;
        let mut updated: u64 = 0;
        let mut i: usize = 0;
        assert(log.take(0) =~= Seq::<ObservationView>::empty());
        while i < self.log.len()
            invariant
                i <= self.log.len(),
                log == observations(self.log@),
                next.wf(),
                replayed(old(db)@, log.take(i as int)) == Ok::<(DatabaseView, u64, u64), Error>(
                    (next@, added, updated),
                ),
                db@ == old(db)@,
                db.wf(),
                summary.seeds == plus(old(summary).seeds, 1),
                summary.added == old(summary).added,
                summary.updated == old(summary).updated,
                summary.errors == old(summary).errors,
            decreases self.log.len() - i,
        {
            proof {
                assert(log[i as int] == self.log@[i as int]@);
                assert(log.take(i + 1).drop_last() =~= log.take(i as int));
                assert(log.take(i + 1).last() == log[i as int]);
            }
            match self.log[i].apply(&mut next) {
                Ok((_, effect)) => {
                    added = add_up(
                        added,
                        if matches!(effect, Effect::Added) {
                            1
                        } else {
                            0
                        },
                    );
                    updated = add_up(
                        updated,
                        if matches!(effect, Effect::Updated) {
                            1
                        } else {
                            0
                        },
                    );
                },
                Err(_) => {
                    proof {
                        lemma_replay_fails(old(db)@, log, i + 1);
                    }
                    summary.errors = add_up(summary.errors, 1);
                    return ;
                },
            }
            i += 1;
        }
        assert(log.take(i as int) =~= log);
        summary.added = add_up(summary.added, added);
        summary.updated = add_up(summary.updated, updated);
        *db = next;
    }
}

/// Once an observation of a log fails, the log fails.
pub proof fn lemma_replay_fails(db: DatabaseView, log: Seq<ObservationView>, upto: int)
    requires
        0 <= upto <= log.len(),
        replayed(db, log.take(upto)) is Err,
    ensures
        replayed(db, log) is Err,
    decreases log.len() - upto,
{
    if upto < log.len() {
        assert(log.take(upto + 1).drop_last() =~= log.take(upto));
        lemma_replay_fails(db, log, upto + 1);
    } else {
        assert(log.take(upto) =~= log);
    }
}

/// A transaction that ends on the store that it began on commits exactly
/// what its seed has seen.
pub proof fn law_commit_in_place(tx: Transaction, outcome: Result<(), Error>, state: State)
    requires
        tx.wf(),
        commits(outcome, state),
    ensures
        committed(tx@.base, tx@.log, outcome, state) matches Some(r) && r.0 == tx@.work,
{
}

/// A seed that fails leaves the store as it was, whatever it observed.
pub proof fn law_failure_rolls_back(
    db: DatabaseView,
    log: Seq<ObservationView>,
    outcome: Result<(), Error>,
    state: State,
)
    requires
        outcome is Err || state.error is Some,
    ensures
        committed(db, log, outcome, state) is None,
{
}

} // verus!
