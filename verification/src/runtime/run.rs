//! A run of a module over its seeds: which seed is next, and when the run
//! ends.

use crate::error::Error;
use crate::runtime::db::{committed, Summary, Transaction};
use crate::runtime::State;
use crate::store::row::{rows, Row, RowView};
use crate::store::Database;
use vstd::prelude::*;

verus! {

/// A run: the seeds, how many of them were handed out, and what was done.
#[derive(Clone, PartialEq, Eq, Debug)]
pub struct Run {
    seeds: Vec<Row>,
    next: usize,
    summary: Summary,
}

/// The mathematical value of a [`Run`].
pub struct RunView {
    pub seeds: Seq<RowView>,
    /// The number of seeds that were handed out.
    pub next: int,
    pub summary: Summary,
}

impl View for Run {
    type V = RunView;

    closed spec fn view(&self) -> RunView {
        RunView { seeds: rows(self.seeds@), next: self.next as int, summary: self.summary }
    }
}

impl Run {
    /// Whether the run meets its invariant: no more seeds were handed out
    /// than there are.
    pub open spec fn wf(&self) -> bool {
        0 <= self@.next <= self@.seeds.len()
    }

    /// A run over the given seeds, of which none is handed out yet.
    pub fn new(seeds: Vec<Row>) -> (r: Run)
        ensures
            r.wf(),
            r@ == (RunView {
                seeds: rows(seeds@),
                next: 0,
                summary: Summary { seeds: 0, added: 0, updated: 0, errors: 0 },
            }),
    {
        Run { seeds, next: 0, summary: Summary::new() }
    }

    /// The next seed; `None` where the run is cancelled or every seed was
    /// handed out. A cancelled run keeps its seeds.
    pub fn next_seed(&mut self, cancelled: bool) -> (r: Option<Row>)
        requires
            old(self).wf(),
        ensures
            final(self).wf(),
            final(self)@.seeds == old(self)@.seeds,
            final(self)@.summary == old(self)@.summary,
            if !cancelled && old(self)@.next < old(self)@.seeds.len() {
                r matches Some(seed) && seed@ == old(self)@.seeds[old(self)@.next]
                    && final(self)@.next == old(self)@.next + 1
            } else {
                r is None && final(self)@.next == old(self)@.next
            },
    {
        if cancelled || self.next >= self.seeds.len() {
            return None;
        }
        assert(rows(self.seeds@)[self.next as int] == self.seeds@[self.next as int]@);
        let seed = self.seeds[self.next].duplicate();
        self.next = self.next + 1;
        Some(seed)
    }

    /// Ends the transaction of a seed and counts it: a seed that failed does
    /// not end the run.
    pub fn finish_seed(
        &mut self,
        tx: Transaction,
        db: &mut Database,
        outcome: Result<(), Error>,
        state: &State,
    )
        requires
            old(self).wf(),
            tx.wf(),
            old(db).wf(),
        ensures
            final(self).wf(),
            final(db).wf(),
            final(self)@.seeds == old(self)@.seeds,
            final(self)@.next == old(self)@.next,
            match committed(old(db)@, tx@.log, outcome, *state) {
                Some((next, added, updated)) => final(db)@ == next
                    && final(self)@.summary == old(self)@.summary.after(Some((added, updated))),
                None => final(db)@ == old(db)@
                    && final(self)@.summary == old(self)@.summary.after(None),
            },
    {
        tx.finish(db, outcome, state, &mut self.summary);
    }

    /// What the run has done so far.
    pub fn summary(&self) -> (r: Summary)
        ensures
            r == self@.summary,
    {
        self.summary
    }
}

} // verus!
