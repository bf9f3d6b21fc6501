//! The state that one invocation of a module shares with the host functions.

use crate::error::Error;
use vstd::prelude::*;

pub mod db;
pub mod json;
pub mod keyring;
pub mod module;
pub mod run;

verus! {

/// The state that a module shares with the host functions: the slot in which
/// a host function records its failure, for the runtime to consult once the
/// call returns. The slot speaks of the latest call.
#[derive(Clone, Copy, PartialEq, Eq, Debug)]
pub struct State {
    pub error: Option<Error>,
}

impl State {
    /// A state with an empty error slot.
    pub fn new() -> (r: State)
        ensures
            r.error is None,
    {
        State { error: None }
    }

    /// Records `err` in the slot and hands it back, to be returned to the script.
    pub fn set_error(&mut self, err: Error) -> (r: Error)
        ensures
            final(self).error == Some(err),
            r == err,
    {
        self.error = Some(err);
        err
    }

    /// The recorded failure, if any; the slot stays as it is.
    pub fn last_error(&self) -> (r: Option<Error>)
        ensures
            r == self.error,
    {
        self.error
    }

    /// Empties the slot and returns what it held.
    pub fn take_error(&mut self) -> (r: Option<Error>)
        ensures
            r == old(self).error,
            final(self).error is None,
    {
        let e = self.error;
        self.error = None;
        e
    }

    /// The slot after a host function finished with `result`: it holds the
    /// failure of this call, and nothing where the call succeeded. What an
    /// earlier call recorded is cleared.
    pub open spec fn after<T>(self, result: Result<T, Error>) -> State {
        match result {
            Ok(_) => State { error: None },
            Err(e) => State { error: Some(e) },
        }
    }

    /// The failure discipline of every host function: passes `result`
    /// through; the slot is cleared and then holds the error of `result`,
    /// if it has one.
    pub fn checked<T>(&mut self, result: Result<T, Error>) -> (r: Result<T, Error>)
        ensures
            r == result,
            *final(self) == old(self).after(result),
    {
        self.error = None;
        match result {
            Ok(v) => Ok(v),
            Err(e) => Err(self.set_error(e)),
        }
    }
}

} // verus!
