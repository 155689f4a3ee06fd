//! Sessions: what a client left behind and finds again.

pub mod exchanges;
pub mod laws;
pub mod names;
pub mod rules;
pub mod sessionworker;
pub mod steps;

use vstd::prelude::*;

verus! {

/// What can go wrong in a session.
#[derive(Debug, PartialEq, Eq)]
pub enum SessionError {
    /// The client cannot be reached.
    Client,
    /// The router cannot be reached.
    Router,
    /// The persistent store failed.
    Persist(String),
}

/// What went wrong, with the text of a failure of the store.
#[verifier::ext_equal]
pub enum SessionErrorView {
    Client,
    Router,
    Persist(Seq<char>),
}

impl View for SessionError {
    type V = SessionErrorView;

    open spec fn view(&self) -> SessionErrorView {
        match *self {
            SessionError::Client => SessionErrorView::Client,
            SessionError::Router => SessionErrorView::Router,
            SessionError::Persist(s) => SessionErrorView::Persist(s@),
        }
    }
}

/// An outcome without its text object.
pub open spec fn outcome_view(r: Result<(), SessionError>) -> Result<(), SessionErrorView> {
    match r {
        Ok(()) => Ok(()),
        Err(e) => Err(e@),
    }
}

} // verus!
