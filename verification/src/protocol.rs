//! What the store asks of the database, one step at a time, and what the
//! database answers.
//!
//! An operation that takes several statements is a machine: it hands out a
//! request, takes the answer, and hands out the next request, until it hands
//! out the result. The program around the store runs each request on the
//! connection of the session and hands back the answer.

use vstd::prelude::*;
use crate::error::Error;
use crate::query::{Statement, StatementView};

verus! {

/// A row of the table of profiles: the identifier and the wrapped store key.
#[derive(Clone, Debug, PartialEq, Eq)]
pub struct ProfileRow {
    pub id: i64,
    pub store_key: Vec<u8>,
}

/// A request to the database, or the end of the operation.
#[derive(Debug, PartialEq, Eq)]
pub enum DbRequest {
    /// Begin a transaction. Answer: `Done`.
    Begin,
    /// Commit the transaction. Answer: `Done`.
    Commit,
    /// Roll the transaction back. Answer: `Done`.
    Rollback,
    /// Run a statement. Answer: `RowsAffected`.
    Execute(Statement),
    /// Run a statement that returns the identifier of a row. Answer: `RowId`.
    FetchId(Statement),
    /// Run a statement that returns rows of profiles. Answer: `Profiles`.
    FetchProfiles(Statement),
    /// The operation is over, with this result.
    Finish(Result<(), Error>),
}

/// The value of a request.
pub enum RequestView {
    Begin,
    Commit,
    Rollback,
    Execute(StatementView),
    FetchId(StatementView),
    FetchProfiles(StatementView),
    Finish(Result<(), Error>),
}

impl View for DbRequest {
    type V = RequestView;

    open spec fn view(&self) -> RequestView {
        match self {
            DbRequest::Begin => RequestView::Begin,
            DbRequest::Commit => RequestView::Commit,
            DbRequest::Rollback => RequestView::Rollback,
            DbRequest::Execute(s) => RequestView::Execute(s@),
            DbRequest::FetchId(s) => RequestView::FetchId(s@),
            DbRequest::FetchProfiles(s) => RequestView::FetchProfiles(s@),
            DbRequest::Finish(r) => RequestView::Finish(*r),
        }
    }
}

/// The answer of the database to a request.
#[derive(Debug, PartialEq, Eq)]
pub enum DbResponse {
    /// The request was carried out.
    Done,
    /// The statement ran and changed this many rows.
    RowsAffected(u64),
    /// The statement ran and returned this identifier, or no row.
    RowId(Option<i64>),
    /// The statement ran and returned these rows.
    Profiles(Vec<ProfileRow>),
    /// The request failed.
    Failed(Error),
}

} // verus!
