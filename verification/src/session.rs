//! The life of a session: from pending, to active on a connection, to closed.
//!
//! A session starts without a connection. The first operation that needs the
//! database makes it active: a connection is acquired and the profile of the
//! session is resolved to its identifier and store key. A session opened as
//! transactional is active within a transaction from then on. Closing commits
//! or rolls back an open transaction and gives the connection back.

use vstd::prelude::*;
use crate::types::ProfileId;

verus! {

/// Where a session stands.
#[derive(Clone, Copy, Debug, PartialEq, Eq, Structural)]
pub enum SessionState {
    /// No connection has been acquired.
    Pending,
    /// A connection is held; no transaction is open.
    Active,
    /// A connection is held and a transaction is open on it.
    ActiveTxn,
    /// Closed from `Active`: the connection was given back.
    Released,
    /// Closed without a commit: from `Pending`, or from `ActiveTxn` by a rollback.
    Dropped,
    /// Closed from `ActiveTxn` by a commit.
    Committed,
}

impl SessionState {
    /// Whether a session in this state holds a connection.
    pub open spec fn holds_connection(self) -> bool {
        self is Active || self is ActiveTxn
    }

    /// Whether a session in this state is closed.
    pub open spec fn is_closed(self) -> bool {
        self is Released || self is Dropped || self is Committed
    }
}

/// What is to be done with the connection of a session that closes.
#[derive(Clone, Copy, Debug, PartialEq, Eq, Structural)]
pub enum CloseAction {
    /// There is no connection.
    Nothing,
    /// Give the connection back to the pool.
    Release,
    /// Commit the transaction, then give the connection back.
    Commit,
    /// Roll the transaction back, then give the connection back.
    Rollback,
}

/// What a session needs before an operation can use the database.
#[derive(Clone, Copy, Debug, PartialEq, Eq, Structural)]
pub enum Activation {
    /// The session is active.
    Ready,
    /// Acquire a connection, begin a transaction on it if `begin` is set,
    /// resolve the profile, then call `activate`.
    Acquire { begin: bool },
    /// The session is closed and cannot be used.
    Closed,
}

/// The state that closing leads to, and what is to be done with the connection.
pub open spec fn close_step(state: SessionState, commit: bool) -> (SessionState, CloseAction) {
    match state {
        SessionState::Pending => (SessionState::Dropped, CloseAction::Nothing),
        SessionState::Active => (SessionState::Released, CloseAction::Release),
        SessionState::ActiveTxn => if commit {
            (SessionState::Committed, CloseAction::Commit)
        } else {
            (SessionState::Dropped, CloseAction::Rollback)
        },
        SessionState::Released => (SessionState::Released, CloseAction::Nothing),
        SessionState::Dropped => (SessionState::Dropped, CloseAction::Nothing),
        SessionState::Committed => (SessionState::Committed, CloseAction::Nothing),
    }
}

/// The profile that an active session works on.
pub struct ActiveProfile<K> {
    pub profile_id: ProfileId,
    pub key: K,
}

/// A session on one profile of a store.
pub struct DbSession<K> {
    profile: String,
    transaction: bool,
    state: SessionState,
    active: Option<ActiveProfile<K>>,
}

impl<K> DbSession<K> {
    /// The invariant of a session: it knows the identifier and key of its
    /// profile exactly while it holds a connection, and a transaction is open
    /// only in a session that was opened as transactional.
    pub closed spec fn well_formed(&self) -> bool {
        &&& self.state.holds_connection() <==> self.active is Some
        &&& self.state is ActiveTxn ==> self.transaction
        &&& self.state is Active ==> !self.transaction
    }

    /// The state of the session.
    pub closed spec fn spec_state(&self) -> SessionState {
        self.state
    }

    /// The name of the profile of the session.
    pub closed spec fn spec_profile(&self) -> Seq<char> {
        self.profile@
    }

    /// Whether the session was opened as transactional.
    pub closed spec fn spec_transaction(&self) -> bool {
        self.transaction
    }

    /// The identifier and store key of the profile, once the session is active.
    pub closed spec fn spec_profile_and_key(&self) -> Option<(ProfileId, K)> {
        match self.active {
            Some(a) => Some((a.profile_id, a.key)),
            None => None,
        }
    }

    /// A pending session on `profile`.
    pub fn new(profile: String, transaction: bool) -> (session: Self)
        ensures
            session.well_formed(),
            session.spec_state() == SessionState::Pending,
            session.spec_profile() == profile@,
            session.spec_transaction() == transaction,
            session.spec_profile_and_key() is None,
    {
        DbSession { profile, transaction, state: SessionState::Pending, active: None }
    }

    /// The state of the session.
    pub fn state(&self) -> (s: SessionState)
        ensures
            s == self.spec_state(),
    {
        self.state
    }

    /// The name of the profile of the session.
    pub fn profile_name(&self) -> (name: &str)
        ensures
            name@ == self.spec_profile(),
    {
        self.profile.as_str()
    }

    /// Whether the session was opened as transactional.
    pub fn is_transaction(&self) -> (t: bool)
        ensures
            t == self.spec_transaction(),
    {
        self.transaction
    }

    /// Whether a transaction is open on the connection of the session.
    pub fn in_transaction(&self) -> (t: bool)
        ensures
            t == (self.spec_state() is ActiveTxn),
    {
        match self.state {
            SessionState::ActiveTxn => true,
            _ => false,
        }
    }

    /// The identifier and store key of the profile, once the session is active.
    pub fn profile_and_key(&self) -> (out: Option<(ProfileId, &K)>)
        requires
            self.well_formed(),
        ensures
            match out {
                Some((profile_id, key)) => self.spec_profile_and_key() == Some((profile_id, *key)),
                None => self.spec_profile_and_key() is None,
            },
            out is Some <==> self.spec_state().holds_connection(),
    {
        match &self.active {
            Some(a) => Some((a.profile_id, &a.key)),
            None => None,
        }
    }

    /// What the session needs before an operation can use the database.
    pub fn activation(&self) -> (out: Activation)
        ensures
            out == (match self.spec_state() {
                SessionState::Pending => Activation::Acquire { begin: self.spec_transaction() },
                SessionState::Active => Activation::Ready,
                SessionState::ActiveTxn => Activation::Ready,
                _ => Activation::Closed,
            }),
    {
        match self.state {
            SessionState::Pending => Activation::Acquire { begin: self.transaction },
            SessionState::Active => Activation::Ready,
            SessionState::ActiveTxn => Activation::Ready,
            _ => Activation::Closed,
        }
    }

    /// Makes a pending session active on the profile that was resolved for it.
    /// A session in any other state is left as it is.
    pub fn activate(&mut self, profile_id: ProfileId, key: K) -> (done: bool)
        requires
            old(self).well_formed(),
        ensures
            final(self).well_formed(),
            final(self).spec_profile() == old(self).spec_profile(),
            final(self).spec_transaction() == old(self).spec_transaction(),
            done == (old(self).spec_state() is Pending),
            done ==> final(self).spec_state() == (if old(self).spec_transaction() {
                SessionState::ActiveTxn
            } else {
                SessionState::Active
            }) && final(self).spec_profile_and_key() == Some((profile_id, key)),
            !done ==> final(self).spec_state() == old(self).spec_state(),
            !done ==> final(self).spec_profile_and_key() == old(self).spec_profile_and_key(),
    {
        match self.state {
            SessionState::Pending => {
                self.active = Some(ActiveProfile { profile_id, key });
                self.state = if self.transaction {
                    SessionState::ActiveTxn
                } else {
                    SessionState::Active
                };
                true
            },
            _ => false,
        }
    }

    /// Closes the session and says what is to be done with its connection. A
    /// session that is dropped without a call of `close` is to be closed
    /// without a commit.
    pub fn close(&mut self, commit: bool) -> (action: CloseAction)
        requires
            old(self).well_formed(),
        ensures
            final(self).well_formed(),
            (final(self).spec_state(), action) == close_step(old(self).spec_state(), commit),
            final(self).spec_profile() == old(self).spec_profile(),
            final(self).spec_transaction() == old(self).spec_transaction(),
            final(self).spec_profile_and_key() is None,
    {
        let (state, action) = match self.state {
            SessionState::Pending => (SessionState::Dropped, CloseAction::Nothing),
            SessionState::Active => (SessionState::Released, CloseAction::Release),
            SessionState::ActiveTxn => if commit {
                (SessionState::Committed, CloseAction::Commit)
            } else {
                (SessionState::Dropped, CloseAction::Rollback)
            },
            SessionState::Released => (SessionState::Released, CloseAction::Nothing),
            SessionState::Dropped => (SessionState::Dropped, CloseAction::Nothing),
            SessionState::Committed => (SessionState::Committed, CloseAction::Nothing),
        };
        self.state = state;
        self.active = None;
        action
    }
}

/// Closing ends every session without a connection, and stays closed: a
/// second close does nothing. A transaction is committed only where the
/// close asks for it; in every other case an open transaction is rolled back.
pub proof fn lemma_close(state: SessionState, commit: bool)
    ensures
        close_step(state, commit).0.is_closed(),
        !close_step(state, commit).0.holds_connection(),
        close_step(close_step(state, commit).0, commit) == (
            close_step(state, commit).0,
            CloseAction::Nothing,
        ),
        close_step(state, commit).1 is Commit <==> (state is ActiveTxn && commit),
        close_step(state, commit).1 is Rollback <==> (state is ActiveTxn && !commit),
        state.holds_connection() <==> !(close_step(state, commit).1 is Nothing),
{
}

} // verus!
