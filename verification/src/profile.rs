//! Profiles: how they are created, removed and resolved to their store keys,
//! and how the store keys of all profiles are wrapped anew under another
//! wrap key.

use vstd::prelude::*;
use vstd::string::*;
use crate::error::{Error, ErrorKind};
use crate::keys::{added, KeyCache, WrapKey};
use crate::protocol::{DbRequest, DbResponse, ProfileRow, RequestView};
use crate::query::{ParamView, QueryParam, QueryParams, Statement, StatementView};
use crate::text::clone_bytes;
use crate::types::ProfileId;

verus! {

pub const PROFILE_INSERT_QUERY: &'static str = "INSERT INTO profiles (name, store_key) VALUES ($1, $2)
                ON CONFLICT DO NOTHING RETURNING id";

pub const PROFILE_DELETE_QUERY: &'static str = "DELETE FROM profiles WHERE name=$1";

pub const PROFILE_SELECT_QUERY: &'static str = "SELECT id, store_key FROM profiles WHERE name=$1";

pub const PROFILES_QUERY: &'static str = "SELECT id, store_key FROM profiles";

pub const PROFILE_UPDATE_QUERY: &'static str = "UPDATE profiles SET store_key=$1 WHERE id=$2";

pub const CONFIG_UPDATE_QUERY: &'static str = "UPDATE config SET value=$1 WHERE name='wrap_key'";

fn text_statement(sql: &str, text: &str) -> (stmt: Statement)
    ensures
        stmt@ == (StatementView { sql: sql@, params: seq![ParamView::Text(text@)] }),
{
    let mut params = QueryParams::new();
    params.push(QueryParam::Text(String::from_str(text)));
    assert(params@ =~= seq![ParamView::Text(text@)]);
    Statement { sql: String::from_str(sql), params }
}

/// The statement that creates the profile `name` with the store key `key`,
/// wrapped under the wrap key of the cache. It returns the identifier of the
/// new profile, or no row where the name is taken.
pub fn create_profile_query<W: WrapKey<K>, K>(cache: &KeyCache<W, K>, name: &str, key: &K) -> (out:
    Result<Statement, Error>)
    ensures
        match out {
            Ok(stmt) => stmt.sql@ == PROFILE_INSERT_QUERY@ && stmt.params@.len() == 2
                && stmt.params@[0] == ParamView::Text(name@) && (stmt.params@[1] matches ParamView::Bytes(
                blob,
            ) && cache.spec_wrap_key().unwrapped(blob) == Some(*key)),
            Err(e) => e.kind == ErrorKind::Encryption,
        },
        cache.spec_wrap_key().wraps_always() ==> out is Ok,
{
    let blob = cache.wrap_key().wrap_key(key)?;
    let mut params = QueryParams::new();
    params.push(QueryParam::Text(String::from_str(name)));
    params.push(QueryParam::Bytes(blob));
    Ok(Statement { sql: String::from_str(PROFILE_INSERT_QUERY), params })
}

/// Takes the answer to the statement that creates a profile. With the
/// identifier of the new profile, the profile and its key go into the cache;
/// with no row, the name is taken and the profile is a `Duplicate`.
pub fn profile_created<W: WrapKey<K>, K>(
    cache: &mut KeyCache<W, K>,
    name: String,
    key: K,
    row: Option<ProfileId>,
) -> (out: Result<String, Error>)
    requires
        old(cache).well_formed(),
    ensures
        final(cache).well_formed(),
        final(cache).spec_wrap_key() == old(cache).spec_wrap_key(),
        match row {
            Some(profile_id) => out matches Ok(n) && n@ == name@ && final(cache).profiles()
                == added(old(cache).profiles(), name@, (profile_id, key)),
            None => out matches Err(e) && e.kind == ErrorKind::Duplicate && final(cache).profiles()
                == old(cache).profiles(),
        },
{
    match row {
        Some(profile_id) => {
            cache.add_profile(String::from_str(name.as_str()), profile_id, key);
            Ok(name)
        },
        None => Err(Error::new(ErrorKind::Duplicate)),
    }
}

/// The statement that removes the profile `name`.
pub fn remove_profile_query(name: &str) -> (stmt: Statement)
    ensures
        stmt@ == (StatementView { sql: PROFILE_DELETE_QUERY@, params: seq![ParamView::Text(name@)] }),
{
    text_statement(PROFILE_DELETE_QUERY, name)
}

/// Whether a profile was removed, from the number of rows removed.
pub fn profile_removed(rows_affected: u64) -> (removed: bool)
    ensures
        removed == (rows_affected != 0),
{
    rows_affected != 0
}

/// The statement that reads the identifier and the wrapped store key of the
/// profile `name`.
pub fn profile_query(name: &str) -> (stmt: Statement)
    ensures
        stmt@ == (StatementView { sql: PROFILE_SELECT_QUERY@, params: seq![ParamView::Text(name@)] }),
{
    text_statement(PROFILE_SELECT_QUERY, name)
}

/// Takes the answer to the statement that reads a profile which the cache
/// does not hold. The store key is unwrapped and goes into the cache with the
/// identifier, which is handed out. No row means that the profile is
/// `NotFound`; a store key that cannot be unwrapped is an `Encryption` error.
/// In both cases the cache stays as it is.
pub fn resolve_profile_key<W: WrapKey<K>, K>(
    cache: &mut KeyCache<W, K>,
    name: String,
    row: Option<&ProfileRow>,
) -> (out: Result<ProfileId, Error>)
    requires
        old(cache).well_formed(),
    ensures
        final(cache).well_formed(),
        final(cache).spec_wrap_key() == old(cache).spec_wrap_key(),
        match row {
            None => out matches Err(e) && e.kind == ErrorKind::NotFound && final(cache).profiles()
                == old(cache).profiles(),
            Some(r) => match old(cache).spec_wrap_key().unwrapped(r.store_key@) {
                None => out matches Err(e) && e.kind == ErrorKind::Encryption && final(cache).profiles() == old(cache).profiles(),
                Some(key) => final(cache).profiles() == added(
                    old(cache).profiles(),
                    name@,
                    (r.id, key),
                ) && out == Ok::<ProfileId, Error>(final(cache).profiles()[name@].0),
            },
        },
{
    match row {
        None => Err(Error::new(ErrorKind::NotFound)),
        Some(r) => {
            let key = cache.load_key(r.store_key.as_slice())?;
            let label = String::from_str(name.as_str());
            cache.add_profile(name, r.id, key);
            match cache.get_profile(label.as_str()) {
                Some((profile_id, _)) => Ok(profile_id),
                None => Err(Error::new(ErrorKind::NotFound)),
            }
        },
    }
}

/// A store key wrapped anew, to replace the one of the profile `profile_id`.
#[derive(Clone, Debug, PartialEq, Eq)]
pub struct KeyUpdate {
    pub profile_id: ProfileId,
    pub store_key: Vec<u8>,
}

/// Whether `after` holds under `new` the store key that `before` holds under `old`.
pub open spec fn rewraps<W: WrapKey<K>, K>(old: W, new: W, before: Seq<u8>, after: Seq<u8>) -> bool {
    old.unwrapped(before) is Some && new.unwrapped(after) == old.unwrapped(before)
}

/// Whether the updates are in the order of their profiles, none twice.
pub open spec fn ascending(updates: Seq<KeyUpdate>) -> bool {
    forall|i: int, j: int|
        0 <= i < j < updates.len() ==> updates[i].profile_id < updates[j].profile_id
}

/// Whether `update` is made from row `j`: the last row of its profile, whose
/// store key it holds wrapped anew.
pub open spec fn made_from<W: WrapKey<K>, K>(
    old: W,
    new: W,
    rows: Seq<ProfileRow>,
    j: int,
    update: KeyUpdate,
) -> bool {
    &&& 0 <= j < rows.len()
    &&& rows[j].id == update.profile_id
    &&& forall|l: int| j < l < rows.len() ==> rows[l].id != update.profile_id
    &&& rewraps(old, new, rows[j].store_key@, update.store_key@)
}

/// Whether `updates` are the store keys of `rows` wrapped anew: one update
/// for each profile among the rows, in the order of the profiles.
pub open spec fn rewrapped<W: WrapKey<K>, K>(
    old: W,
    new: W,
    rows: Seq<ProfileRow>,
    updates: Seq<KeyUpdate>,
) -> bool {
    &&& ascending(updates)
    &&& forall|k: int| 0 <= k < updates.len() ==> has_source(old, new, rows, #[trigger] updates[k])
    &&& forall|j: int| 0 <= j < rows.len() ==> has_update(updates, #[trigger] rows[j])
}

/// Whether `update` is made from one of the rows.
pub open spec fn has_source<W: WrapKey<K>, K>(
    old: W,
    new: W,
    rows: Seq<ProfileRow>,
    update: KeyUpdate,
) -> bool {
    exists|j: int| made_from(old, new, rows, j, update)
}

/// Whether there is an update for the profile of `row`.
pub open spec fn has_update(updates: Seq<KeyUpdate>, row: ProfileRow) -> bool {
    exists|k: int| 0 <= k < updates.len() && #[trigger] updates[k].profile_id == row.id
}

/// Puts an update in its place among updates in the order of their profiles;
/// an update of the same profile is replaced.
fn place_update(updates: &mut Vec<KeyUpdate>, update: KeyUpdate) -> (at: (usize, bool))
    requires
        ascending(old(updates)@),
    ensures
        ascending(final(updates)@),
        at.0 <= old(updates)@.len(),
        at.0 < final(updates)@.len(),
        final(updates)@[at.0 as int] == update,
        at.1 ==> old(updates)@.len() == final(updates)@.len() && old(updates)@[at.0 as int].profile_id
            == update.profile_id && final(updates)@ == old(updates)@.update(at.0 as int, update),
        !at.1 ==> final(updates)@ == old(updates)@.insert(at.0 as int, update) && forall|k: int|
            0 <= k < old(updates)@.len() ==> old(updates)@[k].profile_id != update.profile_id,
{
    let mut k: usize = 0;
    while k < updates.len() && updates[k].profile_id < update.profile_id
        invariant
            k <= updates@.len(),
            updates@ == old(updates)@,
            forall|i: int| 0 <= i < k ==> updates@[i].profile_id < update.profile_id,
        decreases updates@.len() - k,
    {
        k += 1;
    }
    if k < updates.len() && updates[k].profile_id == update.profile_id {
        updates.remove(k);
        updates.insert(k, update);
        assert(updates@ =~= old(updates)@.update(k as int, update));
        (k, true)
    } else {
        updates.insert(k, update);
        (k, false)
    }
}

/// Wraps the store keys of the profiles anew: each row is unwrapped under
/// `old` and wrapped under `new`. Where a store key cannot be unwrapped, or
/// the wrapping fails, nothing is handed out but an `Encryption` error.
pub fn rewrap_profiles<W: WrapKey<K>, K>(old: &W, new: &W, rows: &[ProfileRow]) -> (out: Result<
    Vec<KeyUpdate>,
    Error,
>)
    ensures
        match out {
            Ok(updates) => rewrapped(*old, *new, rows@, updates@),
            Err(e) => e.kind == ErrorKind::Encryption,
        },
        (exists|j: int| 0 <= j < rows@.len() && old.unwrapped(rows@[j].store_key@) is None)
            ==> out is Err,
        new.wraps_always() && (forall|j: int|
            0 <= j < rows@.len() ==> old.unwrapped((#[trigger] rows@[j]).store_key@) is Some)
            ==> out is Ok,
{
    let mut updates: Vec<KeyUpdate> = Vec::new();
    let mut i: usize = 0;
    let ghost mut origin: Seq<int> = Seq::empty();
    while i < rows.len()
        invariant
            i <= rows@.len(),
            ascending(updates@),
            origin.len() == updates@.len(),
            forall|k: int|
                0 <= k < updates@.len() ==> made_from(
                    *old,
                    *new,
                    rows@.take(i as int),
                    #[trigger] origin[k],
                    updates@[k],
                ),
            forall|j: int| 0 <= j < i ==> has_update(updates@, #[trigger] rows@[j]),
            forall|j: int| 0 <= j < i ==> old.unwrapped((#[trigger] rows@[j]).store_key@) is Some,
        decreases rows@.len() - i,
    {
        let key = old.unwrap_key(rows[i].store_key.as_slice())?;
        let blob = new.wrap_key(&key)?;
        let ghost before = updates@;
        let ghost before_origin = origin;
        let update = KeyUpdate { profile_id: rows[i].id, store_key: blob };
        let at = place_update(&mut updates, update);
        proof {
            let shorter = rows@.take(i as int);
            let longer = rows@.take(i + 1);
            let pos = at.0 as int;
            assert(before_origin.len() == before.len());
            if at.1 {
                origin = before_origin.update(pos, i as int);
            } else {
                before.insert_ensures(pos, update);
                before_origin.insert_ensures(pos, i as int);
                origin = before_origin.insert(pos, i as int);
            }
            assert forall|k: int| 0 <= k < updates@.len() implies made_from(
                *old,
                *new,
                longer,
                #[trigger] origin[k],
                updates@[k],
            ) by {
                if k == pos {
                    assert(longer[i as int] == rows@[i as int]);
                } else {
                    let before_k = if at.1 || k < pos {
                        k
                    } else {
                        k - 1
                    };
                    assert(updates@[k] == before[before_k]);
                    assert(origin[k] == before_origin[before_k]);
                    assert(made_from(*old, *new, shorter, before_origin[before_k], before[before_k]));
                    let j = before_origin[before_k];
                    assert(longer[j] == shorter[j]);
                    assert(before[before_k].profile_id != rows@[i as int].id) by {
                        if at.1 {
                            if before_k < pos {
                                assert(before[before_k].profile_id < before[pos].profile_id);
                            } else {
                                assert(before[pos].profile_id < before[before_k].profile_id);
                            }
                        }
                    }
                    assert forall|l: int| j < l < longer.len() implies longer[l].id
                        != updates@[k].profile_id by {
                        if l < i {
                            assert(longer[l] == shorter[l]);
                        }
                    }
                }
            }
            assert forall|j: int| 0 <= j < i + 1 implies has_update(
                updates@,
                #[trigger] rows@[j],
            ) by {
                if j == i {
                    assert(updates@[pos].profile_id == rows@[j].id);
                } else {
                    assert(has_update(before, rows@[j]));
                    let k0 = choose|k: int|
                        0 <= k < before.len() && #[trigger] before[k].profile_id == rows@[j].id;
                    let k1 = if at.1 || k0 < pos {
                        k0
                    } else {
                        k0 + 1
                    };
                    assert(updates@[k1].profile_id == rows@[j].id);
                }
            }
        }
        i += 1;
    }
    proof {
        assert(rows@.take(i as int) =~= rows@);
        assert forall|k: int| 0 <= k < updates@.len() implies has_source(
            *old,
            *new,
            rows@,
            #[trigger] updates@[k],
        ) by {
            assert(made_from(*old, *new, rows@, origin[k], updates@[k]));
        }
    }
    Ok(updates)
}

/// Wrapping twice is wrapping once: a store key that was wrapped anew under
/// one wrap key and then under another is the store key that it was at first.
pub proof fn lemma_rewraps_twice<W: WrapKey<K>, K>(
    first: W,
    second: W,
    third: W,
    a: Seq<u8>,
    b: Seq<u8>,
    c: Seq<u8>,
)
    requires
        rewraps(first, second, a, b),
        rewraps(second, third, b, c),
    ensures
        rewraps(first, third, a, c),
{
}

/// How far a rekey has come.
#[derive(Clone, Copy, Debug, PartialEq, Eq, Structural)]
pub enum RekeyPhase {
    /// Nothing was asked yet.
    Start,
    /// The transaction is being opened.
    Beginning,
    /// The profiles are being read and their store keys wrapped anew.
    Loading,
    /// The store key of the profile at this position is being replaced.
    Updating(usize),
    /// The reference to the wrap key is being replaced.
    Configuring,
    /// The transaction is being committed.
    Committing,
    /// The transaction is being rolled back after this error.
    RollingBack(Error),
    /// The result was handed out.
    Finished,
}

/// What a rekey takes in: the answer of the database to its last request, or,
/// after the profiles were read, their store keys wrapped anew.
#[derive(Debug, PartialEq, Eq)]
pub enum RekeyInput {
    Answer(DbResponse),
    Rewrapped(Result<Vec<KeyUpdate>, Error>),
}

/// The statement that replaces the store key of a profile.
pub open spec fn key_update_statement(update: KeyUpdate) -> StatementView {
    StatementView {
        sql: PROFILE_UPDATE_QUERY@,
        params: seq![ParamView::Bytes(update.store_key@), ParamView::Int(update.profile_id)],
    }
}

/// The statement that replaces the reference to the wrap key.
pub open spec fn config_statement(uri: Seq<char>) -> StatementView {
    StatementView { sql: CONFIG_UPDATE_QUERY@, params: seq![ParamView::Text(uri)] }
}

/// The statement that reads all profiles.
pub open spec fn profiles_statement() -> StatementView {
    StatementView { sql: PROFILES_QUERY@, params: Seq::empty() }
}

/// The replacement of the wrap key of a store: within one transaction, the
/// store key of every profile is replaced by the same key wrapped anew, and
/// then the reference to the wrap key. Each replacement must change exactly
/// one row. Any failure rolls the transaction back.
#[derive(Debug, PartialEq, Eq)]
pub struct Rekey {
    pub uri: String,
    pub updates: Vec<KeyUpdate>,
    pub phase: RekeyPhase,
}

impl Rekey {
    /// The invariant of a rekey: the store key that is being replaced is one
    /// of those to replace.
    pub open spec fn well_formed(self) -> bool {
        self.phase matches RekeyPhase::Updating(i) ==> i < self.updates@.len()
    }

    /// The same rekey at another point.
    pub open spec fn at(self, phase: RekeyPhase, updates: Vec<KeyUpdate>) -> Rekey {
        Rekey { phase, updates, ..self }
    }

    pub open spec fn finish(self, result: Result<(), Error>) -> (
        RekeyPhase,
        Vec<KeyUpdate>,
        RequestView,
    ) {
        (RekeyPhase::Finished, self.updates, RequestView::Finish(result))
    }

    pub open spec fn fail(self, error: Error) -> (RekeyPhase, Vec<KeyUpdate>, RequestView) {
        (RekeyPhase::RollingBack(error), self.updates, RequestView::Rollback)
    }

    /// With the first `i` of `updates` made: the next one, or the
    /// replacement of the reference to the wrap key.
    pub open spec fn update_or_config(self, updates: Vec<KeyUpdate>, i: int) -> (
        RekeyPhase,
        Vec<KeyUpdate>,
        RequestView,
    ) {
        if 0 <= i < updates@.len() {
            (
                RekeyPhase::Updating(i as usize),
                updates,
                RequestView::Execute(key_update_statement(updates@[i])),
            )
        } else {
            (RekeyPhase::Configuring, updates, RequestView::Execute(config_statement(self.uri@)))
        }
    }

    /// What a failed request, or an answer of the wrong sort, counts as.
    pub open spec fn failure(input: RekeyInput) -> Error {
        match input {
            RekeyInput::Answer(DbResponse::Failed(e)) => e,
            RekeyInput::Rewrapped(Err(e)) => e,
            _ => Error { kind: ErrorKind::Backend },
        }
    }

    /// The step of the rekey: from where it stands and what it takes in, to
    /// where it stands next, the store keys to replace, and its next request.
    pub open spec fn step(self, input: RekeyInput) -> (RekeyPhase, Vec<KeyUpdate>, RequestView) {
        match self.phase {
            RekeyPhase::Start => (RekeyPhase::Beginning, self.updates, RequestView::Begin),
            RekeyPhase::Beginning => match input {
                RekeyInput::Answer(DbResponse::Done) => (
                    RekeyPhase::Loading,
                    self.updates,
                    RequestView::FetchProfiles(profiles_statement()),
                ),
                _ => self.finish(Err(Self::failure(input))),
            },
            RekeyPhase::Loading => match input {
                RekeyInput::Rewrapped(Ok(updates)) => self.update_or_config(updates, 0),
                _ => self.fail(Self::failure(input)),
            },
            RekeyPhase::Updating(i) => match input {
                RekeyInput::Answer(DbResponse::RowsAffected(n)) => if n == 1 {
                    self.update_or_config(self.updates, i + 1)
                } else {
                    self.fail(Error { kind: ErrorKind::Backend })
                },
                _ => self.fail(Self::failure(input)),
            },
            RekeyPhase::Configuring => match input {
                RekeyInput::Answer(DbResponse::RowsAffected(n)) => if n == 1 {
                    (RekeyPhase::Committing, self.updates, RequestView::Commit)
                } else {
                    self.fail(Error { kind: ErrorKind::Backend })
                },
                _ => self.fail(Self::failure(input)),
            },
            RekeyPhase::Committing => match input {
                RekeyInput::Answer(DbResponse::Done) => self.finish(Ok(())),
                _ => self.finish(Err(Self::failure(input))),
            },
            RekeyPhase::RollingBack(e) => self.finish(Err(e)),
            RekeyPhase::Finished => self.finish(Err(Error { kind: ErrorKind::Backend })),
        }
    }

    /// A rekey that is to leave `uri` as the reference to the new wrap key.
    pub fn new(uri: String) -> (rekey: Rekey)
        ensures
            rekey.well_formed(),
            rekey.uri == uri,
            rekey.updates@.len() == 0,
            rekey.phase is Start,
    {
        Rekey { uri, updates: Vec::new(), phase: RekeyPhase::Start }
    }

    fn failure_of(input: RekeyInput) -> (e: Error)
        ensures
            e == Self::failure(input),
    {
        match input {
            RekeyInput::Answer(DbResponse::Failed(e)) => e,
            RekeyInput::Rewrapped(Err(e)) => e,
            _ => Error::new(ErrorKind::Backend),
        }
    }

    fn finish_with(&mut self, result: Result<(), Error>) -> (req: DbRequest)
        ensures
            *final(self) == old(self).at(RekeyPhase::Finished, old(self).updates),
            req@ == RequestView::Finish(result),
    {
        self.phase = RekeyPhase::Finished;
        DbRequest::Finish(result)
    }

    fn fail_with(&mut self, error: Error) -> (req: DbRequest)
        ensures
            *final(self) == old(self).at(RekeyPhase::RollingBack(error), old(self).updates),
            req@ == RequestView::Rollback,
    {
        self.phase = RekeyPhase::RollingBack(error);
        DbRequest::Rollback
    }

    fn update_or_end(&mut self, i: usize) -> (req: DbRequest)
        ensures
            *final(self) == old(self).at(
                old(self).update_or_config(old(self).updates, i as int).0,
                old(self).updates,
            ),
            req@ == old(self).update_or_config(old(self).updates, i as int).2,
    {
        if i < self.updates.len() {
            self.phase = RekeyPhase::Updating(i);
            let mut params = QueryParams::new();
            params.push(QueryParam::Bytes(clone_bytes(&self.updates[i].store_key)));
            params.push(QueryParam::Int(self.updates[i].profile_id));
            assert(params@ =~= key_update_statement(self.updates@[i as int]).params);
            DbRequest::Execute(Statement { sql: String::from_str(PROFILE_UPDATE_QUERY), params })
        } else {
            self.phase = RekeyPhase::Configuring;
            DbRequest::Execute(text_statement(CONFIG_UPDATE_QUERY, self.uri.as_str()))
        }
    }

    fn on_loading(&mut self, input: RekeyInput) -> (req: DbRequest)
        requires
            old(self).phase is Loading,
        ensures
            *final(self) == old(self).at(old(self).step(input).0, old(self).step(input).1),
            req@ == old(self).step(input).2,
    {
        match input {
            RekeyInput::Rewrapped(Ok(updates)) => {
                self.updates = updates;
                self.update_or_end(0)
            },
            other => {
                let e = Self::failure_of(other);
                self.fail_with(e)
            },
        }
    }

    fn on_updating(&mut self, i: usize, input: RekeyInput) -> (req: DbRequest)
        requires
            old(self).phase == RekeyPhase::Updating(i),
            i < old(self).updates@.len(),
        ensures
            *final(self) == old(self).at(old(self).step(input).0, old(self).step(input).1),
            req@ == old(self).step(input).2,
    {
        match input {
            RekeyInput::Answer(DbResponse::RowsAffected(n)) => {
                if n == 1 {
                    let len = self.updates.len();
                    assert(i < len);
                    self.update_or_end(i + 1)
                } else {
                    self.fail_with(Error::new(ErrorKind::Backend))
                }
            },
            other => {
                let e = Self::failure_of(other);
                self.fail_with(e)
            },
        }
    }

    fn on_configuring(&mut self, input: RekeyInput) -> (req: DbRequest)
        requires
            old(self).phase is Configuring,
        ensures
            *final(self) == old(self).at(old(self).step(input).0, old(self).step(input).1),
            req@ == old(self).step(input).2,
    {
        match input {
            RekeyInput::Answer(DbResponse::RowsAffected(n)) => {
                if n == 1 {
                    self.phase = RekeyPhase::Committing;
                    DbRequest::Commit
                } else {
                    self.fail_with(Error::new(ErrorKind::Backend))
                }
            },
            other => {
                let e = Self::failure_of(other);
                self.fail_with(e)
            },
        }
    }

    fn on_edge(&mut self, input: RekeyInput) -> (req: DbRequest)
        requires
            old(self).phase is Beginning || old(self).phase is Committing,
        ensures
            *final(self) == old(self).at(old(self).step(input).0, old(self).step(input).1),
            req@ == old(self).step(input).2,
    {
        match input {
            RekeyInput::Answer(DbResponse::Done) => match self.phase {
                RekeyPhase::Beginning => {
                    self.phase = RekeyPhase::Loading;
                    let params = QueryParams::new();
                    DbRequest::FetchProfiles(
                        Statement { sql: String::from_str(PROFILES_QUERY), params },
                    )
                },
                _ => self.finish_with(Ok(())),
            },
            other => {
                let e = Self::failure_of(other);
                self.finish_with(Err(e))
            },
        }
    }

    /// Takes the answer to the last request and hands out the next one. The
    /// first call, which has no request before it, takes any answer. The
    /// request to read the profiles is answered with their store keys wrapped
    /// anew. Once the result was handed out, every further call hands out a
    /// failure.
    pub fn next(&mut self, input: RekeyInput) -> (req: DbRequest)
        requires
            old(self).well_formed(),
        ensures
            final(self).well_formed(),
            *final(self) == old(self).at(old(self).step(input).0, old(self).step(input).1),
            req@ == old(self).step(input).2,
    {
        match self.phase {
            RekeyPhase::Start => {
                self.phase = RekeyPhase::Beginning;
                DbRequest::Begin
            },
            RekeyPhase::Beginning => self.on_edge(input),
            RekeyPhase::Loading => self.on_loading(input),
            RekeyPhase::Updating(i) => self.on_updating(i, input),
            RekeyPhase::Configuring => self.on_configuring(input),
            RekeyPhase::Committing => self.on_edge(input),
            RekeyPhase::RollingBack(e) => self.finish_with(Err(e)),
            RekeyPhase::Finished => self.finish_with(Err(Error::new(ErrorKind::Backend))),
        }
    }
}

/// Ends a rekey: where it succeeded, the cache is replaced by an empty one
/// that holds the new wrap key; where it failed, the cache stays as it is.
pub fn finish_rekey<W: WrapKey<K>, K>(
    cache: &mut KeyCache<W, K>,
    new_key: W,
    result: Result<(), Error>,
) -> (out: Result<(), Error>)
    requires
        old(cache).well_formed(),
    ensures
        out == result,
        final(cache).well_formed(),
        match result {
            Ok(()) => final(cache).spec_wrap_key() == new_key && final(cache).profiles()
                == Map::<Seq<char>, (ProfileId, K)>::empty(),
            Err(_) => final(cache).spec_wrap_key() == old(cache).spec_wrap_key() && final(cache).profiles() == old(cache).profiles(),
        },
{
    if result.is_ok() {
        *cache = KeyCache::new(new_key);
    }
    result
}

/// The number of requests that a rekey may still make, at most, once the
/// store keys were wrapped anew.
pub open spec fn rekey_remaining(r: Rekey) -> int {
    match r.phase {
        RekeyPhase::Updating(i) => r.updates@.len() - i + 4,
        RekeyPhase::Configuring => 3,
        RekeyPhase::Committing => 1,
        RekeyPhase::RollingBack(_) => 1,
        RekeyPhase::Finished => 0,
        _ => r.updates@.len() as int + 5,
    }
}

/// The rekey after one step.
pub open spec fn rekey_after(r: Rekey, input: RekeyInput) -> Rekey {
    r.at(r.step(input).0, r.step(input).1)
}

/// Once the store keys were wrapped anew, every step brings a rekey closer
/// to its end, whatever the database answers; and a rekey hands out its
/// result exactly when it ends.
pub proof fn lemma_rekey_ends(r: Rekey, input: RekeyInput)
    requires
        r.well_formed(),
        r.phase is Updating || r.phase is Configuring || r.phase is Committing
            || r.phase is RollingBack,
    ensures
        rekey_after(r, input).well_formed(),
        0 <= rekey_remaining(rekey_after(r, input)) < rekey_remaining(r),
        r.step(input).2 is Finish <==> rekey_after(r, input).phase is Finished,
{
    assert(r.updates.len() == r.updates@.len());
}

/// A rekey commits only after the store key of every profile and the
/// reference to the wrap key were replaced, each in exactly one row; and
/// after any failure it makes no further statement, but rolls back.
pub proof fn lemma_rekey_commit(r: Rekey, input: RekeyInput)
    requires
        r.well_formed(),
    ensures
        r.step(input).2 is Commit ==> r.phase is Configuring && input == RekeyInput::Answer(
            DbResponse::RowsAffected(1),
        ),
        r.step(input).0 is Configuring ==> (r.phase is Loading && r.step(input).1@.len() == 0) || (
        r.phase matches RekeyPhase::Updating(i) && i + 1 == r.updates@.len() && input
            == RekeyInput::Answer(DbResponse::RowsAffected(1))),
        r.phase matches RekeyPhase::RollingBack(e) ==> r.step(input).2 == RequestView::Finish(
            Err(e),
        ),
        (r.phase is Loading || r.phase is Updating || r.phase is Configuring) && (input
            is Answer && input->Answer_0 is Failed) ==> r.step(input).2 == RequestView::Rollback
            && r.step(input).0 == RekeyPhase::RollingBack(input->Answer_0->Failed_0),
{
    assert(r.updates.len() == r.updates@.len());
}

} // verus!
