//! Insert, replace and remove: the statements of an update and their order.

use vstd::prelude::*;
use vstd::string::*;
use crate::error::{Error, ErrorKind};
use crate::keys::{encrypt_entry_tags, tags_cipher, EntryEncryptor, Field};
use crate::postgres::{DELETE_QUERY, INSERT_QUERY, TAG_INSERT_QUERY};
use crate::protocol::{DbRequest, DbResponse, RequestView};
use crate::query::{ParamView, QueryParam, QueryParams, Statement, StatementView, Timestamp};
use crate::text::clone_bytes;
use crate::types::{
    views, EncEntryTag, EncTagView, EntryKind, EntryOperation, EntryTag, ProfileId, TagView,
};

verus! {

/// The point in time that lies `expiry_ms` milliseconds after the Unix epoch.
pub open spec fn spec_expiry(expiry_ms: i64) -> Timestamp {
    Timestamp {
        secs: (expiry_ms as int / 1000) as i64,
        nanos: ((expiry_ms as int % 1000) * 1_000_000) as u32,
    }
}

/// Converts an expiry in milliseconds since the Unix epoch to a timestamp.
pub fn expiry_timestamp(expiry_ms: i64) -> (t: Timestamp)
    ensures
        t == spec_expiry(expiry_ms),
        t.secs * 1000 + t.nanos / 1_000_000 == expiry_ms,
        t.nanos % 1_000_000 == 0,
        t.nanos < 1_000_000_000,
{
    if expiry_ms >= 0 {
        let ms = expiry_ms as u64;
        Timestamp { secs: (ms / 1000) as i64, nanos: ((ms % 1000) as u32) * 1_000_000 }
    } else {
        // the distance below zero, which fits for every negative value
        let below: u64 = if expiry_ms == i64::MIN {
            9_223_372_036_854_775_808u64
        } else {
            (-expiry_ms) as u64
        };
        let whole = below / 1000;
        let part = below % 1000;
        if part == 0 {
            Timestamp { secs: -(whole as i64), nanos: 0 }
        } else {
            Timestamp { secs: -(whole as i64) - 1, nanos: ((1000 - part) as u32) * 1_000_000 }
        }
    }
}

/// The statement that inserts an entry and returns the identifier of its row,
/// or no row where the entry exists already.
pub open spec fn insert_statement(
    profile_id: ProfileId,
    kind: EntryKind,
    enc_category: Seq<u8>,
    enc_name: Seq<u8>,
    enc_value: Seq<u8>,
    expiry: Option<Timestamp>,
) -> StatementView {
    StatementView {
        sql: INSERT_QUERY@,
        params: seq![
            ParamView::Int(profile_id),
            ParamView::SmallInt(kind.spec_code()),
            ParamView::Bytes(enc_category),
            ParamView::Bytes(enc_name),
            ParamView::Bytes(enc_value),
            ParamView::OptTimestamp(expiry),
        ],
    }
}

/// The statement that removes an entry.
pub open spec fn delete_statement(
    profile_id: ProfileId,
    kind: EntryKind,
    enc_category: Seq<u8>,
    enc_name: Seq<u8>,
) -> StatementView {
    StatementView {
        sql: DELETE_QUERY@,
        params: seq![
            ParamView::Int(profile_id),
            ParamView::SmallInt(kind.spec_code()),
            ParamView::Bytes(enc_category),
            ParamView::Bytes(enc_name),
        ],
    }
}

/// The statement that inserts one tag of the entry in row `row_id`.
pub open spec fn tag_statement(row_id: i64, tag: EncTagView) -> StatementView {
    StatementView {
        sql: TAG_INSERT_QUERY@,
        params: seq![
            ParamView::Int(row_id),
            ParamView::Bytes(tag.name),
            ParamView::Bytes(tag.value),
            ParamView::SmallInt(
                if tag.plaintext {
                    1
                } else {
                    0
                },
            ),
        ],
    }
}

/// Builds the statement that inserts an entry.
pub fn insert_query(
    profile_id: ProfileId,
    kind: EntryKind,
    enc_category: &Vec<u8>,
    enc_name: &Vec<u8>,
    enc_value: &Vec<u8>,
    expiry: Option<Timestamp>,
) -> (stmt: Statement)
    ensures
        stmt@ == insert_statement(profile_id, kind, enc_category@, enc_name@, enc_value@, expiry),
{
    let mut params = QueryParams::new();
    params.push(QueryParam::Int(profile_id));
    params.push(QueryParam::SmallInt(kind.code()));
    params.push(QueryParam::Bytes(clone_bytes(enc_category)));
    params.push(QueryParam::Bytes(clone_bytes(enc_name)));
    params.push(QueryParam::Bytes(clone_bytes(enc_value)));
    params.push(QueryParam::OptTimestamp(expiry));
    assert(params@ =~= insert_statement(
        profile_id,
        kind,
        enc_category@,
        enc_name@,
        enc_value@,
        expiry,
    ).params);
    Statement { sql: String::from_str(INSERT_QUERY), params }
}

/// Builds the statement that removes an entry.
pub fn delete_query(
    profile_id: ProfileId,
    kind: EntryKind,
    enc_category: &Vec<u8>,
    enc_name: &Vec<u8>,
) -> (stmt: Statement)
    ensures
        stmt@ == delete_statement(profile_id, kind, enc_category@, enc_name@),
{
    let mut params = QueryParams::new();
    params.push(QueryParam::Int(profile_id));
    params.push(QueryParam::SmallInt(kind.code()));
    params.push(QueryParam::Bytes(clone_bytes(enc_category)));
    params.push(QueryParam::Bytes(clone_bytes(enc_name)));
    assert(params@ =~= delete_statement(profile_id, kind, enc_category@, enc_name@).params);
    Statement { sql: String::from_str(DELETE_QUERY), params }
}

/// Builds the statement that inserts one tag of the entry in row `row_id`.
pub fn tag_insert_query(row_id: i64, tag: &EncEntryTag) -> (stmt: Statement)
    ensures
        stmt@ == tag_statement(row_id, tag@),
{
    let mut params = QueryParams::new();
    params.push(QueryParam::Int(row_id));
    params.push(QueryParam::Bytes(clone_bytes(&tag.name)));
    params.push(QueryParam::Bytes(clone_bytes(&tag.value)));
    params.push(
        QueryParam::SmallInt(
            if tag.plaintext {
                1
            } else {
                0
            },
        ),
    );
    assert(params@ =~= tag_statement(row_id, tag@).params);
    Statement { sql: String::from_str(TAG_INSERT_QUERY), params }
}

/// What an insert makes of the answer to its statement: the identifier of
/// the new row, or `Duplicate` where no row came back.
pub fn inserted_row(row: Option<i64>) -> (out: Result<i64, Error>)
    ensures
        match row {
            Some(id) => out == Ok::<i64, Error>(id),
            None => out == Err::<i64, Error>(Error { kind: ErrorKind::Duplicate }),
        },
{
    match row {
        Some(id) => Ok(id),
        None => Err(Error::new(ErrorKind::Duplicate)),
    }
}

/// What a removal makes of the number of rows that its statement removed:
/// none is `NotFound`, unless that is to be passed over.
pub fn removed_row(rows_affected: u64, ignore_error: bool) -> (out: Result<(), Error>)
    ensures
        out == (if rows_affected == 0 && !ignore_error {
            Err::<(), Error>(Error { kind: ErrorKind::NotFound })
        } else {
            Ok::<(), Error>(())
        }),
{
    if rows_affected == 0 && !ignore_error {
        Err(Error::new(ErrorKind::NotFound))
    } else {
        Ok(())
    }
}

/// How far an update has come.
#[derive(Clone, Copy, Debug, PartialEq, Eq, Structural)]
pub enum Phase {
    /// Nothing was asked yet.
    Start,
    /// The transaction of the update is being opened.
    Beginning,
    /// The entry is being removed.
    Removing,
    /// The entry is being inserted.
    Inserting,
    /// The tag at this position is being inserted.
    Tagging(usize),
    /// The transaction of the update is being committed.
    Committing,
    /// The transaction of the update is being rolled back after this error.
    RollingBack(Error),
    /// The result was handed out.
    Finished,
}

/// An update of one entry, with its columns encrypted, and how far it has come.
///
/// An insert or a replace runs in a transaction: its own, which it opens and
/// commits or rolls back, or that of the session where the session has one
/// open. A removal is a single statement and opens none.
#[derive(Clone, Debug, PartialEq, Eq)]
pub struct Update {
    pub operation: EntryOperation,
    pub own_txn: bool,
    pub profile_id: ProfileId,
    pub kind: EntryKind,
    pub enc_category: Vec<u8>,
    pub enc_name: Vec<u8>,
    pub enc_value: Vec<u8>,
    pub enc_tags: Vec<EncEntryTag>,
    pub expiry: Option<Timestamp>,
    pub phase: Phase,
    pub row_id: i64,
}

impl Update {
    /// The invariant of an update: a removal has no transaction of its own,
    /// and the tag that is being inserted is one of the tags.
    pub open spec fn well_formed(self) -> bool {
        &&& self.operation is Remove ==> !self.own_txn
        &&& self.phase matches Phase::Tagging(i) ==> i < self.enc_tags@.len()
    }

    pub open spec fn spec_insert(self) -> StatementView {
        insert_statement(
            self.profile_id,
            self.kind,
            self.enc_category@,
            self.enc_name@,
            self.enc_value@,
            self.expiry,
        )
    }

    pub open spec fn spec_delete(self) -> StatementView {
        delete_statement(self.profile_id, self.kind, self.enc_category@, self.enc_name@)
    }

    /// The end of the update, with its result.
    pub open spec fn finish(self, result: Result<(), Error>) -> (Phase, i64, RequestView) {
        (Phase::Finished, self.row_id, RequestView::Finish(result))
    }

    /// After a failure: the transaction of the update is rolled back before
    /// the error is handed out; in the transaction of the session the error is
    /// handed out at once.
    pub open spec fn fail(self, error: Error) -> (Phase, i64, RequestView) {
        if self.own_txn {
            (Phase::RollingBack(error), self.row_id, RequestView::Rollback)
        } else {
            self.finish(Err(error))
        }
    }

    /// The first statement within the transaction.
    pub open spec fn first_statement(self) -> (Phase, i64, RequestView) {
        if self.operation is Insert {
            (Phase::Inserting, self.row_id, RequestView::FetchId(self.spec_insert()))
        } else {
            (Phase::Removing, self.row_id, RequestView::Execute(self.spec_delete()))
        }
    }

    /// After the row was inserted as `row_id` and the first `i` tags with it:
    /// the next tag, or the commit, or the end.
    pub open spec fn tag_or_commit(self, row_id: i64, i: int) -> (Phase, i64, RequestView) {
        if 0 <= i < self.enc_tags@.len() {
            (
                Phase::Tagging(i as usize),
                row_id,
                RequestView::Execute(tag_statement(row_id, self.enc_tags@[i]@)),
            )
        } else if self.own_txn {
            (Phase::Committing, row_id, RequestView::Commit)
        } else {
            (Phase::Finished, row_id, RequestView::Finish(Ok(())))
        }
    }

    /// The step of the update: from where it stands and the answer to its
    /// last request, to where it stands next, the row it inserted, and its
    /// next request. An answer of the wrong sort counts as a failure of the
    /// database.
    pub open spec fn step(self, response: DbResponse) -> (Phase, i64, RequestView) {
        match self.phase {
            Phase::Start => if self.operation is Remove {
                (Phase::Removing, self.row_id, RequestView::Execute(self.spec_delete()))
            } else if self.own_txn {
                (Phase::Beginning, self.row_id, RequestView::Begin)
            } else {
                self.first_statement()
            },
            Phase::Beginning => match response {
                DbResponse::Done => self.first_statement(),
                DbResponse::Failed(e) => self.finish(Err(e)),
                _ => self.finish(Err(Error { kind: ErrorKind::Backend })),
            },
            Phase::Removing => match response {
                DbResponse::RowsAffected(n) => if self.operation is Remove {
                    self.finish(
                        if n == 0 {
                            Err(Error { kind: ErrorKind::NotFound })
                        } else {
                            Ok(())
                        },
                    )
                } else {
                    (Phase::Inserting, self.row_id, RequestView::FetchId(self.spec_insert()))
                },
                DbResponse::Failed(e) => self.fail(e),
                _ => self.fail(Error { kind: ErrorKind::Backend }),
            },
            Phase::Inserting => match response {
                DbResponse::RowId(Some(id)) => self.tag_or_commit(id, 0),
                DbResponse::RowId(None) => self.fail(Error { kind: ErrorKind::Duplicate }),
                DbResponse::Failed(e) => self.fail(e),
                _ => self.fail(Error { kind: ErrorKind::Backend }),
            },
            Phase::Tagging(i) => match response {
                DbResponse::RowsAffected(_) => self.tag_or_commit(self.row_id, i + 1),
                DbResponse::Failed(e) => self.fail(e),
                _ => self.fail(Error { kind: ErrorKind::Backend }),
            },
            Phase::Committing => match response {
                DbResponse::Done => self.finish(Ok(())),
                DbResponse::Failed(e) => self.finish(Err(e)),
                _ => self.finish(Err(Error { kind: ErrorKind::Backend })),
            },
            Phase::RollingBack(e) => self.finish(Err(e)),
            Phase::Finished => self.finish(Err(Error { kind: ErrorKind::Backend })),
        }
    }

    /// The same update at another point.
    pub open spec fn at(self, phase: Phase, row_id: i64) -> Update {
        Update { phase, row_id, ..self }
    }

    fn finish_with(&mut self, result: Result<(), Error>) -> (req: DbRequest)
        ensures
            *final(self) == old(self).at(Phase::Finished, old(self).row_id),
            req@ == RequestView::Finish(result),
    {
        self.phase = Phase::Finished;
        DbRequest::Finish(result)
    }

    fn fail_with(&mut self, error: Error) -> (req: DbRequest)
        ensures
            *final(self) == old(self).at(old(self).fail(error).0, old(self).row_id),
            req@ == old(self).fail(error).2,
    {
        if self.own_txn {
            self.phase = Phase::RollingBack(error);
            DbRequest::Rollback
        } else {
            self.finish_with(Err(error))
        }
    }

    fn first(&mut self) -> (req: DbRequest)
        ensures
            *final(self) == old(self).at(old(self).first_statement().0, old(self).row_id),
            req@ == old(self).first_statement().2,
    {
        match self.operation {
            EntryOperation::Insert => {
                self.phase = Phase::Inserting;
                DbRequest::FetchId(
                    insert_query(
                        self.profile_id,
                        self.kind,
                        &self.enc_category,
                        &self.enc_name,
                        &self.enc_value,
                        self.expiry,
                    ),
                )
            },
            _ => {
                self.phase = Phase::Removing;
                DbRequest::Execute(
                    delete_query(self.profile_id, self.kind, &self.enc_category, &self.enc_name),
                )
            },
        }
    }

    fn tag_or_end(&mut self, row_id: i64, i: usize) -> (req: DbRequest)
        ensures
            *final(self) == old(self).at(
                old(self).tag_or_commit(row_id, i as int).0,
                old(self).tag_or_commit(row_id, i as int).1,
            ),
            req@ == old(self).tag_or_commit(row_id, i as int).2,
    {
        self.row_id = row_id;
        if i < self.enc_tags.len() {
            self.phase = Phase::Tagging(i);
            DbRequest::Execute(tag_insert_query(row_id, &self.enc_tags[i]))
        } else if self.own_txn {
            self.phase = Phase::Committing;
            DbRequest::Commit
        } else {
            self.phase = Phase::Finished;
            DbRequest::Finish(Ok(()))
        }
    }

    fn on_start(&mut self) -> (req: DbRequest)
        requires
            old(self).phase is Start,
        ensures
            *final(self) == old(self).at(
                old(self).step(DbResponse::Done).0,
                old(self).step(DbResponse::Done).1,
            ),
            req@ == old(self).step(DbResponse::Done).2,
    {
        match self.operation {
            EntryOperation::Remove => {
                self.phase = Phase::Removing;
                DbRequest::Execute(
                    delete_query(self.profile_id, self.kind, &self.enc_category, &self.enc_name),
                )
            },
            _ => if self.own_txn {
                self.phase = Phase::Beginning;
                DbRequest::Begin
            } else {
                self.first()
            },
        }
    }

    fn on_beginning(&mut self, response: DbResponse) -> (req: DbRequest)
        requires
            old(self).phase is Beginning,
        ensures
            *final(self) == old(self).at(old(self).step(response).0, old(self).step(response).1),
            req@ == old(self).step(response).2,
    {
        match response {
            DbResponse::Done => self.first(),
            DbResponse::Failed(e) => self.finish_with(Err(e)),
            _ => self.finish_with(Err(Error::new(ErrorKind::Backend))),
        }
    }

    fn on_removing(&mut self, response: DbResponse) -> (req: DbRequest)
        requires
            old(self).phase is Removing,
        ensures
            *final(self) == old(self).at(old(self).step(response).0, old(self).step(response).1),
            req@ == old(self).step(response).2,
    {
        match response {
            DbResponse::RowsAffected(n) => match self.operation {
                EntryOperation::Remove => {
                    let result = removed_row(n, false);
                    self.finish_with(result)
                },
                _ => {
                    self.phase = Phase::Inserting;
                    DbRequest::FetchId(
                        insert_query(
                            self.profile_id,
                            self.kind,
                            &self.enc_category,
                            &self.enc_name,
                            &self.enc_value,
                            self.expiry,
                        ),
                    )
                },
            },
            DbResponse::Failed(e) => self.fail_with(e),
            _ => self.fail_with(Error::new(ErrorKind::Backend)),
        }
    }

    fn on_inserting(&mut self, response: DbResponse) -> (req: DbRequest)
        requires
            old(self).phase is Inserting,
        ensures
            *final(self) == old(self).at(old(self).step(response).0, old(self).step(response).1),
            req@ == old(self).step(response).2,
    {
        match response {
            DbResponse::RowId(row) => match inserted_row(row) {
                Ok(id) => self.tag_or_end(id, 0),
                Err(e) => self.fail_with(e),
            },
            DbResponse::Failed(e) => self.fail_with(e),
            _ => self.fail_with(Error::new(ErrorKind::Backend)),
        }
    }

    fn on_tagging(&mut self, i: usize, response: DbResponse) -> (req: DbRequest)
        requires
            old(self).phase == Phase::Tagging(i),
            i < old(self).enc_tags@.len(),
        ensures
            *final(self) == old(self).at(old(self).step(response).0, old(self).step(response).1),
            req@ == old(self).step(response).2,
    {
        match response {
            DbResponse::RowsAffected(_) => {
                let row_id = self.row_id;
                let n = self.enc_tags.len();
                assert(i < n);
                self.tag_or_end(row_id, i + 1)
            },
            DbResponse::Failed(e) => self.fail_with(e),
            _ => self.fail_with(Error::new(ErrorKind::Backend)),
        }
    }

    fn on_committing(&mut self, response: DbResponse) -> (req: DbRequest)
        requires
            old(self).phase is Committing,
        ensures
            *final(self) == old(self).at(old(self).step(response).0, old(self).step(response).1),
            req@ == old(self).step(response).2,
    {
        match response {
            DbResponse::Done => self.finish_with(Ok(())),
            DbResponse::Failed(e) => self.finish_with(Err(e)),
            _ => self.finish_with(Err(Error::new(ErrorKind::Backend))),
        }
    }

    /// Takes the answer to the last request and hands out the next one. The
    /// first call, which has no request before it, takes any answer. Once the
    /// result was handed out, every further call hands out a failure.
    pub fn next(&mut self, response: DbResponse) -> (req: DbRequest)
        requires
            old(self).well_formed(),
        ensures
            final(self).well_formed(),
            *final(self) == old(self).at(old(self).step(response).0, old(self).step(response).1),
            req@ == old(self).step(response).2,
    {
        match self.phase {
            Phase::Start => self.on_start(),
            Phase::Beginning => self.on_beginning(response),
            Phase::Removing => self.on_removing(response),
            Phase::Inserting => self.on_inserting(response),
            Phase::Tagging(i) => self.on_tagging(i, response),
            Phase::Committing => self.on_committing(response),
            Phase::RollingBack(e) => self.finish_with(Err(e)),
            Phase::Finished => self.finish_with(Err(Error::new(ErrorKind::Backend))),
        }
    }
}

/// The tags of an update, where `None` stands for no tags.
pub open spec fn tags_or_none(tags: Option<&[EntryTag]>) -> Seq<TagView> {
    match tags {
        Some(t) => views(t@),
        None => Seq::empty(),
    }
}

/// Whether `u` is the update of the given entry, with its columns encrypted
/// under `key`, before its first request. An insert or a replace takes a
/// transaction of its own unless the session has one open; a removal takes
/// the category and the name of the entry and nothing else.
pub open spec fn prepared<K: EntryEncryptor>(
    u: Update,
    key: K,
    profile_id: ProfileId,
    in_transaction: bool,
    kind: EntryKind,
    operation: EntryOperation,
    category: Seq<char>,
    name: Seq<char>,
    value: Option<&[u8]>,
    tags: Option<&[EntryTag]>,
    expiry_ms: Option<i64>,
) -> bool {
    &&& u.well_formed()
    &&& u.phase is Start
    &&& u.operation == operation
    &&& u.profile_id == profile_id
    &&& u.kind == kind
    &&& u.own_txn == (!(operation is Remove) && !in_transaction)
    &&& u.enc_category@ == key.cipher(Field::Category, category)
    &&& u.enc_name@ == key.cipher(Field::Name, name)
    &&& if operation is Remove {
        u.enc_value@.len() == 0 && u.enc_tags@.len() == 0 && u.expiry is None
    } else {
        &&& value matches Some(v) && key.value_plain(u.enc_value@) == Some(v@)
        &&& views(u.enc_tags@) == tags_cipher(key, tags_or_none(tags))
        &&& u.expiry == (match expiry_ms {
            Some(ms) => Some(spec_expiry(ms)),
            None => None,
        })
    }
}

/// Prepares the update of an entry: encrypts its columns under `key` and sets
/// the statements up. An insert or a replace without a value is rejected as
/// `Input`, before anything is encrypted.
pub fn prepare_update<K: EntryEncryptor>(
    key: &K,
    profile_id: ProfileId,
    in_transaction: bool,
    kind: EntryKind,
    operation: EntryOperation,
    category: &str,
    name: &str,
    value: Option<&[u8]>,
    tags: Option<&[EntryTag]>,
    expiry_ms: Option<i64>,
) -> (out: Result<Update, Error>)
    ensures
        match out {
            Ok(u) => prepared(
                u,
                *key,
                profile_id,
                in_transaction,
                kind,
                operation,
                category@,
                name@,
                value,
                tags,
                expiry_ms,
            ),
            Err(e) => e.kind == if !(operation is Remove) && value is None {
                ErrorKind::Input
            } else {
                ErrorKind::Encryption
            },
        },
        key.encrypts_always() && (operation is Remove || value is Some) ==> out is Ok,
{
    match operation {
        EntryOperation::Remove => {
            let enc_category = key.encrypt_entry_category(category)?;
            let enc_name = key.encrypt_entry_name(name)?;
            Ok(
                Update {
                    operation,
                    own_txn: false,
                    profile_id,
                    kind,
                    enc_category,
                    enc_name,
                    enc_value: Vec::new(),
                    enc_tags: Vec::new(),
                    expiry: None,
                    phase: Phase::Start,
                    row_id: 0,
                },
            )
        },
        _ => {
            let value = match value {
                Some(v) => v,
                None => {
                    return Err(Error::new(ErrorKind::Input));
                },
            };
            let enc_category = key.encrypt_entry_category(category)?;
            let enc_name = key.encrypt_entry_name(name)?;
            let enc_value = key.encrypt_entry_value(value)?;
            let enc_tags = match tags {
                Some(t) => encrypt_entry_tags(key, t)?,
                None => {
                    let none: Vec<EncEntryTag> = Vec::new();
                    assert(views(none@) =~= tags_cipher(*key, tags_or_none(tags)));
                    none
                },
            };
            let expiry = match expiry_ms {
                Some(ms) => Some(expiry_timestamp(ms)),
                None => None,
            };
            Ok(
                Update {
                    operation,
                    own_txn: !in_transaction,
                    profile_id,
                    kind,
                    enc_category,
                    enc_name,
                    enc_value,
                    enc_tags,
                    expiry,
                    phase: Phase::Start,
                    row_id: 0,
                },
            )
        },
    }
}

/// The number of requests that an update may still make, at most.
pub open spec fn remaining(u: Update) -> int {
    let n = u.enc_tags@.len() as int;
    match u.phase {
        Phase::Start => n + 6,
        Phase::Beginning => n + 5,
        Phase::Removing => n + 4,
        Phase::Inserting => n + 3,
        Phase::Tagging(i) => n - i + 2,
        Phase::Committing => 1,
        Phase::RollingBack(_) => 1,
        Phase::Finished => 0,
    }
}

/// The update after one step.
pub open spec fn after(u: Update, response: DbResponse) -> Update {
    u.at(u.step(response).0, u.step(response).1)
}

/// Every step brings an update closer to its end, whatever the database
/// answers, and the update hands out its result exactly when it ends.
pub proof fn lemma_update_ends(u: Update, response: DbResponse)
    requires
        u.well_formed(),
        !(u.phase is Finished),
    ensures
        after(u, response).well_formed(),
        0 <= remaining(after(u, response)) < remaining(u),
        u.step(response).2 is Finish <==> after(u, response).phase is Finished,
{
    assert(u.enc_tags.len() == u.enc_tags@.len());
}

/// An insert that finds the entry in place fails as `Duplicate`: the error is
/// handed out after the transaction of the update was rolled back, or at once
/// in the transaction of the session.
pub proof fn lemma_insert_duplicate(u: Update, then: DbResponse)
    requires
        u.well_formed(),
        u.phase is Inserting,
    ensures
        ({
            let duplicate = Err::<(), Error>(Error { kind: ErrorKind::Duplicate });
            let s = u.step(DbResponse::RowId(None));
            if u.own_txn {
                s.2 == RequestView::Rollback && after(u, DbResponse::RowId(None)).step(then).2
                    == RequestView::Finish(duplicate)
            } else {
                s.2 == RequestView::Finish(duplicate)
            }
        }),
{
}

/// A removal succeeds exactly when a row was removed, and fails as `NotFound`
/// otherwise. The removal within a replace passes over a missing row and goes
/// on to insert.
pub proof fn lemma_removed(u: Update, rows_affected: u64)
    requires
        u.well_formed(),
        u.phase is Removing,
    ensures
        u.operation is Remove ==> u.step(DbResponse::RowsAffected(rows_affected)).2
            == RequestView::Finish(
            if rows_affected == 0 {
                Err(Error { kind: ErrorKind::NotFound })
            } else {
                Ok(())
            },
        ),
        !(u.operation is Remove) ==> u.step(DbResponse::RowsAffected(rows_affected)).2
            == RequestView::FetchId(u.spec_insert()),
{
}

/// An update commits only its own transaction, and only once the row and
/// every one of its tags were inserted.
pub proof fn lemma_commit_is_last(u: Update, response: DbResponse)
    requires
        u.well_formed(),
        u.step(response).2 is Commit,
    ensures
        u.own_txn,
        !(u.operation is Remove),
        (u.phase is Inserting && u.enc_tags@.len() == 0 && response matches DbResponse::RowId(
            Some(_),
        )) || (u.phase matches Phase::Tagging(i) && i + 1 == u.enc_tags@.len()
            && response is RowsAffected),
{
}

/// After a failure of the database an update makes no further statement: it
/// rolls its own transaction back, and hands out the error.
pub proof fn lemma_failure_ends(u: Update, error: Error, then: DbResponse)
    requires
        u.well_formed(),
        u.phase is Removing || u.phase is Inserting || u.phase is Tagging,
    ensures
        ({
            let s = u.step(DbResponse::Failed(error));
            if u.own_txn {
                s.2 == RequestView::Rollback && after(u, DbResponse::Failed(error)).step(then).2
                    == RequestView::Finish(Err(error))
            } else {
                s.2 == RequestView::Finish(Err(error))
            }
        }),
{
}

/// The requests that an update makes while it takes the given answers, one
/// after another.
pub open spec fn requests(u: Update, answers: Seq<DbResponse>) -> Seq<RequestView>
    decreases answers.len(),
{
    if answers.len() == 0 {
        Seq::empty()
    } else {
        seq![u.step(answers[0]).2] + requests(after(u, answers[0]), answers.skip(1))
    }
}

/// The statements that insert the tags of an update from position `from` on,
/// for the entry in row `row_id`.
pub open spec fn tag_requests(u: Update, row_id: i64, from: int) -> Seq<RequestView> {
    Seq::new(
        (u.enc_tags@.len() - from) as nat,
        |k: int| RequestView::Execute(tag_statement(row_id, u.enc_tags@[from + k]@)),
    )
}

/// Whether every one of the answers reports that a statement ran.
pub open spec fn all_ran(answers: Seq<DbResponse>) -> bool {
    forall|k: int| 0 <= k < answers.len() ==> (#[trigger] answers[k]) is RowsAffected
}

/// The end of an update in its own transaction: the commit, and the result.
pub open spec fn committed() -> Seq<RequestView> {
    seq![RequestView::Commit, RequestView::Finish(Ok(()))]
}

proof fn lemma_tags_then_commit(u: Update, at: int, ran: Seq<DbResponse>)
    requires
        u.well_formed(),
        u.own_txn,
        0 <= at < u.enc_tags@.len(),
        u.phase == Phase::Tagging(at as usize),
        ran.len() == u.enc_tags@.len() - at,
        all_ran(ran),
    ensures
        requests(u, ran + seq![DbResponse::Done]) == tag_requests(u, u.row_id, at + 1)
            + committed(),
    decreases u.enc_tags@.len() - at,
{
    let answers = ran + seq![DbResponse::Done];
    let next = after(u, answers[0]);
    assert(u.enc_tags.len() == u.enc_tags@.len());
    assert(answers[0] == ran[0]);
    assert(answers.skip(1) =~= ran.skip(1) + seq![DbResponse::Done]);
    if at + 1 < u.enc_tags@.len() {
        assert(all_ran(ran.skip(1))) by {
            assert forall|k: int| 0 <= k < ran.skip(1).len() implies (#[trigger] ran.skip(1)[k])
                is RowsAffected by {
                assert(ran.skip(1)[k] == ran[k + 1]);
            }
        }
        lemma_tags_then_commit(next, at + 1, ran.skip(1));
        assert(tag_requests(u, u.row_id, at + 1) =~= seq![u.step(answers[0]).2] + tag_requests(
            next,
            next.row_id,
            at + 2,
        ));
        assert(requests(u, answers) =~= tag_requests(u, u.row_id, at + 1) + committed());
    } else {
        assert(ran.skip(1) =~= Seq::<DbResponse>::empty());
        let last = seq![DbResponse::Done];
        assert(answers.skip(1) =~= last);
        assert(last.skip(1) =~= Seq::<DbResponse>::empty());
        assert(requests(after(next, last[0]), last.skip(1)) =~= Seq::<RequestView>::empty());
        assert(requests(next, last) =~= seq![RequestView::Finish(Ok(()))]);
        assert(tag_requests(u, u.row_id, at + 1) =~= Seq::<RequestView>::empty());
        assert(requests(u, answers) =~= tag_requests(u, u.row_id, at + 1) + committed());
    }
}

/// Once the row of an entry is inserted as `row_id`, an update in its own
/// transaction inserts every tag of the entry, in order, then commits, and
/// then hands out success, as long as every statement runs.
pub proof fn lemma_row_then_tags_then_commit(u: Update, row_id: i64, ran: Seq<DbResponse>)
    requires
        u.well_formed(),
        u.own_txn,
        u.phase is Inserting,
        ran.len() == u.enc_tags@.len(),
        all_ran(ran),
    ensures
        requests(u, seq![DbResponse::RowId(Some(row_id))] + ran + seq![DbResponse::Done])
            == tag_requests(u, row_id, 0) + committed(),
{
    let first = DbResponse::RowId(Some(row_id));
    let answers = seq![first] + ran + seq![DbResponse::Done];
    let next = after(u, first);
    assert(answers[0] == first);
    assert(answers.skip(1) =~= ran + seq![DbResponse::Done]);
    assert(u.enc_tags.len() == u.enc_tags@.len());
    if u.enc_tags@.len() > 0 {
        lemma_tags_then_commit(next, 0, ran);
        assert(tag_requests(u, row_id, 0) =~= seq![u.step(first).2] + tag_requests(
            next,
            row_id,
            1,
        ));
        assert(requests(u, answers) =~= tag_requests(u, row_id, 0) + committed());
    } else {
        let last = seq![DbResponse::Done];
        assert(ran + last =~= last);
        assert(last.skip(1) =~= Seq::<DbResponse>::empty());
        assert(requests(after(next, last[0]), last.skip(1)) =~= Seq::<RequestView>::empty());
        assert(requests(next, last) =~= seq![RequestView::Finish(Ok(()))]);
        assert(tag_requests(u, row_id, 0) =~= Seq::<RequestView>::empty());
        assert(requests(u, answers) =~= tag_requests(u, row_id, 0) + committed());
    }
}

/// An insert in its own transaction, of an entry that is not there yet and
/// with every statement running, makes these requests and no others: it
/// begins a transaction, inserts the row, inserts the tags in order, commits,
/// and hands out success.
pub proof fn lemma_insert_requests(u: Update, row_id: i64, ran: Seq<DbResponse>)
    requires
        u.well_formed(),
        u.own_txn,
        u.operation is Insert,
        u.phase is Start,
        ran.len() == u.enc_tags@.len(),
        all_ran(ran),
    ensures
        requests(
            u,
            seq![DbResponse::Done, DbResponse::Done, DbResponse::RowId(Some(row_id))] + ran
                + seq![DbResponse::Done],
        ) == seq![RequestView::Begin, RequestView::FetchId(u.spec_insert())] + tag_requests(
            u,
            row_id,
            0,
        ) + committed(),
{
    let head = seq![DbResponse::Done, DbResponse::Done, DbResponse::RowId(Some(row_id))];
    let answers = head + ran + seq![DbResponse::Done];
    let begun = after(u, DbResponse::Done);
    let inserting = after(begun, DbResponse::Done);
    let tail = seq![DbResponse::RowId(Some(row_id))] + ran + seq![DbResponse::Done];
    assert(answers[0] == DbResponse::Done);
    assert(answers.skip(1)[0] == DbResponse::Done);
    assert(answers.skip(1).skip(1) =~= tail);
    lemma_row_then_tags_then_commit(inserting, row_id, ran);
    assert(tag_requests(inserting, row_id, 0) =~= tag_requests(u, row_id, 0));
    assert(requests(begun, answers.skip(1)) =~= seq![RequestView::FetchId(u.spec_insert())]
        + requests(inserting, tail));
    assert(requests(u, answers) =~= seq![RequestView::Begin, RequestView::FetchId(u.spec_insert())]
        + tag_requests(u, row_id, 0) + committed());
}

/// A replace in its own transaction, with every statement running, makes
/// these requests and no others, whether the entry was there or not: it
/// begins a transaction, removes the row, inserts the row, inserts the tags
/// in order, commits, and hands out success.
pub proof fn lemma_replace_requests(u: Update, removed: u64, row_id: i64, ran: Seq<DbResponse>)
    requires
        u.well_formed(),
        u.own_txn,
        u.operation is Replace,
        u.phase is Start,
        ran.len() == u.enc_tags@.len(),
        all_ran(ran),
    ensures
        requests(
            u,
            seq![
                DbResponse::Done,
                DbResponse::Done,
                DbResponse::RowsAffected(removed),
                DbResponse::RowId(Some(row_id)),
            ] + ran + seq![DbResponse::Done],
        ) == seq![
            RequestView::Begin,
            RequestView::Execute(u.spec_delete()),
            RequestView::FetchId(u.spec_insert()),
        ] + tag_requests(u, row_id, 0) + committed(),
{
    let head = seq![
        DbResponse::Done,
        DbResponse::Done,
        DbResponse::RowsAffected(removed),
        DbResponse::RowId(Some(row_id)),
    ];
    let answers = head + ran + seq![DbResponse::Done];
    let begun = after(u, DbResponse::Done);
    let removing = after(begun, DbResponse::Done);
    let inserting = after(removing, DbResponse::RowsAffected(removed));
    let tail = seq![DbResponse::RowId(Some(row_id))] + ran + seq![DbResponse::Done];
    assert(answers[0] == DbResponse::Done);
    assert(answers.skip(1)[0] == DbResponse::Done);
    assert(answers.skip(1).skip(1)[0] == DbResponse::RowsAffected(removed));
    assert(answers.skip(1).skip(1).skip(1) =~= tail);
    lemma_row_then_tags_then_commit(inserting, row_id, ran);
    assert(tag_requests(inserting, row_id, 0) =~= tag_requests(u, row_id, 0));
    assert(requests(removing, answers.skip(1).skip(1)) =~= seq![
        RequestView::FetchId(u.spec_insert()),
    ] + requests(inserting, tail));
    assert(requests(begun, answers.skip(1)) =~= seq![RequestView::Execute(u.spec_delete())]
        + requests(removing, answers.skip(1).skip(1)));
    assert(requests(u, answers) =~= seq![
        RequestView::Begin,
        RequestView::Execute(u.spec_delete()),
        RequestView::FetchId(u.spec_insert()),
    ] + tag_requests(u, row_id, 0) + committed());
}

} // verus!
