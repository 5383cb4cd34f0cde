//! The PostgreSQL backend: the statements that the store runs, and how it
//! reads the rows that come back.

use vstd::prelude::*;
use vstd::string::*;
use crate::error::{Error, ErrorKind};
use crate::filter::{
    check_tag_filter, compilable, encode_tag_filter, filter_params, lemma_filter_params_len,
    shape_of, shape_sql,
};
use crate::keys::{
    decrypt_entry_tags, lemma_tag_round_trip, lemma_tags_round_trip, tag_plain, tags_cipher,
    tags_plain, EntryEncryptor, Field,
};
use crate::session::{DbSession, SessionState};
use crate::query::{
    extend_query, limit_params, limit_sql, ParamView, QueryParam, QueryParams, QueryPrepare,
    Statement,
};
use crate::tags::{decode_tags, encode_tags, lemma_parse_encode_tags, parse_tags};
use crate::text::{decimal, push_decimal};
use crate::types::{
    views, EncTagView, Entry, EntryKind, EntryTag, EntryView, ProfileId, TagFilter, TagView,
};

verus! {

pub const COUNT_QUERY: &'static str = "SELECT COUNT(*) FROM items i
    WHERE profile_id = $1 AND kind = $2 AND category = $3
    AND (expiry IS NULL OR expiry > CURRENT_TIMESTAMP)";

pub const DELETE_QUERY: &'static str = "DELETE FROM items
    WHERE profile_id = $1 AND kind = $2 AND category = $3 AND name = $4";

pub const FETCH_QUERY: &'static str = "SELECT id, value,
    (SELECT ARRAY_TO_STRING(ARRAY_AGG(it.plaintext || ':'
        || ENCODE(it.name, 'hex') || ':' || ENCODE(it.value, 'hex')), ',')
        FROM items_tags it WHERE it.item_id = i.id) tags
    FROM items i
    WHERE profile_id = $1 AND kind = $2 AND category = $3 AND name = $4
    AND (expiry IS NULL OR expiry > CURRENT_TIMESTAMP)";

pub const FETCH_QUERY_UPDATE: &'static str = "SELECT id, value,
    (SELECT ARRAY_TO_STRING(ARRAY_AGG(it.plaintext || ':'
        || ENCODE(it.name, 'hex') || ':' || ENCODE(it.value, 'hex')), ',')
        FROM items_tags it WHERE it.item_id = i.id) tags
    FROM items i
    WHERE profile_id = $1 AND kind = $2 AND category = $3 AND name = $4
    AND (expiry IS NULL OR expiry > CURRENT_TIMESTAMP) FOR UPDATE";

pub const INSERT_QUERY: &'static str =
    "INSERT INTO items (profile_id, kind, category, name, value, expiry)
    VALUES ($1, $2, $3, $4, $5, $6)
    ON CONFLICT DO NOTHING RETURNING id";

pub const SCAN_QUERY: &'static str = "SELECT id, name, value,
    (SELECT ARRAY_TO_STRING(ARRAY_AGG(it.plaintext || ':'
        || ENCODE(it.name, 'hex') || ':' || ENCODE(it.value, 'hex')), ',')
        FROM items_tags it WHERE it.item_id = i.id) tags
    FROM items i WHERE profile_id = $1 AND kind = $2 AND category = $3
    AND (expiry IS NULL OR expiry > CURRENT_TIMESTAMP)";

pub const DELETE_ALL_QUERY: &'static str = "DELETE FROM items i
    WHERE i.profile_id = $1 AND i.kind = $2 AND i.category = $3";

pub const TAG_INSERT_QUERY: &'static str = "INSERT INTO items_tags
    (item_id, name, value, plaintext) VALUES ($1, $2, $3, $4)";

pub const FOR_UPDATE: &'static str = " FOR UPDATE";

/// A store kept in a PostgreSQL database.
#[derive(Clone, Debug, PartialEq, Eq)]
pub struct PostgresStore {
    pub default_profile: String,
    pub host: String,
    pub name: String,
}

impl PostgresStore {
    /// A store on database `name` at `host`, whose sessions work on
    /// `default_profile` unless they name another.
    pub fn new(default_profile: String, host: String, name: String) -> (store: PostgresStore)
        ensures
            store.default_profile == default_profile,
            store.host == host,
            store.name == name,
    {
        PostgresStore { default_profile, host, name }
    }

    /// The name of the default profile.
    pub fn get_profile_name(&self) -> (name: &str)
        ensures
            name@ == self.default_profile@,
    {
        self.default_profile.as_str()
    }

    /// A pending session on `profile`, or on the default profile where none
    /// is named.
    pub fn session<K>(&self, profile: Option<String>, transaction: bool) -> (session: DbSession<K>)
        ensures
            session.well_formed(),
            session.spec_state() == SessionState::Pending,
            session.spec_transaction() == transaction,
            session.spec_profile_and_key() is None,
            session.spec_profile() == (match profile {
                Some(p) => p@,
                None => self.default_profile@,
            }),
    {
        let profile = match profile {
            Some(p) => p,
            None => self.default_profile.clone(),
        };
        DbSession::new(profile, transaction)
    }
}

impl QueryPrepare for PostgresStore {
    open spec fn spec_placeholder(index: int) -> Seq<char> {
        seq!['$'] + decimal(index)
    }

    fn placeholder(index: i64) -> (s: String) {
        proof {
            reveal_strlit("$");
        }
        let mut s = String::from_str("$");
        push_decimal(&mut s, index);
        assert(s@ =~= seq!['$'] + decimal(index as int));
        s
    }
}

/// The parameters that select the entries of one profile, kind and category.
pub open spec fn category_params<K: EntryEncryptor>(
    profile_id: ProfileId,
    key: K,
    kind: EntryKind,
    category: Seq<char>,
) -> Seq<ParamView> {
    seq![
        ParamView::Int(profile_id),
        ParamView::SmallInt(kind.spec_code()),
        ParamView::Bytes(key.cipher(Field::Category, category)),
    ]
}

/// The parameters that select one entry.
pub open spec fn entry_params<K: EntryEncryptor>(
    profile_id: ProfileId,
    key: K,
    kind: EntryKind,
    category: Seq<char>,
    name: Seq<char>,
) -> Seq<ParamView> {
    category_params(profile_id, key, kind, category).push(
        ParamView::Bytes(key.cipher(Field::Name, name)),
    )
}

/// The condition that a tag filter adds to a PostgreSQL query behind `bound`
/// parameters.
pub open spec fn tag_clause(tag_filter: Option<&TagFilter>, bound: int) -> Seq<char> {
    match tag_filter {
        Some(filter) => " AND "@ + shape_sql::<PostgresStore>(shape_of(*filter), bound + 1),
        None => Seq::empty(),
    }
}

/// The parameters that a tag filter binds under `key`.
pub open spec fn tag_params<K: EntryEncryptor>(key: K, tag_filter: Option<&TagFilter>) -> Seq<
    ParamView,
> {
    match tag_filter {
        Some(filter) => filter_params(key, *filter),
        None => Seq::empty(),
    }
}

/// Whether a tag filter, if there is one, can be compiled behind `bound`
/// parameters.
pub open spec fn tag_filter_ok(tag_filter: Option<&TagFilter>, bound: int) -> bool {
    tag_filter matches Some(filter) ==> compilable(*filter, bound)
}

/// The statement that a base query over one category becomes with a tag
/// filter and a limit.
pub open spec fn category_statement<K: EntryEncryptor>(
    base: Seq<char>,
    profile_id: ProfileId,
    key: K,
    kind: EntryKind,
    category: Seq<char>,
    tag_filter: Option<&TagFilter>,
    offset: Option<i64>,
    limit: Option<i64>,
) -> (Seq<char>, Seq<ParamView>) {
    (
        base + tag_clause(tag_filter, 3) + limit_sql::<PostgresStore>(
            3 + tag_params(key, tag_filter).len() as int,
            offset,
            limit,
        ),
        category_params(profile_id, key, kind, category) + tag_params(key, tag_filter)
            + limit_params(offset, limit),
    )
}

fn category_query<K: EntryEncryptor>(
    base: &str,
    profile_id: ProfileId,
    key: &K,
    kind: EntryKind,
    category: &str,
    tag_filter: Option<&TagFilter>,
    offset: Option<i64>,
    limit: Option<i64>,
) -> (out: Result<Statement, Error>)
    ensures
        match out {
            Ok(stmt) => tag_filter_ok(tag_filter, 5) && (stmt.sql@, stmt.params@)
                == category_statement(
                base@,
                profile_id,
                *key,
                kind,
                category@,
                tag_filter,
                offset,
                limit,
            ),
            Err(e) => e.kind == if tag_filter_ok(tag_filter, 5) {
                ErrorKind::Encryption
            } else {
                ErrorKind::Input
            },
        },
        key.encrypts_always() && tag_filter_ok(tag_filter, 5) ==> out is Ok,
{
    check_tag_filter(tag_filter, 5)?;
    let enc_category = key.encrypt_entry_category(category)?;
    let mut params = QueryParams::new();
    params.push(QueryParam::Int(profile_id));
    params.push(QueryParam::SmallInt(kind.code()));
    params.push(QueryParam::Bytes(enc_category));
    assert(params@ =~= category_params(profile_id, *key, kind, category@));
    let compiled = encode_tag_filter::<PostgresStore, K>(tag_filter, key, params.len())?;
    proof {
        match tag_filter {
            Some(filter) => {
                lemma_filter_params_len(*key, *filter);
            },
            None => {},
        }
    }
    let sql = extend_query::<PostgresStore>(base, &mut params, compiled, offset, limit);
    Ok(Statement { sql, params })
}

/// The statement that counts the entries of a category that a tag filter accepts.
pub fn count_query<K: EntryEncryptor>(
    profile_id: ProfileId,
    key: &K,
    kind: EntryKind,
    category: &str,
    tag_filter: Option<&TagFilter>,
) -> (out: Result<Statement, Error>)
    ensures
        match out {
            Ok(stmt) => tag_filter_ok(tag_filter, 5) && (stmt.sql@, stmt.params@)
                == category_statement(
                COUNT_QUERY@,
                profile_id,
                *key,
                kind,
                category@,
                tag_filter,
                None,
                None,
            ),
            Err(e) => e.kind == if tag_filter_ok(tag_filter, 5) {
                ErrorKind::Encryption
            } else {
                ErrorKind::Input
            },
        },
        key.encrypts_always() && tag_filter_ok(tag_filter, 5) ==> out is Ok,
{
    category_query(COUNT_QUERY, profile_id, key, kind, category, tag_filter, None, None)
}

/// The statement that removes the entries of a category that a tag filter accepts.
pub fn remove_all_query<K: EntryEncryptor>(
    profile_id: ProfileId,
    key: &K,
    kind: EntryKind,
    category: &str,
    tag_filter: Option<&TagFilter>,
) -> (out: Result<Statement, Error>)
    ensures
        match out {
            Ok(stmt) => tag_filter_ok(tag_filter, 5) && (stmt.sql@, stmt.params@)
                == category_statement(
                DELETE_ALL_QUERY@,
                profile_id,
                *key,
                kind,
                category@,
                tag_filter,
                None,
                None,
            ),
            Err(e) => e.kind == if tag_filter_ok(tag_filter, 5) {
                ErrorKind::Encryption
            } else {
                ErrorKind::Input
            },
        },
        key.encrypts_always() && tag_filter_ok(tag_filter, 5) ==> out is Ok,
{
    category_query(DELETE_ALL_QUERY, profile_id, key, kind, category, tag_filter, None, None)
}

/// The text that ends a scan which locks its rows.
pub open spec fn lock_clause(for_update: bool) -> Seq<char> {
    if for_update {
        FOR_UPDATE@
    } else {
        Seq::empty()
    }
}

/// The statement that reads the entries of a category that a tag filter
/// accepts, from `offset` on and at most `limit` of them, with a lock on the
/// rows where `for_update` is set.
pub fn scan_query<K: EntryEncryptor>(
    profile_id: ProfileId,
    key: &K,
    kind: EntryKind,
    category: &str,
    tag_filter: Option<&TagFilter>,
    offset: Option<i64>,
    limit: Option<i64>,
    for_update: bool,
) -> (out: Result<Statement, Error>)
    ensures
        match out {
            Ok(stmt) => tag_filter_ok(tag_filter, 5) && stmt.sql@ == category_statement(
                SCAN_QUERY@,
                profile_id,
                *key,
                kind,
                category@,
                tag_filter,
                offset,
                limit,
            ).0 + lock_clause(for_update) && stmt.params@ == category_statement(
                SCAN_QUERY@,
                profile_id,
                *key,
                kind,
                category@,
                tag_filter,
                offset,
                limit,
            ).1,
            Err(e) => e.kind == if tag_filter_ok(tag_filter, 5) {
                ErrorKind::Encryption
            } else {
                ErrorKind::Input
            },
        },
        key.encrypts_always() && tag_filter_ok(tag_filter, 5) ==> out is Ok,
{
    let stmt = category_query(
        SCAN_QUERY,
        profile_id,
        key,
        kind,
        category,
        tag_filter,
        offset,
        limit,
    )?;
    let mut sql = stmt.sql;
    let ghost base = sql@;
    if for_update {
        sql.append(FOR_UPDATE);
    }
    assert(sql@ =~= base + lock_clause(for_update));
    Ok(Statement { sql, params: stmt.params })
}

/// The statement that reads one entry. The row is locked only where
/// `for_update` is set and the session is in a transaction; outside a
/// transaction the request for a lock is passed over.
pub fn fetch_query<K: EntryEncryptor>(
    profile_id: ProfileId,
    key: &K,
    kind: EntryKind,
    category: &str,
    name: &str,
    for_update: bool,
    in_transaction: bool,
) -> (out: Result<Statement, Error>)
    ensures
        match out {
            Ok(stmt) => stmt.sql@ == (if for_update && in_transaction {
                FETCH_QUERY_UPDATE@
            } else {
                FETCH_QUERY@
            }) && stmt.params@ == entry_params(profile_id, *key, kind, category@, name@),
            Err(e) => e.kind == ErrorKind::Encryption,
        },
        key.encrypts_always() ==> out is Ok,
{
    let enc_category = key.encrypt_entry_category(category)?;
    let enc_name = key.encrypt_entry_name(name)?;
    let mut params = QueryParams::new();
    params.push(QueryParam::Int(profile_id));
    params.push(QueryParam::SmallInt(kind.code()));
    params.push(QueryParam::Bytes(enc_category));
    params.push(QueryParam::Bytes(enc_name));
    assert(params@ =~= entry_params(profile_id, *key, kind, category@, name@));
    let sql = if for_update && in_transaction {
        String::from_str(FETCH_QUERY_UPDATE)
    } else {
        String::from_str(FETCH_QUERY)
    };
    Ok(Statement { sql, params })
}

/// The bytes of an optional byte string.
pub open spec fn opt_bytes(data: Option<&[u8]>) -> Option<Seq<u8>> {
    match data {
        Some(d) => Some(d@),
        None => None,
    }
}

/// The entry that a row holds under `key`: its value decrypted and its tags
/// read and decrypted. A row without tags text holds an entry with no tags.
pub open spec fn row_entry<K: EntryEncryptor>(
    key: K,
    category: Seq<char>,
    name: Seq<char>,
    value: Seq<u8>,
    tags: Option<Seq<u8>>,
) -> Result<EntryView, ErrorKind> {
    match key.value_plain(value) {
        None => Err(ErrorKind::Encryption),
        Some(plain) => match tags {
            None => Ok(EntryView { category, name, value: plain, tags: Some(Seq::empty()) }),
            Some(text) => match parse_tags(text) {
                None => Err(ErrorKind::Unexpected),
                Some(enc) => match tags_plain(key, enc) {
                    None => Err(ErrorKind::Encryption),
                    Some(tags) => Ok(EntryView { category, name, value: plain, tags: Some(tags) }),
                },
            },
        },
    }
}

/// Reads the value and the tags of a row into an entry.
pub fn read_entry<K: EntryEncryptor>(
    key: &K,
    category: String,
    name: String,
    value: &[u8],
    tags: Option<&[u8]>,
) -> (out: Result<Entry, Error>)
    ensures
        match out {
            Ok(entry) => row_entry(*key, category@, name@, value@, opt_bytes(tags)) == Ok::<
                EntryView,
                ErrorKind,
            >(entry@),
            Err(e) => row_entry(*key, category@, name@, value@, opt_bytes(tags)) == Err::<
                EntryView,
                ErrorKind,
            >(e.kind),
        },
{
    let plain = key.decrypt_entry_value(value)?;
    let tags = match tags {
        None => {
            let none: Vec<EntryTag> = Vec::new();
            assert(views(none@) =~= Seq::<TagView>::empty());
            none
        },
        Some(text) => {
            let enc = decode_tags(text)?;
            proof {
                lemma_parse_encode_tags(views(enc@));
            }
            decrypt_entry_tags(key, enc.as_slice())?
        },
    };
    Ok(Entry::new(category, name, plain, Some(tags)))
}

/// A row of the statement that reads one entry.
#[derive(Clone, Debug, PartialEq, Eq)]
pub struct FetchRow {
    pub value: Vec<u8>,
    pub tags: Option<Vec<u8>>,
}

impl FetchRow {
    pub open spec fn spec_tags(&self) -> Option<Seq<u8>> {
        match self.tags {
            Some(t) => Some(t@),
            None => None,
        }
    }
}

/// Reads the answer to the statement that reads one entry: no row is no entry.
pub fn fetch_entry<K: EntryEncryptor>(
    key: &K,
    category: &str,
    name: &str,
    row: Option<&FetchRow>,
) -> (out: Result<Option<Entry>, Error>)
    ensures
        match row {
            None => out matches Ok(None),
            Some(r) => match out {
                Ok(Some(entry)) => row_entry(*key, category@, name@, r.value@, r.spec_tags())
                    == Ok::<EntryView, ErrorKind>(entry@),
                Ok(None) => false,
                Err(e) => row_entry(*key, category@, name@, r.value@, r.spec_tags()) == Err::<
                    EntryView,
                    ErrorKind,
                >(e.kind),
            },
        },
{
    match row {
        None => Ok(None),
        Some(r) => {
            let tags: Option<&[u8]> = match &r.tags {
                Some(t) => Some(t.as_slice()),
                None => None,
            };
            let entry = read_entry(
                key,
                String::from_str(category),
                String::from_str(name),
                r.value.as_slice(),
                tags,
            )?;
            Ok(Some(entry))
        },
    }
}

/// A row of a scan.
#[derive(Clone, Debug, PartialEq, Eq)]
pub struct ScanRow {
    pub name: Vec<u8>,
    pub value: Vec<u8>,
    pub tags: Option<Vec<u8>>,
}

impl ScanRow {
    pub open spec fn spec_tags(&self) -> Option<Seq<u8>> {
        match self.tags {
            Some(t) => Some(t@),
            None => None,
        }
    }
}

/// The entry that a row of a scan holds under `key`.
pub open spec fn scan_row_entry<K: EntryEncryptor>(key: K, category: Seq<char>, row: ScanRow)
    -> Result<EntryView, ErrorKind> {
    match key.plain(Field::Name, row.name@) {
        None => Err(ErrorKind::Encryption),
        Some(name) => row_entry(key, category, name, row.value@, row.spec_tags()),
    }
}

/// Reads a row of a scan into an entry.
pub fn scan_entry<K: EntryEncryptor>(key: &K, category: &str, row: &ScanRow) -> (out: Result<
    Entry,
    Error,
>)
    ensures
        match out {
            Ok(entry) => scan_row_entry(*key, category@, *row) == Ok::<EntryView, ErrorKind>(
                entry@,
            ),
            Err(e) => scan_row_entry(*key, category@, *row) == Err::<EntryView, ErrorKind>(e.kind),
        },
{
    let name = key.decrypt_entry_name(row.name.as_slice())?;
    let tags: Option<&[u8]> = match &row.tags {
        Some(t) => Some(t.as_slice()),
        None => None,
    };
    read_entry(key, String::from_str(category), name, row.value.as_slice(), tags)
}

/// Two sequences with the same members, each as often in the one as in the
/// other, have the same members after every member was mapped.
pub proof fn lemma_map_keeps_members<A, B>(a: Seq<A>, b: Seq<A>, f: spec_fn(A) -> B)
    requires
        a.to_multiset() == b.to_multiset(),
    ensures
        a.map_values(f).to_multiset() == b.map_values(f).to_multiset(),
    decreases a.len(),
{
    broadcast use vstd::multiset::group_multiset_axioms;

    vstd::seq_lib::to_multiset_len(a);
    vstd::seq_lib::to_multiset_len(b);
    if a.len() == 0 {
        assert(a.map_values(f) =~= b.map_values(f));
    } else {
        let x = a.last();
        let front = a.drop_last();
        assert(a =~= front.push(x));
        vstd::seq_lib::to_multiset_build(front, x);
        vstd::seq_lib::to_multiset_contains(b, x);
        assert(b.to_multiset().count(x) > 0);
        let k = choose|k: int| 0 <= k < b.len() && b[k] == x;
        let others = b.remove(k);
        vstd::seq_lib::to_multiset_remove(b, k);
        assert(front.to_multiset() =~= a.to_multiset().remove(x));
        lemma_map_keeps_members(front, others, f);
        assert(a.map_values(f) =~= front.map_values(f).push(f(x)));
        b.remove_ensures(k);
        others.map_values(f).insert_ensures(k, f(x));
        assert(b.map_values(f) =~= others.map_values(f).insert(k, f(x)));
        vstd::seq_lib::to_multiset_build(front.map_values(f), f(x));
        vstd::seq_lib::to_multiset_insert(others.map_values(f), k, f(x));
    }
}

/// An entry that was stored is read back as it was stored. Let a row hold an
/// encrypted value and the text of stored tags. If the value was encrypted
/// from `value`, and the tags are the stored forms of `tags` in any order,
/// then the row is read as the entry with that category, name and value, and
/// with the same tags, each as often as it was given; where the row keeps
/// the order of the tags, they are read in that order. A row without tags
/// text is read as the entry without tags.
pub proof fn lemma_stored_entry_is_read_back<K: EntryEncryptor>(
    key: K,
    category: Seq<char>,
    name: Seq<char>,
    value: Seq<u8>,
    tags: Seq<TagView>,
    enc_value: Seq<u8>,
    stored: Seq<EncTagView>,
)
    requires
        key.value_plain(enc_value) == Some(value),
        stored.to_multiset() == tags_cipher(key, tags).to_multiset(),
    ensures
        row_entry(key, category, name, enc_value, Some(encode_tags(stored))) matches Ok(entry)
            && entry.category == category && entry.name == name && entry.value == value && (
        entry.tags matches Some(read) && read.to_multiset() == tags.to_multiset() && (stored
            == tags_cipher(key, tags) ==> read == tags)),
        row_entry(key, category, name, enc_value, None) == Ok::<EntryView, ErrorKind>(
            EntryView { category, name, value, tags: Some(Seq::empty()) },
        ),
{
    broadcast use vstd::multiset::group_multiset_axioms;

    let made = tags_cipher(key, tags);
    let read_one = |e: EncTagView| tag_plain(key, e).unwrap();
    lemma_parse_encode_tags(stored);
    lemma_tags_round_trip(key, tags);
    assert forall|i: int| 0 <= i < stored.len() implies tag_plain(key, #[trigger] stored[i])
        is Some by {
        vstd::seq_lib::to_multiset_contains(stored, stored[i]);
        vstd::seq_lib::to_multiset_contains(made, stored[i]);
        assert(stored.contains(stored[i]));
        let j = choose|j: int| 0 <= j < made.len() && made[j] == stored[i];
        lemma_tag_round_trip(key, tags[j]);
    }
    lemma_map_keeps_members(stored, made, read_one);
    assert(made.map_values(read_one) =~= tags) by {
        assert forall|j: int| 0 <= j < made.len() implies made.map_values(read_one)[j]
            == tags[j] by {
            lemma_tag_round_trip(key, tags[j]);
        }
    }
}

} // verus!
