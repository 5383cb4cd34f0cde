use aries_askar::error::{Error, ErrorKind};
use aries_askar::keys::{KeyCache, NullEncryptor, Unprotected};
use aries_askar::postgres::{
    count_query, fetch_entry, fetch_query, remove_all_query, scan_query, FetchRow, ScanRow,
    COUNT_QUERY, DELETE_ALL_QUERY, DELETE_QUERY, FETCH_QUERY, FETCH_QUERY_UPDATE, INSERT_QUERY,
    SCAN_QUERY, TAG_INSERT_QUERY,
};
use aries_askar::profile::{
    create_profile_query, finish_rekey, profile_created, profile_query, resolve_profile_key,
    rewrap_profiles, Rekey, RekeyInput, CONFIG_UPDATE_QUERY, PROFILES_QUERY,
    PROFILE_INSERT_QUERY, PROFILE_SELECT_QUERY, PROFILE_UPDATE_QUERY,
};
use aries_askar::protocol::{DbRequest, DbResponse, ProfileRow};
use aries_askar::query::{QueryParam, Statement, Timestamp};
use aries_askar::scan::fetch_all;
use aries_askar::session::{Activation, CloseAction, DbSession, SessionState};
use aries_askar::types::{Entry, EntryKind, EntryOperation, EntryTag, TagFilter, TagName};
use aries_askar::update::{expiry_timestamp, prepare_update};

const NOW_MS: i64 = 1_700_000_000_000;

#[derive(Clone, Debug)]
struct Item {
    id: i64,
    profile_id: i64,
    kind: i16,
    category: Vec<u8>,
    name: Vec<u8>,
    value: Vec<u8>,
    expiry: Option<Timestamp>,
    tags: Vec<(Vec<u8>, Vec<u8>, i16)>,
}

#[derive(Clone, Debug)]
struct Tables {
    profiles: Vec<(i64, String, Vec<u8>)>,
    items: Vec<Item>,
    wrap_key: String,
    next_id: i64,
}

/// A database in memory that knows the statements of the store by their text.
struct FakeDb {
    committed: Tables,
    open: Option<Tables>,
}

fn as_int(p: &QueryParam) -> i64 {
    match p {
        QueryParam::Int(v) => *v,
        other => panic!("not an integer: {:?}", other),
    }
}

fn as_small(p: &QueryParam) -> i16 {
    match p {
        QueryParam::SmallInt(v) => *v,
        other => panic!("not a small integer: {:?}", other),
    }
}

fn as_blob(p: &QueryParam) -> Vec<u8> {
    match p {
        QueryParam::Bytes(v) => v.clone(),
        other => panic!("not bytes: {:?}", other),
    }
}

fn as_text(p: &QueryParam) -> String {
    match p {
        QueryParam::Text(v) => v.clone(),
        other => panic!("not text: {:?}", other),
    }
}

fn hex(bytes: &[u8]) -> String {
    let mut out = String::new();
    for b in bytes {
        out.push_str(&format!("{:02x}", b));
    }
    out
}

fn later(a: Timestamp, b: Timestamp) -> bool {
    (a.secs, a.nanos) > (b.secs, b.nanos)
}

const EQ_CLAUSE: &str = " AND EXISTS (SELECT 1 FROM items_tags it WHERE it.item_id = i.id AND it.plaintext=$4 AND it.name=$5 AND it.value = $6)";

impl FakeDb {
    fn new() -> FakeDb {
        FakeDb {
            committed: Tables {
                profiles: vec![],
                items: vec![],
                wrap_key: "none".to_string(),
                next_id: 1,
            },
            open: None,
        }
    }

    fn tables(&mut self) -> &mut Tables {
        match self.open.as_mut() {
            Some(t) => t,
            None => &mut self.committed,
        }
    }

    fn visible(item: &Item) -> bool {
        match item.expiry {
            None => true,
            Some(t) => later(t, expiry_timestamp(NOW_MS)),
        }
    }

    fn in_category<'a>(&'a mut self, stmt: &Statement) -> Vec<&'a Item> {
        let (pid, kind, category) =
            (as_int(&stmt.params.items[0]), as_small(&stmt.params.items[1]), as_blob(&stmt.params.items[2]));
        let tag = if stmt.params.items.len() >= 6 {
            Some((
                as_blob(&stmt.params.items[4]),
                as_blob(&stmt.params.items[5]),
                as_small(&stmt.params.items[3]),
            ))
        } else {
            None
        };
        self.tables()
            .items
            .iter()
            .filter(|i| i.profile_id == pid && i.kind == kind && i.category == category)
            .filter(|i| FakeDb::visible(i))
            .filter(|i| match &tag {
                Some(t) => i.tags.contains(t),
                None => true,
            })
            .collect()
    }

    fn tags_text(item: &Item) -> Option<Vec<u8>> {
        if item.tags.is_empty() {
            return None;
        }
        let parts: Vec<String> = item
            .tags
            .iter()
            .map(|(name, value, plain)| format!("{}:{}:{}", plain, hex(name), hex(value)))
            .collect();
        Some(parts.join(",").into_bytes())
    }

    fn count(&mut self, stmt: &Statement) -> i64 {
        assert!(stmt.sql == COUNT_QUERY || stmt.sql == format!("{}{}", COUNT_QUERY, EQ_CLAUSE));
        self.in_category(stmt).len() as i64
    }

    fn scan(&mut self, stmt: &Statement) -> Vec<ScanRow> {
        assert!(stmt.sql == SCAN_QUERY || stmt.sql == format!("{}{}", SCAN_QUERY, EQ_CLAUSE));
        self.in_category(stmt)
            .iter()
            .map(|i| ScanRow {
                name: i.name.clone(),
                value: i.value.clone(),
                tags: FakeDb::tags_text(i),
            })
            .collect()
    }

    fn fetch(&mut self, stmt: &Statement) -> Option<FetchRow> {
        assert!(stmt.sql == FETCH_QUERY || stmt.sql == FETCH_QUERY_UPDATE);
        let name = as_blob(&stmt.params.items[3]);
        self.in_category(stmt)
            .iter()
            .find(|i| i.name == name)
            .map(|i| FetchRow { value: i.value.clone(), tags: FakeDb::tags_text(i) })
    }

    fn profile(&mut self, stmt: &Statement) -> Option<ProfileRow> {
        assert_eq!(stmt.sql, PROFILE_SELECT_QUERY);
        let name = as_text(&stmt.params.items[0]);
        self.tables()
            .profiles
            .iter()
            .find(|p| p.1 == name)
            .map(|p| ProfileRow { id: p.0, store_key: p.2.clone() })
    }

    fn profiles(&mut self, stmt: &Statement) -> Vec<ProfileRow> {
        assert_eq!(stmt.sql, PROFILES_QUERY);
        self.tables()
            .profiles
            .iter()
            .map(|p| ProfileRow { id: p.0, store_key: p.2.clone() })
            .collect()
    }

    fn fetch_id(&mut self, stmt: &Statement) -> Option<i64> {
        let p = &stmt.params.items;
        let t = self.tables();
        if stmt.sql == PROFILE_INSERT_QUERY {
            let name = as_text(&p[0]);
            if t.profiles.iter().any(|row| row.1 == name) {
                return None;
            }
            let id = t.next_id;
            t.next_id += 1;
            t.profiles.push((id, name, as_blob(&p[1])));
            Some(id)
        } else if stmt.sql == INSERT_QUERY {
            let (pid, kind, category, name) = (as_int(&p[0]), as_small(&p[1]), as_blob(&p[2]), as_blob(&p[3]));
            if t.items.iter().any(|i| {
                i.profile_id == pid && i.kind == kind && i.category == category && i.name == name
            }) {
                return None;
            }
            let expiry = match &p[5] {
                QueryParam::OptTimestamp(e) => *e,
                other => panic!("not a timestamp: {:?}", other),
            };
            let id = t.next_id;
            t.next_id += 1;
            t.items.push(Item {
                id,
                profile_id: pid,
                kind,
                category,
                name,
                value: as_blob(&p[4]),
                expiry,
                tags: vec![],
            });
            Some(id)
        } else {
            panic!("unknown statement {}", stmt.sql)
        }
    }

    fn execute(&mut self, stmt: &Statement) -> u64 {
        let p = &stmt.params.items;
        if stmt.sql == DELETE_ALL_QUERY {
            let ids: Vec<i64> = self.in_category(stmt).iter().map(|i| i.id).collect();
            self.tables().items.retain(|i| !ids.contains(&i.id));
            return ids.len() as u64;
        }
        let t = self.tables();
        if stmt.sql == TAG_INSERT_QUERY {
            let id = as_int(&p[0]);
            match t.items.iter_mut().find(|i| i.id == id) {
                Some(item) => {
                    item.tags.push((as_blob(&p[1]), as_blob(&p[2]), as_small(&p[3])));
                    1
                }
                None => 0,
            }
        } else if stmt.sql == DELETE_QUERY {
            let (pid, kind, category, name) = (as_int(&p[0]), as_small(&p[1]), as_blob(&p[2]), as_blob(&p[3]));
            let before = t.items.len();
            t.items.retain(|i| {
                !(i.profile_id == pid && i.kind == kind && i.category == category && i.name == name)
            });
            (before - t.items.len()) as u64
        } else if stmt.sql == PROFILE_UPDATE_QUERY {
            let (key, id) = (as_blob(&p[0]), as_int(&p[1]));
            match t.profiles.iter_mut().find(|row| row.0 == id) {
                Some(row) => {
                    row.2 = key;
                    1
                }
                None => 0,
            }
        } else if stmt.sql == CONFIG_UPDATE_QUERY {
            t.wrap_key = as_text(&p[0]);
            1
        } else {
            panic!("unknown statement {}", stmt.sql)
        }
    }

    fn begin(&mut self) {
        assert!(self.open.is_none());
        self.open = Some(self.committed.clone());
    }

    fn commit(&mut self) {
        self.committed = self.open.take().unwrap();
    }

    fn rollback(&mut self) {
        self.open.take().unwrap();
    }

    fn answer(&mut self, request: &DbRequest) -> DbResponse {
        match request {
            DbRequest::Begin => {
                self.begin();
                DbResponse::Done
            }
            DbRequest::Commit => {
                self.commit();
                DbResponse::Done
            }
            DbRequest::Rollback => {
                self.rollback();
                DbResponse::Done
            }
            DbRequest::Execute(stmt) => DbResponse::RowsAffected(self.execute(stmt)),
            DbRequest::FetchId(stmt) => DbResponse::RowId(self.fetch_id(stmt)),
            other => panic!("unexpected request {:?}", other),
        }
    }
}

type Cache = KeyCache<Unprotected, NullEncryptor>;

/// A store on the database in memory, driven as a program drives the store
/// on a live database.
struct Store {
    db: FakeDb,
    cache: Cache,
}

impl Store {
    fn new() -> Store {
        Store { db: FakeDb::new(), cache: KeyCache::new(Unprotected) }
    }

    fn create_profile(&mut self, name: &str) -> Result<String, Error> {
        let stmt = create_profile_query(&self.cache, name, &NullEncryptor)?;
        let row = self.db.fetch_id(&stmt);
        profile_created(&mut self.cache, name.to_string(), NullEncryptor, row)
    }

    fn session(&self, profile: &str, transaction: bool) -> DbSession<NullEncryptor> {
        DbSession::new(profile.to_string(), transaction)
    }

    fn make_active(&mut self, session: &mut DbSession<NullEncryptor>) -> Result<(), Error> {
        match session.activation() {
            Activation::Ready => Ok(()),
            Activation::Closed => Err(Error::new(ErrorKind::Backend)),
            Activation::Acquire { begin } => {
                let name = session.profile_name().to_string();
                let profile_id = match self.cache.get_profile(&name) {
                    Some((id, _)) => id,
                    None => {
                        let row = self.db.profile(&profile_query(&name));
                        resolve_profile_key(&mut self.cache, name, row.as_ref())?
                    }
                };
                if begin {
                    self.db.begin();
                }
                assert!(session.activate(profile_id, NullEncryptor));
                Ok(())
            }
        }
    }

    fn update(
        &mut self,
        session: &mut DbSession<NullEncryptor>,
        operation: EntryOperation,
        category: &str,
        name: &str,
        value: Option<&[u8]>,
        tags: Option<&[EntryTag]>,
        expiry_ms: Option<i64>,
    ) -> Result<(), Error> {
        self.make_active(session)?;
        let in_transaction = session.in_transaction();
        let (profile_id, key) = session.profile_and_key().unwrap();
        let mut update = prepare_update(
            key,
            profile_id,
            in_transaction,
            EntryKind::General,
            operation,
            category,
            name,
            value,
            tags,
            expiry_ms,
        )?;
        let mut response = DbResponse::Done;
        loop {
            match update.next(response) {
                DbRequest::Finish(result) => return result,
                request => response = self.db.answer(&request),
            }
        }
    }

    fn fetch(
        &mut self,
        session: &mut DbSession<NullEncryptor>,
        category: &str,
        name: &str,
    ) -> Result<Option<Entry>, Error> {
        self.make_active(session)?;
        let in_transaction = session.in_transaction();
        let (profile_id, key) = session.profile_and_key().unwrap();
        let stmt =
            fetch_query(profile_id, key, EntryKind::General, category, name, true, in_transaction)?;
        assert_eq!(stmt.sql == FETCH_QUERY_UPDATE, in_transaction);
        let row = self.db.fetch(&stmt);
        fetch_entry(key, category, name, row.as_ref())
    }

    fn count(
        &mut self,
        session: &mut DbSession<NullEncryptor>,
        category: &str,
        filter: Option<&TagFilter>,
    ) -> Result<i64, Error> {
        self.make_active(session)?;
        let (profile_id, key) = session.profile_and_key().unwrap();
        let stmt = count_query(profile_id, key, EntryKind::General, category, filter)?;
        Ok(self.db.count(&stmt))
    }

    fn fetch_all(
        &mut self,
        session: &mut DbSession<NullEncryptor>,
        category: &str,
        filter: Option<&TagFilter>,
    ) -> Result<Vec<Entry>, Error> {
        self.make_active(session)?;
        let (profile_id, key) = session.profile_and_key().unwrap();
        let stmt =
            scan_query(profile_id, key, EntryKind::General, category, filter, None, None, false)?;
        let rows = self.db.scan(&stmt);
        fetch_all(key, category, &rows)
    }

    fn remove_all(
        &mut self,
        session: &mut DbSession<NullEncryptor>,
        category: &str,
    ) -> Result<i64, Error> {
        self.make_active(session)?;
        let (profile_id, key) = session.profile_and_key().unwrap();
        let stmt = remove_all_query(profile_id, key, EntryKind::General, category, None)?;
        Ok(self.db.execute(&stmt) as i64)
    }

    fn close(&mut self, session: &mut DbSession<NullEncryptor>, commit: bool) {
        match session.close(commit) {
            CloseAction::Commit => self.db.commit(),
            CloseAction::Rollback => self.db.rollback(),
            CloseAction::Release | CloseAction::Nothing => {}
        }
    }

    fn rekey(&mut self, uri: &str) -> Result<(), Error> {
        let mut rekey = Rekey::new(uri.to_string());
        let mut input = RekeyInput::Answer(DbResponse::Done);
        let result = loop {
            match rekey.next(input) {
                DbRequest::Finish(result) => break result,
                DbRequest::FetchProfiles(stmt) => {
                    let rows = self.db.profiles(&stmt);
                    input = RekeyInput::Rewrapped(rewrap_profiles(
                        self.cache.wrap_key(),
                        &Unprotected,
                        &rows,
                    ));
                }
                request => input = RekeyInput::Answer(self.db.answer(&request)),
            }
        };
        finish_rekey(&mut self.cache, Unprotected, result)
    }
}

fn city() -> Vec<EntryTag> {
    vec![EntryTag::Plaintext("city".to_string(), "nyc".to_string())]
}

#[test]
fn insert_fetch_remove() {
    let mut store = Store::new();
    assert_eq!(store.create_profile("alice").unwrap(), "alice");
    let mut session = store.session("alice", false);
    store
        .update(&mut session, EntryOperation::Insert, "contacts", "bob", Some(b"+1-555"), Some(&city()), None)
        .unwrap();
    assert_eq!(session.state(), SessionState::Active);
    let entry = store.fetch(&mut session, "contacts", "bob").unwrap().unwrap();
    assert_eq!(
        entry,
        Entry::new("contacts".to_string(), "bob".to_string(), b"+1-555".to_vec(), Some(city()))
    );
    store.update(&mut session, EntryOperation::Remove, "contacts", "bob", None, None, None).unwrap();
    assert_eq!(store.fetch(&mut session, "contacts", "bob").unwrap(), None);
    let err = store
        .update(&mut session, EntryOperation::Remove, "contacts", "bob", None, None, None)
        .unwrap_err();
    assert_eq!(err.kind(), ErrorKind::NotFound);
    store.close(&mut session, false);
    assert_eq!(session.state(), SessionState::Released);
}

#[test]
fn duplicate_profile_is_rejected() {
    let mut store = Store::new();
    store.create_profile("alice").unwrap();
    assert_eq!(store.create_profile("alice").unwrap_err().kind(), ErrorKind::Duplicate);
    let mut session = store.session("nobody", false);
    assert_eq!(store.count(&mut session, "c", None).unwrap_err().kind(), ErrorKind::NotFound);
    assert_eq!(session.state(), SessionState::Pending);
}

#[test]
fn insert_twice_then_replace() {
    let mut store = Store::new();
    store.create_profile("alice").unwrap();
    let mut session = store.session("alice", false);
    store
        .update(&mut session, EntryOperation::Insert, "contacts", "bob", Some(b"old"), Some(&city()), None)
        .unwrap();
    let err = store
        .update(&mut session, EntryOperation::Insert, "contacts", "bob", Some(b"other"), None, None)
        .unwrap_err();
    assert_eq!(err.kind(), ErrorKind::Duplicate);
    assert_eq!(store.fetch(&mut session, "contacts", "bob").unwrap().unwrap().value, b"old".to_vec());
    store
        .update(&mut session, EntryOperation::Replace, "contacts", "bob", Some(b"new"), None, None)
        .unwrap();
    let entry = store.fetch(&mut session, "contacts", "bob").unwrap().unwrap();
    assert_eq!(entry.value, b"new".to_vec());
    assert_eq!(entry.tags, Some(vec![]));
    store
        .update(&mut session, EntryOperation::Replace, "contacts", "carol", Some(b"c"), None, None)
        .unwrap();
    assert_eq!(store.count(&mut session, "contacts", None).unwrap(), 2);
}

#[test]
fn count_by_encrypted_tag() {
    let mut store = Store::new();
    store.create_profile("alice").unwrap();
    let mut session = store.session("alice", false);
    for n in 0..100 {
        let tags = vec![EntryTag::Encrypted("n".to_string(), format!("{}", n))];
        store
            .update(
                &mut session,
                EntryOperation::Insert,
                "nums",
                &format!("entry-{}", n),
                Some(&[n as u8]),
                Some(&tags),
                None,
            )
            .unwrap();
    }
    assert_eq!(store.count(&mut session, "nums", None).unwrap(), 100);
    let equal = TagFilter::Eq(TagName::Encrypted("n".to_string()), "42".to_string());
    assert_eq!(store.count(&mut session, "nums", Some(&equal)).unwrap(), 1);
    let found = store.fetch_all(&mut session, "nums", Some(&equal)).unwrap();
    assert_eq!(found.len(), 1);
    assert_eq!(found[0].name, "entry-42");
    assert_eq!(found[0].value, vec![42u8]);
    assert_eq!(found[0].tags, Some(vec![EntryTag::Encrypted("n".to_string(), "42".to_string())]));
    let range = TagFilter::And(vec![
        TagFilter::Gte(TagName::Encrypted("n".to_string()), "90".to_string()),
        TagFilter::Lte(TagName::Encrypted("n".to_string()), "95".to_string()),
    ]);
    assert_eq!(
        store.fetch_all(&mut session, "nums", Some(&range)).unwrap_err().kind(),
        ErrorKind::Input
    );
    assert_eq!(store.fetch_all(&mut session, "nums", None).unwrap().len(), 100);
    assert_eq!(store.remove_all(&mut session, "nums").unwrap(), 100);
    assert_eq!(store.count(&mut session, "nums", None).unwrap(), 0);
}

#[test]
fn expired_entry_is_invisible() {
    let mut store = Store::new();
    store.create_profile("alice").unwrap();
    let mut session = store.session("alice", false);
    store
        .update(&mut session, EntryOperation::Insert, "c", "gone", Some(b"v"), None, Some(NOW_MS - 1000))
        .unwrap();
    store
        .update(&mut session, EntryOperation::Insert, "c", "here", Some(b"v"), None, Some(NOW_MS + 1000))
        .unwrap();
    assert_eq!(store.count(&mut session, "c", None).unwrap(), 1);
    assert_eq!(store.fetch(&mut session, "c", "gone").unwrap(), None);
    assert!(store.fetch(&mut session, "c", "here").unwrap().is_some());
    let all = store.fetch_all(&mut session, "c", None).unwrap();
    assert_eq!(all.len(), 1);
    assert_eq!(all[0].name, "here");
}

#[test]
fn rekey_keeps_entries_readable() {
    let mut store = Store::new();
    store.create_profile("alice").unwrap();
    store.create_profile("bob").unwrap();
    let mut session = store.session("alice", false);
    store
        .update(&mut session, EntryOperation::Insert, "contacts", "bob", Some(b"+1-555"), Some(&city()), None)
        .unwrap();
    store.close(&mut session, false);
    store.rekey("kdf:argon2i:13:mod?salt=fresh").unwrap();
    assert_eq!(store.db.committed.wrap_key, "kdf:argon2i:13:mod?salt=fresh");
    assert!(store.db.open.is_none());
    assert!(store.cache.get_profile("alice").is_none());
    let mut session = store.session("alice", false);
    let entry = store.fetch(&mut session, "contacts", "bob").unwrap().unwrap();
    assert_eq!(entry.value, b"+1-555".to_vec());
    assert_eq!(entry.tags, Some(city()));
    assert!(store.cache.get_profile("alice").is_some());
    store.rekey("raw").unwrap();
    assert_eq!(store.db.committed.wrap_key, "raw");
}

#[test]
fn rekey_with_unreadable_key_changes_nothing() {
    let mut store = Store::new();
    store.create_profile("alice").unwrap();
    store.db.committed.profiles.push((99, "mallory".to_string(), b"wrapped-elsewhere".to_vec()));
    assert_eq!(store.rekey("raw").unwrap_err().kind(), ErrorKind::Encryption);
    assert_eq!(store.db.committed.wrap_key, "none");
    assert!(store.db.open.is_none());
    assert!(store.cache.get_profile("alice").is_some());
    let mut session = store.session("mallory", false);
    assert_eq!(store.count(&mut session, "c", None).unwrap_err().kind(), ErrorKind::Encryption);
}

#[test]
fn abandoned_transaction_leaves_no_entry() {
    let mut store = Store::new();
    store.create_profile("alice").unwrap();
    let mut session = store.session("alice", true);
    store
        .update(&mut session, EntryOperation::Insert, "contacts", "bob", Some(b"+1-555"), None, None)
        .unwrap();
    assert_eq!(session.state(), SessionState::ActiveTxn);
    assert!(store.fetch(&mut session, "contacts", "bob").unwrap().is_some());
    store.close(&mut session, false);
    assert_eq!(session.state(), SessionState::Dropped);
    let mut fresh = store.session("alice", false);
    assert_eq!(store.fetch(&mut fresh, "contacts", "bob").unwrap(), None);
}

#[test]
fn committed_transaction_keeps_entry() {
    let mut store = Store::new();
    store.create_profile("alice").unwrap();
    let mut session = store.session("alice", true);
    store
        .update(&mut session, EntryOperation::Insert, "contacts", "bob", Some(b"+1-555"), None, None)
        .unwrap();
    let err = store
        .update(&mut session, EntryOperation::Insert, "contacts", "bob", Some(b"again"), None, None)
        .unwrap_err();
    assert_eq!(err.kind(), ErrorKind::Duplicate);
    store.close(&mut session, true);
    assert_eq!(session.state(), SessionState::Committed);
    let mut fresh = store.session("alice", false);
    assert_eq!(
        store.fetch(&mut fresh, "contacts", "bob").unwrap().unwrap().value,
        b"+1-555".to_vec()
    );
}
