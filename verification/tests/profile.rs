use aries_askar::error::{Error, ErrorKind};
use aries_askar::keys::{KeyCache, NullEncryptor, Unprotected, WrapKey};
use aries_askar::profile::{
    create_profile_query, finish_rekey, profile_created, profile_query, profile_removed,
    remove_profile_query, resolve_profile_key, rewrap_profiles, KeyUpdate, Rekey, RekeyInput,
    RekeyPhase, CONFIG_UPDATE_QUERY, PROFILES_QUERY, PROFILE_DELETE_QUERY, PROFILE_INSERT_QUERY,
    PROFILE_SELECT_QUERY, PROFILE_UPDATE_QUERY,
};
use aries_askar::protocol::{DbRequest, DbResponse, ProfileRow};
use aries_askar::query::QueryParam;

fn cache() -> KeyCache<Unprotected, NullEncryptor> {
    KeyCache::new(Unprotected)
}

#[test]
fn key_cache_keeps_what_it_has() {
    let mut c = cache();
    assert!(c.get_profile("alice").is_none());
    c.add_profile("alice".to_string(), 1, NullEncryptor);
    c.add_profile("bob".to_string(), 2, NullEncryptor);
    assert_eq!(c.get_profile("alice").map(|(id, _)| id), Some(1));
    assert_eq!(c.get_profile("bob").map(|(id, _)| id), Some(2));
    c.add_profile("alice".to_string(), 3, NullEncryptor);
    assert_eq!(c.get_profile("alice").map(|(id, _)| id), Some(1));
    assert!(c.get_profile("carol").is_none());
    assert!(c.get_profile("").is_none());
    assert_eq!(*c.wrap_key(), Unprotected);
}

#[test]
fn unprotected_wrap_key() {
    let blob = Unprotected.wrap_key(&NullEncryptor).unwrap();
    assert!(blob.is_empty());
    assert_eq!(Unprotected.unwrap_key(&blob).unwrap(), NullEncryptor);
    assert_eq!(Unprotected.unwrap_key(b"x").unwrap_err().kind(), ErrorKind::Encryption);
    assert_eq!(cache().load_key(b"").unwrap(), NullEncryptor);
    assert_eq!(cache().load_key(b"x").unwrap_err().kind(), ErrorKind::Encryption);
}

#[test]
fn create_profile_statement_and_answer() {
    let mut c = cache();
    let stmt = create_profile_query(&c, "alice", &NullEncryptor).unwrap();
    assert_eq!(stmt.sql, PROFILE_INSERT_QUERY);
    assert_eq!(
        stmt.params.items,
        vec![QueryParam::Text("alice".to_string()), QueryParam::Bytes(vec![])]
    );
    assert_eq!(
        profile_created(&mut c, "alice".to_string(), NullEncryptor, Some(5)).unwrap(),
        "alice"
    );
    assert_eq!(c.get_profile("alice").map(|(id, _)| id), Some(5));
    let err = profile_created(&mut c, "bob".to_string(), NullEncryptor, None).unwrap_err();
    assert_eq!(err.kind(), ErrorKind::Duplicate);
    assert!(c.get_profile("bob").is_none());
}

#[test]
fn remove_profile_statement_and_answer() {
    let stmt = remove_profile_query("alice");
    assert_eq!(stmt.sql, PROFILE_DELETE_QUERY);
    assert_eq!(stmt.params.items, vec![QueryParam::Text("alice".to_string())]);
    assert!(profile_removed(1));
    assert!(profile_removed(2));
    assert!(!profile_removed(0));
}

#[test]
fn resolve_profile_from_row() {
    let mut c = cache();
    let stmt = profile_query("alice");
    assert_eq!(stmt.sql, PROFILE_SELECT_QUERY);
    assert_eq!(stmt.params.items, vec![QueryParam::Text("alice".to_string())]);

    let err = resolve_profile_key(&mut c, "alice".to_string(), None).unwrap_err();
    assert_eq!(err.kind(), ErrorKind::NotFound);
    assert!(c.get_profile("alice").is_none());

    let bad = ProfileRow { id: 4, store_key: b"garbage".to_vec() };
    let err = resolve_profile_key(&mut c, "alice".to_string(), Some(&bad)).unwrap_err();
    assert_eq!(err.kind(), ErrorKind::Encryption);
    assert!(c.get_profile("alice").is_none());

    let row = ProfileRow { id: 4, store_key: vec![] };
    assert_eq!(resolve_profile_key(&mut c, "alice".to_string(), Some(&row)).unwrap(), 4);
    assert_eq!(c.get_profile("alice").map(|(id, _)| id), Some(4));

    let other = ProfileRow { id: 9, store_key: vec![] };
    assert_eq!(resolve_profile_key(&mut c, "alice".to_string(), Some(&other)).unwrap(), 4);
}

#[test]
fn rewrap_orders_by_profile_and_keeps_last() {
    let rows = vec![
        ProfileRow { id: 30, store_key: vec![] },
        ProfileRow { id: 10, store_key: vec![] },
        ProfileRow { id: 20, store_key: vec![] },
        ProfileRow { id: 10, store_key: vec![] },
    ];
    let updates = rewrap_profiles(&Unprotected, &Unprotected, &rows).unwrap();
    assert_eq!(
        updates,
        vec![
            KeyUpdate { profile_id: 10, store_key: vec![] },
            KeyUpdate { profile_id: 20, store_key: vec![] },
            KeyUpdate { profile_id: 30, store_key: vec![] },
        ]
    );
    assert_eq!(rewrap_profiles(&Unprotected, &Unprotected, &[]).unwrap(), vec![]);
}

#[test]
fn rewrap_fails_on_a_key_that_cannot_be_unwrapped() {
    let rows = vec![
        ProfileRow { id: 1, store_key: vec![] },
        ProfileRow { id: 2, store_key: b"wrapped-elsewhere".to_vec() },
    ];
    let err = rewrap_profiles(&Unprotected, &Unprotected, &rows).unwrap_err();
    assert_eq!(err.kind(), ErrorKind::Encryption);
}

fn updates() -> Vec<KeyUpdate> {
    vec![
        KeyUpdate { profile_id: 1, store_key: b"k1".to_vec() },
        KeyUpdate { profile_id: 2, store_key: b"k2".to_vec() },
    ]
}

fn expect_execute(req: DbRequest, sql: &str, params: Vec<QueryParam>) {
    match req {
        DbRequest::Execute(stmt) => {
            assert_eq!(stmt.sql, sql);
            assert_eq!(stmt.params.items, params);
        }
        other => panic!("unexpected request {:?}", other),
    }
}

fn up_to_updates(rekey: &mut Rekey) -> DbRequest {
    assert_eq!(rekey.next(RekeyInput::Answer(DbResponse::Done)), DbRequest::Begin);
    match rekey.next(RekeyInput::Answer(DbResponse::Done)) {
        DbRequest::FetchProfiles(stmt) => {
            assert_eq!(stmt.sql, PROFILES_QUERY);
            assert!(stmt.params.items.is_empty());
        }
        other => panic!("unexpected request {:?}", other),
    }
    rekey.next(RekeyInput::Rewrapped(Ok(updates())))
}

#[test]
fn rekey_replaces_every_key_then_the_reference() {
    let mut rekey = Rekey::new("kdf:argon2i:13:mod?salt=abc".to_string());
    assert_eq!(rekey.phase, RekeyPhase::Start);
    expect_execute(
        up_to_updates(&mut rekey),
        PROFILE_UPDATE_QUERY,
        vec![QueryParam::Bytes(b"k1".to_vec()), QueryParam::Int(1)],
    );
    expect_execute(
        rekey.next(RekeyInput::Answer(DbResponse::RowsAffected(1))),
        PROFILE_UPDATE_QUERY,
        vec![QueryParam::Bytes(b"k2".to_vec()), QueryParam::Int(2)],
    );
    expect_execute(
        rekey.next(RekeyInput::Answer(DbResponse::RowsAffected(1))),
        CONFIG_UPDATE_QUERY,
        vec![QueryParam::Text("kdf:argon2i:13:mod?salt=abc".to_string())],
    );
    assert_eq!(rekey.next(RekeyInput::Answer(DbResponse::RowsAffected(1))), DbRequest::Commit);
    assert_eq!(rekey.next(RekeyInput::Answer(DbResponse::Done)), DbRequest::Finish(Ok(())));
    assert_eq!(rekey.phase, RekeyPhase::Finished);
}

#[test]
fn rekey_without_profiles_replaces_the_reference() {
    let mut rekey = Rekey::new("raw".to_string());
    assert_eq!(rekey.next(RekeyInput::Answer(DbResponse::Done)), DbRequest::Begin);
    assert!(matches!(rekey.next(RekeyInput::Answer(DbResponse::Done)), DbRequest::FetchProfiles(_)));
    expect_execute(
        rekey.next(RekeyInput::Rewrapped(Ok(vec![]))),
        CONFIG_UPDATE_QUERY,
        vec![QueryParam::Text("raw".to_string())],
    );
}

#[test]
fn rekey_requires_exactly_one_row_per_update() {
    for n in [0u64, 2u64] {
        let mut rekey = Rekey::new("raw".to_string());
        assert!(matches!(up_to_updates(&mut rekey), DbRequest::Execute(_)));
        assert_eq!(rekey.next(RekeyInput::Answer(DbResponse::RowsAffected(n))), DbRequest::Rollback);
        assert_eq!(
            rekey.next(RekeyInput::Answer(DbResponse::Done)),
            DbRequest::Finish(Err(Error::new(ErrorKind::Backend)))
        );

        let mut rekey = Rekey::new("raw".to_string());
        assert!(matches!(up_to_updates(&mut rekey), DbRequest::Execute(_)));
        assert!(matches!(
            rekey.next(RekeyInput::Answer(DbResponse::RowsAffected(1))),
            DbRequest::Execute(_)
        ));
        assert!(matches!(
            rekey.next(RekeyInput::Answer(DbResponse::RowsAffected(1))),
            DbRequest::Execute(_)
        ));
        assert_eq!(rekey.next(RekeyInput::Answer(DbResponse::RowsAffected(n))), DbRequest::Rollback);
        assert_eq!(
            rekey.next(RekeyInput::Answer(DbResponse::Done)),
            DbRequest::Finish(Err(Error::new(ErrorKind::Backend)))
        );
    }
}

#[test]
fn rekey_rolls_back_when_rewrapping_fails() {
    let mut rekey = Rekey::new("raw".to_string());
    assert_eq!(rekey.next(RekeyInput::Answer(DbResponse::Done)), DbRequest::Begin);
    assert!(matches!(rekey.next(RekeyInput::Answer(DbResponse::Done)), DbRequest::FetchProfiles(_)));
    assert_eq!(
        rekey.next(RekeyInput::Rewrapped(Err(Error::new(ErrorKind::Encryption)))),
        DbRequest::Rollback
    );
    assert_eq!(
        rekey.next(RekeyInput::Answer(DbResponse::Done)),
        DbRequest::Finish(Err(Error::new(ErrorKind::Encryption)))
    );
}

#[test]
fn rekey_ends_when_the_transaction_cannot_begin() {
    let mut rekey = Rekey::new("raw".to_string());
    assert_eq!(rekey.next(RekeyInput::Answer(DbResponse::Done)), DbRequest::Begin);
    assert_eq!(
        rekey.next(RekeyInput::Answer(DbResponse::Failed(Error::new(ErrorKind::Busy)))),
        DbRequest::Finish(Err(Error::new(ErrorKind::Busy)))
    );
}

#[test]
fn finish_rekey_replaces_cache_only_on_success() {
    let mut c = cache();
    c.add_profile("alice".to_string(), 1, NullEncryptor);
    let failed = Err(Error::new(ErrorKind::Backend));
    assert_eq!(finish_rekey(&mut c, Unprotected, failed), failed);
    assert_eq!(c.get_profile("alice").map(|(id, _)| id), Some(1));
    assert_eq!(finish_rekey(&mut c, Unprotected, Ok(())), Ok(()));
    assert!(c.get_profile("alice").is_none());
}
