use aries_askar::error::ErrorKind;
use aries_askar::filter::{check_tag_filter, encode_tag_filter};
use aries_askar::keys::NullEncryptor;
use aries_askar::postgres::PostgresStore;
use aries_askar::query::QueryParam;
use aries_askar::sqlite::SqliteStore;
use aries_askar::types::{TagFilter, TagName};

fn enc_name(s: &str) -> TagName {
    TagName::Encrypted(s.to_string())
}

fn plain_name(s: &str) -> TagName {
    TagName::Plaintext(s.to_string())
}

fn bytes(s: &str) -> QueryParam {
    QueryParam::Bytes(s.as_bytes().to_vec())
}

const HEAD: &str = "EXISTS (SELECT 1 FROM items_tags it WHERE it.item_id = i.id AND it.plaintext=";

#[test]
fn no_filter_compiles_to_nothing() {
    let out = encode_tag_filter::<PostgresStore, NullEncryptor>(None, &NullEncryptor, 3).unwrap();
    assert!(out.is_none());
}

#[test]
fn equality_on_encrypted_tag() {
    let filter = TagFilter::Eq(enc_name("n"), "42".to_string());
    let out = encode_tag_filter::<PostgresStore, NullEncryptor>(Some(&filter), &NullEncryptor, 3)
        .unwrap()
        .unwrap();
    assert_eq!(out.sql, format!("{}$4 AND it.name=$5 AND it.value = $6)", HEAD));
    assert_eq!(out.params.items, vec![QueryParam::SmallInt(0), bytes("n"), bytes("42")]);
}

#[test]
fn comparison_operators() {
    let cases = vec![
        (TagFilter::Eq(plain_name("a"), "1".to_string()), "="),
        (TagFilter::Neq(plain_name("a"), "1".to_string()), "!="),
        (TagFilter::Gt(plain_name("a"), "1".to_string()), ">"),
        (TagFilter::Gte(plain_name("a"), "1".to_string()), ">="),
        (TagFilter::Lt(plain_name("a"), "1".to_string()), "<"),
        (TagFilter::Lte(plain_name("a"), "1".to_string()), "<="),
        (TagFilter::Like(plain_name("a"), "1".to_string()), "LIKE"),
    ];
    for (filter, op) in cases {
        let out = encode_tag_filter::<PostgresStore, NullEncryptor>(Some(&filter), &NullEncryptor, 0)
            .unwrap()
            .unwrap();
        assert_eq!(out.sql, format!("{}$1 AND it.name=$2 AND it.value {} $3)", HEAD, op));
        assert_eq!(out.params.items, vec![QueryParam::SmallInt(1), bytes("a"), bytes("1")]);
    }
}

#[test]
fn order_comparison_on_encrypted_tag_is_input_error() {
    let filters = vec![
        TagFilter::Gt(enc_name("n"), "1".to_string()),
        TagFilter::Gte(enc_name("n"), "1".to_string()),
        TagFilter::Lt(enc_name("n"), "1".to_string()),
        TagFilter::Lte(enc_name("n"), "1".to_string()),
        TagFilter::Like(enc_name("n"), "1".to_string()),
        TagFilter::Not(Box::new(TagFilter::Gt(enc_name("n"), "1".to_string()))),
        TagFilter::And(vec![
            TagFilter::Gte(enc_name("n"), "90".to_string()),
            TagFilter::Lte(enc_name("n"), "95".to_string()),
        ]),
        TagFilter::Or(vec![
            TagFilter::Eq(enc_name("n"), "90".to_string()),
            TagFilter::And(vec![TagFilter::Like(enc_name("n"), "9%".to_string())]),
        ]),
    ];
    for filter in filters.iter() {
        let err = encode_tag_filter::<PostgresStore, NullEncryptor>(Some(filter), &NullEncryptor, 3)
            .unwrap_err();
        assert_eq!(err.kind(), ErrorKind::Input);
        assert_eq!(check_tag_filter(Some(filter), 3).unwrap_err().kind(), ErrorKind::Input);
    }
}

#[test]
fn equality_and_inequality_on_encrypted_tag_are_accepted() {
    let filter = TagFilter::Neq(enc_name("n"), "42".to_string());
    assert!(check_tag_filter(Some(&filter), 3).is_ok());
    assert!(check_tag_filter(None, 3).is_ok());
    let out = encode_tag_filter::<PostgresStore, NullEncryptor>(Some(&filter), &NullEncryptor, 3)
        .unwrap()
        .unwrap();
    assert_eq!(out.sql, format!("{}$4 AND it.name=$5 AND it.value != $6)", HEAD));
}

#[test]
fn range_on_plaintext_tag() {
    let filter = TagFilter::And(vec![
        TagFilter::Gte(plain_name("n"), "90".to_string()),
        TagFilter::Lte(plain_name("n"), "95".to_string()),
    ]);
    let out = encode_tag_filter::<PostgresStore, NullEncryptor>(Some(&filter), &NullEncryptor, 3)
        .unwrap()
        .unwrap();
    assert_eq!(
        out.sql,
        format!(
            "({}$4 AND it.name=$5 AND it.value >= $6) AND {}$7 AND it.name=$8 AND it.value <= $9))",
            HEAD, HEAD
        )
    );
    assert_eq!(
        out.params.items,
        vec![
            QueryParam::SmallInt(1),
            bytes("n"),
            bytes("90"),
            QueryParam::SmallInt(1),
            bytes("n"),
            bytes("95"),
        ]
    );
}

#[test]
fn empty_conjunction_and_disjunction() {
    let out = encode_tag_filter::<PostgresStore, NullEncryptor>(
        Some(&TagFilter::And(vec![])),
        &NullEncryptor,
        3,
    )
    .unwrap()
    .unwrap();
    assert_eq!(out.sql, "TRUE");
    assert!(out.params.items.is_empty());
    let out = encode_tag_filter::<PostgresStore, NullEncryptor>(
        Some(&TagFilter::Or(vec![])),
        &NullEncryptor,
        3,
    )
    .unwrap()
    .unwrap();
    assert_eq!(out.sql, "FALSE");
    assert!(out.params.items.is_empty());
}

#[test]
fn negation_and_nesting() {
    let filter = TagFilter::Not(Box::new(TagFilter::Or(vec![
        TagFilter::Eq(enc_name("a"), "1".to_string()),
        TagFilter::And(vec![]),
        TagFilter::Exist(vec![plain_name("b")]),
    ])));
    let out = encode_tag_filter::<SqliteStore, NullEncryptor>(Some(&filter), &NullEncryptor, 1)
        .unwrap()
        .unwrap();
    assert_eq!(
        out.sql,
        format!(
            "NOT (({}?2 AND it.name=?3 AND it.value = ?4) OR TRUE OR ({}?5 AND it.name=?6))))",
            HEAD, HEAD
        )
    );
    assert_eq!(
        out.params.items,
        vec![
            QueryParam::SmallInt(0),
            bytes("a"),
            bytes("1"),
            QueryParam::SmallInt(1),
            bytes("b"),
        ]
    );
}

#[test]
fn membership() {
    let filter = TagFilter::In(
        enc_name("color"),
        vec!["red".to_string(), "green".to_string(), "blue".to_string()],
    );
    let out = encode_tag_filter::<PostgresStore, NullEncryptor>(Some(&filter), &NullEncryptor, 3)
        .unwrap()
        .unwrap();
    assert_eq!(out.sql, format!("{}$4 AND it.name=$5 AND it.value IN ($6, $7, $8))", HEAD));
    assert_eq!(
        out.params.items,
        vec![QueryParam::SmallInt(0), bytes("color"), bytes("red"), bytes("green"), bytes("blue")]
    );

    let filter = TagFilter::In(plain_name("color"), vec!["red".to_string()]);
    let out = encode_tag_filter::<PostgresStore, NullEncryptor>(Some(&filter), &NullEncryptor, 0)
        .unwrap()
        .unwrap();
    assert_eq!(out.sql, format!("{}$1 AND it.name=$2 AND it.value IN ($3))", HEAD));

    let filter = TagFilter::In(plain_name("color"), vec![]);
    let out = encode_tag_filter::<PostgresStore, NullEncryptor>(Some(&filter), &NullEncryptor, 0)
        .unwrap()
        .unwrap();
    assert_eq!(out.sql, "FALSE");
    assert!(out.params.items.is_empty());
}

#[test]
fn existence() {
    let filter = TagFilter::Exist(vec![enc_name("a"), plain_name("b")]);
    let out = encode_tag_filter::<PostgresStore, NullEncryptor>(Some(&filter), &NullEncryptor, 3)
        .unwrap()
        .unwrap();
    assert_eq!(
        out.sql,
        format!("({}$4 AND it.name=$5) AND {}$6 AND it.name=$7))", HEAD, HEAD)
    );
    assert_eq!(
        out.params.items,
        vec![QueryParam::SmallInt(0), bytes("a"), QueryParam::SmallInt(1), bytes("b")]
    );
    let out = encode_tag_filter::<PostgresStore, NullEncryptor>(
        Some(&TagFilter::Exist(vec![])),
        &NullEncryptor,
        3,
    )
    .unwrap()
    .unwrap();
    assert_eq!(out.sql, "TRUE");
}

#[test]
fn metacharacters_land_in_params() {
    let benign = TagFilter::And(vec![
        TagFilter::Eq(enc_name("a"), "b".to_string()),
        TagFilter::Like(plain_name("c"), "d".to_string()),
        TagFilter::In(enc_name("e"), vec!["f".to_string(), "g".to_string()]),
    ]);
    let hostile = TagFilter::And(vec![
        TagFilter::Eq(enc_name("'; DROP TABLE items; --"), "\" OR 1=1 --".to_string()),
        TagFilter::Like(plain_name("$1 $$ ?1"), "%'); DELETE FROM profiles; --".to_string()),
        TagFilter::In(enc_name(") OR (TRUE"), vec!["$$".to_string(), "\\'".to_string()]),
    ]);
    let a = encode_tag_filter::<PostgresStore, NullEncryptor>(Some(&benign), &NullEncryptor, 3)
        .unwrap()
        .unwrap();
    let b = encode_tag_filter::<PostgresStore, NullEncryptor>(Some(&hostile), &NullEncryptor, 3)
        .unwrap()
        .unwrap();
    assert_eq!(a.sql, b.sql);
    assert_eq!(a.params.items.len(), b.params.items.len());
    assert_eq!(
        b.params.items,
        vec![
            QueryParam::SmallInt(0),
            bytes("'; DROP TABLE items; --"),
            bytes("\" OR 1=1 --"),
            QueryParam::SmallInt(1),
            bytes("$1 $$ ?1"),
            bytes("%'); DELETE FROM profiles; --"),
            QueryParam::SmallInt(0),
            bytes(") OR (TRUE"),
            bytes("$$"),
            bytes("\\'"),
        ]
    );
}

#[test]
fn tag_name_accessors() {
    assert!(plain_name("a").is_plaintext());
    assert!(!enc_name("a").is_plaintext());
    assert_eq!(plain_name("a").as_str(), "a");
    assert_eq!(enc_name("b").as_str(), "b");
}
