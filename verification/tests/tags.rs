use aries_askar::error::ErrorKind;
use aries_askar::hex::hex_decode_range;
use aries_askar::keys::{
    decrypt_entry_tags, encrypt_entry_tags, EntryEncryptor, NullEncryptor,
};
use aries_askar::tags::decode_tags;
use aries_askar::types::{EncEntryTag, EntryTag};

fn enc(name: &[u8], value: &[u8], plaintext: bool) -> EncEntryTag {
    EncEntryTag { name: name.to_vec(), value: value.to_vec(), plaintext }
}

#[test]
fn decode_tags_empty_text_is_no_tags() {
    assert_eq!(decode_tags(b"").unwrap(), vec![]);
}

#[test]
fn decode_tags_reads_one_tag() {
    assert_eq!(decode_tags(b"1:63697479:6e7963").unwrap(), vec![enc(b"city", b"nyc", true)]);
    assert_eq!(decode_tags(b"0:00ff:10").unwrap(), vec![enc(&[0, 255], &[16], false)]);
}

#[test]
fn decode_tags_reads_several_tags_in_order() {
    assert_eq!(
        decode_tags(b"0:aa:bb,1:cc:dd,0:0102:").unwrap(),
        vec![enc(&[0xaa], &[0xbb], false), enc(&[0xcc], &[0xdd], true), enc(&[1, 2], &[], false)]
    );
}

#[test]
fn decode_tags_accepts_empty_name_and_value() {
    assert_eq!(decode_tags(b"0::").unwrap(), vec![enc(&[], &[], false)]);
}

#[test]
fn decode_tags_rejects_malformed_text() {
    let bad: [&[u8]; 12] = [
        b"0",
        b"0:",
        b"0:aa",
        b"0:aa:bb,",
        b",0:aa:bb",
        b"0:aa:bb,,1:cc:dd",
        b"2:aa:bb",
        b"0:a:bb",
        b"0:aa:b",
        b"0:AA:bb",
        b"0:aa:bb:cc",
        b"0;aa:bb",
    ];
    for text in bad.iter() {
        let err = decode_tags(text).unwrap_err();
        assert_eq!(err.kind(), ErrorKind::Unexpected);
    }
}

#[test]
fn hex_decode_range_reads_lowercase_hex() {
    assert_eq!(hex_decode_range(b"xx00ff7fyy", 2, 8), Some(vec![0x00, 0xff, 0x7f]));
    assert_eq!(hex_decode_range(b"abcdef0123456789", 0, 16), Some(vec![0xab, 0xcd, 0xef, 0x01, 0x23, 0x45, 0x67, 0x89]));
    assert_eq!(hex_decode_range(b"ab", 1, 1), Some(vec![]));
    assert_eq!(hex_decode_range(b"abc", 0, 3), None);
    assert_eq!(hex_decode_range(b"aG", 0, 2), None);
    assert_eq!(hex_decode_range(b"AB", 0, 2), None);
}

#[test]
fn null_encryptor_passes_text_through() {
    let key = NullEncryptor;
    assert_eq!(key.encrypt_entry_category("contacts").unwrap(), b"contacts".to_vec());
    assert_eq!(key.encrypt_entry_name("bob").unwrap(), b"bob".to_vec());
    assert_eq!(key.encrypt_entry_value(b"+1-555").unwrap(), b"+1-555".to_vec());
    assert_eq!(key.decrypt_entry_name(b"bob").unwrap(), "bob");
    assert_eq!(key.decrypt_entry_value(b"+1-555").unwrap(), b"+1-555".to_vec());
    assert_eq!(
        key.decrypt_entry_name(&[0xff, 0xfe]).unwrap_err().kind(),
        ErrorKind::Encryption
    );
}

#[test]
fn entry_tags_round_trip() {
    let key = NullEncryptor;
    let tags = vec![
        EntryTag::Plaintext("city".to_string(), "nyc".to_string()),
        EntryTag::Encrypted("n".to_string(), "42".to_string()),
    ];
    let stored = encrypt_entry_tags(&key, &tags).unwrap();
    assert_eq!(stored, vec![enc(b"city", b"nyc", true), enc(b"n", b"42", false)]);
    assert_eq!(decrypt_entry_tags(&key, &stored).unwrap(), tags);
}

#[test]
fn entry_tags_with_invalid_text_are_rejected() {
    let key = NullEncryptor;
    let stored = vec![enc(b"city", &[0xc3, 0x28], true)];
    assert_eq!(decrypt_entry_tags(&key, &stored).unwrap_err().kind(), ErrorKind::Encryption);
    let stored = vec![enc(&[0x80], b"x", false)];
    assert_eq!(decrypt_entry_tags(&key, &stored).unwrap_err().kind(), ErrorKind::Encryption);
}

#[test]
fn entry_tag_accessors() {
    let tag = EntryTag::Plaintext("city".to_string(), "nyc".to_string());
    assert_eq!(tag.name(), "city");
    assert_eq!(tag.value(), "nyc");
    let tag = EntryTag::Encrypted("n".to_string(), "42".to_string());
    assert_eq!(tag.name(), "n");
    assert_eq!(tag.value(), "42");
}
