use aries_askar::error::ErrorKind;
use aries_askar::jwk::{
    finish_jwk, parts_from_members, FromJwk, JsonMember, Jwk, JwkEncoder, JwkEncoderMode,
    JwkParts, ToJwk,
};

fn ec_parts() -> JwkParts {
    JwkParts {
        kty: "EC".to_string(),
        crv: Some("P-256".to_string()),
        x: Some("f83OJ3D2xF1Bg8vub9tLe1gHMzV76e8Tus9uPHvRVEU".to_string()),
        y: Some("x_FEzRu9m36HLN_tue659LNpXW6pCyStikYjKIWI5a0".to_string()),
        d: Some("jpsQnnGQmL-YBIffH1136cspYG6-0iY7X1fCE9-E9LI".to_string()),
        k: None,
    }
}

#[test]
fn as_opt_str_gives_text_of_encoded_key() {
    let jwk = Jwk::Encoded("{\"kty\":\"oct\"}".to_string());
    assert_eq!(jwk.as_opt_str(), Some("{\"kty\":\"oct\"}"));
    assert_eq!(Jwk::Parts(ec_parts()).as_opt_str(), None);
}

#[test]
fn from_string_is_encoded_and_from_parts_is_parts() {
    assert_eq!(Jwk::from("{}".to_string()), Jwk::Encoded("{}".to_string()));
    assert_eq!(Jwk::from(ec_parts()), Jwk::Parts(ec_parts()));
}

#[test]
fn to_parts_of_parts_is_the_parts() {
    assert_eq!(Jwk::Parts(ec_parts()).to_parts().unwrap(), ec_parts());
}

#[test]
fn to_parts_parses_text() {
    let jwk = Jwk::Encoded(
        "{\"kty\":\"OKP\",\"crv\":\"Ed25519\",\"x\":\"11qYAYKxCrfVS_7TyWQHOg7hcvPapiMlrwIaaPcHURo\",\"kid\":\"1\",\"d\":null}"
            .to_string(),
    );
    assert_eq!(
        jwk.to_parts().unwrap(),
        JwkParts {
            kty: "OKP".to_string(),
            crv: Some("Ed25519".to_string()),
            x: Some("11qYAYKxCrfVS_7TyWQHOg7hcvPapiMlrwIaaPcHURo".to_string()),
            y: None,
            d: None,
            k: None,
        }
    );
    let jwk = Jwk::Encoded(" { \"k\" : \"c2VjcmV0\", \"kty\" : \"oct\" } ".to_string());
    assert_eq!(
        jwk.to_parts().unwrap(),
        JwkParts {
            kty: "oct".to_string(),
            crv: None,
            x: None,
            y: None,
            d: None,
            k: Some("c2VjcmV0".to_string()),
        }
    );
}

#[test]
fn to_parts_rejects_what_is_no_key() {
    let bad = [
        "",
        "not json",
        "{\"kty\":\"EC\"",
        "{}",
        "[]",
        "\"EC\"",
        "{\"crv\":\"P-256\"}",
        "{\"kty\":5}",
        "{\"kty\":null}",
        "{\"kty\":\"EC\",\"crv\":7}",
        "{\"kty\":\"EC\",\"x\":[\"a\"]}",
        "{\"kty\":\"EC\",\"k\":{}}",
    ];
    for text in bad.iter() {
        let err = Jwk::Encoded(text.to_string()).to_parts().unwrap_err();
        assert_eq!(err.kind(), ErrorKind::Input);
    }
}

fn member(s: &str) -> Option<JsonMember> {
    Some(JsonMember::Text(s.to_string()))
}

#[test]
fn parts_from_members_reads_strings() {
    assert_eq!(
        parts_from_members(member("EC"), member("P-256"), None, member("yy"), Some(JsonMember::Null), None)
            .unwrap(),
        JwkParts {
            kty: "EC".to_string(),
            crv: Some("P-256".to_string()),
            x: None,
            y: Some("yy".to_string()),
            d: None,
            k: None,
        }
    );
    assert_eq!(
        parts_from_members(member("oct"), None, None, None, None, member("c2VjcmV0")).unwrap(),
        JwkParts {
            kty: "oct".to_string(),
            crv: None,
            x: None,
            y: None,
            d: None,
            k: Some("c2VjcmV0".to_string()),
        }
    );
}

#[test]
fn parts_from_members_rejects_other_values() {
    let bad = vec![
        parts_from_members(None, None, None, None, None, None),
        parts_from_members(Some(JsonMember::Null), None, None, None, None, None),
        parts_from_members(Some(JsonMember::Other), None, None, None, None, None),
        parts_from_members(member("EC"), Some(JsonMember::Other), None, None, None, None),
        parts_from_members(member("EC"), None, Some(JsonMember::Other), None, None, None),
        parts_from_members(member("EC"), None, None, Some(JsonMember::Other), None, None),
        parts_from_members(member("EC"), None, None, None, Some(JsonMember::Other), None),
        parts_from_members(member("EC"), None, None, None, None, Some(JsonMember::Other)),
    ];
    for out in bad {
        assert_eq!(out.unwrap_err().kind(), ErrorKind::Input);
    }
}

#[test]
fn zeroize_erases_text() {
    let mut jwk = Jwk::Encoded("{\"kty\":\"oct\",\"k\":\"c2VjcmV0\"}".to_string());
    jwk.zeroize();
    assert_eq!(jwk, Jwk::Encoded(String::new()));
    let mut jwk = Jwk::Parts(ec_parts());
    jwk.zeroize();
    assert_eq!(jwk, Jwk::Parts(ec_parts()));
}

#[test]
fn encoder_writes_members_in_order() {
    let mut enc = JwkEncoder::new(JwkEncoderMode::PublicKey);
    assert_eq!(enc.mode(), JwkEncoderMode::PublicKey);
    assert!(!enc.is_secret());
    enc.add_str("kty", "oct");
    enc.add_str("k", "abc");
    assert_eq!(enc.finalize(), "{\"kty\":\"oct\",\"k\":\"abc\"}");
    assert_eq!(JwkEncoder::new(JwkEncoderMode::SecretKey).finalize(), "");
    assert!(JwkEncoder::new(JwkEncoderMode::SecretKey).is_secret());
}

#[test]
fn finish_jwk_hands_out_text_or_error() {
    let mut enc = JwkEncoder::new(JwkEncoderMode::PublicKey);
    enc.add_str("kty", "oct");
    assert_eq!(finish_jwk(Ok(()), enc).unwrap(), Jwk::Encoded("{\"kty\":\"oct\"}".to_string()));
    let enc = JwkEncoder::new(JwkEncoderMode::PublicKey);
    let err = finish_jwk(Err(aries_askar::error::Error::new(ErrorKind::Input)), enc).unwrap_err();
    assert_eq!(err.kind(), ErrorKind::Input);
}

#[test]
fn parts_write_public_and_secret_keys() {
    let public = ec_parts().to_jwk_public().unwrap();
    assert_eq!(
        public.as_opt_str(),
        Some("{\"kty\":\"EC\",\"crv\":\"P-256\",\"x\":\"f83OJ3D2xF1Bg8vub9tLe1gHMzV76e8Tus9uPHvRVEU\",\"y\":\"x_FEzRu9m36HLN_tue659LNpXW6pCyStikYjKIWI5a0\"}")
    );
    let secret = ec_parts().to_jwk_secret().unwrap();
    assert_eq!(
        secret.as_opt_str(),
        Some("{\"kty\":\"EC\",\"crv\":\"P-256\",\"x\":\"f83OJ3D2xF1Bg8vub9tLe1gHMzV76e8Tus9uPHvRVEU\",\"y\":\"x_FEzRu9m36HLN_tue659LNpXW6pCyStikYjKIWI5a0\",\"d\":\"jpsQnnGQmL-YBIffH1136cspYG6-0iY7X1fCE9-E9LI\"}")
    );
    let oct = JwkParts {
        kty: "oct".to_string(),
        crv: None,
        x: Some("ignored".to_string()),
        y: None,
        d: Some("ignored".to_string()),
        k: Some("c2VjcmV0".to_string()),
    };
    assert_eq!(oct.to_jwk_public().unwrap().as_opt_str(), Some("{\"kty\":\"oct\"}"));
    assert_eq!(
        oct.to_jwk_secret().unwrap().as_opt_str(),
        Some("{\"kty\":\"oct\",\"k\":\"c2VjcmV0\"}")
    );
}

#[test]
fn written_key_parses_back() {
    let secret = ec_parts().to_jwk_secret().unwrap();
    assert_eq!(secret.to_parts().unwrap(), ec_parts());
    assert_eq!(JwkParts::from_jwk(secret).unwrap(), ec_parts());
    assert_eq!(JwkParts::from_jwk_parts(ec_parts()).unwrap(), ec_parts());
    assert_eq!(
        JwkParts::from_jwk(Jwk::Encoded("nope".to_string())).unwrap_err().kind(),
        ErrorKind::Input
    );
}
