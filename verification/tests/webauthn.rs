use linkwise::base64url::{base64url_decode, base64url_encode, base64url_value};
use linkwise::cbor::{cbor_bytes, cbor_integer, CborParser, CborValue};
use linkwise::crypto::{hex_encode, protect_webdav_password, sha256_bytes, sha256_hex};
use linkwise::error::LinkwiseError;
use linkwise::webauthn::{
    attestation_auth_data, complete_login_verification, cose_key_to_jwk, credential_id_from_payload,
    der_to_raw_ecdsa_signature, jwk_to_raw_p256_public_key, normalize_ecdsa_integer, parse_authenticator_data,
    check_client_data, prepare_login_verification, validate_rp_id_hash, validate_user_present,
    verify_registration_payload, AuthenticatorResponsePayload, ClientData, PublicKeyCredentialPayload,
};

const X_B64: &str = "AQEBAQEBAQEBAQEBAQEBAQEBAQEBAQEBAQEBAQEBAQE";
const Y_B64: &str = "AgICAgICAgICAgICAgICAgICAgICAgICAgICAgICAgI";
const CREATE_CLIENT_DATA: &str =
    "eyJ0eXBlIjoid2ViYXV0aG4uY3JlYXRlIiwiY2hhbGxlbmdlIjoiYWJjIiwib3JpZ2luIjoiaHR0cHM6Ly9leGFtcGxlLmNvbSJ9";
const GET_CLIENT_DATA: &str =
    "eyJ0eXBlIjoid2ViYXV0aG4uZ2V0IiwiY2hhbGxlbmdlIjoieHl6Iiwib3JpZ2luIjoiaHR0cHM6Ly9leGFtcGxlLmNvbSJ9";

fn expected_jwk() -> String {
    format!(
        "{{\"alg\":\"ES256\",\"crv\":\"P-256\",\"ext\":true,\"key_ops\":[\"verify\"],\"kty\":\"EC\",\"x\":\"{}\",\"y\":\"{}\"}}",
        X_B64, Y_B64
    )
}

fn cbor_head(major: u8, len: usize) -> Vec<u8> {
    if len < 24 {
        vec![(major << 5) | len as u8]
    } else if len < 256 {
        vec![(major << 5) | 24, len as u8]
    } else {
        vec![(major << 5) | 25, (len >> 8) as u8, len as u8]
    }
}

fn cbor_text(s: &str) -> Vec<u8> {
    let mut out = cbor_head(3, s.len());
    out.extend_from_slice(s.as_bytes());
    out
}

fn cbor_byte_string(b: &[u8]) -> Vec<u8> {
    let mut out = cbor_head(2, b.len());
    out.extend_from_slice(b);
    out
}

fn cose_key(alg_byte: u8) -> Vec<u8> {
    let mut out = vec![0xa5, 0x01, 0x02, 0x03, alg_byte, 0x20, 0x01, 0x21];
    out.extend(cbor_byte_string(&[1u8; 32]));
    out.push(0x22);
    out.extend(cbor_byte_string(&[2u8; 32]));
    out
}

fn auth_data(rp_id: &str, flags: u8, with_credential: bool) -> Vec<u8> {
    let mut out = sha256_bytes(rp_id.as_bytes());
    out.push(flags);
    out.extend_from_slice(&[0, 0, 0, 5]);
    if with_credential {
        out.extend_from_slice(&[0u8; 16]);
        out.extend_from_slice(&[0, 4, 1, 2, 3, 4]);
        out.extend(cose_key(0x26));
    }
    out
}

fn attestation_object(auth: &[u8]) -> Vec<u8> {
    let mut out = vec![0xa3];
    out.extend(cbor_text("fmt"));
    out.extend(cbor_text("none"));
    out.extend(cbor_text("attStmt"));
    out.push(0xa0);
    out.extend(cbor_text("authData"));
    out.extend(cbor_byte_string(auth));
    out
}

fn der_signature() -> Vec<u8> {
    let mut out = vec![0x30, 0x44, 0x02, 0x20];
    out.extend_from_slice(&[1u8; 32]);
    out.extend_from_slice(&[0x02, 0x20]);
    out.extend_from_slice(&[2u8; 32]);
    out
}

fn registration_payload(auth: &[u8]) -> PublicKeyCredentialPayload {
    PublicKeyCredentialPayload {
        id: "AQIDBA".to_string(),
        raw_id: "AQIDBA".to_string(),
        credential_type: "public-key".to_string(),
        response: AuthenticatorResponsePayload {
            client_data_json: CREATE_CLIENT_DATA.to_string(),
            attestation_object: Some(base64url_encode(&attestation_object(auth))),
            authenticator_data: None,
            signature: None,
        },
    }
}

fn login_payload() -> PublicKeyCredentialPayload {
    PublicKeyCredentialPayload {
        id: "AQIDBA".to_string(),
        raw_id: "AQIDBA".to_string(),
        credential_type: "public-key".to_string(),
        response: AuthenticatorResponsePayload {
            client_data_json: GET_CLIENT_DATA.to_string(),
            attestation_object: None,
            authenticator_data: Some(base64url_encode(&auth_data("example.com", 0x01, false))),
            signature: Some(base64url_encode(&der_signature())),
        },
    }
}

#[test]
fn base64url_round_trips_bytes() {
    for bytes in [vec![], vec![0u8], vec![0xfb, 0xff], b"hello".to_vec(), (0u8..=255).collect::<Vec<u8>>()] {
        assert_eq!(base64url_decode(&base64url_encode(&bytes)).ok(), Some(bytes));
    }
    assert_eq!(base64url_encode(b"hello"), "aGVsbG8");
    assert_eq!(base64url_encode(&[0xfb, 0xff]), "-_8");
}

#[test]
fn base64url_decode_stops_at_padding_and_rejects_others() {
    assert_eq!(base64url_decode("aGVsbG8=").ok(), Some(b"hello".to_vec()));
    assert_eq!(base64url_decode("aGVs=bG8").ok(), Some(b"hel".to_vec()));
    assert_eq!(base64url_decode("a+b"), Err(LinkwiseError::InvalidBase64Url));
    assert_eq!(base64url_value('A'), Some(0));
    assert_eq!(base64url_value('_'), Some(63));
    assert_eq!(base64url_value('/'), None);
}

#[test]
fn hashes_and_hex() {
    assert_eq!(hex_encode(&[0x00, 0xab, 0x0f]), "00ab0f");
    assert_eq!(sha256_hex("abc"), "ba7816bf8f01cfea414140de5dae2223b00361a396177a9cb410ff61f20015ad");
    assert_eq!(sha256_bytes(b"abc").len(), 32);
    assert_eq!(protect_webdav_password("pw", "sekret"), "b4cb933c86b00ed46015d766dd6894863b62bd2b3b19a6bbfe1f0f0b0f80c0f3");
}

#[test]
fn cbor_parser_reads_values() {
    let bytes = [0x83, 0x01, 0x20, 0x63, b'a', b'b', b'c'];
    let mut parser = CborParser::new(&bytes);
    match parser.parse_value() {
        Ok(CborValue::Array(items)) => {
            assert_eq!(items.len(), 3);
            assert_eq!(cbor_integer(&items[0]), Some(1));
            assert_eq!(cbor_integer(&items[1]), Some(-1));
            assert!(matches!(&items[2], CborValue::Text(t) if t == "abc"));
        },
        _ => panic!("expected an array"),
    }
    assert_eq!(parser.index, 7);
    let mut parser = CborParser::new(&[0x42, 9, 8]);
    let value = parser.parse_value().ok().unwrap();
    assert_eq!(cbor_bytes(&value), Some(vec![9, 8]));
    assert_eq!(cbor_integer(&value), None);
}

#[test]
fn cbor_parser_reports_errors() {
    assert!(matches!(CborParser::new(&[]).parse_value(), Err(LinkwiseError::UnexpectedEndOfCbor)));
    assert!(matches!(CborParser::new(&[0x43, 1]).parse_value(), Err(LinkwiseError::UnexpectedEndOfCborBytes)));
    assert!(matches!(CborParser::new(&[0x62, 0xff, 0xfe]).parse_value(), Err(LinkwiseError::InvalidCborText)));
    assert!(matches!(CborParser::new(&[0xf7]).parse_value(), Err(LinkwiseError::UnsupportedCborPrimitive)));
    assert!(matches!(CborParser::new(&[0x1f]).parse_value(), Err(LinkwiseError::UnsupportedCborLength)));
    assert!(matches!(CborParser::new(&[0xc1, 0x00]).parse_value(), Err(LinkwiseError::UnsupportedCborValue)));
    assert!(matches!(CborParser::new(&[0xf5]).parse_value(), Ok(CborValue::Bool(true))));
    assert!(matches!(CborParser::new(&[0xf6]).parse_value(), Ok(CborValue::Null)));
}

fn client_data(client_type: &str, challenge: &str, origin: &str) -> Option<ClientData> {
    Some(ClientData { client_type: client_type.to_string(), challenge: challenge.to_string(), origin: origin.to_string() })
}

/// What the client data JSON of the registration payloads parses to.
fn create_data() -> Option<ClientData> {
    client_data("webauthn.create", "abc", "https://example.com")
}

/// What the client data JSON of the login payloads parses to.
fn get_data() -> Option<ClientData> {
    client_data("webauthn.get", "xyz", "https://example.com")
}

#[test]
fn client_data_is_checked() {
    let get = || client_data("webauthn.get", "c1", "https://example.com");
    assert_eq!(check_client_data(get(), "webauthn.get", "https://example.com").ok(), Some("c1".to_string()));
    assert_eq!(check_client_data(get(), "webauthn.create", "https://example.com"), Err(LinkwiseError::InvalidClientDataType));
    assert_eq!(check_client_data(get(), "webauthn.get", "https://evil.example"), Err(LinkwiseError::InvalidWebauthnOrigin));
    assert_eq!(check_client_data(None, "webauthn.get", "https://example.com"), Err(LinkwiseError::InvalidClientDataJson));
}

#[test]
fn attestation_objects_yield_auth_data() {
    let auth = auth_data("example.com", 0x41, true);
    assert_eq!(attestation_auth_data(&attestation_object(&auth)).ok(), Some(auth));
    assert_eq!(attestation_auth_data(&[0x80]), Err(LinkwiseError::AttestationNotMap));
    let mut no_auth = vec![0xa1];
    no_auth.extend(cbor_text("fmt"));
    no_auth.extend(cbor_text("none"));
    assert_eq!(attestation_auth_data(&no_auth), Err(LinkwiseError::AttestationAuthDataMissing));
}

#[test]
fn authenticator_data_is_parsed() {
    let parsed = parse_authenticator_data(&auth_data("example.com", 0x41, true), true).ok().unwrap();
    assert_eq!(parsed.rp_id_hash, sha256_bytes(b"example.com"));
    assert_eq!(parsed.flags, 0x41);
    assert_eq!(parsed.sign_count, 5);
    assert_eq!(parsed.credential_id, Some(vec![1, 2, 3, 4]));
    assert_eq!(parsed.public_key_jwk, Some(expected_jwk()));
    assert!(matches!(parse_authenticator_data(&[0u8; 36], false), Err(LinkwiseError::AuthenticatorDataTooShort)));
    assert!(matches!(parse_authenticator_data(&[0u8; 40], true), Err(LinkwiseError::AttestedDataTooShort)));
    let mut truncated = vec![0u8; 53];
    truncated.extend_from_slice(&[0, 9, 1, 2]);
    assert!(matches!(parse_authenticator_data(&truncated, true), Err(LinkwiseError::CredentialIdTruncated)));
}

#[test]
fn cose_keys_become_jwk() {
    let key_bytes = cose_key(0x26);
    let mut parser = CborParser::new(&key_bytes);
    let key = parser.parse_value().ok().unwrap();
    assert_eq!(cose_key_to_jwk(&key).ok(), Some(expected_jwk()));
    let alg_other = CborParser::new(&cose_key(0x24)).parse_value().ok().unwrap();
    assert_eq!(cose_key_to_jwk(&alg_other), Err(LinkwiseError::UnsupportedPublicKey));
    assert_eq!(cose_key_to_jwk(&CborValue::Integer(1)), Err(LinkwiseError::CoseKeyNotMap));
    let no_x = CborValue::Entries(vec![
        (CborValue::Integer(1), CborValue::Integer(2)),
        (CborValue::Integer(3), CborValue::Integer(-7)),
        (CborValue::Integer(-1), CborValue::Integer(1)),
    ]);
    assert_eq!(cose_key_to_jwk(&no_x), Err(LinkwiseError::CoseKeyXMissing));
    let short = CborValue::Entries(vec![
        (CborValue::Integer(1), CborValue::Integer(2)),
        (CborValue::Integer(3), CborValue::Integer(-7)),
        (CborValue::Integer(-1), CborValue::Integer(1)),
        (CborValue::Integer(-2), CborValue::Bytes(vec![1; 31])),
        (CborValue::Integer(-3), CborValue::Bytes(vec![2; 32])),
    ]);
    assert_eq!(cose_key_to_jwk(&short), Err(LinkwiseError::InvalidP256KeyLength));
}

#[test]
fn stored_jwk_decodes_back_to_the_attested_key() {
    let x: Vec<u8> = (0u8..32).map(|i| i.wrapping_mul(37).wrapping_add(250)).collect();
    let y: Vec<u8> = (0u8..32).map(|i| 255 - i.wrapping_mul(11)).collect();
    let key = CborValue::Entries(vec![
        (CborValue::Integer(1), CborValue::Integer(2)),
        (CborValue::Integer(3), CborValue::Integer(-7)),
        (CborValue::Integer(-1), CborValue::Integer(1)),
        (CborValue::Integer(-2), CborValue::Bytes(x.clone())),
        (CborValue::Integer(-3), CborValue::Bytes(y.clone())),
    ]);
    let jwk = cose_key_to_jwk(&key).ok().unwrap();
    let raw = jwk_to_raw_p256_public_key(&jwk).ok().unwrap();
    assert_eq!(raw.len(), 65);
    assert_eq!(raw[0], 0x04);
    assert_eq!(&raw[1..33], x.as_slice());
    assert_eq!(&raw[33..65], y.as_slice());
}

#[test]
fn rp_id_hash_and_user_presence_are_checked() {
    assert!(validate_rp_id_hash(&sha256_bytes(b"example.com"), "example.com").is_ok());
    assert_eq!(validate_rp_id_hash(&sha256_bytes(b"other.com"), "example.com"), Err(LinkwiseError::InvalidRpIdHash));
    assert!(validate_user_present(0x05).is_ok());
    assert_eq!(validate_user_present(0x04), Err(LinkwiseError::UserPresenceMissing));
}

#[test]
fn der_signatures_become_raw() {
    let raw = der_to_raw_ecdsa_signature(&der_signature()).ok().unwrap();
    let mut expected = vec![1u8; 32];
    expected.extend_from_slice(&[2u8; 32]);
    assert_eq!(raw, expected);
    let mut padded = vec![0x30, 0x45, 0x02, 0x21, 0x00];
    padded.extend_from_slice(&[0x80u8; 32]);
    padded.extend_from_slice(&[0x02, 0x20]);
    padded.extend_from_slice(&[2u8; 32]);
    let raw = der_to_raw_ecdsa_signature(&padded).ok().unwrap();
    assert_eq!(&raw[..32], &[0x80u8; 32]);
    assert_eq!(der_to_raw_ecdsa_signature(&[0x31, 0x00]), Err(LinkwiseError::InvalidEcdsaSignature));
    assert_eq!(normalize_ecdsa_integer(&[0x05]).ok().unwrap().len(), 32);
    assert_eq!(normalize_ecdsa_integer(&[1u8; 33]), Err(LinkwiseError::EcdsaIntegerTooLarge));
}

#[test]
fn stored_jwk_becomes_raw_key() {
    let raw = jwk_to_raw_p256_public_key(&expected_jwk()).ok().unwrap();
    assert_eq!(raw.len(), 65);
    assert_eq!(raw[0], 0x04);
    assert_eq!(&raw[1..33], &[1u8; 32]);
    assert_eq!(&raw[33..], &[2u8; 32]);
    assert_eq!(jwk_to_raw_p256_public_key("{}"), Err(LinkwiseError::StoredJwkXMissing));
    assert_eq!(jwk_to_raw_p256_public_key("nope"), Err(LinkwiseError::InvalidStoredJwk));
}

#[test]
fn registration_payloads_verify() {
    let payload = registration_payload(&auth_data("example.com", 0x41, true));
    let verified = verify_registration_payload(&payload, create_data(), "https://example.com", "example.com").ok().unwrap();
    assert_eq!(verified.challenge, "abc");
    assert_eq!(verified.credential_id, "AQIDBA");
    assert_eq!(verified.public_key_jwk, expected_jwk());
    assert_eq!(verified.sign_count, 5);
    assert_eq!(
        verify_registration_payload(&payload, create_data(), "https://example.com", "other.com").err(),
        Some(LinkwiseError::InvalidRpIdHash)
    );
    let absent = registration_payload(&auth_data("example.com", 0x40, true));
    assert_eq!(verify_registration_payload(&absent, create_data(), "https://example.com", "example.com").err(), Some(LinkwiseError::UserPresenceMissing));
    let mut wrong_type = registration_payload(&auth_data("example.com", 0x41, true));
    wrong_type.credential_type = "password".to_string();
    assert_eq!(verify_registration_payload(&wrong_type, create_data(), "https://example.com", "example.com").err(), Some(LinkwiseError::InvalidCredentialType));
    let mut missing = registration_payload(&auth_data("example.com", 0x41, true));
    missing.response.attestation_object = None;
    assert_eq!(verify_registration_payload(&missing, create_data(), "https://example.com", "example.com").err(), Some(LinkwiseError::MissingAttestationObject));
    assert_eq!(verify_registration_payload(&payload, None, "https://example.com", "example.com").err(), Some(LinkwiseError::InvalidClientDataJson));
    let mut undecodable = registration_payload(&auth_data("example.com", 0x41, true));
    undecodable.response.client_data_json = "!!".to_string();
    assert_eq!(verify_registration_payload(&undecodable, None, "https://example.com", "example.com").err(), Some(LinkwiseError::InvalidBase64Url));
}

#[test]
fn credential_ids_prefer_canonical_raw_id() {
    let mut payload = login_payload();
    assert_eq!(credential_id_from_payload(&payload).ok(), Some("AQIDBA".to_string()));
    payload.id = "something-else".to_string();
    assert_eq!(credential_id_from_payload(&payload).ok(), Some("something-else".to_string()));
    payload.raw_id = "!!".to_string();
    assert_eq!(credential_id_from_payload(&payload), Err(LinkwiseError::InvalidBase64Url));
}

#[test]
fn login_verification_prepares_and_completes() {
    let payload = login_payload();
    let check = prepare_login_verification(&payload, get_data(), "https://example.com", "example.com", &expected_jwk()).ok().unwrap();
    assert_eq!(check.challenge, "xyz");
    assert_eq!(check.sign_count, 5);
    let mut signed = auth_data("example.com", 0x01, false);
    signed.extend(sha256_bytes(&base64url_decode(GET_CLIENT_DATA).ok().unwrap()));
    assert_eq!(check.signed_data, signed);
    assert_eq!(check.raw_signature.len(), 64);
    assert_eq!(check.raw_public_key.len(), 65);
    let done = complete_login_verification(&payload, check, true).ok().unwrap();
    assert_eq!(done.challenge, "xyz");
    assert_eq!(done.credential_id, "AQIDBA");
    assert_eq!(done.sign_count, 5);
    let check = prepare_login_verification(&payload, get_data(), "https://example.com", "example.com", &expected_jwk()).ok().unwrap();
    assert_eq!(complete_login_verification(&payload, check, false).err(), Some(LinkwiseError::InvalidWebauthnSignature));
    let mut no_signature = login_payload();
    no_signature.response.signature = None;
    assert_eq!(
        prepare_login_verification(&no_signature, get_data(), "https://example.com", "example.com", &expected_jwk()).err(),
        Some(LinkwiseError::MissingSignature)
    );
    let mut no_data = login_payload();
    no_data.response.authenticator_data = None;
    assert_eq!(
        prepare_login_verification(&no_data, get_data(), "https://example.com", "example.com", &expected_jwk()).err(),
        Some(LinkwiseError::MissingAuthenticatorData)
    );
}

#[test]
fn der_integer_errors_are_reported() {
    let mut index = 0;
    assert_eq!(linkwise::webauthn::read_der_integer(&[0x03, 0x01, 0x00], &mut index), Err(LinkwiseError::InvalidEcdsaInteger));
    let mut index = 0;
    assert_eq!(linkwise::webauthn::read_der_integer(&[0x02], &mut index), Err(LinkwiseError::TruncatedEcdsaInteger));
    let mut index = 0;
    assert_eq!(linkwise::webauthn::read_der_integer(&[0x02, 0x05, 0x01], &mut index), Err(LinkwiseError::TruncatedEcdsaIntegerValue));
    let mut index = 1;
    assert_eq!(linkwise::webauthn::read_der_integer(&[0xff, 0x02, 0x02, 0x07, 0x08, 0x09], &mut index).ok(), Some(vec![7, 8]));
    assert_eq!(index, 5);
    let mut index = 9;
    assert_eq!(linkwise::webauthn::read_der_integer(&[0x02, 0x01, 0x00], &mut index), Err(LinkwiseError::InvalidEcdsaInteger));
    let mut long_form = vec![0x30, 0x82, 0x00, 0x44];
    long_form.extend_from_slice(&[0u8; 8]);
    assert_eq!(der_to_raw_ecdsa_signature(&long_form), Err(LinkwiseError::UnsupportedEcdsaSignatureLength));
}

#[test]
fn stored_jwk_errors_are_reported() {
    assert_eq!(jwk_to_raw_p256_public_key(&format!("{{\"x\":\"{}\"}}", X_B64)), Err(LinkwiseError::StoredJwkYMissing));
    assert_eq!(jwk_to_raw_p256_public_key("{\"x\":\"AQ\",\"y\":\"AQ\"}"), Err(LinkwiseError::InvalidStoredKeyLength));
    let no_y = CborValue::Entries(vec![
        (CborValue::Integer(1), CborValue::Integer(2)),
        (CborValue::Integer(3), CborValue::Integer(-7)),
        (CborValue::Integer(-1), CborValue::Integer(1)),
        (CborValue::Integer(-2), CborValue::Bytes(vec![1; 32])),
    ]);
    assert_eq!(cose_key_to_jwk(&no_y), Err(LinkwiseError::CoseKeyYMissing));
    assert_eq!(LinkwiseError::CoseKeyYMissing.message(), "COSE key y is missing");
    assert_eq!(LinkwiseError::InvalidStoredKeyLength.message(), "invalid stored P-256 key length");
}
