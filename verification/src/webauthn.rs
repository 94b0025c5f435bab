use vstd::prelude::*;
use crate::base64url::{base64url_decode, base64url_encode, decode_spec, encode_spec};
use crate::cbor::{cbor_bytes, cbor_integer, parse_value_spec, CborModel, CborParser, CborValue};
use crate::crypto::{append_bytes, sha256, sha256_bytes, utf8_of};
use crate::error::LinkwiseError;
use crate::auth::{lemma_encode_url_safe, url_safe_char};
use crate::base64url::lemma_decode_encode_roundtrip;
use crate::text::{append_str, chars_eq, chars_of};

verus! {

broadcast use vstd::string::group_string_axioms;

/// A WebAuthn credential as the browser posts it (all binary fields in URL-safe base64).
pub struct PublicKeyCredentialPayload {
    pub id: String,
    pub raw_id: String,
    pub credential_type: String,
    pub response: AuthenticatorResponsePayload,
}

/// The authenticator's response inside a posted credential.
pub struct AuthenticatorResponsePayload {
    pub client_data_json: String,
    pub attestation_object: Option<String>,
    pub authenticator_data: Option<String>,
    pub signature: Option<String>,
}

/// What a verified registration yields.
pub struct RegistrationVerification {
    pub challenge: String,
    pub credential_id: String,
    pub public_key_jwk: String,
    pub sign_count: i64,
}

/// What a verified login yields.
pub struct LoginVerification {
    pub challenge: String,
    pub credential_id: String,
    pub sign_count: i64,
}

/// The fields of authenticator data that the checks read.
pub struct ParsedAuthenticatorData {
    pub rp_id_hash: Vec<u8>,
    pub flags: u8,
    pub sign_count: i64,
    pub credential_id: Option<Vec<u8>>,
    pub public_key_jwk: Option<String>,
}

/// Model of `ParsedAuthenticatorData`.
pub struct AuthDataModel {
    pub rp_id_hash: Seq<u8>,
    pub flags: u8,
    pub sign_count: int,
    pub credential_id: Option<Seq<u8>>,
    pub public_key_jwk: Option<Seq<char>>,
}

impl ParsedAuthenticatorData {
    /// The parsed fields as plain values.
    pub open spec fn model(self) -> AuthDataModel {
        AuthDataModel {
            rp_id_hash: self.rp_id_hash@,
            flags: self.flags,
            sign_count: self.sign_count as int,
            credential_id: match self.credential_id {
                Some(c) => Some(c@),
                None => None,
            },
            public_key_jwk: match self.public_key_jwk {
                Some(j) => Some(j@),
                None => None,
            },
        }
    }
}

/// What the `serde_json` crate finds for a member of a JSON document: `None` when the
/// bytes do not parse as JSON; `Some(None)` when the document has no such member or its
/// value is not a string; `Some(Some(text))` otherwise.
pub uninterp spec fn json_member_text(json: Seq<u8>, key: Seq<char>) -> Option<Option<Seq<char>>>;

/// Is every character of `s` one of the URL-safe base64 alphabet (none that JSON escapes)?
pub open spec fn url_safe_text(s: Seq<char>) -> bool {
    forall|i: int| 0 <= i < s.len() ==> url_safe_char(#[trigger] s[i])
}

/// The stored JWK text whose `x` and `y` members are the texts `xt` and `yt`.
pub open spec fn jwk_members_text(xt: Seq<char>, yt: Seq<char>) -> Seq<char> {
    JWK_HEAD@ + xt + JWK_MIDDLE@ + yt + JWK_TAIL@
}

/// The `x` and `y` texts of bytes that are the UTF-8 of a JWK text in the stored form
/// whose two texts use only URL-safe base64 characters; `None` for any other bytes.
pub open spec fn stored_jwk_members(json: Seq<u8>) -> Option<(Seq<char>, Seq<char>)> {
    if exists|xt: Seq<char>, yt: Seq<char>|
        url_safe_text(xt) && url_safe_text(yt) && json == utf8_of(#[trigger] jwk_members_text(xt, yt)) {
        Some(
            choose|xt: Seq<char>, yt: Seq<char>|
                url_safe_text(xt) && url_safe_text(yt) && json == utf8_of(#[trigger] jwk_members_text(xt, yt)),
        )
    } else {
        None
    }
}

/// The `x` text of a stored JWK (see `stored_jwk_members`).
pub open spec fn stored_jwk_x(json: Seq<u8>) -> Option<Seq<char>> {
    match stored_jwk_members(json) {
        Some(p) => Some(p.0),
        None => None,
    }
}

/// The `y` text of a stored JWK (see `stored_jwk_members`).
pub open spec fn stored_jwk_y(json: Seq<u8>) -> Option<Seq<char>> {
    match stored_jwk_members(json) {
        Some(p) => Some(p.1),
        None => None,
    }
}

/// The text of a member as read: `Some` only for a string member of a JSON document.
pub open spec fn member_text(r: Option<Option<String>>) -> Option<Seq<char>> {
    match r {
        Some(Some(t)) => Some(t@),
        _ => None,
    }
}

#[verifier::external_body]
/// Calls `serde_json::from_slice::<serde_json::Value>` and then `Value::get` with `key`,
/// keeping the member's text when it is a JSON string. Claimed: the result is what the name
/// `json_member_text` gives for the bytes and the key; and, for the UTF-8 bytes of a JWK
/// text in the stored form (`jwk_members_text`) whose `x` and `y` texts use only URL-safe
/// base64 characters (so the document is a JSON object whose members `x` and `y` are
/// these strings, written without escapes), the member `x` or `y` is that text. Nothing
/// more is stated of the JSON grammar.
fn json_text_member(json: &[u8], key: &str) -> (r: Option<Option<String>>)
    ensures
        json_member_text(json@, key@) == match r {
            None => None,
            Some(None) => Some(None),
            Some(Some(t)) => Some(Some(t@)),
        },
        key@ == "x"@ && stored_jwk_members(json@) is Some ==> member_text(r) == stored_jwk_x(json@),
        key@ == "y"@ && stored_jwk_members(json@) is Some ==> member_text(r) == stored_jwk_y(json@),
{
    match serde_json::from_slice::<serde_json::Value>(json) {
        Err(_) => None,
        Ok(value) => match value.get(key) {
            Some(serde_json::Value::String(text)) => Some(Some(text.clone())),
            _ => Some(None),
        },
    }
}

/// A copy of `s[start..end]`.
pub fn copy_range(s: &[u8], start: usize, end: usize) -> (r: Vec<u8>)
    requires
        start <= end <= s@.len(),
    ensures
        r@ == s@.subrange(start as int, end as int),
{
    let mut out: Vec<u8> = Vec::new();
    let mut i = start;
    while i < end
        invariant
            start <= i <= end <= s@.len(),
            out@ == s@.subrange(start as int, i as int),
        decreases end - i,
    {
        out.push(s[i]);
        proof {
            assert(s@.subrange(start as int, i + 1) =~= s@.subrange(start as int, i as int).push(s@[i as int]));
        }
        i += 1;
    }
    out
}

/// The client data of a WebAuthn ceremony: the fields of the client data JSON that the
/// checks read (the JSON member `type` is `client_type`).
pub struct ClientData {
    pub client_type: String,
    pub challenge: String,
    pub origin: String,
}

/// The challenge, once the client data's type and origin are the expected ones.
pub open spec fn client_fields_spec(t: Seq<char>, c: Seq<char>, o: Seq<char>, expected_type: Seq<char>, expected_origin: Seq<char>) -> Result<Seq<char>, LinkwiseError> {
    if t != expected_type {
        Err(LinkwiseError::InvalidClientDataType)
    } else if o != expected_origin {
        Err(LinkwiseError::InvalidWebauthnOrigin)
    } else {
        Ok(c)
    }
}

/// The challenge that client data carries, after checking its type and origin; `None`
/// stands for client data JSON that does not parse as `ClientData` (not JSON, a member
/// missing, repeated or not a string).
pub open spec fn client_data_spec(client_data: Option<ClientData>, expected_type: Seq<char>, expected_origin: Seq<char>) -> Result<Seq<char>, LinkwiseError> {
    match client_data {
        None => Err(LinkwiseError::InvalidClientDataJson),
        Some(cd) => client_fields_spec(cd.client_type@, cd.challenge@, cd.origin@, expected_type, expected_origin),
    }
}

/// Checks the type and the origin of parsed client data against the expected ones (`None`
/// when the client data JSON did not parse); gives the challenge.
pub fn check_client_data(client_data: Option<ClientData>, expected_type: &str, expected_origin: &str) -> (r: Result<String, LinkwiseError>)
    ensures
        match client_data_spec(client_data, expected_type@, expected_origin@) {
            Ok(c) => r matches Ok(x) && x@ == c,
            Err(e) => r == Err::<String, LinkwiseError>(e),
        },
{
    let cd = match client_data {
        None => {
            return Err(LinkwiseError::InvalidClientDataJson);
        },
        Some(cd) => cd,
    };
    if !chars_eq(&chars_of(cd.client_type.as_str()), &chars_of(expected_type)) {
        return Err(LinkwiseError::InvalidClientDataType);
    }
    if !chars_eq(&chars_of(cd.origin.as_str()), &chars_of(expected_origin)) {
        return Err(LinkwiseError::InvalidWebauthnOrigin);
    }
    Ok(cd.challenge)
}

/// The first `authData` entry whose value is a byte string.
pub open spec fn first_auth_data(entries: Seq<(CborModel, CborModel)>) -> Option<Seq<u8>>
    decreases entries.len(),
{
    if entries.len() == 0 {
        None
    } else if entries[0].0 == CborModel::Text("authData"@) && entries[0].1 is Bytes {
        Some(entries[0].1->Bytes_0)
    } else {
        first_auth_data(entries.drop_first())
    }
}

/// The authenticator data inside an attestation object.
pub open spec fn attestation_auth_data_spec(att: Seq<u8>) -> Result<Seq<u8>, LinkwiseError> {
    match parse_value_spec(att, 0) {
        Err(e) => Err(e),
        Ok((CborModel::Entries(entries), _)) => match first_auth_data(entries) {
            Some(b) => Ok(b),
            None => Err(LinkwiseError::AttestationAuthDataMissing),
        },
        Ok(_) => Err(LinkwiseError::AttestationNotMap),
    }
}

fn is_auth_data_key(key: &CborValue) -> (r: bool)
    ensures
        r == (key.model() == CborModel::Text("authData"@)),
{
    match key {
        CborValue::Text(t) => {
            let want = chars_of("authData");
            chars_eq(&chars_of(t.as_str()), &want)
        },
        _ => false,
    }
}

/// Decodes an attestation object and gives its `authData` byte string.
pub fn attestation_auth_data(attestation_object: &[u8]) -> (r: Result<Vec<u8>, LinkwiseError>)
    ensures
        match attestation_auth_data_spec(attestation_object@) {
            Ok(b) => r matches Ok(x) && x@ == b,
            Err(e) => r == Err::<Vec<u8>, LinkwiseError>(e),
        },
{
    let mut parser = CborParser::new(attestation_object);
    let value = parser.parse_value()?;
    let entries = match value {
        CborValue::Entries(entries) => entries,
        _ => {
            return Err(LinkwiseError::AttestationNotMap);
        },
    };
    let ghost models = crate::cbor::entry_models_of(entries@);
    proof {
        lemma_entry_models_len(entries@);
        assert(models.skip(0) =~= models);
    }
    let mut i: usize = 0;
    while i < entries.len()
        invariant
            i <= entries@.len(),
            models == crate::cbor::entry_models_of(entries@),
            models.len() == entries@.len(),
            parse_value_spec(attestation_object@, 0) matches Ok((m, _)) && m == CborModel::Entries(models),
            first_auth_data(models) == first_auth_data(models.skip(i as int)),
        decreases entries.len() - i,
    {
        let (key, value) = &entries[i];
        proof {
            lemma_entry_model_at(entries@, i as int);
            let rest = models.skip(i as int);
            assert(rest[0] == models[i as int]);
            assert(rest.drop_first() =~= models.skip(i + 1));
        }
        if is_auth_data_key(key) {
            if let CborValue::Bytes(bytes) = value {
                proof {
                    let rest = models.skip(i as int);
                    assert(rest[0].1 == CborModel::Bytes(bytes@));
                    assert(first_auth_data(rest) == Some(bytes@));
                    assert(first_auth_data(models) == Some(bytes@));
                    assert(attestation_auth_data_spec(attestation_object@) == Ok::<Seq<u8>, LinkwiseError>(bytes@));
                }
                return Ok(bytes.clone());
            }
        }
        i += 1;
    }
    proof {
        assert(models.skip(i as int) =~= Seq::<(CborModel, CborModel)>::empty());
    }
    Err(LinkwiseError::AttestationAuthDataMissing)
}

proof fn lemma_entry_models_len(entries: Seq<(CborValue, CborValue)>)
    ensures
        crate::cbor::entry_models_of(entries).len() == entries.len(),
    decreases entries.len(),
{
    if entries.len() > 0 {
        lemma_entry_models_len(entries.drop_last());
    }
}

proof fn lemma_entry_model_at(entries: Seq<(CborValue, CborValue)>, i: int)
    requires
        0 <= i < entries.len(),
    ensures
        crate::cbor::entry_models_of(entries)[i] == (entries[i].0.model(), entries[i].1.model()),
    decreases entries.len(),
{
    lemma_entry_models_len(entries.drop_last());
    if i < entries.len() - 1 {
        lemma_entry_model_at(entries.drop_last(), i);
    }
}

/// The COSE key parameters that a key's entries set; a later entry for the same label
/// replaces an earlier one.
pub struct CoseFields {
    pub key_type: Option<int>,
    pub alg: Option<int>,
    pub crv: Option<int>,
    pub x: Option<Seq<u8>>,
    pub y: Option<Seq<u8>>,
}

/// The integer a CBOR item holds, if it is one.
pub open spec fn int_of(m: CborModel) -> Option<int> {
    match m {
        CborModel::Integer(v) => Some(v),
        _ => None,
    }
}

/// The bytes a CBOR item holds, if it is a byte string.
pub open spec fn bytes_of(m: CborModel) -> Option<Seq<u8>> {
    match m {
        CborModel::Bytes(b) => Some(b),
        _ => None,
    }
}

/// The parameters after reading `entries` in order.
pub open spec fn cose_scan(entries: Seq<(CborModel, CborModel)>) -> CoseFields
    decreases entries.len(),
{
    if entries.len() == 0 {
        CoseFields { key_type: None, alg: None, crv: None, x: None, y: None }
    } else {
        let f = cose_scan(entries.drop_last());
        let (k, v) = entries.last();
        match k {
            CborModel::Integer(label) => {
                if label == 1 {
                    CoseFields { key_type: int_of(v), ..f }
                } else if label == 3 {
                    CoseFields { alg: int_of(v), ..f }
                } else if label == -1 {
                    CoseFields { crv: int_of(v), ..f }
                } else if label == -2 {
                    CoseFields { x: bytes_of(v), ..f }
                } else if label == -3 {
                    CoseFields { y: bytes_of(v), ..f }
                } else {
                    f
                }
            },
            _ => f,
        }
    }
}

/// Text placed before the `x` coordinate in a stored JWK.
pub const JWK_HEAD: &'static str = "{\"alg\":\"ES256\",\"crv\":\"P-256\",\"ext\":true,\"key_ops\":[\"verify\"],\"kty\":\"EC\",\"x\":\"";

/// Text placed between the `x` and `y` coordinates in a stored JWK.
pub const JWK_MIDDLE: &'static str = "\",\"y\":\"";

/// Text placed after the `y` coordinate in a stored JWK.
pub const JWK_TAIL: &'static str = "\"}";

/// The JWK text stored for a P-256 key with coordinates `x` and `y` (members in
/// alphabetical order, no white space).
pub open spec fn jwk_text(x: Seq<u8>, y: Seq<u8>) -> Seq<char> {
    JWK_HEAD@ + encode_spec(x) + JWK_MIDDLE@ + encode_spec(y) + JWK_TAIL@
}

/// The JWK text for a COSE key, which must be an ES256 key on P-256 with 32-byte
/// coordinates.
pub open spec fn cose_jwk_spec(key: CborModel) -> Result<Seq<char>, LinkwiseError> {
    match key {
        CborModel::Entries(entries) => {
            let f = cose_scan(entries);
            if f.key_type != Some(2int) || f.alg != Some(-7int) || f.crv != Some(1int) {
                Err(LinkwiseError::UnsupportedPublicKey)
            } else if f.x is None {
                Err(LinkwiseError::CoseKeyXMissing)
            } else if f.y is None {
                Err(LinkwiseError::CoseKeyYMissing)
            } else if f.x->0.len() != 32 || f.y->0.len() != 32 {
                Err(LinkwiseError::InvalidP256KeyLength)
            } else {
                Ok(jwk_text(f.x->0, f.y->0))
            }
        },
        _ => Err(LinkwiseError::CoseKeyNotMap),
    }
}

/// The JWK text for the coordinates `x` and `y`.
pub fn build_jwk(x: &[u8], y: &[u8]) -> (r: String)
    ensures
        r@ == jwk_text(x@, y@),
{
    let mut out = String::new();
    append_str(&mut out, JWK_HEAD);
    let xs = base64url_encode(x);
    append_str(&mut out, xs.as_str());
    append_str(&mut out, JWK_MIDDLE);
    let ys = base64url_encode(y);
    append_str(&mut out, ys.as_str());
    append_str(&mut out, JWK_TAIL);
    proof {
        assert(out@ =~= jwk_text(x@, y@));
    }
    out
}

/// Converts a COSE public key into JWK text.
pub fn cose_key_to_jwk(value: &CborValue) -> (r: Result<String, LinkwiseError>)
    ensures
        match cose_jwk_spec(value.model()) {
            Ok(j) => r matches Ok(x) && x@ == j,
            Err(e) => r == Err::<String, LinkwiseError>(e),
        },
{
    let entries = match value {
        CborValue::Entries(entries) => entries,
        _ => {
            return Err(LinkwiseError::CoseKeyNotMap);
        },
    };
    let ghost models = crate::cbor::entry_models_of(entries@);
    proof {
        lemma_entry_models_len(entries@);
    }
    let mut key_type: Option<i64> = None;
    let mut alg: Option<i64> = None;
    let mut crv: Option<i64> = None;
    let mut x: Option<Vec<u8>> = None;
    let mut y: Option<Vec<u8>> = None;
    let mut i: usize = 0;
    while i < entries.len()
        invariant
            i <= entries@.len(),
            models == crate::cbor::entry_models_of(entries@),
            models.len() == entries@.len(),
            ({
                let f = cose_scan(models.take(i as int));
                &&& f.key_type == (match key_type { Some(v) => Some(v as int), None => None::<int> })
                &&& f.alg == (match alg { Some(v) => Some(v as int), None => None::<int> })
                &&& f.crv == (match crv { Some(v) => Some(v as int), None => None::<int> })
                &&& f.x == (match x { Some(v) => Some(v@), None => None::<Seq<u8>> })
                &&& f.y == (match y { Some(v) => Some(v@), None => None::<Seq<u8>> })
            }),
        decreases entries.len() - i,
    {
        let (key, value) = &entries[i];
        proof {
            lemma_entry_model_at(entries@, i as int);
            assert(models.take(i + 1).drop_last() =~= models.take(i as int));
            assert(models.take(i + 1).last() == models[i as int]);
        }
        if let CborValue::Integer(label) = key {
            let label = *label;
            if label == 1 {
                key_type = cbor_integer(value);
            } else if label == 3 {
                alg = cbor_integer(value);
            } else if label == -1 {
                crv = cbor_integer(value);
            } else if label == -2 {
                x = cbor_bytes(value);
            } else if label == -3 {
                y = cbor_bytes(value);
            }
        }
        i += 1;
    }
    proof {
        assert(models.take(entries@.len() as int) =~= models);
    }
    if key_type != Some(2) || alg != Some(-7) || crv != Some(1) {
        return Err(LinkwiseError::UnsupportedPublicKey);
    }
    let x = match x {
        Some(x) => x,
        None => {
            return Err(LinkwiseError::CoseKeyXMissing);
        },
    };
    let y = match y {
        Some(y) => y,
        None => {
            return Err(LinkwiseError::CoseKeyYMissing);
        },
    };
    if x.len() != 32 || y.len() != 32 {
        return Err(LinkwiseError::InvalidP256KeyLength);
    }
    Ok(build_jwk(x.as_slice(), y.as_slice()))
}

/// Fields of authenticator data: the RP ID hash (32 bytes), the flags, the signature
/// counter and, when attested credential data is expected, the credential ID and the
/// credential public key as JWK text.
pub open spec fn auth_data_spec(s: Seq<u8>, expect_attested_data: bool) -> Result<AuthDataModel, LinkwiseError> {
    if s.len() < 37 {
        Err(LinkwiseError::AuthenticatorDataTooShort)
    } else {
        let rp_id_hash = s.subrange(0, 32);
        let flags = s[32];
        let sign_count = crate::cbor::be_value(s, 33, 4);
        if !expect_attested_data {
            Ok(AuthDataModel { rp_id_hash, flags, sign_count, credential_id: None, public_key_jwk: None })
        } else if s.len() < 55 {
            Err(LinkwiseError::AttestedDataTooShort)
        } else {
            let end = 55 + crate::cbor::be_value(s, 53, 2);
            if s.len() <= end {
                Err(LinkwiseError::CredentialIdTruncated)
            } else {
                match parse_value_spec(s.skip(end), 0) {
                    Err(e) => Err(e),
                    Ok((key, _)) => match cose_jwk_spec(key) {
                        Err(e) => Err(e),
                        Ok(jwk) => Ok(
                            AuthDataModel {
                                rp_id_hash,
                                flags,
                                sign_count,
                                credential_id: Some(s.subrange(55, end)),
                                public_key_jwk: Some(jwk),
                            },
                        ),
                    },
                }
            }
        }
    }
}

/// Reads authenticator data (see `auth_data_spec`).
pub fn parse_authenticator_data(bytes: &[u8], expect_attested_data: bool) -> (r: Result<ParsedAuthenticatorData, LinkwiseError>)
    ensures
        match auth_data_spec(bytes@, expect_attested_data) {
            Ok(m) => r matches Ok(p) && p.model() == m,
            Err(e) => r matches Err(x) && x == e,
        },
{
    if bytes.len() < 37 {
        return Err(LinkwiseError::AuthenticatorDataTooShort);
    }
    let rp_id_hash = copy_range(bytes, 0, 32);
    let flags = bytes[32];
    let sign_count: i64 = (bytes[33] as i64) * 16777216 + (bytes[34] as i64) * 65536 + (bytes[35] as i64) * 256 + (bytes[36] as i64);
    proof {
        reveal_with_fuel(crate::cbor::be_value, 5);
    }
    if !expect_attested_data {
        return Ok(ParsedAuthenticatorData { rp_id_hash, flags, sign_count, credential_id: None, public_key_jwk: None });
    }
    if bytes.len() < 55 {
        return Err(LinkwiseError::AttestedDataTooShort);
    }
    let credential_id_len: usize = (bytes[53] as usize) * 256 + (bytes[54] as usize);
    proof {
        reveal_with_fuel(crate::cbor::be_value, 3);
    }
    let credential_end = 55 + credential_id_len;
    if bytes.len() <= credential_end {
        return Err(LinkwiseError::CredentialIdTruncated);
    }
    let credential_id = copy_range(bytes, 55, credential_end);
    let rest = copy_range(bytes, credential_end, bytes.len());
    proof {
        assert(rest@ =~= bytes@.skip(credential_end as int));
    }
    let mut parser = CborParser::new(rest.as_slice());
    let cose_key = parser.parse_value()?;
    let public_key_jwk = cose_key_to_jwk(&cose_key)?;
    Ok(ParsedAuthenticatorData {
        rp_id_hash,
        flags,
        sign_count,
        credential_id: Some(credential_id),
        public_key_jwk: Some(public_key_jwk),
    })
}

/// Checks that `actual` is the SHA-256 digest of the RP ID.
pub fn validate_rp_id_hash(actual: &[u8], rp_id: &str) -> (r: Result<(), LinkwiseError>)
    ensures
        r is Ok <==> actual@ == sha256(utf8_of(rp_id@)),
        r is Err ==> r == Err::<(), LinkwiseError>(LinkwiseError::InvalidRpIdHash),
{
    let expected = sha256_bytes(rp_id.as_bytes());
    if bytes_eq(actual, expected.as_slice()) {
        Ok(())
    } else {
        Err(LinkwiseError::InvalidRpIdHash)
    }
}

/// Do `a` and `b` hold the same bytes?
pub fn bytes_eq(a: &[u8], b: &[u8]) -> (r: bool)
    ensures
        r == (a@ == b@),
{
    if a.len() != b.len() {
        return false;
    }
    let mut i: usize = 0;
    while i < a.len()
        invariant
            i <= a@.len(),
            a@.len() == b@.len(),
            forall|j: int| 0 <= j < i ==> a@[j] == b@[j],
        decreases a.len() - i,
    {
        if a[i] != b[i] {
            return false;
        }
        i += 1;
    }
    proof {
        assert(a@ =~= b@);
    }
    true
}

/// Checks the user-present flag (bit 0).
pub fn validate_user_present(flags: u8) -> (r: Result<(), LinkwiseError>)
    ensures
        r is Ok <==> flags & 1 == 1,
        r is Err ==> r == Err::<(), LinkwiseError>(LinkwiseError::UserPresenceMissing),
{
    if flags & 0x01 == 0x01 {
        Ok(())
    } else {
        Err(LinkwiseError::UserPresenceMissing)
    }
}

/// Reads a DER INTEGER at `index`: its content bytes and the position after it.
pub open spec fn der_integer_spec(sig: Seq<u8>, index: int) -> Result<(Seq<u8>, int), LinkwiseError> {
    if !(0 <= index < sig.len()) || sig[index] != 2 {
        Err(LinkwiseError::InvalidEcdsaInteger)
    } else if index + 1 >= sig.len() {
        Err(LinkwiseError::TruncatedEcdsaInteger)
    } else {
        let start = index + 2;
        let end = start + sig[index + 1] as int;
        if end > sig.len() {
            Err(LinkwiseError::TruncatedEcdsaIntegerValue)
        } else {
            Ok((sig.subrange(start, end), end))
        }
    }
}

/// A DER integer as exactly 32 big-endian bytes: one leading zero byte of a longer
/// value is dropped, shorter values are padded with zeros in front.
pub open spec fn normalize_spec(v: Seq<u8>) -> Result<Seq<u8>, LinkwiseError> {
    let t = if v.len() > 32 && v[0] == 0 {
        v.skip(1)
    } else {
        v
    };
    if t.len() > 32 {
        Err(LinkwiseError::EcdsaIntegerTooLarge)
    } else {
        Ok(Seq::new((32 - t.len()) as nat, |i: int| 0u8) + t)
    }
}

/// The number that bytes stand for, most significant byte first.
pub open spec fn big_endian_value(b: Seq<u8>) -> nat
    decreases b.len(),
{
    if b.len() == 0 {
        0
    } else {
        big_endian_value(b.drop_last()) * 256 + b.last() as nat
    }
}

proof fn lemma_zeros_value(n: nat)
    ensures
        big_endian_value(Seq::new(n, |i: int| 0u8)) == 0,
    decreases n,
{
    if n > 0 {
        assert(Seq::new(n, |i: int| 0u8).drop_last() =~= Seq::new((n - 1) as nat, |i: int| 0u8));
        lemma_zeros_value((n - 1) as nat);
    }
}

/// Zero bytes in front do not change the number.
proof fn lemma_zero_padding_value(n: nat, t: Seq<u8>)
    ensures
        big_endian_value(Seq::new(n, |i: int| 0u8) + t) == big_endian_value(t),
    decreases t.len(),
{
    let z = Seq::new(n, |i: int| 0u8);
    if t.len() == 0 {
        assert(z + t =~= z);
        lemma_zeros_value(n);
    } else {
        assert((z + t).drop_last() =~= z + t.drop_last());
        lemma_zero_padding_value(n, t.drop_last());
    }
}

/// Normalizing a DER integer keeps its value: where it succeeds, the result is 32 bytes
/// that stand for the same big-endian number as the DER integer, the integer's bytes at
/// the end and zeros in front when it has at most 32 bytes. It fails exactly on integers
/// longer than 32 bytes that are not 33 bytes with a leading zero.
pub proof fn lemma_normalized_integer_keeps_value(v: Seq<u8>)
    ensures
        normalize_spec(v) is Err <==> (v.len() > 32 && !(v.len() == 33 && v[0] == 0)),
        normalize_spec(v) matches Ok(out) ==> out.len() == 32 && big_endian_value(out) == big_endian_value(v),
        normalize_spec(v) matches Ok(out) ==> (v.len() <= 32 ==> out.subrange(32 - v.len(), 32) == v
            && forall|i: int| 0 <= i < 32 - v.len() ==> #[trigger] out[i] == 0),
{
    let t = if v.len() > 32 && v[0] == 0 { v.skip(1) } else { v };
    if t.len() <= 32 {
        let n = (32 - t.len()) as nat;
        let out = Seq::new(n, |i: int| 0u8) + t;
        lemma_zero_padding_value(n, t);
        if v.len() > 32 && v[0] == 0 {
            assert(v =~= Seq::new(1, |i: int| 0u8) + t);
            lemma_zero_padding_value(1, t);
        }
        assert(out.subrange(n as int, 32) =~= t);
    }
}

/// The raw 64-byte form `r || s` of a DER-encoded ECDSA signature.
pub open spec fn der_to_raw_spec(sig: Seq<u8>) -> Result<Seq<u8>, LinkwiseError> {
    if sig.len() < 8 || sig[0] != 0x30 {
        Err(LinkwiseError::InvalidEcdsaSignature)
    } else if sig[1] & 0x80 != 0 && (sig[1] & 0x7f != 1 || sig.len() < 3) {
        Err(LinkwiseError::UnsupportedEcdsaSignatureLength)
    } else {
        let start: int = if sig[1] & 0x80 != 0 { 3 } else { 2 };
        match der_integer_spec(sig, start) {
            Err(e) => Err(e),
            Ok((r, p)) => match der_integer_spec(sig, p) {
                Err(e) => Err(e),
                Ok((s, _)) => match normalize_spec(r) {
                    Err(e) => Err(e),
                    Ok(rn) => match normalize_spec(s) {
                        Err(e) => Err(e),
                        Ok(sn) => Ok(rn + sn),
                    },
                },
            },
        }
    }
}

/// Reads a DER INTEGER at `*index` and moves past it.
pub fn read_der_integer(signature: &[u8], index: &mut usize) -> (r: Result<Vec<u8>, LinkwiseError>)
    ensures
        match der_integer_spec(signature@, *old(index) as int) {
            Ok((v, p)) => r matches Ok(x) && x@ == v && *final(index) == p,
            Err(e) => r == Err::<Vec<u8>, LinkwiseError>(e),
        },
        *old(index) <= signature@.len() ==> *final(index) <= signature@.len(),
{
    if *index >= signature.len() || signature[*index] != 0x02 {
        return Err(LinkwiseError::InvalidEcdsaInteger);
    }
    *index = *index + 1;
    if *index >= signature.len() {
        return Err(LinkwiseError::TruncatedEcdsaInteger);
    }
    let len = signature[*index] as usize;
    *index = *index + 1;
    if len > signature.len() - *index {
        return Err(LinkwiseError::TruncatedEcdsaIntegerValue);
    }
    let end = *index + len;
    let value = copy_range(signature, *index, end);
    *index = end;
    Ok(value)
}

/// Pads or trims a DER integer to 32 bytes (see `normalize_spec`).
pub fn normalize_ecdsa_integer(value: &[u8]) -> (r: Result<Vec<u8>, LinkwiseError>)
    ensures
        match normalize_spec(value@) {
            Ok(v) => r matches Ok(x) && x@ == v,
            Err(e) => r == Err::<Vec<u8>, LinkwiseError>(e),
        },
{
    let start: usize = if value.len() > 32 && value[0] == 0 { 1 } else { 0 };
    let trimmed_len = value.len() - start;
    if trimmed_len > 32 {
        return Err(LinkwiseError::EcdsaIntegerTooLarge);
    }
    let mut output: Vec<u8> = Vec::new();
    let mut i: usize = 0;
    while i < 32 - trimmed_len
        invariant
            i <= 32 - trimmed_len,
            trimmed_len <= 32,
            output@ == Seq::new(i as nat, |j: int| 0u8),
        decreases 32 - trimmed_len - i,
    {
        output.push(0);
        proof {
            assert(output@ =~= Seq::new((i + 1) as nat, |j: int| 0u8));
        }
        i += 1;
    }
    let tail = copy_range(value, start, value.len());
    append_bytes(&mut output, tail.as_slice());
    proof {
        let t = if value@.len() > 32 && value@[0] == 0 { value@.skip(1) } else { value@ };
        assert(tail@ =~= t);
    }
    Ok(output)
}

/// Converts a DER-encoded ECDSA signature into its raw 64-byte form.
pub fn der_to_raw_ecdsa_signature(signature: &[u8]) -> (r: Result<Vec<u8>, LinkwiseError>)
    ensures
        match der_to_raw_spec(signature@) {
            Ok(v) => r matches Ok(x) && x@ == v,
            Err(e) => r == Err::<Vec<u8>, LinkwiseError>(e),
        },
{
    if signature.len() < 8 || signature[0] != 0x30 {
        return Err(LinkwiseError::InvalidEcdsaSignature);
    }
    let mut index: usize = 2;
    if signature[1] & 0x80 != 0 {
        let length_bytes = signature[1] & 0x7f;
        if length_bytes != 1 || signature.len() < 3 {
            return Err(LinkwiseError::UnsupportedEcdsaSignatureLength);
        }
        index = 3;
    }
    let r = read_der_integer(signature, &mut index)?;
    let s = read_der_integer(signature, &mut index)?;
    let mut raw = normalize_ecdsa_integer(r.as_slice())?;
    let sn = normalize_ecdsa_integer(s.as_slice())?;
    append_bytes(&mut raw, sn.as_slice());
    Ok(raw)
}

/// The uncompressed P-256 point `04 || x || y` of a stored JWK.
pub open spec fn jwk_raw_spec(jwk: Seq<char>) -> Result<Seq<u8>, LinkwiseError> {
    let b = utf8_of(jwk);
    match json_member_text(b, "x"@) {
        None => Err(LinkwiseError::InvalidStoredJwk),
        Some(None) => Err(LinkwiseError::StoredJwkXMissing),
        Some(Some(xt)) => match decode_spec(xt) {
            None => Err(LinkwiseError::InvalidBase64Url),
            Some(x) => match json_member_text(b, "y"@) {
                None => Err(LinkwiseError::InvalidStoredJwk),
                Some(None) => Err(LinkwiseError::StoredJwkYMissing),
                Some(Some(yt)) => match decode_spec(yt) {
                    None => Err(LinkwiseError::InvalidBase64Url),
                    Some(y) => if x.len() != 32 || y.len() != 32 {
                        Err(LinkwiseError::InvalidStoredKeyLength)
                    } else {
                        Ok(seq![4u8] + x + y)
                    },
                },
            },
        },
    }
}

/// The `x` and `y` texts of a stored JWK text are found again from the text itself, when
/// both use only URL-safe base64 characters (none of them is the quote that ends them).
proof fn lemma_jwk_members_injective(xt: Seq<char>, yt: Seq<char>, xt2: Seq<char>, yt2: Seq<char>)
    requires
        url_safe_text(xt),
        url_safe_text(yt),
        url_safe_text(xt2),
        url_safe_text(yt2),
        jwk_members_text(xt, yt) == jwk_members_text(xt2, yt2),
    ensures
        xt == xt2,
        yt == yt2,
{
    reveal_strlit("\",\"y\":\"");
    reveal_strlit("\"}");
    let a = jwk_members_text(xt, yt);
    let h = JWK_HEAD@.len() as int;
    let m = JWK_MIDDLE@;
    let t = JWK_TAIL@;
    assert(m[0] == '"' && t[0] == '"');
    assert(a == JWK_HEAD@ + (xt + (m + (yt + t))));
    assert(a == JWK_HEAD@ + (xt2 + (m + (yt2 + t))));
    if xt.len() < xt2.len() {
        assert(a[h + xt.len()] == m[0]);
        assert(a[h + xt.len()] == xt2[xt.len() as int]);
        assert(url_safe_char(xt2[xt.len() as int]));
        assert(false);
    }
    if xt2.len() < xt.len() {
        assert(a[h + xt2.len()] == m[0]);
        assert(a[h + xt2.len()] == xt[xt2.len() as int]);
        assert(url_safe_char(xt[xt2.len() as int]));
        assert(false);
    }
    assert forall|k: int| 0 <= k < xt.len() implies xt[k] == xt2[k] by {
        assert(a[h + k] == xt[k]);
        assert(a[h + k] == xt2[k]);
    }
    assert(xt =~= xt2);
    let g = h + xt.len() + m.len();
    if yt.len() < yt2.len() {
        assert(a[g + yt.len()] == t[0]);
        assert(a[g + yt.len()] == yt2[yt.len() as int]);
        assert(url_safe_char(yt2[yt.len() as int]));
        assert(false);
    }
    if yt2.len() < yt.len() {
        assert(a[g + yt2.len()] == t[0]);
        assert(a[g + yt2.len()] == yt[yt2.len() as int]);
        assert(url_safe_char(yt[yt2.len() as int]));
        assert(false);
    }
    assert forall|k: int| 0 <= k < yt.len() implies yt[k] == yt2[k] by {
        assert(a[g + k] == yt[k]);
        assert(a[g + k] == yt2[k]);
    }
    assert(yt =~= yt2);
}

/// The UTF-8 bytes of a stored JWK text with URL-safe `x` and `y` texts name exactly
/// these texts.
proof fn lemma_stored_jwk_members(xt: Seq<char>, yt: Seq<char>)
    requires
        url_safe_text(xt),
        url_safe_text(yt),
    ensures
        stored_jwk_x(utf8_of(jwk_members_text(xt, yt))) == Some(xt),
        stored_jwk_y(utf8_of(jwk_members_text(xt, yt))) == Some(yt),
{
    let json = utf8_of(jwk_members_text(xt, yt));
    assert(url_safe_text(xt) && url_safe_text(yt) && json == utf8_of(jwk_members_text(xt, yt)));
    let (a, b) = choose|a: Seq<char>, b: Seq<char>|
        url_safe_text(a) && url_safe_text(b) && json == utf8_of(#[trigger] jwk_members_text(a, b));
    vstd::utf8::encode_utf8_decode_utf8(jwk_members_text(xt, yt));
    vstd::utf8::encode_utf8_decode_utf8(jwk_members_text(a, b));
    lemma_jwk_members_injective(xt, yt, a, b);
}

/// A stored JWK text whose members were read as the encodings of `x` and `y` decodes to
/// the point `04 || x || y`.
proof fn lemma_jwk_raw_of_members(jwk: Seq<char>, x: Seq<u8>, y: Seq<u8>)
    requires
        x.len() == 32,
        y.len() == 32,
        json_member_text(utf8_of(jwk), "x"@) == Some(Some(encode_spec(x))),
        json_member_text(utf8_of(jwk), "y"@) == Some(Some(encode_spec(y))),
    ensures
        jwk_raw_spec(jwk) == Ok::<Seq<u8>, LinkwiseError>(seq![4u8] + x + y),
{
    lemma_decode_encode_roundtrip(x);
    lemma_decode_encode_roundtrip(y);
}

/// Reads the `x` and `y` coordinates of a stored JWK and gives the uncompressed point. A
/// JWK that `cose_key_to_jwk` wrote for 32-byte coordinates `x` and `y` (`jwk_text(x, y)`)
/// gives back exactly `04 || x || y`.
pub fn jwk_to_raw_p256_public_key(public_key_jwk: &str) -> (r: Result<Vec<u8>, LinkwiseError>)
    ensures
        match jwk_raw_spec(public_key_jwk@) {
            Ok(v) => r matches Ok(x) && x@ == v,
            Err(e) => r == Err::<Vec<u8>, LinkwiseError>(e),
        },
        forall|x: Seq<u8>, y: Seq<u8>|
            x.len() == 32 && y.len() == 32 && #[trigger] jwk_text(x, y) == public_key_jwk@
                ==> (r matches Ok(v) && v@ == seq![4u8] + x + y),
{
    let bytes = public_key_jwk.as_bytes();
    let x_member = json_text_member(bytes, "x");
    let y_member = json_text_member(bytes, "y");
    proof {
        reveal_strlit("x");
        reveal_strlit("y");
        assert forall|x: Seq<u8>, y: Seq<u8>|
            x.len() == 32 && y.len() == 32 && #[trigger] jwk_text(x, y) == public_key_jwk@
            implies jwk_raw_spec(public_key_jwk@) == Ok::<Seq<u8>, LinkwiseError>(seq![4u8] + x + y) by {
            lemma_encode_url_safe(x);
            lemma_encode_url_safe(y);
            let (xt, yt) = (encode_spec(x), encode_spec(y));
            assert(jwk_text(x, y) == jwk_members_text(xt, yt));
            assert(bytes@ == utf8_of(jwk_members_text(xt, yt)));
            lemma_stored_jwk_members(xt, yt);
            lemma_jwk_raw_of_members(public_key_jwk@, x, y);
        }
    }
    let x = match x_member {
        None => {
            return Err(LinkwiseError::InvalidStoredJwk);
        },
        Some(None) => {
            return Err(LinkwiseError::StoredJwkXMissing);
        },
        Some(Some(t)) => base64url_decode(t.as_str())?,
    };
    let y = match y_member {
        None => {
            return Err(LinkwiseError::InvalidStoredJwk);
        },
        Some(None) => {
            return Err(LinkwiseError::StoredJwkYMissing);
        },
        Some(Some(t)) => base64url_decode(t.as_str())?,
    };
    if x.len() != 32 || y.len() != 32 {
        return Err(LinkwiseError::InvalidStoredKeyLength);
    }
    let mut raw: Vec<u8> = Vec::new();
    raw.push(0x04);
    append_bytes(&mut raw, x.as_slice());
    append_bytes(&mut raw, y.as_slice());
    proof {
        assert(raw@ =~= seq![4u8] + x@ + y@);
    }
    Ok(raw)
}

/// The credential ID a posted credential names: its `id`, once `raw_id` is seen to be
/// valid base64url.
pub open spec fn credential_id_spec(id: Seq<char>, raw_id: Seq<char>) -> Result<Seq<char>, LinkwiseError> {
    match decode_spec(raw_id) {
        None => Err(LinkwiseError::InvalidBase64Url),
        Some(_) => Ok(id),
    }
}

/// The credential ID of a posted credential: the canonical encoding of `raw_id` when it
/// equals `id`, and `id` otherwise (the two agree whenever they are equal).
pub fn credential_id_from_payload(payload: &PublicKeyCredentialPayload) -> (r: Result<String, LinkwiseError>)
    ensures
        match credential_id_spec(payload.id@, payload.raw_id@) {
            Ok(c) => r matches Ok(x) && x@ == c,
            Err(e) => r == Err::<String, LinkwiseError>(e),
        },
{
    let raw_id = base64url_decode(payload.raw_id.as_str())?;
    let encoded = base64url_encode(raw_id.as_slice());
    if chars_eq(&chars_of(encoded.as_str()), &chars_of(payload.id.as_str())) {
        Ok(encoded)
    } else {
        Ok(payload.id.clone())
    }
}

/// Model of `RegistrationVerification`.
pub struct RegistrationModel {
    pub challenge: Seq<char>,
    pub credential_id: Seq<char>,
    pub public_key_jwk: Seq<char>,
    pub sign_count: int,
}

impl RegistrationVerification {
    /// The verified registration as plain values.
    pub open spec fn model(self) -> RegistrationModel {
        RegistrationModel {
            challenge: self.challenge@,
            credential_id: self.credential_id@,
            public_key_jwk: self.public_key_jwk@,
            sign_count: self.sign_count as int,
        }
    }
}

/// What verifying a registration gives: the credential must be a public key; the client
/// data must be of type `webauthn.create` from the expected origin; the attestation
/// object's authenticator data must carry the RP ID's hash, the user-present flag, and an
/// ES256 P-256 credential key.
pub open spec fn registration_spec(payload: PublicKeyCredentialPayload, client_data: Option<ClientData>, expected_origin: Seq<char>, rp_id: Seq<char>) -> Result<RegistrationModel, LinkwiseError> {
    if payload.credential_type@ != "public-key"@ {
        Err(LinkwiseError::InvalidCredentialType)
    } else {
        match decode_spec(payload.response.client_data_json@) {
            None => Err(LinkwiseError::InvalidBase64Url),
            Some(_) => match client_data_spec(client_data, "webauthn.create"@, expected_origin) {
                Err(e) => Err(e),
                Ok(challenge) => match payload.response.attestation_object {
                    None => Err(LinkwiseError::MissingAttestationObject),
                    Some(ao) => match decode_spec(ao@) {
                        None => Err(LinkwiseError::InvalidBase64Url),
                        Some(att) => match attestation_auth_data_spec(att) {
                            Err(e) => Err(e),
                            Ok(ad) => match auth_data_spec(ad, true) {
                                Err(e) => Err(e),
                                Ok(parsed) => if parsed.rp_id_hash != sha256(utf8_of(rp_id)) {
                                    Err(LinkwiseError::InvalidRpIdHash)
                                } else if parsed.flags & 1 != 1 {
                                    Err(LinkwiseError::UserPresenceMissing)
                                } else if parsed.credential_id is None {
                                    Err(LinkwiseError::MissingCredentialId)
                                } else if parsed.public_key_jwk is None {
                                    Err(LinkwiseError::MissingPublicKey)
                                } else {
                                    Ok(
                                        RegistrationModel {
                                            challenge,
                                            credential_id: encode_spec(parsed.credential_id->0),
                                            public_key_jwk: parsed.public_key_jwk->0,
                                            sign_count: parsed.sign_count,
                                        },
                                    )
                                },
                            },
                        },
                    },
                },
            },
        }
    }
}

fn is_public_key_type(t: &String) -> (r: bool)
    ensures
        r == (t@ == "public-key"@),
{
    chars_eq(&chars_of(t.as_str()), &chars_of("public-key"))
}

/// Verifies a passkey registration (see `registration_spec`). `client_data` is what the
/// decoded client data JSON of the payload parses to as `ClientData`, `None` when it does
/// not parse.
pub fn verify_registration_payload(payload: &PublicKeyCredentialPayload, client_data: Option<ClientData>, expected_origin: &str, rp_id: &str) -> (r: Result<RegistrationVerification, LinkwiseError>)
    ensures
        match registration_spec(*payload, client_data, expected_origin@, rp_id@) {
            Ok(m) => r matches Ok(v) && v.model() == m,
            Err(e) => r matches Err(x) && x == e,
        },
{
    if !is_public_key_type(&payload.credential_type) {
        return Err(LinkwiseError::InvalidCredentialType);
    }
    base64url_decode(payload.response.client_data_json.as_str())?;
    let challenge = check_client_data(client_data, "webauthn.create", expected_origin)?;
    let attestation_object = match &payload.response.attestation_object {
        None => {
            return Err(LinkwiseError::MissingAttestationObject);
        },
        Some(value) => base64url_decode(value.as_str())?,
    };
    let auth_data = attestation_auth_data(attestation_object.as_slice())?;
    let parsed = parse_authenticator_data(auth_data.as_slice(), true)?;
    validate_rp_id_hash(parsed.rp_id_hash.as_slice(), rp_id)?;
    validate_user_present(parsed.flags)?;
    let credential_id = match parsed.credential_id {
        None => {
            return Err(LinkwiseError::MissingCredentialId);
        },
        Some(c) => c,
    };
    let public_key_jwk = match parsed.public_key_jwk {
        None => {
            return Err(LinkwiseError::MissingPublicKey);
        },
        Some(j) => j,
    };
    Ok(RegistrationVerification {
        challenge,
        credential_id: base64url_encode(credential_id.as_slice()),
        public_key_jwk,
        sign_count: parsed.sign_count,
    })
}

/// Everything a login needs checked by the platform's ECDSA verifier: the data that the
/// authenticator signed, the signature in raw form and the stored public key as a point.
pub struct LoginCheck {
    pub challenge: String,
    pub sign_count: i64,
    pub signed_data: Vec<u8>,
    pub raw_signature: Vec<u8>,
    pub raw_public_key: Vec<u8>,
}

/// Model of `LoginCheck`.
pub struct LoginCheckModel {
    pub challenge: Seq<char>,
    pub sign_count: int,
    pub signed_data: Seq<u8>,
    pub raw_signature: Seq<u8>,
    pub raw_public_key: Seq<u8>,
}

impl LoginCheck {
    /// The prepared check as plain values.
    pub open spec fn model(self) -> LoginCheckModel {
        LoginCheckModel {
            challenge: self.challenge@,
            sign_count: self.sign_count as int,
            signed_data: self.signed_data@,
            raw_signature: self.raw_signature@,
            raw_public_key: self.raw_public_key@,
        }
    }
}

/// The checks of a login assertion that come before its signature is verified: the
/// credential must be a public key; the client data must be of type `webauthn.get` from
/// the expected origin; the authenticator data must carry the RP ID's hash and the
/// user-present flag. The signed data is the authenticator data followed by the SHA-256 of
/// the client data JSON.
pub open spec fn login_check_spec(payload: PublicKeyCredentialPayload, client_data: Option<ClientData>, expected_origin: Seq<char>, rp_id: Seq<char>, public_key_jwk: Seq<char>) -> Result<LoginCheckModel, LinkwiseError> {
    if payload.credential_type@ != "public-key"@ {
        Err(LinkwiseError::InvalidCredentialType)
    } else {
        match decode_spec(payload.response.client_data_json@) {
            None => Err(LinkwiseError::InvalidBase64Url),
            Some(cdj) => match client_data_spec(client_data, "webauthn.get"@, expected_origin) {
                Err(e) => Err(e),
                Ok(challenge) => match payload.response.authenticator_data {
                    None => Err(LinkwiseError::MissingAuthenticatorData),
                    Some(adt) => match decode_spec(adt@) {
                        None => Err(LinkwiseError::InvalidBase64Url),
                        Some(ad) => match payload.response.signature {
                            None => Err(LinkwiseError::MissingSignature),
                            Some(st) => match decode_spec(st@) {
                                None => Err(LinkwiseError::InvalidBase64Url),
                                Some(sig) => match auth_data_spec(ad, false) {
                                    Err(e) => Err(e),
                                    Ok(parsed) => if parsed.rp_id_hash != sha256(utf8_of(rp_id)) {
                                        Err(LinkwiseError::InvalidRpIdHash)
                                    } else if parsed.flags & 1 != 1 {
                                        Err(LinkwiseError::UserPresenceMissing)
                                    } else {
                                        match der_to_raw_spec(sig) {
                                            Err(e) => Err(e),
                                            Ok(raw_signature) => match jwk_raw_spec(public_key_jwk) {
                                                Err(e) => Err(e),
                                                Ok(raw_public_key) => Ok(
                                                    LoginCheckModel {
                                                        challenge,
                                                        sign_count: parsed.sign_count,
                                                        signed_data: ad + sha256(cdj),
                                                        raw_signature,
                                                        raw_public_key,
                                                    },
                                                ),
                                            },
                                        }
                                    },
                                },
                            },
                        },
                    },
                },
            },
        }
    }
}

/// Runs the checks of a login assertion that precede signature verification (see
/// `login_check_spec`). `client_data` is what the decoded client data JSON of the payload
/// parses to as `ClientData`, `None` when it does not parse.
pub fn prepare_login_verification(payload: &PublicKeyCredentialPayload, client_data: Option<ClientData>, expected_origin: &str, rp_id: &str, public_key_jwk: &str) -> (r: Result<LoginCheck, LinkwiseError>)
    ensures
        match login_check_spec(*payload, client_data, expected_origin@, rp_id@, public_key_jwk@) {
            Ok(m) => r matches Ok(c) && c.model() == m,
            Err(e) => r matches Err(x) && x == e,
        },
{
    if !is_public_key_type(&payload.credential_type) {
        return Err(LinkwiseError::InvalidCredentialType);
    }
    let client_data_json = base64url_decode(payload.response.client_data_json.as_str())?;
    let challenge = check_client_data(client_data, "webauthn.get", expected_origin)?;
    let authenticator_data = match &payload.response.authenticator_data {
        None => {
            return Err(LinkwiseError::MissingAuthenticatorData);
        },
        Some(value) => base64url_decode(value.as_str())?,
    };
    let signature = match &payload.response.signature {
        None => {
            return Err(LinkwiseError::MissingSignature);
        },
        Some(value) => base64url_decode(value.as_str())?,
    };
    let parsed = parse_authenticator_data(authenticator_data.as_slice(), false)?;
    validate_rp_id_hash(parsed.rp_id_hash.as_slice(), rp_id)?;
    validate_user_present(parsed.flags)?;
    let mut signed_data = authenticator_data;
    let digest = sha256_bytes(client_data_json.as_slice());
    append_bytes(&mut signed_data, digest.as_slice());
    let raw_signature = der_to_raw_ecdsa_signature(signature.as_slice())?;
    let raw_public_key = jwk_to_raw_p256_public_key(public_key_jwk)?;
    Ok(LoginCheck { challenge, sign_count: parsed.sign_count, signed_data, raw_signature, raw_public_key })
}

impl LoginVerification {
    /// The challenge, credential ID and signature counter as plain values.
    pub open spec fn model(self) -> (Seq<char>, Seq<char>, int) {
        (self.challenge@, self.credential_id@, self.sign_count as int)
    }
}

/// Finishes a login once the platform has checked the signature: a rejected signature
/// fails; otherwise the verification names the challenge, the posted credential ID and the
/// signature counter.
pub fn complete_login_verification(payload: &PublicKeyCredentialPayload, check: LoginCheck, signature_valid: bool) -> (r: Result<LoginVerification, LinkwiseError>)
    ensures
        !signature_valid ==> (r matches Err(x) && x == LinkwiseError::InvalidWebauthnSignature),
        signature_valid ==> match credential_id_spec(payload.id@, payload.raw_id@) {
            Ok(c) => r matches Ok(v) && v.model() == (check.challenge@, c, check.sign_count as int),
            Err(e) => r matches Err(x) && x == e,
        },
{
    if !signature_valid {
        return Err(LinkwiseError::InvalidWebauthnSignature);
    }
    let credential_id = credential_id_from_payload(payload)?;
    Ok(LoginVerification { challenge: check.challenge, credential_id, sign_count: check.sign_count })
}

} // verus!
