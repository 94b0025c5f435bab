use vstd::prelude::*;

verus! {

/// Failures of the library's checks, one variant per cause; `message` gives the text
/// that the service reports for each.
#[derive(Debug, Clone, Copy, PartialEq, Eq, Structural)]
pub enum LinkwiseError {
    InvalidBase64Url,
    InvalidRequestUrl,
    RequestUrlMissingHost,
    CryptoUnavailable,
    RandomValuesUnavailable,
    RandomValuesNotCallable,
    RandomValuesFailed,
    InvalidCredentialType,
    MissingAttestationObject,
    MissingAuthenticatorData,
    MissingSignature,
    MissingCredentialId,
    MissingPublicKey,
    InvalidClientDataJson,
    InvalidClientDataType,
    InvalidWebauthnOrigin,
    InvalidWebauthnSignature,
    AttestationNotMap,
    AttestationAuthDataMissing,
    AuthenticatorDataTooShort,
    AttestedDataTooShort,
    CredentialIdTruncated,
    InvalidRpIdHash,
    UserPresenceMissing,
    CoseKeyNotMap,
    UnsupportedPublicKey,
    CoseKeyXMissing,
    CoseKeyYMissing,
    InvalidP256KeyLength,
    InvalidStoredJwk,
    StoredJwkXMissing,
    StoredJwkYMissing,
    InvalidStoredKeyLength,
    InvalidEcdsaSignature,
    UnsupportedEcdsaSignatureLength,
    InvalidEcdsaInteger,
    TruncatedEcdsaInteger,
    TruncatedEcdsaIntegerValue,
    EcdsaIntegerTooLarge,
    InvalidCborText,
    UnsupportedCborPrimitive,
    UnsupportedCborValue,
    UnsupportedCborLength,
    UnexpectedEndOfCbor,
    UnexpectedEndOfCborBytes,
}

impl LinkwiseError {
    /// The text reported for this failure.
    pub fn message(&self) -> (r: &'static str)
        ensures
            r@ == match self {
                LinkwiseError::InvalidBase64Url => "invalid base64url input"@,
                LinkwiseError::InvalidRequestUrl => "invalid request URL"@,
                LinkwiseError::RequestUrlMissingHost => "request URL is missing host"@,
                LinkwiseError::CryptoUnavailable => "crypto global is unavailable"@,
                LinkwiseError::RandomValuesUnavailable => "crypto.getRandomValues is unavailable"@,
                LinkwiseError::RandomValuesNotCallable => "crypto.getRandomValues is not callable"@,
                LinkwiseError::RandomValuesFailed => "crypto.getRandomValues failed"@,
                LinkwiseError::InvalidCredentialType => "invalid credential type"@,
                LinkwiseError::MissingAttestationObject => "missing attestation object"@,
                LinkwiseError::MissingAuthenticatorData => "missing authenticator data"@,
                LinkwiseError::MissingSignature => "missing signature"@,
                LinkwiseError::MissingCredentialId => "missing credential id"@,
                LinkwiseError::MissingPublicKey => "missing public key"@,
                LinkwiseError::InvalidClientDataJson => "invalid client data JSON"@,
                LinkwiseError::InvalidClientDataType => "invalid WebAuthn client data type"@,
                LinkwiseError::InvalidWebauthnOrigin => "invalid WebAuthn origin"@,
                LinkwiseError::InvalidWebauthnSignature => "invalid WebAuthn signature"@,
                LinkwiseError::AttestationNotMap => "attestation object is not a map"@,
                LinkwiseError::AttestationAuthDataMissing => "attestation authData is missing"@,
                LinkwiseError::AuthenticatorDataTooShort => "authenticator data is too short"@,
                LinkwiseError::AttestedDataTooShort => "attested credential data is too short"@,
                LinkwiseError::CredentialIdTruncated => "credential id is truncated"@,
                LinkwiseError::InvalidRpIdHash => "invalid RP ID hash"@,
                LinkwiseError::UserPresenceMissing => "user presence flag is missing"@,
                LinkwiseError::CoseKeyNotMap => "COSE key is not a map"@,
                LinkwiseError::UnsupportedPublicKey => "unsupported WebAuthn public key"@,
                LinkwiseError::CoseKeyXMissing => "COSE key x is missing"@,
                LinkwiseError::CoseKeyYMissing => "COSE key y is missing"@,
                LinkwiseError::InvalidP256KeyLength => "invalid P-256 public key length"@,
                LinkwiseError::InvalidStoredJwk => "invalid stored JWK"@,
                LinkwiseError::StoredJwkXMissing => "stored JWK x is missing"@,
                LinkwiseError::StoredJwkYMissing => "stored JWK y is missing"@,
                LinkwiseError::InvalidStoredKeyLength => "invalid stored P-256 key length"@,
                LinkwiseError::InvalidEcdsaSignature => "invalid ECDSA signature"@,
                LinkwiseError::UnsupportedEcdsaSignatureLength => "unsupported ECDSA signature length"@,
                LinkwiseError::InvalidEcdsaInteger => "invalid ECDSA integer"@,
                LinkwiseError::TruncatedEcdsaInteger => "truncated ECDSA integer"@,
                LinkwiseError::TruncatedEcdsaIntegerValue => "truncated ECDSA integer value"@,
                LinkwiseError::EcdsaIntegerTooLarge => "ECDSA integer is too large"@,
                LinkwiseError::InvalidCborText => "invalid CBOR text"@,
                LinkwiseError::UnsupportedCborPrimitive => "unsupported CBOR primitive"@,
                LinkwiseError::UnsupportedCborValue => "unsupported CBOR value"@,
                LinkwiseError::UnsupportedCborLength => "unsupported CBOR length"@,
                LinkwiseError::UnexpectedEndOfCbor => "unexpected end of CBOR"@,
                LinkwiseError::UnexpectedEndOfCborBytes => "unexpected end of CBOR bytes"@,
            },
    {
        match self {
            LinkwiseError::InvalidBase64Url => "invalid base64url input",
            LinkwiseError::InvalidRequestUrl => "invalid request URL",
            LinkwiseError::RequestUrlMissingHost => "request URL is missing host",
            LinkwiseError::CryptoUnavailable => "crypto global is unavailable",
            LinkwiseError::RandomValuesUnavailable => "crypto.getRandomValues is unavailable",
            LinkwiseError::RandomValuesNotCallable => "crypto.getRandomValues is not callable",
            LinkwiseError::RandomValuesFailed => "crypto.getRandomValues failed",
            LinkwiseError::InvalidCredentialType => "invalid credential type",
            LinkwiseError::MissingAttestationObject => "missing attestation object",
            LinkwiseError::MissingAuthenticatorData => "missing authenticator data",
            LinkwiseError::MissingSignature => "missing signature",
            LinkwiseError::MissingCredentialId => "missing credential id",
            LinkwiseError::MissingPublicKey => "missing public key",
            LinkwiseError::InvalidClientDataJson => "invalid client data JSON",
            LinkwiseError::InvalidClientDataType => "invalid WebAuthn client data type",
            LinkwiseError::InvalidWebauthnOrigin => "invalid WebAuthn origin",
            LinkwiseError::InvalidWebauthnSignature => "invalid WebAuthn signature",
            LinkwiseError::AttestationNotMap => "attestation object is not a map",
            LinkwiseError::AttestationAuthDataMissing => "attestation authData is missing",
            LinkwiseError::AuthenticatorDataTooShort => "authenticator data is too short",
            LinkwiseError::AttestedDataTooShort => "attested credential data is too short",
            LinkwiseError::CredentialIdTruncated => "credential id is truncated",
            LinkwiseError::InvalidRpIdHash => "invalid RP ID hash",
            LinkwiseError::UserPresenceMissing => "user presence flag is missing",
            LinkwiseError::CoseKeyNotMap => "COSE key is not a map",
            LinkwiseError::UnsupportedPublicKey => "unsupported WebAuthn public key",
            LinkwiseError::CoseKeyXMissing => "COSE key x is missing",
            LinkwiseError::CoseKeyYMissing => "COSE key y is missing",
            LinkwiseError::InvalidP256KeyLength => "invalid P-256 public key length",
            LinkwiseError::InvalidStoredJwk => "invalid stored JWK",
            LinkwiseError::StoredJwkXMissing => "stored JWK x is missing",
            LinkwiseError::StoredJwkYMissing => "stored JWK y is missing",
            LinkwiseError::InvalidStoredKeyLength => "invalid stored P-256 key length",
            LinkwiseError::InvalidEcdsaSignature => "invalid ECDSA signature",
            LinkwiseError::UnsupportedEcdsaSignatureLength => "unsupported ECDSA signature length",
            LinkwiseError::InvalidEcdsaInteger => "invalid ECDSA integer",
            LinkwiseError::TruncatedEcdsaInteger => "truncated ECDSA integer",
            LinkwiseError::TruncatedEcdsaIntegerValue => "truncated ECDSA integer value",
            LinkwiseError::EcdsaIntegerTooLarge => "ECDSA integer is too large",
            LinkwiseError::InvalidCborText => "invalid CBOR text",
            LinkwiseError::UnsupportedCborPrimitive => "unsupported CBOR primitive",
            LinkwiseError::UnsupportedCborValue => "unsupported CBOR value",
            LinkwiseError::UnsupportedCborLength => "unsupported CBOR length",
            LinkwiseError::UnexpectedEndOfCbor => "unexpected end of CBOR",
            LinkwiseError::UnexpectedEndOfCborBytes => "unexpected end of CBOR bytes",
        }
    }
}

} // verus!
