use vstd::prelude::*;
use crate::text::push_char;

verus! {

/// Text that prefixes the data hashed to protect a WebDAV password.
pub const PASSWORD_AAD: &'static str = "linkwise-webdav-password-v1";

/// Name of the secret binding that keys the WebDAV password hash.
pub const SECRET_BINDING: &'static str = "LINKWISE_SECRET";

/// The SHA-256 digest of a byte sequence (as the `sha2` crate computes it).
pub uninterp spec fn sha256(data: Seq<u8>) -> Seq<u8>;

#[verifier::external_body]
/// Calls `sha2::Sha256::digest` (through the `Digest` trait). Claimed: the result is the
/// digest named `sha256` of the input, and a SHA-256 digest is 32 bytes long. That the
/// digest is the FIPS 180-4 function is not stated here.
fn sha256_digest(data: &[u8]) -> (r: Vec<u8>)
    ensures
        r@ == sha256(data@),
        r@.len() == 32,
{
    <sha2::Sha256 as sha2::Digest>::digest(data).to_vec()
}

/// The lower-case hexadecimal digit for a value below 16.
pub open spec fn hex_digit(n: u8) -> char {
    if n < 10 {
        ((n as u32) + 48) as char
    } else {
        ((n as u32) - 10 + 97) as char
    }
}

/// Lower-case hexadecimal of `b`, two digits per byte, high nibble first.
pub open spec fn hex_spec(b: Seq<u8>) -> Seq<char>
    decreases b.len(),
{
    if b.len() == 0 {
        seq![]
    } else {
        hex_spec(b.drop_last()) + seq![hex_digit(b.last() >> 4), hex_digit(b.last() & 15)]
    }
}

/// The bytes of `s` in UTF-8.
pub open spec fn utf8_of(s: Seq<char>) -> Seq<u8> {
    vstd::utf8::encode_utf8(s)
}

/// What `protect_webdav_password` gives for a password and a secret.
pub open spec fn protected_password_spec(password: Seq<char>, secret: Seq<char>) -> Seq<char> {
    hex_spec(sha256(utf8_of(PASSWORD_AAD@) + utf8_of(secret) + utf8_of(password)))
}

fn hex_char(n: u8) -> (c: char)
    requires
        n < 16,
    ensures
        c == hex_digit(n),
{
    let b: u8 = if n < 10 {
        n + 48
    } else {
        n - 10 + 97
    };
    b as char
}

/// Lower-case hexadecimal of `bytes`.
pub fn hex_encode(bytes: &[u8]) -> (r: String)
    ensures
        r@ == hex_spec(bytes@),
        r@.len() == 2 * bytes@.len(),
{
    let mut output = String::new();
    let mut i: usize = 0;
    while i < bytes.len()
        invariant
            i <= bytes.len(),
            output@ == hex_spec(bytes@.take(i as int)),
            output@.len() == 2 * i,
        decreases bytes.len() - i,
    {
        let byte = bytes[i];
        assert(byte >> 4 < 16 && byte & 15 < 16) by (bit_vector);
        push_char(&mut output, hex_char(byte >> 4));
        push_char(&mut output, hex_char(byte & 0x0f));
        proof {
            let t = bytes@.take(i + 1);
            assert(t.drop_last() =~= bytes@.take(i as int));
            assert(t.last() == byte);
        }
        i += 1;
    }
    proof {
        assert(bytes@.take(bytes@.len() as int) =~= bytes@);
    }
    output
}

/// Appends the bytes of `s` to `v`.
pub fn append_bytes(v: &mut Vec<u8>, s: &[u8])
    ensures
        final(v)@ == old(v)@ + s@,
{
    let mut i: usize = 0;
    while i < s.len()
        invariant
            i <= s.len(),
            v@ == old(v)@ + s@.take(i as int),
        decreases s.len() - i,
    {
        v.push(s[i]);
        proof {
            assert(old(v)@ + s@.take(i + 1) =~= (old(v)@ + s@.take(i as int)).push(s@[i as int]));
        }
        i += 1;
    }
    proof {
        assert(s@.take(s@.len() as int) =~= s@);
    }
}

/// The SHA-256 digest of a byte sequence.
pub fn sha256_bytes(input: &[u8]) -> (r: Vec<u8>)
    ensures
        r@ == sha256(input@),
        r@.len() == 32,
{
    sha256_digest(input)
}

/// Lower-case hexadecimal of the SHA-256 digest of the UTF-8 bytes of `input`.
pub fn sha256_hex(input: &str) -> (r: String)
    ensures
        r@ == hex_spec(sha256(utf8_of(input@))),
        r@.len() == 64,
{
    let digest = sha256_digest(input.as_bytes());
    hex_encode(digest.as_slice())
}

/// Hashes a WebDAV password under the service secret: the lower-case hexadecimal
/// SHA-256 of the fixed prefix, the secret and the password, in that order.
pub fn protect_webdav_password(password: &str, secret: &str) -> (r: String)
    ensures
        r@ == protected_password_spec(password@, secret@),
        r@.len() == 64,
{
    let mut data: Vec<u8> = Vec::new();
    append_bytes(&mut data, PASSWORD_AAD.as_bytes());
    append_bytes(&mut data, secret.as_bytes());
    append_bytes(&mut data, password.as_bytes());
    proof {
        assert(data@ =~= utf8_of(PASSWORD_AAD@) + utf8_of(secret@) + utf8_of(password@));
    }
    let digest = sha256_digest(data.as_slice());
    hex_encode(digest.as_slice())
}

} // verus!
