use vstd::prelude::*;
use crate::error::LinkwiseError;
use crate::text::{chars_of, push_char};

verus! {

/// The character that stands for the 6-bit value `v` in the URL-safe base64 alphabet.
pub open spec fn b64_char(v: u8) -> char {
    if v < 26 {
        ((v as u32) + 65) as char
    } else if v < 52 {
        ((v as u32) - 26 + 97) as char
    } else if v < 62 {
        ((v as u32) - 52 + 48) as char
    } else if v == 62 {
        '-'
    } else {
        '_'
    }
}

/// The 6-bit value of an alphabet character; `None` for any other character.
pub open spec fn b64_value(c: char) -> Option<u8> {
    if 'A' <= c && c <= 'Z' {
        Some(((c as u32) - 65) as u8)
    } else if 'a' <= c && c <= 'z' {
        Some(((c as u32) - 97 + 26) as u8)
    } else if '0' <= c && c <= '9' {
        Some(((c as u32) - 48 + 52) as u8)
    } else if c == '-' {
        Some(62)
    } else if c == '_' {
        Some(63)
    } else {
        None
    }
}

/// Unpadded URL-safe base64 of `b`: each 3 bytes give 4 characters, a final 1 or 2
/// bytes give 2 or 3.
pub open spec fn encode_spec(b: Seq<u8>) -> Seq<char>
    decreases b.len(),
{
    if b.len() == 0 {
        seq![]
    } else if b.len() == 1 {
        seq![b64_char(b[0] >> 2), b64_char(((b[0] & 3) << 4) as u8)]
    } else if b.len() == 2 {
        seq![
            b64_char(b[0] >> 2),
            b64_char((((b[0] & 3) << 4) | (b[1] >> 4)) as u8),
            b64_char(((b[1] & 15) << 2) as u8),
        ]
    } else {
        seq![
            b64_char(b[0] >> 2),
            b64_char((((b[0] & 3) << 4) | (b[1] >> 4)) as u8),
            b64_char((((b[1] & 15) << 2) | (b[2] >> 6)) as u8),
            b64_char(b[2] & 63),
        ] + encode_spec(b.skip(3))
    }
}

/// The bytes that a run of 6-bit values packs: 4 values give 3 bytes, a final 2 or 3
/// values give 1 or 2 bytes, and a final single value gives none.
pub open spec fn unpack_spec(v: Seq<u8>) -> Seq<u8>
    decreases v.len(),
{
    if v.len() < 2 {
        seq![]
    } else if v.len() == 2 {
        seq![((v[0] << 2) | (v[1] >> 4)) as u8]
    } else if v.len() == 3 {
        seq![((v[0] << 2) | (v[1] >> 4)) as u8, ((v[1] << 4) | (v[2] >> 2)) as u8]
    } else {
        seq![
            ((v[0] << 2) | (v[1] >> 4)) as u8,
            ((v[1] << 4) | (v[2] >> 2)) as u8,
            ((v[2] << 6) | v[3]) as u8,
        ] + unpack_spec(v.skip(4))
    }
}

/// The 6-bit values of the characters of `s` up to the first `=`; `None` when another
/// character outside the alphabet comes first.
pub open spec fn values_spec(s: Seq<char>) -> Option<Seq<u8>>
    decreases s.len(),
{
    if s.len() == 0 {
        Some(seq![])
    } else if s[0] == '=' {
        Some(seq![])
    } else {
        match b64_value(s[0]) {
            None => None,
            Some(v) => match values_spec(s.drop_first()) {
                None => None,
                Some(rest) => Some(seq![v] + rest),
            },
        }
    }
}

/// What decoding `s` gives: the packed bytes of its values, or `None` for a character
/// outside the alphabet before any `=`. Bits left over after the last whole byte are
/// dropped.
pub open spec fn decode_spec(s: Seq<char>) -> Option<Seq<u8>> {
    match values_spec(s) {
        None => None,
        Some(v) => Some(unpack_spec(v)),
    }
}

/// The character for a 6-bit value.
fn alphabet_char(v: u8) -> (c: char)
    requires
        v < 64,
    ensures
        c == b64_char(v),
{
    let b: u8 = if v < 26 {
        v + 65
    } else if v < 52 {
        v - 26 + 97
    } else if v < 62 {
        v - 52 + 48
    } else if v == 62 {
        45
    } else {
        95
    };
    b as char
}

/// The 6-bit value of a character (`None` outside the alphabet).
pub fn base64url_value(c: char) -> (r: Option<u8>)
    ensures
        r == b64_value(c),
{
    if 'A' <= c && c <= 'Z' {
        Some(((c as u32) - 65) as u8)
    } else if 'a' <= c && c <= 'z' {
        Some(((c as u32) - 97 + 26) as u8)
    } else if '0' <= c && c <= '9' {
        Some(((c as u32) - 48 + 52) as u8)
    } else if c == '-' {
        Some(62)
    } else if c == '_' {
        Some(63)
    } else {
        None
    }
}

proof fn lemma_encode_block(b0: u8, b1: u8, b2: u8)
    ensures
        b0 >> 2 < 64,
        (((b0 & 3) << 4) | (b1 >> 4)) < 64,
        (((b1 & 15) << 2) | (b2 >> 6)) < 64,
        (b2 & 63) < 64,
        ((b0 & 3) << 4) < 64,
        ((b1 & 15) << 2) < 64,
{
    assert(b0 >> 2 < 64) by (bit_vector);
    assert((((b0 & 3) << 4) | (b1 >> 4)) < 64) by (bit_vector);
    assert((((b1 & 15) << 2) | (b2 >> 6)) < 64) by (bit_vector);
    assert((b2 & 63) < 64) by (bit_vector);
    assert(((b0 & 3) << 4) < 64) by (bit_vector);
    assert(((b1 & 15) << 2) < 64) by (bit_vector);
}

/// Unpadded URL-safe base64 of `bytes`.
pub fn base64url_encode(bytes: &[u8]) -> (r: String)
    ensures
        r@ == encode_spec(bytes@),
{
    let mut output = String::new();
    let mut index: usize = 0;
    proof {
        assert(bytes@.skip(0) =~= bytes@);
    }
    while index < bytes.len()
        invariant
            index <= bytes.len(),
            output@ + encode_spec(bytes@.skip(index as int)) == encode_spec(bytes@),
        decreases bytes.len() - index,
    {
        let ghost rest = bytes@.skip(index as int);
        let b0 = bytes[index];
        let left = bytes.len() - index;
        let has1 = left > 1;
        let has2 = left > 2;
        let b1: u8 = if has1 { bytes[index + 1] } else { 0 };
        let b2: u8 = if has2 { bytes[index + 2] } else { 0 };
        proof {
            lemma_encode_block(b0, b1, b2);
        }
        let ghost before = output@;
        push_char(&mut output, alphabet_char(b0 >> 2));
        push_char(&mut output, alphabet_char(((b0 & 0x03) << 4) | (b1 >> 4)));
        if has1 {
            push_char(&mut output, alphabet_char(((b1 & 0x0f) << 2) | (b2 >> 6)));
        }
        if has2 {
            push_char(&mut output, alphabet_char(b2 & 0x3f));
        }
        proof {
            assert(rest[0] == b0);
            if has1 {
                assert(rest[1] == b1);
            }
            if has2 {
                assert(rest[2] == b2);
                assert(rest.skip(3) =~= bytes@.skip(index + 3));
                assert(output@ =~= before + seq![
                    b64_char(b0 >> 2),
                    b64_char((((b0 & 3) << 4) | (b1 >> 4)) as u8),
                    b64_char((((b1 & 15) << 2) | (b2 >> 6)) as u8),
                    b64_char(b2 & 63),
                ]);
                assert(before + encode_spec(rest) =~= output@ + encode_spec(bytes@.skip(index + 3)));
            } else if has1 {
                assert(b1 >> 4 == b1 >> 4);
                assert(((b1 & 15) << 2) | (0u8 >> 6) == ((b1 & 15) << 2)) by (bit_vector);
                assert(output@ =~= before + encode_spec(rest));
                assert(bytes@.skip(bytes@.len() as int) =~= Seq::<u8>::empty());
            } else {
                assert(((b0 & 3) << 4) | (0u8 >> 4) == ((b0 & 3) << 4)) by (bit_vector);
                assert(output@ =~= before + encode_spec(rest));
                assert(bytes@.skip(bytes@.len() as int) =~= Seq::<u8>::empty());
            }
        }
        if has2 {
            index += 3;
        } else {
            index = bytes.len();
        }
    }
    output
}

/// The 6-bit values of `v` up to the first `=`.
fn collect_values(v: &Vec<char>) -> (r: Option<Vec<u8>>)
    ensures
        match values_spec(v@) {
            None => r is None,
            Some(vals) => r matches Some(x) && x@ == vals,
        },
{
    let mut out: Vec<u8> = Vec::new();
    let mut i: usize = 0;
    proof {
        assert(v@.skip(0) =~= v@);
    }
    while i < v.len()
        invariant
            i <= v.len(),
            forall|j: int| 0 <= j < out@.len() ==> out@[j] < 64,
            match values_spec(v@.skip(i as int)) {
                None => values_spec(v@) is None,
                Some(rest) => values_spec(v@) == Some(out@ + rest),
            },
        decreases v.len() - i,
    {
        let c = v[i];
        let ghost rest = v@.skip(i as int);
        assert(rest[0] == c);
        assert(rest.drop_first() =~= v@.skip(i + 1));
        if c == '=' {
            proof {
                assert(out@ + Seq::<u8>::empty() =~= out@);
            }
            return Some(out);
        }
        match base64url_value(c) {
            None => {
                return None;
            },
            Some(val) => {
                proof {
                    match values_spec(v@.skip(i + 1)) {
                        None => {},
                        Some(tail) => {
                            assert(out@ + (seq![val] + tail) =~= out@.push(val) + tail);
                        },
                    }
                }
                out.push(val);
                i += 1;
            },
        }
    }
    proof {
        assert(v@.skip(i as int) =~= Seq::<char>::empty());
        assert(out@ + Seq::<u8>::empty() =~= out@);
    }
    Some(out)
}

/// Packs 6-bit values into bytes (see `unpack_spec`).
fn unpack_values(v: &Vec<u8>) -> (r: Vec<u8>)
    ensures
        r@ == unpack_spec(v@),
{
    let mut out: Vec<u8> = Vec::new();
    let mut i: usize = 0;
    proof {
        assert(v@.skip(0) =~= v@);
    }
    while v.len() - i >= 4
        invariant
            i <= v.len(),
            out@ + unpack_spec(v@.skip(i as int)) == unpack_spec(v@),
        decreases v.len() - i,
    {
        let ghost rest = v@.skip(i as int);
        let a = v[i];
        let b = v[i + 1];
        let c = v[i + 2];
        let d = v[i + 3];
        let ghost before = out@;
        out.push((a << 2) | (b >> 4));
        out.push((b << 4) | (c >> 2));
        out.push((c << 6) | d);
        proof {
            assert(rest[0] == a && rest[1] == b && rest[2] == c && rest[3] == d);
            assert(rest.skip(4) =~= v@.skip(i + 4));
            assert(before + unpack_spec(rest) =~= out@ + unpack_spec(v@.skip(i + 4)));
        }
        i += 4;
    }
    let ghost rest = v@.skip(i as int);
    let n = v.len() - i;
    if n == 2 {
        out.push((v[i] << 2) | (v[i + 1] >> 4));
        proof {
            assert(rest[0] == v@[i as int] && rest[1] == v@[i + 1]);
        }
    } else if n == 3 {
        out.push((v[i] << 2) | (v[i + 1] >> 4));
        out.push((v[i + 1] << 4) | (v[i + 2] >> 2));
        proof {
            assert(rest[0] == v@[i as int] && rest[1] == v@[i + 1] && rest[2] == v@[i + 2]);
        }
    }
    proof {
        assert(out@ =~= unpack_spec(v@));
    }
    out
}

/// Decodes URL-safe base64 without padding; decoding stops at the first `=`, and any
/// other character outside the alphabet before it fails.
pub fn base64url_decode(value: &str) -> (r: Result<Vec<u8>, LinkwiseError>)
    ensures
        match decode_spec(value@) {
            Some(b) => r matches Ok(x) && x@ == b,
            None => r == Err::<Vec<u8>, LinkwiseError>(LinkwiseError::InvalidBase64Url),
        },
{
    let chars = chars_of(value);
    match collect_values(&chars) {
        None => Err(LinkwiseError::InvalidBase64Url),
        Some(vals) => Ok(unpack_values(&vals)),
    }
}

proof fn lemma_char_value(v: u8)
    requires
        v < 64,
    ensures
        b64_value(b64_char(v)) == Some(v),
        b64_char(v) != '=',
{
}

proof fn lemma_values_prefix(a: Seq<char>, vals: Seq<u8>, b: Seq<char>)
    requires
        a.len() == vals.len(),
        forall|i: int| 0 <= i < a.len() ==> a[i] != '=' && b64_value(#[trigger] a[i]) == Some(vals[i]),
    ensures
        values_spec(a + b) == match values_spec(b) {
            None => None::<Seq<u8>>,
            Some(r) => Some(vals + r),
        },
    decreases a.len(),
{
    if a.len() == 0 {
        assert(a + b =~= b);
        assert(vals + values_spec(b)->0 =~= values_spec(b)->0);
    } else {
        let a2 = a.drop_first();
        let vals2 = vals.drop_first();
        assert forall|i: int| 0 <= i < a2.len() implies a2[i] != '=' && b64_value(#[trigger] a2[i]) == Some(vals2[i]) by {
            assert(a2[i] == a[i + 1]);
            assert(b64_value(a[i + 1]) == Some(vals[i + 1]));
        }
        lemma_values_prefix(a2, vals2, b);
        assert((a + b).drop_first() =~= a2 + b);
        assert((a + b)[0] == a[0]);
        assert(b64_value(a[0]) == Some(vals[0]));
        match values_spec(b) {
            None => {},
            Some(r) => {
                assert(seq![vals[0]] + (vals2 + r) =~= vals + r);
            },
        }
    }
}

proof fn lemma_block_bits(b0: u8, b1: u8, b2: u8)
    ensures
        (((b0 >> 2) << 2) | ((((b0 & 3) << 4) | (b1 >> 4)) >> 4)) == b0,
        (((((b0 & 3) << 4) | (b1 >> 4)) << 4) | ((((b1 & 15) << 2) | (b2 >> 6)) >> 2)) == b1,
        (((((b1 & 15) << 2) | (b2 >> 6)) << 6) | (b2 & 63)) == b2,
        (((b0 >> 2) << 2) | (((b0 & 3) << 4) >> 4)) == b0,
        (((((b0 & 3) << 4) | (b1 >> 4)) << 4) | (((b1 & 15) << 2) >> 2)) == b1,
{
    assert((((b0 >> 2) << 2) | ((((b0 & 3) << 4) | (b1 >> 4)) >> 4)) == b0) by (bit_vector);
    assert((((((b0 & 3) << 4) | (b1 >> 4)) << 4) | ((((b1 & 15) << 2) | (b2 >> 6)) >> 2)) == b1) by (bit_vector);
    assert((((((b1 & 15) << 2) | (b2 >> 6)) << 6) | (b2 & 63)) == b2) by (bit_vector);
    assert((((b0 >> 2) << 2) | (((b0 & 3) << 4) >> 4)) == b0) by (bit_vector);
    assert((((((b0 & 3) << 4) | (b1 >> 4)) << 4) | (((b1 & 15) << 2) >> 2)) == b1) by (bit_vector);
}

/// Decoding gives back what encoding was given: for every byte sequence `b`,
/// `base64url_decode(base64url_encode(b))` is `Ok(b)`.
pub proof fn lemma_decode_encode_roundtrip(b: Seq<u8>)
    ensures
        decode_spec(encode_spec(b)) == Some(b),
    decreases b.len(),
{
    let e = encode_spec(b);
    let empty = Seq::<char>::empty();
    if b.len() == 0 {
        assert(unpack_spec(Seq::<u8>::empty()) =~= b);
    } else {
        let b0 = b[0];
        let b1: u8 = if b.len() > 1 { b[1] } else { 0 };
        let b2: u8 = if b.len() > 2 { b[2] } else { 0 };
        lemma_encode_block(b0, b1, b2);
        lemma_block_bits(b0, b1, b2);
        let v0 = b0 >> 2;
        let v1 = (((b0 & 3) << 4) | (b1 >> 4)) as u8;
        let v2 = (((b1 & 15) << 2) | (b2 >> 6)) as u8;
        let v3 = b2 & 63;
        lemma_char_value(v0);
        lemma_char_value(v1);
        lemma_char_value(v2);
        lemma_char_value(v3);
        if b.len() == 1 {
            assert(((b0 & 3) << 4) | (0u8 >> 4) == ((b0 & 3) << 4)) by (bit_vector);
            let vals = seq![v0, v1];
            lemma_values_prefix(e, vals, empty);
            assert(e + empty =~= e);
            assert(unpack_spec(vals + seq![]) =~= b);
        } else if b.len() == 2 {
            assert(((b1 & 15) << 2) | (0u8 >> 6) == ((b1 & 15) << 2)) by (bit_vector);
            let vals = seq![v0, v1, v2];
            lemma_values_prefix(e, vals, empty);
            assert(e + empty =~= e);
            assert(unpack_spec(vals + seq![]) =~= b);
        } else {
            let rest = b.skip(3);
            lemma_decode_encode_roundtrip(rest);
            let block = seq![b64_char(v0), b64_char(v1), b64_char(v2), b64_char(v3)];
            let vals = seq![v0, v1, v2, v3];
            assert(e == block + encode_spec(rest));
            lemma_values_prefix(block, vals, encode_spec(rest));
            let r = values_spec(encode_spec(rest))->0;
            assert((vals + r).skip(4) =~= r);
            assert(unpack_spec(vals + r) =~= seq![b0, b1, b2] + unpack_spec(r));
            assert(seq![b0, b1, b2] + rest =~= b);
        }
    }
}

} // verus!
