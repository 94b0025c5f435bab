use vstd::prelude::*;
use crate::error::LinkwiseError;

verus! {

/// A decoded CBOR data item, for the subset of CBOR that WebAuthn objects use.
#[derive(Debug)]
pub enum CborValue {
    Integer(i64),
    Bytes(Vec<u8>),
    Text(String),
    Array(Vec<CborValue>),
    Entries(Vec<(CborValue, CborValue)>),
    Bool(bool),
    Null,
}

/// Mathematical model of a CBOR data item.
pub enum CborModel {
    Integer(int),
    Bytes(Seq<u8>),
    Text(Seq<char>),
    Array(Seq<CborModel>),
    Entries(Seq<(CborModel, CborModel)>),
    Bool(bool),
    Null,
}

impl CborValue {
    /// The model of this item.
    pub open spec fn model(self) -> CborModel
        decreases self,
    {
        match self {
            CborValue::Integer(v) => CborModel::Integer(v as int),
            CborValue::Bytes(b) => CborModel::Bytes(b@),
            CborValue::Text(t) => CborModel::Text(t@),
            CborValue::Array(items) => CborModel::Array(models_of(items@)),
            CborValue::Entries(entries) => CborModel::Entries(entry_models_of(entries@)),
            CborValue::Bool(b) => CborModel::Bool(b),
            CborValue::Null => CborModel::Null,
        }
    }
}

/// Models of a sequence of items.
pub open spec fn models_of(items: Seq<CborValue>) -> Seq<CborModel>
    decreases items,
{
    if items.len() == 0 {
        seq![]
    } else {
        models_of(items.drop_last()).push(items.last().model())
    }
}

/// Models of a sequence of key/value entries.
pub open spec fn entry_models_of(entries: Seq<(CborValue, CborValue)>) -> Seq<(CborModel, CborModel)>
    decreases entries,
{
    if entries.len() == 0 {
        seq![]
    } else {
        entry_models_of(entries.drop_last()).push((entries.last().0.model(), entries.last().1.model()))
    }
}

/// Big-endian value of `s[pos..pos + n]`.
pub open spec fn be_value(s: Seq<u8>, pos: int, n: nat) -> int
    decreases n,
{
    if n == 0 {
        0
    } else {
        be_value(s, pos, (n - 1) as nat) * 256 + s[pos + n - 1] as int
    }
}

/// The length or value that follows an initial byte with the given additional
/// information, read at `pos`: `(value, position after it)`.
pub open spec fn read_len_spec(s: Seq<u8>, pos: int, additional: u8) -> Result<(int, int), LinkwiseError> {
    if additional <= 23 {
        Ok((additional as int, pos))
    } else if additional == 24 || additional == 25 || additional == 26 {
        let n: nat = if additional == 24 {
            1
        } else if additional == 25 {
            2
        } else {
            4
        };
        if pos + n <= s.len() {
            Ok((be_value(s, pos, n), pos + n))
        } else {
            Err(LinkwiseError::UnexpectedEndOfCbor)
        }
    } else {
        Err(LinkwiseError::UnsupportedCborLength)
    }
}

/// What decoding the data item that starts at `pos` gives: the item and the position
/// after it.
pub open spec fn parse_value_spec(s: Seq<u8>, pos: int) -> Result<(CborModel, int), LinkwiseError>
    decreases s.len() - pos, 0int,
{
    if pos < 0 || pos >= s.len() {
        Err(LinkwiseError::UnexpectedEndOfCbor)
    } else {
        let first = s[pos];
        let major = first >> 5;
        let additional = first & 31;
        if major == 7 {
            if additional == 20 {
                Ok((CborModel::Bool(false), pos + 1))
            } else if additional == 21 {
                Ok((CborModel::Bool(true), pos + 1))
            } else if additional == 22 {
                Ok((CborModel::Null, pos + 1))
            } else {
                Err(LinkwiseError::UnsupportedCborPrimitive)
            }
        } else if major > 5 {
            Err(LinkwiseError::UnsupportedCborValue)
        } else {
            match read_len_spec(s, pos + 1, additional) {
                Err(e) => Err(e),
                Ok((n, p)) => {
                    if major == 0 {
                        Ok((CborModel::Integer(n), p))
                    } else if major == 1 {
                        Ok((CborModel::Integer(-1 - n), p))
                    } else if major == 2 || major == 3 {
                        if p + n <= s.len() {
                            let b = s.subrange(p, p + n);
                            if major == 2 {
                                Ok((CborModel::Bytes(b), p + n))
                            } else if vstd::utf8::valid_utf8(b) {
                                Ok((CborModel::Text(vstd::utf8::decode_utf8(b)), p + n))
                            } else {
                                Err(LinkwiseError::InvalidCborText)
                            }
                        } else {
                            Err(LinkwiseError::UnexpectedEndOfCborBytes)
                        }
                    } else if major == 4 {
                        match parse_items_spec(s, p, n as nat) {
                            Err(e) => Err(e),
                            Ok((items, q)) => Ok((CborModel::Array(items), q)),
                        }
                    } else {
                        match parse_entries_spec(s, p, n as nat) {
                            Err(e) => Err(e),
                            Ok((entries, q)) => Ok((CborModel::Entries(entries), q)),
                        }
                    }
                },
            }
        }
    }
}

/// `count` consecutive data items starting at `pos`.
pub open spec fn parse_items_spec(s: Seq<u8>, pos: int, count: nat) -> Result<(Seq<CborModel>, int), LinkwiseError>
    decreases s.len() - pos, 1int, count,
{
    if count == 0 {
        Ok((seq![], pos))
    } else {
        match parse_value_spec(s, pos) {
            Err(e) => Err(e),
            Ok((v, p)) => {
                if pos < p <= s.len() {
                    match parse_items_spec(s, p, (count - 1) as nat) {
                        Err(e) => Err(e),
                        Ok((rest, q)) => Ok((seq![v] + rest, q)),
                    }
                } else {
                    Err(LinkwiseError::UnexpectedEndOfCbor)
                }
            },
        }
    }
}

/// `count` consecutive key/value pairs starting at `pos`.
pub open spec fn parse_entries_spec(s: Seq<u8>, pos: int, count: nat) -> Result<(Seq<(CborModel, CborModel)>, int), LinkwiseError>
    decreases s.len() - pos, 1int, count,
{
    if count == 0 {
        Ok((seq![], pos))
    } else {
        match parse_value_spec(s, pos) {
            Err(e) => Err(e),
            Ok((k, p)) => {
                if pos < p <= s.len() {
                    match parse_value_spec(s, p) {
                        Err(e) => Err(e),
                        Ok((v, p2)) => {
                            if p < p2 <= s.len() {
                                match parse_entries_spec(s, p2, (count - 1) as nat) {
                                    Err(e) => Err(e),
                                    Ok((rest, q)) => Ok((seq![(k, v)] + rest, q)),
                                }
                            } else {
                                Err(LinkwiseError::UnexpectedEndOfCbor)
                            }
                        },
                    }
                } else {
                    Err(LinkwiseError::UnexpectedEndOfCbor)
                }
            },
        }
    }
}

#[verifier::external_body]
/// Calls `String::from_utf8`. Claimed, as std documents it: the bytes are accepted
/// exactly when they are valid UTF-8, and the string then holds the characters they encode.
fn utf8_string(bytes: Vec<u8>) -> (r: Option<String>)
    ensures
        r is Some <==> vstd::utf8::valid_utf8(bytes@),
        r matches Some(t) ==> t@ == vstd::utf8::decode_utf8(bytes@),
{
    match String::from_utf8(bytes) {
        Ok(t) => Some(t),
        Err(_) => None,
    }
}

/// A reader of CBOR data items over a byte slice.
pub struct CborParser<'a> {
    pub bytes: &'a [u8],
    pub index: usize,
}

impl<'a> CborParser<'a> {
    /// The position lies within the bytes (the end included).
    pub open spec fn wf(&self) -> bool {
        self.index <= self.bytes@.len()
    }

    /// A reader positioned at the start of `bytes`.
    pub fn new(bytes: &'a [u8]) -> (r: Self)
        ensures
            r.bytes@ == bytes@,
            r.index == 0,
            r.wf(),
    {
        CborParser { bytes, index: 0 }
    }

    /// The next byte.
    pub fn read_u8(&mut self) -> (r: Result<u8, LinkwiseError>)
        requires
            old(self).wf(),
        ensures
            final(self).bytes@ == old(self).bytes@,
            final(self).wf(),
            old(self).index < old(self).bytes@.len() ==> r == Ok::<u8, LinkwiseError>(old(self).bytes@[old(self).index as int]) && final(self).index == old(self).index + 1,
            old(self).index >= old(self).bytes@.len() ==> r == Err::<u8, LinkwiseError>(LinkwiseError::UnexpectedEndOfCbor),
    {
        if self.index < self.bytes.len() {
            let value = self.bytes[self.index];
            self.index = self.index + 1;
            Ok(value)
        } else {
            Err(LinkwiseError::UnexpectedEndOfCbor)
        }
    }

    /// The length or value selected by `additional` (see `read_len_spec`).
    pub fn read_len(&mut self, additional: u8) -> (r: Result<u64, LinkwiseError>)
        requires
            old(self).wf(),
        ensures
            final(self).bytes@ == old(self).bytes@,
            final(self).wf(),
            r matches Ok(x) ==> x <= 0xffff_ffff,
            match read_len_spec(old(self).bytes@, old(self).index as int, additional) {
                Ok((v, p)) => r == Ok::<u64, LinkwiseError>(v as u64) && 0 <= v <= 0xffff_ffff && final(self).index == p,
                Err(e) => r == Err::<u64, LinkwiseError>(e),
            },
    {
        let ghost s = self.bytes@;
        let ghost pos = self.index as int;
        if additional <= 23 {
            Ok(additional as u64)
        } else if additional == 24 {
            let a = self.read_u8()?;
            proof {
                reveal_with_fuel(be_value, 2);
            }
            Ok(a as u64)
        } else if additional == 25 {
            let a = self.read_u8()?;
            let b = self.read_u8()?;
            proof {
                reveal_with_fuel(be_value, 3);
            }
            Ok((a as u64) * 256 + (b as u64))
        } else if additional == 26 {
            let a = self.read_u8()?;
            let b = self.read_u8()?;
            let c = self.read_u8()?;
            let d = self.read_u8()?;
            proof {
                reveal_with_fuel(be_value, 5);
            }
            Ok((a as u64) * 16777216 + (b as u64) * 65536 + (c as u64) * 256 + (d as u64))
        } else {
            Err(LinkwiseError::UnsupportedCborLength)
        }
    }

    /// The next `len` bytes.
    pub fn read_bytes(&mut self, len: usize) -> (r: Result<Vec<u8>, LinkwiseError>)
        requires
            old(self).wf(),
        ensures
            final(self).bytes@ == old(self).bytes@,
            final(self).wf(),
            old(self).index + len <= old(self).bytes@.len() ==> (r matches Ok(v) && v@ == old(self).bytes@.subrange(old(self).index as int, old(self).index + len) && final(self).index == old(self).index + len),
            old(self).index + len > old(self).bytes@.len() ==> r == Err::<Vec<u8>, LinkwiseError>(LinkwiseError::UnexpectedEndOfCborBytes),
    {
        if len > self.bytes.len() - self.index {
            return Err(LinkwiseError::UnexpectedEndOfCborBytes);
        }
        let end = self.index + len;
        let mut out: Vec<u8> = Vec::new();
        let mut i = self.index;
        while i < end
            invariant
                self.index <= i <= end <= self.bytes@.len(),
                out@ == self.bytes@.subrange(self.index as int, i as int),
            decreases end - i,
        {
            out.push(self.bytes[i]);
            proof {
                assert(self.bytes@.subrange(self.index as int, i + 1) =~= self.bytes@.subrange(self.index as int, i as int).push(self.bytes@[i as int]));
            }
            i += 1;
        }
        self.index = end;
        Ok(out)
    }

    /// Decodes the data item at the current position and moves past it.
    pub fn parse_value(&mut self) -> (r: Result<CborValue, LinkwiseError>)
        requires
            old(self).wf(),
        ensures
            final(self).bytes@ == old(self).bytes@,
            final(self).wf(),
            match parse_value_spec(old(self).bytes@, old(self).index as int) {
                Ok((m, p)) => r matches Ok(v) && v.model() == m && final(self).index == p && p > old(self).index,
                Err(e) => r matches Err(x) && x == e,
            },
        decreases old(self).bytes@.len() - old(self).index,
    {
        let ghost s = self.bytes@;
        let ghost pos = self.index as int;
        let first = self.read_u8()?;
        let major = first >> 5;
        let additional = first & 0x1f;
        proof {
            assert(first >> 5 <= 7) by (bit_vector);
            assert(first & 0x1f <= 31) by (bit_vector);
        }
        if major == 7 {
            if additional == 20 {
                return Ok(CborValue::Bool(false));
            } else if additional == 21 {
                return Ok(CborValue::Bool(true));
            } else if additional == 22 {
                return Ok(CborValue::Null);
            } else {
                return Err(LinkwiseError::UnsupportedCborPrimitive);
            }
        }
        if major > 5 {
            return Err(LinkwiseError::UnsupportedCborValue);
        }
        let n = self.read_len(additional)?;
        let ghost p = self.index as int;
        if major == 0 {
            return Ok(CborValue::Integer(n as i64));
        }
        if major == 1 {
            return Ok(CborValue::Integer(-1 - (n as i64)));
        }
        if major == 2 {
            let b = self.read_bytes(n as usize)?;
            return Ok(CborValue::Bytes(b));
        }
        if major == 3 {
            let b = self.read_bytes(n as usize)?;
            match utf8_string(b) {
                Some(t) => {
                    return Ok(CborValue::Text(t));
                },
                None => {
                    return Err(LinkwiseError::InvalidCborText);
                },
            }
        }
        if major == 4 {
            let mut items: Vec<CborValue> = Vec::new();
            let mut k: u64 = 0;
            while k < n
                invariant
                    self.bytes@ == s,
                    s == old(self).bytes@,
                    pos == old(self).index,
                    0 <= pos < p <= self.index <= s.len(),
                    s[pos] == first,
                    major == first >> 5,
                    additional == first & 0x1f,
                    major == 4,
                    k <= n,
                    read_len_spec(s, pos + 1, additional) == Ok::<(int, int), LinkwiseError>((n as int, p)),
                    match parse_items_spec(s, self.index as int, (n - k) as nat) {
                        Ok((rest, q)) => parse_items_spec(s, p, n as nat) == Ok::<(Seq<CborModel>, int), LinkwiseError>((models_of(items@) + rest, q)),
                        Err(e) => parse_items_spec(s, p, n as nat) == Err::<(Seq<CborModel>, int), LinkwiseError>(e),
                    },
                decreases n - k,
            {
                let ghost before = self.index as int;
                let ghost items_before = items@;
                let v = match self.parse_value() {
                    Ok(v) => v,
                    Err(e) => {
                        proof {
                            assert(parse_items_spec(s, before, (n - k) as nat) == Err::<(Seq<CborModel>, int), LinkwiseError>(e));
                            assert(parse_items_spec(s, p, n as nat) == Err::<(Seq<CborModel>, int), LinkwiseError>(e));
                        }
                        return Err(e);
                    },
                };
                proof {
                    assert(models_of(items_before.push(v)) == models_of(items_before).push(v.model())) by {
                        assert(items_before.push(v).drop_last() =~= items_before);
                    }
                    match parse_items_spec(s, self.index as int, (n - k - 1) as nat) {
                        Ok((rest, q)) => {
                            assert(models_of(items_before) + (seq![v.model()] + rest) =~= models_of(items_before).push(v.model()) + rest);
                        },
                        Err(e) => {},
                    }
                }
                items.push(v);
                k = k + 1;
            }
            proof {
                assert(models_of(items@) + Seq::<CborModel>::empty() =~= models_of(items@));
            }
            return Ok(CborValue::Array(items));
        }
        let mut entries: Vec<(CborValue, CborValue)> = Vec::new();
        let mut k: u64 = 0;
        while k < n
            invariant
                self.bytes@ == s,
                s == old(self).bytes@,
                pos == old(self).index,
                0 <= pos < p <= self.index <= s.len(),
                s[pos] == first,
                major == first >> 5,
                additional == first & 0x1f,
                k <= n,
                major == 5,
                read_len_spec(s, pos + 1, additional) == Ok::<(int, int), LinkwiseError>((n as int, p)),
                match parse_entries_spec(s, self.index as int, (n - k) as nat) {
                    Ok((rest, q)) => parse_entries_spec(s, p, n as nat) == Ok::<(Seq<(CborModel, CborModel)>, int), LinkwiseError>((entry_models_of(entries@) + rest, q)),
                    Err(e) => parse_entries_spec(s, p, n as nat) == Err::<(Seq<(CborModel, CborModel)>, int), LinkwiseError>(e),
                },
            decreases n - k,
        {
            let ghost entries_before = entries@;
            let ghost before = self.index as int;
            let key = match self.parse_value() {
                Ok(v) => v,
                Err(e) => {
                    proof {
                        assert(parse_entries_spec(s, before, (n - k) as nat) == Err::<(Seq<(CborModel, CborModel)>, int), LinkwiseError>(e));
                        assert(parse_entries_spec(s, p, n as nat) == Err::<(Seq<(CborModel, CborModel)>, int), LinkwiseError>(e));
                    }
                    return Err(e);
                },
            };
            let value = match self.parse_value() {
                Ok(v) => v,
                Err(e) => {
                    proof {
                        assert(parse_entries_spec(s, before, (n - k) as nat) == Err::<(Seq<(CborModel, CborModel)>, int), LinkwiseError>(e));
                        assert(parse_entries_spec(s, p, n as nat) == Err::<(Seq<(CborModel, CborModel)>, int), LinkwiseError>(e));
                    }
                    return Err(e);
                },
            };
            let ghost pair = (key, value);
            proof {
                assert(entry_models_of(entries_before.push(pair)) == entry_models_of(entries_before).push((key.model(), value.model()))) by {
                    assert(entries_before.push(pair).drop_last() =~= entries_before);
                }
                match parse_entries_spec(s, self.index as int, (n - k - 1) as nat) {
                    Ok((rest, q)) => {
                        assert(entry_models_of(entries_before) + (seq![(key.model(), value.model())] + rest) =~= entry_models_of(entries_before).push((key.model(), value.model())) + rest);
                    },
                    Err(e) => {},
                }
            }
            entries.push((key, value));
            k = k + 1;
        }
        proof {
            assert(entry_models_of(entries@) + Seq::<(CborModel, CborModel)>::empty() =~= entry_models_of(entries@));
        }
        Ok(CborValue::Entries(entries))
    }
}

/// The integer of an `Integer` item.
pub fn cbor_integer(value: &CborValue) -> (r: Option<i64>)
    ensures
        r == match value {
            CborValue::Integer(v) => Some(*v),
            _ => None::<i64>,
        },
{
    match value {
        CborValue::Integer(v) => Some(*v),
        _ => None,
    }
}

/// A copy of the bytes of a `Bytes` item.
pub fn cbor_bytes(value: &CborValue) -> (r: Option<Vec<u8>>)
    ensures
        match value {
            CborValue::Bytes(b) => r matches Some(x) && x@ == b@,
            _ => r is None,
        },
{
    match value {
        CborValue::Bytes(b) => Some(b.clone()),
        _ => None,
    }
}

} // verus!
