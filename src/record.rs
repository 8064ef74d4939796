//! On-disk records: one mutation each, self-describing, laid end to end in the log.
//!
//! A record is a tag byte followed by length-prefixed fields. A field is the
//! UTF-8 encoding of a string, preceded by its byte length as eight
//! little-endian bytes. A `Put` record holds the key and the value, a `Remove`
//! record the key alone.
use vstd::bytes::{
    lemma_auto_spec_u64_to_from_le_bytes, spec_u64_from_le_bytes, spec_u64_to_le_bytes,
    u64_from_le_bytes, u64_to_le_bytes,
};
use vstd::prelude::*;
use vstd::slice::{slice_subrange, slice_to_vec};
use vstd::utf8::{
    decode_utf8, encode_utf8, encode_utf8_decode_utf8, encode_utf8_valid_utf8, valid_utf8,
};

verus! {

broadcast use {encode_utf8_decode_utf8, encode_utf8_valid_utf8};

/// Tag byte of a `Put` record.
pub const PUT_TAG: u8 = 0;

/// Tag byte of a `Remove` record.
pub const REMOVE_TAG: u8 = 1;

/// Number of bytes of a field's length prefix.
pub const LEN_BYTES: usize = 8;

/// What a record says, over abstract strings.
pub ghost enum RecordModel {
    Put { key: Seq<char>, val: Seq<char> },
    Remove { key: Seq<char> },
}

impl RecordModel {
    pub open spec fn key(self) -> Seq<char> {
        match self {
            RecordModel::Put { key, .. } => key,
            RecordModel::Remove { key } => key,
        }
    }
}

/// A mutation as it is written to the log.
#[derive(Debug, PartialEq, Eq)]
pub enum Action {
    Put { key: String, val: String },
    Remove { key: String },
}

impl View for Action {
    type V = RecordModel;

    open spec fn view(&self) -> RecordModel {
        match self {
            Action::Put { key, val } => RecordModel::Put { key: key@, val: val@ },
            Action::Remove { key } => RecordModel::Remove { key: key@ },
        }
    }
}

/// The bytes of one field: the length of the string's UTF-8 encoding, then that encoding.
pub open spec fn field_bytes(c: Seq<char>) -> Seq<u8> {
    spec_u64_to_le_bytes(encode_utf8(c).len() as u64) + encode_utf8(c)
}

/// The bytes that encode a record.
pub open spec fn record_bytes(r: RecordModel) -> Seq<u8> {
    match r {
        RecordModel::Put { key, val } => seq![PUT_TAG] + field_bytes(key) + field_bytes(val),
        RecordModel::Remove { key } => seq![REMOVE_TAG] + field_bytes(key),
    }
}

/// Each string of the record has an encoding whose length fits the length prefix.
pub open spec fn encodable(r: RecordModel) -> bool {
    match r {
        RecordModel::Put { key, val } => encode_utf8(key).len() <= u64::MAX && encode_utf8(
            val,
        ).len() <= u64::MAX,
        RecordModel::Remove { key } => encode_utf8(key).len() <= u64::MAX,
    }
}

/// Outcome of reading one field.
pub ghost enum FieldParse {
    Field { chars: Seq<char>, end: int },
    Truncated,
    Invalid,
}

/// Reads the field that starts at offset `at` of `s`.
/// `Truncated`: `s` ends before the field does. `Invalid`: its bytes are not UTF-8.
pub open spec fn parse_field(s: Seq<u8>, at: int) -> FieldParse {
    if s.len() < at + LEN_BYTES {
        FieldParse::Truncated
    } else {
        let n = spec_u64_from_le_bytes(s.subrange(at, at + LEN_BYTES)) as int;
        if s.len() < at + LEN_BYTES + n {
            FieldParse::Truncated
        } else {
            let b = s.subrange(at + LEN_BYTES, at + LEN_BYTES + n);
            if valid_utf8(b) {
                FieldParse::Field { chars: decode_utf8(b), end: at + LEN_BYTES + n }
            } else {
                FieldParse::Invalid
            }
        }
    }
}

/// Outcome of reading one record at the start of a byte sequence.
pub ghost enum Parsed {
    /// A whole record, `len` bytes long.
    Record { rec: RecordModel, len: nat },
    /// The bytes end before a record does (an empty sequence included).
    Truncated,
    /// The bytes present cannot start a record.
    Invalid,
}

/// Reads the record at the start of `s`.
pub open spec fn parse_record(s: Seq<u8>) -> Parsed {
    if s.len() == 0 {
        Parsed::Truncated
    } else if s[0] == PUT_TAG {
        match parse_field(s, 1) {
            FieldParse::Field { chars: key, end } => match parse_field(s, end) {
                FieldParse::Field { chars: val, end: last } => Parsed::Record {
                    rec: RecordModel::Put { key, val },
                    len: last as nat,
                },
                FieldParse::Truncated => Parsed::Truncated,
                FieldParse::Invalid => Parsed::Invalid,
            },
            FieldParse::Truncated => Parsed::Truncated,
            FieldParse::Invalid => Parsed::Invalid,
        }
    } else if s[0] == REMOVE_TAG {
        match parse_field(s, 1) {
            FieldParse::Field { chars: key, end } => Parsed::Record {
                rec: RecordModel::Remove { key },
                len: end as nat,
            },
            FieldParse::Truncated => Parsed::Truncated,
            FieldParse::Invalid => Parsed::Invalid,
        }
    } else {
        Parsed::Invalid
    }
}

/// A field read in full ends after its start and within the bytes.
pub proof fn lemma_parse_field_bounds(s: Seq<u8>, at: int)
    requires
        0 <= at,
    ensures
        parse_field(s, at) matches FieldParse::Field { end, .. } ==> at + LEN_BYTES <= end
            <= s.len(),
{
}

/// A record read in full is not empty and lies within the bytes.
pub proof fn lemma_parse_record_bounds(s: Seq<u8>)
    ensures
        parse_record(s) matches Parsed::Record { len, .. } ==> 0 < len <= s.len(),
{
    lemma_parse_field_bounds(s, 1);
    if let FieldParse::Field { end, .. } = parse_field(s, 1) {
        lemma_parse_field_bounds(s, end);
    }
}

/// Reading a field looks only at the bytes up to the field's end.
proof fn lemma_parse_field_prefix(s: Seq<u8>, t: Seq<u8>, at: int, n: int)
    requires
        0 <= at,
        parse_field(s, at) matches FieldParse::Field { end, .. } && end <= n,
        n <= s.len(),
        n <= t.len(),
        t.subrange(0, n) == s.subrange(0, n),
    ensures
        parse_field(t, at) == parse_field(s, at),
{
    let k = spec_u64_from_le_bytes(s.subrange(at, at + LEN_BYTES)) as int;
    let lo = at + LEN_BYTES;
    assert(t.subrange(at, lo) =~= t.subrange(0, n).subrange(at, lo));
    assert(s.subrange(at, lo) =~= s.subrange(0, n).subrange(at, lo));
    assert(t.subrange(lo, lo + k) =~= t.subrange(0, n).subrange(lo, lo + k));
    assert(s.subrange(lo, lo + k) =~= s.subrange(0, n).subrange(lo, lo + k));
}

/// Reading a record looks only at the record's own bytes: any sequence that
/// starts with the same bytes reads the same record.
pub proof fn lemma_parse_record_prefix(s: Seq<u8>, t: Seq<u8>)
    requires
        parse_record(s) matches Parsed::Record { len, .. } && len <= t.len() && t.subrange(
            0,
            len as int,
        ) == s.subrange(0, len as int),
    ensures
        parse_record(t) == parse_record(s),
{
    lemma_parse_record_bounds(s);
    let n = parse_record(s)->len as int;
    assert(t[0] == s[0]) by {
        assert(t.subrange(0, n)[0] == s.subrange(0, n)[0]);
    }
    lemma_parse_field_bounds(s, 1);
    if let FieldParse::Field { end, .. } = parse_field(s, 1) {
        lemma_parse_field_bounds(s, end);
        lemma_parse_field_prefix(s, t, 1, n);
        if s[0] == PUT_TAG {
            lemma_parse_field_prefix(s, t, end, n);
        }
    }
}

/// Reading a field from its own encoding followed by anything gives the string back.
proof fn lemma_field_round_trip(pre: Seq<u8>, c: Seq<char>, rest: Seq<u8>)
    requires
        encode_utf8(c).len() <= u64::MAX,
    ensures
        parse_field(pre + field_bytes(c) + rest, pre.len() as int) == (FieldParse::Field {
            chars: c,
            end: (pre.len() + field_bytes(c).len()) as int,
        }),
{
    lemma_auto_spec_u64_to_from_le_bytes();
    let b = encode_utf8(c);
    let lb = spec_u64_to_le_bytes(b.len() as u64);
    let s = pre + field_bytes(c) + rest;
    let at = pre.len() as int;
    assert(s.subrange(at, at + LEN_BYTES) =~= lb);
    assert(s.subrange(at + LEN_BYTES, at + LEN_BYTES + b.len()) =~= b);
}

/// Reading a record from its own encoding followed by anything gives the record back,
/// with the length of its encoding.
pub proof fn lemma_record_round_trip(r: RecordModel, rest: Seq<u8>)
    requires
        encodable(r),
    ensures
        parse_record(record_bytes(r) + rest) == (Parsed::Record {
            rec: r,
            len: record_bytes(r).len(),
        }),
{
    match r {
        RecordModel::Put { key, val } => {
            let tag = seq![PUT_TAG];
            let s = record_bytes(r) + rest;
            lemma_field_round_trip(tag, key, field_bytes(val) + rest);
            assert(tag + field_bytes(key) + (field_bytes(val) + rest) =~= s);
            lemma_field_round_trip(tag + field_bytes(key), val, rest);
            assert(s[0] == PUT_TAG);
        },
        RecordModel::Remove { key } => {
            let tag = seq![REMOVE_TAG];
            let s = record_bytes(r) + rest;
            lemma_field_round_trip(tag, key, rest);
            assert(s[0] == REMOVE_TAG);
        },
    }
}

/// Relies on std::str::from_utf8: it accepts exactly the well-formed UTF-8 byte
/// strings, and the string it returns is made of those bytes.
#[verifier::external_body]
fn string_from_utf8(b: &[u8]) -> (r: Option<String>)
    ensures
        r is Some <==> valid_utf8(b@),
        r matches Some(s) ==> encode_utf8(s@) == b@,
{
    match std::str::from_utf8(b) {
        Ok(s) => Some(s.to_string()),
        Err(_) => None,
    }
}

/// Outcome of reading one field, as executable values.
#[derive(Debug, PartialEq, Eq)]
pub enum FieldDecoded {
    Field(String, usize),
    Truncated,
    Invalid,
}

impl View for FieldDecoded {
    type V = FieldParse;

    open spec fn view(&self) -> FieldParse {
        match self {
            FieldDecoded::Field(s, end) => FieldParse::Field { chars: s@, end: *end as int },
            FieldDecoded::Truncated => FieldParse::Truncated,
            FieldDecoded::Invalid => FieldParse::Invalid,
        }
    }
}

/// Outcome of reading one record, as executable values.
#[derive(Debug, PartialEq, Eq)]
pub enum Decoded {
    Record(Action, usize),
    Truncated,
    Invalid,
}

impl View for Decoded {
    type V = Parsed;

    open spec fn view(&self) -> Parsed {
        match self {
            Decoded::Record(a, len) => Parsed::Record { rec: a@, len: *len as nat },
            Decoded::Truncated => Parsed::Truncated,
            Decoded::Invalid => Parsed::Invalid,
        }
    }
}

/// Reads the field that starts at offset `at` of `buf`.
pub fn decode_field(buf: &[u8], at: usize) -> (r: FieldDecoded)
    requires
        at <= buf@.len(),
    ensures
        r@ == parse_field(buf@, at as int),
{
    if buf.len() - at < LEN_BYTES {
        return FieldDecoded::Truncated;
    }
    let n = u64_from_le_bytes(slice_subrange(buf, at, at + LEN_BYTES));
    let room = buf.len() - at - LEN_BYTES;
    if (room as u64) < n {
        return FieldDecoded::Truncated;
    }
    let n = n as usize;
    let start = at + LEN_BYTES;
    match string_from_utf8(slice_subrange(buf, start, start + n)) {
        Some(s) => FieldDecoded::Field(s, start + n),
        None => FieldDecoded::Invalid,
    }
}

/// Reads the record at the start of `buf`.
pub fn decode(buf: &[u8]) -> (r: Decoded)
    ensures
        r@ == parse_record(buf@),
{
    if buf.len() == 0 {
        return Decoded::Truncated;
    }
    let tag = buf[0];
    if tag != PUT_TAG && tag != REMOVE_TAG {
        return Decoded::Invalid;
    }
    proof {
        lemma_parse_field_bounds(buf@, 1);
    }
    let (key, end) = match decode_field(buf, 1) {
        FieldDecoded::Field(key, end) => (key, end),
        FieldDecoded::Truncated => return Decoded::Truncated,
        FieldDecoded::Invalid => return Decoded::Invalid,
    };
    if tag == REMOVE_TAG {
        return Decoded::Record(Action::Remove { key }, end);
    }
    match decode_field(buf, end) {
        FieldDecoded::Field(val, last) => Decoded::Record(Action::Put { key, val }, last),
        FieldDecoded::Truncated => Decoded::Truncated,
        FieldDecoded::Invalid => Decoded::Invalid,
    }
}

/// Appends one field holding `s` to `out`.
fn push_field(out: &mut Vec<u8>, s: &String)
    ensures
        final(out)@ == old(out)@ + field_bytes(s@),
        encode_utf8(s@).len() <= u64::MAX,
{
    let bytes = s.as_str().as_bytes();
    let mut len = u64_to_le_bytes(bytes.len() as u64);
    let mut body = slice_to_vec(bytes);
    out.append(&mut len);
    out.append(&mut body);
    assert(out@ =~= old(out)@ + field_bytes(s@));
}

impl Action {
    /// The key the action is about.
    pub fn key(&self) -> (r: &String)
        ensures
            r@ == self@.key(),
    {
        match self {
            Action::Put { key, .. } => key,
            Action::Remove { key } => key,
        }
    }

    /// The bytes that stand for this action in the log.
    pub fn encode(&self) -> (r: Vec<u8>)
        ensures
            r@ == record_bytes(self@),
            encodable(self@),
    {
        let mut out: Vec<u8> = Vec::new();
        match self {
            Action::Put { key, val } => {
                out.push(PUT_TAG);
                push_field(&mut out, key);
                push_field(&mut out, val);
            },
            Action::Remove { key } => {
                out.push(REMOVE_TAG);
                push_field(&mut out, key);
            },
        }
        out
    }
}

} // verus!
