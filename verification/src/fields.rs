//! Tagged fields: the building blocks of the wire frames.
//!
//! A frame is a fixed run of fields.  A bytes field is a key byte, the length
//! of the data as a varint, then the data; an integer field is a key byte then
//! the value as a varint.  Each parser here accepts exactly the output of the
//! matching encoder, so frames built from them decode unambiguously and any
//! corruption of the structure is caught.

use vstd::prelude::*;
use crate::varint::{varint_bytes, parse_varint, lemma_parse_varint_complete,
    lemma_parse_varint_sound, encode_varint, decode_varint};

verus! {

/// Restating a subrange of a subrange as one subrange of the base sequence.
pub proof fn lemma_subrange_again(s: Seq<u8>, i: int, j: int, a: int, b: int)
    requires
        0 <= i <= j <= s.len(),
        0 <= a <= b <= j - i,
    ensures
        s.subrange(i + a, i + b) == s.subrange(i, j).subrange(a, b),
{
    assert(s.subrange(i + a, i + b) =~= s.subrange(i, j).subrange(a, b));
}

/// A bytes field: key byte, data length as a varint, then the data.
pub open spec fn bytes_field(key: u8, data: Seq<u8>) -> Seq<u8> {
    seq![key] + varint_bytes(data.len() as u64) + data
}

/// An unsigned-integer field: key byte, then the value as a varint.
pub open spec fn uint_field(key: u8, v: u64) -> Seq<u8> {
    seq![key] + varint_bytes(v)
}

/// Parse a bytes field with key `key` at offset `i`: the data and the offset
/// just past the field, or `None` if no such field starts there.
pub open spec fn parse_bytes_field(s: Seq<u8>, i: int, key: u8) -> Option<(Seq<u8>, int)> {
    if i < 0 || i >= s.len() || s[i] != key {
        None
    } else {
        match parse_varint(s, i + 1) {
            None => None,
            Some((len, j)) => {
                if j + len > s.len() {
                    None
                } else {
                    Some((s.subrange(j, j + len), j + len))
                }
            },
        }
    }
}

/// Parse an unsigned-integer field with key `key` at offset `i`.
pub open spec fn parse_uint_field(s: Seq<u8>, i: int, key: u8) -> Option<(u64, int)> {
    if i < 0 || i >= s.len() || s[i] != key {
        None
    } else {
        parse_varint(s, i + 1)
    }
}

/// Wherever an encoded bytes field sits in a stream, parsing at its start
/// yields its data and stops right after it.
pub proof fn lemma_parse_bytes_field_complete(key: u8, data: Seq<u8>, s: Seq<u8>, i: int)
    requires
        0 <= i,
        data.len() <= u64::MAX,
        i + bytes_field(key, data).len() <= s.len(),
        s.subrange(i, i + bytes_field(key, data).len() as int) == bytes_field(key, data),
    ensures
        parse_bytes_field(s, i, key) == Some((data, i + bytes_field(key, data).len() as int)),
{
    let w = bytes_field(key, data);
    let lv = varint_bytes(data.len() as u64);
    let e = i + w.len() as int;
    assert(s[i] == s.subrange(i, e)[0]);
    assert(s[i] == key);
    lemma_subrange_again(s, i, e, 1, 1 + lv.len() as int);
    assert(w.subrange(1, 1 + lv.len() as int) =~= lv);
    lemma_parse_varint_complete(data.len() as u64, s, i + 1);
    let j = i + 1 + lv.len() as int;
    assert(parse_varint(s, i + 1) == Some((data.len() as u64, j)));
    lemma_subrange_again(s, i, e, 1 + lv.len() as int, w.len() as int);
    assert(w.subrange(1 + lv.len() as int, w.len() as int) =~= data);
    assert(s.subrange(j, j + data.len() as int) == data);
}

/// A successful bytes-field parse reads back exactly the encoding of the data
/// it returns.
pub proof fn lemma_parse_bytes_field_sound(s: Seq<u8>, i: int, key: u8)
    requires
        0 <= i,
        parse_bytes_field(s, i, key) is Some,
    ensures
        ({
            let (data, j) = parse_bytes_field(s, i, key)->Some_0;
            &&& i < j <= s.len()
            &&& data.len() <= u64::MAX
            &&& j - i == bytes_field(key, data).len()
            &&& s.subrange(i, j) == bytes_field(key, data)
        }),
{
    let (data, j) = parse_bytes_field(s, i, key)->Some_0;
    lemma_parse_varint_sound(s, i + 1);
    let (len, j0) = parse_varint(s, i + 1)->Some_0;
    assert(data.len() == len);
    assert(s.subrange(i + 1, j0) == varint_bytes(len));
    assert(s.subrange(i, j) =~= seq![s[i]] + s.subrange(i + 1, j0) + s.subrange(j0, j));
}

/// Wherever an encoded integer field sits in a stream, parsing at its start
/// yields its value and stops right after it.
pub proof fn lemma_parse_uint_field_complete(key: u8, v: u64, s: Seq<u8>, i: int)
    requires
        0 <= i,
        i + uint_field(key, v).len() <= s.len(),
        s.subrange(i, i + uint_field(key, v).len() as int) == uint_field(key, v),
    ensures
        parse_uint_field(s, i, key) == Some((v, i + uint_field(key, v).len() as int)),
{
    let w = uint_field(key, v);
    let lv = varint_bytes(v);
    let e = i + w.len() as int;
    assert(s[i] == s.subrange(i, e)[0]);
    assert(s[i] == key);
    lemma_subrange_again(s, i, e, 1, w.len() as int);
    assert(w.subrange(1, w.len() as int) =~= lv);
    lemma_parse_varint_complete(v, s, i + 1);
}

/// A successful integer-field parse reads back exactly the encoding of the
/// value it returns.
pub proof fn lemma_parse_uint_field_sound(s: Seq<u8>, i: int, key: u8)
    requires
        0 <= i,
        parse_uint_field(s, i, key) is Some,
    ensures
        ({
            let (v, j) = parse_uint_field(s, i, key)->Some_0;
            &&& i < j <= s.len()
            &&& j - i == uint_field(key, v).len()
            &&& s.subrange(i, j) == uint_field(key, v)
        }),
{
    let (v, j) = parse_uint_field(s, i, key)->Some_0;
    lemma_parse_varint_sound(s, i + 1);
    assert(s.subrange(i, j) =~= seq![s[i]] + s.subrange(i + 1, j));
}

/// A bytes field parsed inside a prefix of `s` parses the same way in `s`.
pub proof fn lemma_parse_bytes_field_local(s: Seq<u8>, t: Seq<u8>, i: int, key: u8)
    requires
        0 <= i,
        t.len() <= s.len(),
        t == s.subrange(0, t.len() as int),
        parse_bytes_field(t, i, key) is Some,
    ensures
        parse_bytes_field(s, i, key) == parse_bytes_field(t, i, key),
{
    let (data, j) = parse_bytes_field(t, i, key)->Some_0;
    lemma_parse_bytes_field_sound(t, i, key);
    lemma_subrange_again(s, 0, t.len() as int, i, j);
    assert(s.subrange(i, j) == bytes_field(key, data));
    lemma_parse_bytes_field_complete(key, data, s, i);
}

/// An integer field parsed inside a prefix of `s` parses the same way in `s`.
pub proof fn lemma_parse_uint_field_local(s: Seq<u8>, t: Seq<u8>, i: int, key: u8)
    requires
        0 <= i,
        t.len() <= s.len(),
        t == s.subrange(0, t.len() as int),
        parse_uint_field(t, i, key) is Some,
    ensures
        parse_uint_field(s, i, key) == parse_uint_field(t, i, key),
{
    let (v, j) = parse_uint_field(t, i, key)->Some_0;
    lemma_parse_uint_field_sound(t, i, key);
    lemma_subrange_again(s, 0, t.len() as int, i, j);
    assert(s.subrange(i, j) == uint_field(key, v));
    lemma_parse_uint_field_complete(key, v, s, i);
}

/// Append the bytes of `data` to `out`.
pub fn push_bytes(out: &mut Vec<u8>, data: &Vec<u8>)
    ensures
        final(out)@ == old(out)@ + data@,
{
    let mut k: usize = 0;
    while k < data.len()
        invariant
            k <= data.len(),
            out@ == old(out)@ + data@.subrange(0, k as int),
        decreases data.len() - k,
    {
        out.push(data[k]);
        assert(out@ =~= old(out)@ + data@.subrange(0, k + 1 as int));
        k = k + 1;
    }
    assert(data@.subrange(0, data@.len() as int) =~= data@);
}

/// Append a bytes field to `out`.
pub fn write_bytes_field(out: &mut Vec<u8>, key: u8, data: &Vec<u8>)
    ensures
        final(out)@ == old(out)@ + bytes_field(key, data@),
{
    out.push(key);
    encode_varint(out, data.len() as u64);
    push_bytes(out, data);
    assert(final(out)@ =~= old(out)@ + bytes_field(key, data@));
}

/// Append an unsigned-integer field to `out`.
pub fn write_uint_field(out: &mut Vec<u8>, key: u8, v: u64)
    ensures
        final(out)@ == old(out)@ + uint_field(key, v),
{
    out.push(key);
    encode_varint(out, v);
    assert(final(out)@ =~= old(out)@ + uint_field(key, v));
}

/// Read a bytes field with key `key` at offset `i`, mirroring
/// `parse_bytes_field`.
pub fn read_bytes_field(s: &Vec<u8>, i: usize, key: u8) -> (r: Option<(Vec<u8>, usize)>)
    ensures
        match r {
            Some((data, j)) => parse_bytes_field(s@, i as int, key) == Some((data@, j as int)),
            None => parse_bytes_field(s@, i as int, key) is None,
        },
{
    if i >= s.len() {
        return None;
    }
    if s[i] != key {
        return None;
    }
    match decode_varint(s, i + 1) {
        None => None,
        Some((len, j)) => {
            proof {
                lemma_parse_varint_sound(s@, i + 1);
            }
            if len > (s.len() - j) as u64 {
                None
            } else {
                let l: usize = len as usize;
                let data = vstd::slice::slice_to_vec(
                    vstd::slice::slice_subrange(s.as_slice(), j, j + l),
                );
                Some((data, j + l))
            }
        },
    }
}

/// Read an unsigned-integer field with key `key` at offset `i`, mirroring
/// `parse_uint_field`.
pub fn read_uint_field(s: &Vec<u8>, i: usize, key: u8) -> (r: Option<(u64, usize)>)
    ensures
        match r {
            Some((v, j)) => parse_uint_field(s@, i as int, key) == Some((v, j as int)),
            None => parse_uint_field(s@, i as int, key) is None,
        },
{
    if i >= s.len() {
        return None;
    }
    if s[i] != key {
        return None;
    }
    match decode_varint(s, i + 1) {
        None => None,
        Some((v, j)) => {
            proof {
                lemma_parse_varint_sound(s@, i + 1);
            }
            Some((v, j))
        },
    }
}

} // verus!
