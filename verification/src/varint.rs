//! Base-128 variable-length integers: the primitive that the wire codec's
//! length-delimited frames are built from.
//!
//! An integer is encoded little-endian in groups of seven bits; every byte but
//! the last has its high bit set.  The parser accepts exactly the minimal
//! encoding of each value, so every value has one encoding and every encoding
//! one value.

use vstd::prelude::*;

verus! {

/// The encoding of `n`: seven bits per byte, least significant group first,
/// the high bit marking continuation.
pub open spec fn varint_bytes(n: u64) -> Seq<u8>
    decreases n,
{
    if n < 128 {
        seq![n as u8]
    } else {
        seq![(n % 128 + 128) as u8] + varint_bytes(n / 128)
    }
}

/// Parse a varint at offset `i` of `s`.  Returns the value and the offset just
/// past it, or `None` if no minimal varint starts at `i`.
///
/// A continuation byte followed by an encoding of zero is rejected (the value
/// would also be encoded by a shorter string), as is a value above `u64::MAX`.
pub open spec fn parse_varint(s: Seq<u8>, i: int) -> Option<(u64, int)>
    decreases s.len() - i,
{
    if i < 0 || i >= s.len() {
        None
    } else if s[i] < 128 {
        Some((s[i] as u64, i + 1))
    } else {
        match parse_varint(s, i + 1) {
            None => None,
            Some((hi, j)) => {
                let v = hi * 128 + (s[i] - 128);
                if hi == 0 || v > u64::MAX {
                    None
                } else {
                    Some((v as u64, j))
                }
            },
        }
    }
}

/// Parsing inverts encoding: wherever `varint_bytes(n)` sits in a stream, the
/// parser reads back `n` and stops right after it.
pub proof fn lemma_parse_varint_complete(n: u64, s: Seq<u8>, i: int)
    requires
        0 <= i,
        i + varint_bytes(n).len() <= s.len(),
        s.subrange(i, i + varint_bytes(n).len() as int) == varint_bytes(n),
    ensures
        parse_varint(s, i) == Some((n, i + varint_bytes(n).len() as int)),
    decreases n,
{
    let w = varint_bytes(n);
    assert(s[i] == s.subrange(i, i + w.len() as int)[0]);
    if n < 128 {
        assert(s[i] == n as u8);
    } else {
        let tail = varint_bytes(n / 128);
        assert(s[i] == (n % 128 + 128) as u8);
        assert(s.subrange(i + 1, i + 1 + tail.len() as int) =~= w.subrange(
            1,
            w.len() as int,
        )) by {
            assert(forall|k: int|
                0 <= k < tail.len() ==> #[trigger] s.subrange(i + 1, i + 1 + tail.len() as int)[k]
                    == s[i + 1 + k] == s.subrange(i, i + w.len() as int)[1 + k]);
        }
        assert(w.subrange(1, w.len() as int) =~= tail);
        lemma_parse_varint_complete(n / 128, s, i + 1);
        let hi = n / 128;
        assert(hi >= 1);
        assert(hi * 128 + (s[i] - 128) == n) by {
            assert(s[i] - 128 == n % 128);
            assert(n / 128 * 128 + n % 128 == n) by (nonlinear_arith);
        }
    }
}

/// A successful parse reads back exactly the encoding of the value it returns.
pub proof fn lemma_parse_varint_sound(s: Seq<u8>, i: int)
    requires
        0 <= i,
        parse_varint(s, i) is Some,
    ensures
        ({
            let (n, j) = parse_varint(s, i)->Some_0;
            &&& i < j <= s.len()
            &&& j - i == varint_bytes(n).len()
            &&& s.subrange(i, j) == varint_bytes(n)
        }),
    decreases s.len() - i,
{
    let (n, j) = parse_varint(s, i)->Some_0;
    if s[i] < 128 {
        assert(s.subrange(i, i + 1) =~= varint_bytes(n));
    } else {
        lemma_parse_varint_sound(s, i + 1);
        let (hi, j2) = parse_varint(s, i + 1)->Some_0;
        assert(n == hi * 128 + (s[i] - 128));
        assert(hi >= 1);
        assert(n >= 128 && n / 128 == hi && n % 128 == s[i] - 128) by {
            assert(hi * 128 + (s[i] - 128) >= 128 && (hi * 128 + (s[i] - 128)) / 128 == hi && (hi
                * 128 + (s[i] - 128)) % 128 == s[i] - 128) by (nonlinear_arith)
                requires
                    hi >= 1,
                    128 <= s[i] < 256,
            ;
        }
        assert(s.subrange(i, j) =~= seq![s[i]] + s.subrange(i + 1, j2));
        assert(varint_bytes(n) == seq![(n % 128 + 128) as u8] + varint_bytes(n / 128));
        assert(s[i] == (n % 128 + 128) as u8);
    }
}

/// Append the encoding of `n` to `out`.
pub fn encode_varint(out: &mut Vec<u8>, n: u64)
    ensures
        final(out)@ == old(out)@ + varint_bytes(n),
    decreases n,
{
    if n < 128 {
        out.push(n as u8);
        assert(out@ =~= old(out)@ + varint_bytes(n));
    } else {
        let b: u8 = (n % 128 + 128) as u8;
        out.push(b);
        encode_varint(out, n / 128);
        assert(out@ =~= old(out)@ + varint_bytes(n));
    }
}

/// Read a varint at offset `i` of `s`, mirroring `parse_varint`.
pub fn decode_varint(s: &Vec<u8>, i: usize) -> (r: Option<(u64, usize)>)
    ensures
        match r {
            Some((n, j)) => parse_varint(s@, i as int) == Some((n, j as int)),
            None => parse_varint(s@, i as int) is None,
        },
    decreases s@.len() - i,
{
    if i >= s.len() {
        return None;
    }
    let b = s[i];
    if b < 128 {
        Some((b as u64, i + 1))
    } else {
        match decode_varint(s, i + 1) {
            None => None,
            Some((hi, j)) => {
                let lo: u64 = (b - 128) as u64;
                if hi == 0 {
                    None
                } else if hi > (u64::MAX - lo) / 128 {
                    assert(hi * 128 + lo > u64::MAX) by (nonlinear_arith)
                        requires
                            hi > (u64::MAX - lo) / 128,
                            lo < 128,
                    ;
                    None
                } else {
                    assert(hi * 128 + lo <= u64::MAX) by (nonlinear_arith)
                        requires
                            hi <= (u64::MAX - lo) / 128,
                            lo < 128,
                    ;
                    Some((hi * 128 + lo, j))
                }
            },
        }
    }
}

} // verus!
