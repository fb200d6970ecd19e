//! Low-level wire primitives: base-128 varints, tagged length-delimited
//! fields, tagged varint fields and tagged fixed-width fields, each with an
//! encoder, a decoder, and a proof that decoding inverts encoding.

use vstd::prelude::*;
use vstd::bytes::{spec_u64_to_le_bytes, spec_u64_from_le_bytes, u64_to_le_bytes, u64_from_le_bytes, lemma_auto_spec_u64_to_from_le_bytes};
use vstd::utf8::{encode_utf8, decode_utf8, valid_utf8, encode_utf8_valid_utf8, encode_utf8_decode_utf8};
use vstd::string::StrSliceExecFns;
use crate::error::KvError;

verus! {

/// Largest value whose base-128 encoding the decoder accepts.
pub const VARINT_MAX: u64 = 0xffff_ffff_ffff_ffff;

/// The base-128 encoding of a number: seven bits per byte, least significant
/// group first, the high bit of every byte but the last set.
pub open spec fn enc_varint(n: nat) -> Seq<u8>
    decreases n,
{
    if n < 0x80 {
        seq![n as u8]
    } else {
        seq![(n % 0x80 + 0x80) as u8] + enc_varint(n / 0x80)
    }
}

/// Decodes a base-128 number from `d` starting at `i`, reading no byte at or
/// past `end`. Returns the value and the position after its last byte.
pub open spec fn dec_varint(d: Seq<u8>, i: int, end: int) -> Option<(u64, int)>
    decreases end - i,
{
    if !(0 <= i < end <= d.len()) {
        None
    } else if d[i] < 0x80 {
        Some((d[i] as u64, i + 1))
    } else {
        match dec_varint(d, i + 1, end) {
            None => None,
            Some((hi, j)) => if hi <= 0x01ff_ffff_ffff_ffff {
                Some((((hi * 0x80) + (d[i] - 0x80)) as u64, j))
            } else {
                None
            },
        }
    }
}

/// A varint encoding is never empty.
pub proof fn lemma_enc_varint_nonempty(n: nat)
    ensures
        enc_varint(n).len() >= 1,
{
}

/// Splitting a known concatenation out of a byte sequence.
pub proof fn lemma_subrange_concat(d: Seq<u8>, i: int, a: Seq<u8>, b: Seq<u8>)
    requires
        0 <= i,
        i + a.len() + b.len() <= d.len(),
        d.subrange(i, i + a.len() + b.len()) == a + b,
    ensures
        d.subrange(i, i + a.len()) == a,
        d.subrange(i + a.len(), i + a.len() + b.len()) == b,
{
    let whole = d.subrange(i, i + a.len() + b.len());
    assert(d.subrange(i, i + a.len()) =~= a) by {
        assert forall|k: int| 0 <= k < a.len() implies d.subrange(i, i + a.len())[k] == a[k] by {
            assert(whole[k] == (a + b)[k]);
        }
    }
    assert(d.subrange(i + a.len(), i + a.len() + b.len()) =~= b) by {
        assert forall|k: int| 0 <= k < b.len() implies d.subrange(
            i + a.len(),
            i + a.len() + b.len(),
        )[k] == b[k] by {
            assert(whole[a.len() + k] == (a + b)[a.len() + k]);
        }
    }
}

/// Decoding inverts encoding for varints.
pub proof fn lemma_dec_enc_varint(d: Seq<u8>, i: int, end: int, n: nat)
    requires
        n <= VARINT_MAX,
        0 <= i,
        i + enc_varint(n).len() <= end <= d.len(),
        d.subrange(i, i + enc_varint(n).len()) == enc_varint(n),
    ensures
        dec_varint(d, i, end) == Some((n as u64, i + enc_varint(n).len())),
    decreases n,
{
    let e = enc_varint(n);
    if n < 0x80 {
        assert(d[i] == e[0]);
    } else {
        let e1 = enc_varint(n / 0x80);
        assert(e == seq![(n % 0x80 + 0x80) as u8] + e1);
        assert(d[i] == e[0]);
        assert(e[0] == (n % 0x80 + 0x80) as u8);
        lemma_subrange_concat(d, i, seq![(n % 0x80 + 0x80) as u8], e1);
        assert(n / 0x80 <= VARINT_MAX / 0x80) by {
            vstd::arithmetic::div_mod::lemma_div_is_ordered(n as int, VARINT_MAX as int, 0x80);
        }
        lemma_dec_enc_varint(d, i + 1, end, n / 0x80);
        assert((n / 0x80) * 0x80 + n % 0x80 == n) by {
            vstd::arithmetic::div_mod::lemma_fundamental_div_mod(n as int, 0x80);
        }
        assert(d[i] - 0x80 == n % 0x80);
    }
}

/// Appends the varint encoding of `n` to `buf`.
pub fn encode_varint(n: u64, buf: &mut Vec<u8>)
    ensures
        final(buf)@ == old(buf)@ + enc_varint(n as nat),
    decreases n,
{
    let ghost pre = buf@;
    if n < 0x80 {
        buf.push(n as u8);
        assert(buf@ =~= pre + enc_varint(n as nat));
    } else {
        buf.push((n % 0x80 + 0x80) as u8);
        encode_varint(n / 0x80, buf);
        assert(buf@ =~= pre + enc_varint(n as nat));
    }
}

/// Reads one varint; mirrors `dec_varint` exactly.
pub fn decode_varint(d: &Vec<u8>, i: usize, end: usize) -> (r: Result<(u64, usize), KvError>)
    requires
        i <= end <= d@.len(),
    ensures
        match r {
            Ok(p) => dec_varint(d@, i as int, end as int) == Some((p.0, p.1 as int)) && i < p.1
                <= end,
            Err(_) => dec_varint(d@, i as int, end as int) is None,
        },
    decreases end - i,
{
    if i >= end {
        return Err(KvError::DecodeError);
    }
    let b = d[i];
    if b < 0x80 {
        Ok((b as u64, i + 1))
    } else {
        match decode_varint(d, i + 1, end) {
            Err(e) => Err(e),
            Ok((hi, j)) => {
                if hi <= 0x01ff_ffff_ffff_ffff {
                    Ok((hi * 0x80 + (b - 0x80) as u64, j))
                } else {
                    Err(KvError::DecodeError)
                }
            },
        }
    }
}

/// A tagged length-delimited field: the tag byte, the payload length as a
/// varint, then the payload itself.
pub open spec fn enc_len_field(tag: u8, p: Seq<u8>) -> Seq<u8> {
    seq![tag] + enc_varint(p.len()) + p
}

/// Decodes a tagged length-delimited field header at `i`; returns the bounds
/// of the payload. The position after the field is the payload's end.
pub open spec fn dec_len_field(d: Seq<u8>, i: int, end: int, tag: u8) -> Option<(int, int)> {
    if 0 <= i < end <= d.len() && d[i] == tag {
        match dec_varint(d, i + 1, end) {
            Some((len, j)) => if j + len <= end {
                Some((j, j + len))
            } else {
                None
            },
            None => None,
        }
    } else {
        None
    }
}

/// Decoding inverts encoding for length-delimited fields.
pub proof fn lemma_dec_enc_len_field(d: Seq<u8>, i: int, end: int, tag: u8, p: Seq<u8>)
    requires
        p.len() <= VARINT_MAX,
        0 <= i,
        i + enc_len_field(tag, p).len() <= end <= d.len(),
        d.subrange(i, i + enc_len_field(tag, p).len()) == enc_len_field(tag, p),
    ensures
        ({
            let a = i + 1 + enc_varint(p.len()).len();
            dec_len_field(d, i, end, tag) == Some((a, a + p.len())) && d.subrange(
                a,
                a + p.len(),
            ) == p && a + p.len() == i + enc_len_field(tag, p).len()
        }),
{
    let lv = enc_varint(p.len());
    let e = enc_len_field(tag, p);
    assert(e == seq![tag] + (lv + p));
    lemma_subrange_concat(d, i, seq![tag], lv + p);
    assert(d[i] == (seq![tag])[0]);
    lemma_subrange_concat(d, i + 1, lv, p);
    lemma_dec_enc_varint(d, i + 1, end, p.len());
}

/// Reads a tagged length-delimited field header; mirrors `dec_len_field`.
pub fn decode_len_field(d: &Vec<u8>, i: usize, end: usize, tag: u8) -> (r: Result<
    (usize, usize),
    KvError,
>)
    requires
        i <= end <= d@.len(),
    ensures
        match r {
            Ok(p) => dec_len_field(d@, i as int, end as int, tag) == Some((p.0 as int, p.1 as int))
                && i < p.0 <= p.1 <= end,
            Err(_) => dec_len_field(d@, i as int, end as int, tag) is None,
        },
{
    if i >= end {
        return Err(KvError::DecodeError);
    }
    if d[i] != tag {
        return Err(KvError::DecodeError);
    }
    match decode_varint(d, i + 1, end) {
        Err(e) => Err(e),
        Ok((len, j)) => {
            if len <= (end - j) as u64 {
                Ok((j, j + len as usize))
            } else {
                Err(KvError::DecodeError)
            }
        },
    }
}

/// Appends a tagged length-delimited field holding `payload` to `buf`.
pub fn encode_len_field(tag: u8, payload: Vec<u8>, buf: &mut Vec<u8>)
    ensures
        final(buf)@ == old(buf)@ + enc_len_field(tag, payload@),
{
    let ghost pre = buf@;
    let ghost p0 = payload@;
    buf.push(tag);
    encode_varint(payload.len() as u64, buf);
    let mut p = payload;
    buf.append(&mut p);
    assert(buf@ =~= pre + enc_len_field(tag, p0));
}

/// A tagged varint field: the tag byte then the value.
pub open spec fn enc_varint_field(tag: u8, n: nat) -> Seq<u8> {
    seq![tag] + enc_varint(n)
}

/// Decodes a tagged varint field at `i`.
pub open spec fn dec_varint_field(d: Seq<u8>, i: int, end: int, tag: u8) -> Option<(u64, int)> {
    if 0 <= i < end <= d.len() && d[i] == tag {
        dec_varint(d, i + 1, end)
    } else {
        None
    }
}

/// Decoding inverts encoding for varint fields.
pub proof fn lemma_dec_enc_varint_field(d: Seq<u8>, i: int, end: int, tag: u8, n: nat)
    requires
        n <= VARINT_MAX,
        0 <= i,
        i + enc_varint_field(tag, n).len() <= end <= d.len(),
        d.subrange(i, i + enc_varint_field(tag, n).len()) == enc_varint_field(tag, n),
    ensures
        dec_varint_field(d, i, end, tag) == Some(
            (n as u64, i + enc_varint_field(tag, n).len()),
        ),
{
    lemma_subrange_concat(d, i, seq![tag], enc_varint(n));
    assert(d[i] == (seq![tag])[0]);
    lemma_dec_enc_varint(d, i + 1, end, n);
}

/// Reads a tagged varint field; mirrors `dec_varint_field`.
pub fn decode_varint_field(d: &Vec<u8>, i: usize, end: usize, tag: u8) -> (r: Result<
    (u64, usize),
    KvError,
>)
    requires
        i <= end <= d@.len(),
    ensures
        match r {
            Ok(p) => dec_varint_field(d@, i as int, end as int, tag) == Some((p.0, p.1 as int))
                && i < p.1 <= end,
            Err(_) => dec_varint_field(d@, i as int, end as int, tag) is None,
        },
{
    if i >= end {
        return Err(KvError::DecodeError);
    }
    if d[i] != tag {
        return Err(KvError::DecodeError);
    }
    decode_varint(d, i + 1, end)
}

/// Appends a tagged varint field to `buf`.
pub fn encode_varint_field(tag: u8, n: u64, buf: &mut Vec<u8>)
    ensures
        final(buf)@ == old(buf)@ + enc_varint_field(tag, n as nat),
{
    let ghost pre = buf@;
    buf.push(tag);
    encode_varint(n, buf);
    assert(buf@ =~= pre + enc_varint_field(tag, n as nat));
}

/// A tagged fixed-width 64-bit field: the tag byte then eight bytes,
/// least significant first.
pub open spec fn enc_fixed64_field(tag: u8, x: u64) -> Seq<u8> {
    seq![tag] + spec_u64_to_le_bytes(x)
}

/// Decodes a tagged fixed-width 64-bit field at `i`.
pub open spec fn dec_fixed64_field(d: Seq<u8>, i: int, end: int, tag: u8) -> Option<(u64, int)> {
    if 0 <= i && i + 9 <= end <= d.len() && d[i] == tag {
        Some((spec_u64_from_le_bytes(d.subrange(i + 1, i + 9)), i + 9))
    } else {
        None
    }
}

/// Decoding inverts encoding for fixed-width fields.
pub proof fn lemma_dec_enc_fixed64_field(d: Seq<u8>, i: int, end: int, tag: u8, x: u64)
    requires
        0 <= i,
        i + 9 <= end <= d.len(),
        d.subrange(i, i + 9) == enc_fixed64_field(tag, x),
    ensures
        dec_fixed64_field(d, i, end, tag) == Some((x, i + 9)),
{
    lemma_auto_spec_u64_to_from_le_bytes();
    assert(spec_u64_to_le_bytes(x).len() == 8);
    lemma_subrange_concat(d, i, seq![tag], spec_u64_to_le_bytes(x));
    assert(d[i] == (seq![tag])[0]);
    assert(d.subrange(i + 1, i + 9) == spec_u64_to_le_bytes(x));
}

/// Reads a tagged fixed-width 64-bit field; mirrors `dec_fixed64_field`.
pub fn decode_fixed64_field(d: &Vec<u8>, i: usize, end: usize, tag: u8) -> (r: Result<
    (u64, usize),
    KvError,
>)
    requires
        i <= end <= d@.len(),
    ensures
        match r {
            Ok(p) => dec_fixed64_field(d@, i as int, end as int, tag) == Some((p.0, p.1 as int))
                && i < p.1 <= end,
            Err(_) => dec_fixed64_field(d@, i as int, end as int, tag) is None,
        },
{
    if i >= end || end - i < 9 {
        return Err(KvError::DecodeError);
    }
    if d[i] != tag {
        return Err(KvError::DecodeError);
    }
    let bytes = copy_range(d, i + 1, i + 9);
    let x = u64_from_le_bytes(bytes.as_slice());
    Ok((x, i + 9))
}

/// Appends a tagged fixed-width 64-bit field to `buf`.
pub fn encode_fixed64_field(tag: u8, x: u64, buf: &mut Vec<u8>)
    ensures
        final(buf)@ == old(buf)@ + enc_fixed64_field(tag, x),
{
    let ghost pre = buf@;
    buf.push(tag);
    let mut bytes = u64_to_le_bytes(x);
    buf.append(&mut bytes);
    assert(buf@ =~= pre + enc_fixed64_field(tag, x));
}

/// Copies the bytes of `d` in `[a, b)` into a fresh vector.
pub fn copy_range(d: &Vec<u8>, a: usize, b: usize) -> (r: Vec<u8>)
    requires
        a <= b <= d@.len(),
    ensures
        r@ == d@.subrange(a as int, b as int),
{
    let mut out: Vec<u8> = Vec::new();
    let mut k = a;
    while k < b
        invariant
            a <= k <= b <= d@.len(),
            out@ == d@.subrange(a as int, k as int),
        decreases b - k,
    {
        out.push(d[k]);
        assert(out@ =~= d@.subrange(a as int, k + 1 as int));
        k = k + 1;
    }
    out
}

/// A tagged string field: a length-delimited field holding UTF-8 text.
pub open spec fn enc_str_field(tag: u8, s: Seq<char>) -> Seq<u8> {
    enc_len_field(tag, encode_utf8(s))
}

/// Decodes a tagged string field at `i`: the payload must be valid UTF-8.
pub open spec fn dec_str_field(d: Seq<u8>, i: int, end: int, tag: u8) -> Option<(Seq<char>, int)> {
    match dec_len_field(d, i, end, tag) {
        Some((a, b)) => if valid_utf8(d.subrange(a, b)) {
            Some((decode_utf8(d.subrange(a, b)), b))
        } else {
            None
        },
        None => None,
    }
}

/// Decoding inverts encoding for string fields.
pub proof fn lemma_dec_enc_str_field(d: Seq<u8>, i: int, end: int, tag: u8, s: Seq<char>)
    requires
        encode_utf8(s).len() <= VARINT_MAX,
        0 <= i,
        i + enc_str_field(tag, s).len() <= end <= d.len(),
        d.subrange(i, i + enc_str_field(tag, s).len()) == enc_str_field(tag, s),
    ensures
        dec_str_field(d, i, end, tag) == Some((s, i + enc_str_field(tag, s).len())),
{
    lemma_dec_enc_len_field(d, i, end, tag, encode_utf8(s));
    encode_utf8_valid_utf8(s);
    encode_utf8_decode_utf8(s);
}

/// Relies on `String::from_utf8`: succeeds exactly on valid UTF-8 input and
/// returns the text those bytes encode.
#[verifier::external_body]
pub fn string_from_utf8(bytes: Vec<u8>) -> (r: Option<String>)
    ensures
        match r {
            Some(s) => valid_utf8(bytes@) && s@ == decode_utf8(bytes@),
            None => !valid_utf8(bytes@),
        },
{
    match String::from_utf8(bytes) {
        Ok(s) => Some(s),
        Err(_) => None,
    }
}

/// Reads a tagged string field; mirrors `dec_str_field`.
pub fn decode_str_field(d: &Vec<u8>, i: usize, end: usize, tag: u8) -> (r: Result<
    (String, usize),
    KvError,
>)
    requires
        i <= end <= d@.len(),
    ensures
        match r {
            Ok(p) => dec_str_field(d@, i as int, end as int, tag) == Some((p.0@, p.1 as int)) && i
                < p.1 <= end,
            Err(_) => dec_str_field(d@, i as int, end as int, tag) is None,
        },
{
    match decode_len_field(d, i, end, tag) {
        Err(e) => Err(e),
        Ok((a, b)) => {
            let bytes = copy_range(d, a, b);
            match string_from_utf8(bytes) {
                Some(s) => Ok((s, b)),
                None => Err(KvError::DecodeError),
            }
        },
    }
}

/// Appends a tagged string field to `buf`.
pub fn encode_str_field(tag: u8, s: &String, buf: &mut Vec<u8>)
    ensures
        final(buf)@ == old(buf)@ + enc_str_field(tag, s@),
{
    let bytes = s.as_str().as_bytes_vec();
    encode_len_field(tag, bytes, buf);
}

/// The unsigned 64-bit number with the same bit pattern as `x`.
pub open spec fn u64_of_i64(x: i64) -> nat {
    if x >= 0 {
        x as nat
    } else {
        (x + 0x1_0000_0000_0000_0000) as nat
    }
}

/// The signed 64-bit number with the same bit pattern as `n`.
pub open spec fn i64_of_u64(n: u64) -> i64 {
    if n <= 0x7fff_ffff_ffff_ffff {
        n as i64
    } else {
        (n - 0x1_0000_0000_0000_0000) as i64
    }
}

/// The two conversions invert each other.
pub proof fn lemma_i64_u64_roundtrip(x: i64)
    ensures
        i64_of_u64(u64_of_i64(x) as u64) == x,
        u64_of_i64(x) <= VARINT_MAX,
{
}

/// Reinterprets a signed 64-bit number as unsigned, two's complement.
pub fn i64_to_u64(x: i64) -> (r: u64)
    ensures
        r as nat == u64_of_i64(x),
{
    if x >= 0 {
        x as u64
    } else {
        0xffff_ffff_ffff_ffff - ((-(x + 1)) as u64)
    }
}

/// Reinterprets an unsigned 64-bit number as signed, two's complement.
pub fn u64_to_i64(n: u64) -> (r: i64)
    ensures
        r == i64_of_u64(n),
{
    if n <= 0x7fff_ffff_ffff_ffff {
        n as i64
    } else {
        -((0xffff_ffff_ffff_ffff - n) as i64) - 1
    }
}

} // verus!
