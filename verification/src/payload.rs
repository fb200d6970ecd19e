//! Canonical encoding of values, key/value pairs and repeated fields, with
//! proofs that decoding inverts encoding.

use vstd::prelude::*;
use vstd::utf8::encode_utf8;
use crate::abi::{Value, ValueModel, Kvpair, KvpairModel, view_values, view_pairs, view_strings};
use crate::error::KvError;
use crate::wire::{
    enc_varint, enc_len_field, dec_len_field, lemma_dec_enc_len_field, decode_len_field,
    encode_len_field, enc_varint_field, dec_varint_field, lemma_dec_enc_varint_field,
    decode_varint_field, encode_varint_field, enc_fixed64_field, dec_fixed64_field,
    lemma_dec_enc_fixed64_field, decode_fixed64_field, encode_fixed64_field, enc_str_field,
    dec_str_field, lemma_dec_enc_str_field, decode_str_field, encode_str_field, copy_range,
    u64_of_i64, i64_of_u64, lemma_i64_u64_roundtrip, i64_to_u64, u64_to_i64,
    lemma_subrange_concat, lemma_enc_varint_nonempty, VARINT_MAX,
};

verus! {

/// Largest payload a frame can carry: the length must fit in 31 bits.
pub const PAYLOAD_LIMIT: usize = 0x7fff_ffff;

/// The canonical encoding of a value: nothing for `Nil`, otherwise exactly
/// one tagged field chosen by the variant.
pub open spec fn enc_value(v: ValueModel) -> Seq<u8> {
    match v {
        ValueModel::Nil => Seq::empty(),
        ValueModel::Str(s) => enc_str_field(0x0a, s),
        ValueModel::Binary(b) => enc_len_field(0x12, b),
        ValueModel::Integer(x) => enc_varint_field(0x18, u64_of_i64(x)),
        ValueModel::Float(bits) => enc_fixed64_field(0x21, bits),
        ValueModel::Bool(b) => enc_varint_field(0x28, (if b { 1nat } else { 0nat })),
    }
}

/// A value is well formed when its encoding fits in one frame.
pub open spec fn wf_value(v: ValueModel) -> bool {
    enc_value(v).len() <= PAYLOAD_LIMIT
}

/// Decodes the value that fills `[i, end)` exactly.
pub open spec fn dec_value(d: Seq<u8>, i: int, end: int) -> Option<ValueModel> {
    if !(0 <= i <= end <= d.len()) {
        None
    } else if i == end {
        Some(ValueModel::Nil)
    } else if d[i] == 0x0a {
        match dec_str_field(d, i, end, 0x0a) {
            Some((s, j)) => if j == end {
                Some(ValueModel::Str(s))
            } else {
                None
            },
            None => None,
        }
    } else if d[i] == 0x12 {
        match dec_len_field(d, i, end, 0x12) {
            Some((a, b)) => if b == end {
                Some(ValueModel::Binary(d.subrange(a, b)))
            } else {
                None
            },
            None => None,
        }
    } else if d[i] == 0x18 {
        match dec_varint_field(d, i, end, 0x18) {
            Some((n, j)) => if j == end {
                Some(ValueModel::Integer(i64_of_u64(n)))
            } else {
                None
            },
            None => None,
        }
    } else if d[i] == 0x21 {
        match dec_fixed64_field(d, i, end, 0x21) {
            Some((x, j)) => if j == end {
                Some(ValueModel::Float(x))
            } else {
                None
            },
            None => None,
        }
    } else if d[i] == 0x28 {
        match dec_varint_field(d, i, end, 0x28) {
            Some((n, j)) => if j == end {
                Some(ValueModel::Bool(n != 0))
            } else {
                None
            },
            None => None,
        }
    } else {
        None
    }
}

/// Decoding inverts encoding for values.
pub proof fn lemma_dec_enc_value(d: Seq<u8>, i: int, end: int, v: ValueModel)
    requires
        wf_value(v),
        0 <= i,
        end == i + enc_value(v).len(),
        end <= d.len(),
        d.subrange(i, end) == enc_value(v),
    ensures
        dec_value(d, i, end) == Some(v),
{
    match v {
        ValueModel::Nil => {},
        ValueModel::Str(s) => {
            assert(d[i] == enc_value(v)[0]);
            lemma_enc_varint_nonempty(encode_utf8(s).len());
            lemma_dec_enc_str_field(d, i, end, 0x0a, s);
        },
        ValueModel::Binary(b) => {
            assert(d[i] == enc_value(v)[0]);
            lemma_enc_varint_nonempty(b.len());
            lemma_dec_enc_len_field(d, i, end, 0x12, b);
        },
        ValueModel::Integer(x) => {
            assert(d[i] == enc_value(v)[0]);
            lemma_i64_u64_roundtrip(x);
            lemma_dec_enc_varint_field(d, i, end, 0x18, u64_of_i64(x));
        },
        ValueModel::Float(bits) => {
            assert(d[i] == enc_value(v)[0]);
            vstd::bytes::lemma_auto_spec_u64_to_from_le_bytes();
            lemma_dec_enc_fixed64_field(d, i, end, 0x21, bits);
        },
        ValueModel::Bool(b) => {
            assert(d[i] == enc_value(v)[0]);
            lemma_dec_enc_varint_field(d, i, end, 0x28, (if b { 1nat } else { 0nat }));
        },
    }
}

/// Appends the canonical encoding of `v` to `buf`.
pub fn encode_value(v: &Value, buf: &mut Vec<u8>)
    ensures
        final(buf)@ == old(buf)@ + enc_value(v@),
{
    let ghost pre = buf@;
    match v {
        Value::Nil => {
            assert(buf@ =~= pre + enc_value(v@));
        },
        Value::Str(s) => encode_str_field(0x0a, s, buf),
        Value::Binary(b) => {
            let bytes = copy_range(b, 0, b.len());
            assert(bytes@ =~= b@);
            encode_len_field(0x12, bytes, buf);
        },
        Value::Integer(x) => encode_varint_field(0x18, i64_to_u64(*x), buf),
        Value::Float(bits) => encode_fixed64_field(0x21, *bits, buf),
        Value::Bool(b) => encode_varint_field(0x28, (if *b { 1u64 } else { 0u64 }), buf),
    }
}

/// Reads the value that fills `[i, end)`; mirrors `dec_value`.
pub fn decode_value(d: &Vec<u8>, i: usize, end: usize) -> (r: Result<Value, KvError>)
    requires
        i <= end <= d@.len(),
    ensures
        match r {
            Ok(v) => dec_value(d@, i as int, end as int) == Some(v@),
            Err(_) => dec_value(d@, i as int, end as int) is None,
        },
{
    if i == end {
        return Ok(Value::Nil);
    }
    let t = d[i];
    if t == 0x0a {
        match decode_str_field(d, i, end, 0x0a) {
            Err(e) => Err(e),
            Ok((s, j)) => if j == end {
                Ok(Value::Str(s))
            } else {
                Err(KvError::DecodeError)
            },
        }
    } else if t == 0x12 {
        match decode_len_field(d, i, end, 0x12) {
            Err(e) => Err(e),
            Ok((a, b)) => if b == end {
                Ok(Value::Binary(copy_range(d, a, b)))
            } else {
                Err(KvError::DecodeError)
            },
        }
    } else if t == 0x18 {
        match decode_varint_field(d, i, end, 0x18) {
            Err(e) => Err(e),
            Ok((n, j)) => if j == end {
                Ok(Value::Integer(u64_to_i64(n)))
            } else {
                Err(KvError::DecodeError)
            },
        }
    } else if t == 0x21 {
        match decode_fixed64_field(d, i, end, 0x21) {
            Err(e) => Err(e),
            Ok((x, j)) => if j == end {
                Ok(Value::Float(x))
            } else {
                Err(KvError::DecodeError)
            },
        }
    } else if t == 0x28 {
        match decode_varint_field(d, i, end, 0x28) {
            Err(e) => Err(e),
            Ok((n, j)) => if j == end {
                Ok(Value::Bool(n != 0))
            } else {
                Err(KvError::DecodeError)
            },
        }
    } else {
        Err(KvError::DecodeError)
    }
}

/// The canonical encoding of a pair: the key as a string field, then, unless
/// the value is `Nil`, the value as a nested message field.
pub open spec fn enc_pair(p: KvpairModel) -> Seq<u8> {
    enc_str_field(0x0a, p.key) + (match p.value {
        ValueModel::Nil => Seq::<u8>::empty(),
        _ => enc_len_field(0x12, enc_value(p.value)),
    })
}

/// A pair is well formed when its parts and its whole encoding fit in one
/// frame.
pub open spec fn wf_pair(p: KvpairModel) -> bool {
    &&& enc_pair(p).len() <= PAYLOAD_LIMIT
    &&& wf_value(p.value)
    &&& encode_utf8(p.key).len() <= PAYLOAD_LIMIT
}

/// Decodes the pair that fills `[i, end)` exactly.
pub open spec fn dec_pair(d: Seq<u8>, i: int, end: int) -> Option<KvpairModel> {
    match dec_str_field(d, i, end, 0x0a) {
        Some((k, j)) => if j == end {
            Some(KvpairModel { key: k, value: ValueModel::Nil })
        } else {
            match dec_len_field(d, j, end, 0x12) {
                Some((a, b)) => if b == end {
                    match dec_value(d, a, b) {
                        Some(v) => Some(KvpairModel { key: k, value: v }),
                        None => None,
                    }
                } else {
                    None
                },
                None => None,
            }
        },
        None => None,
    }
}

/// Decoding inverts encoding for pairs.
pub proof fn lemma_dec_enc_pair(d: Seq<u8>, i: int, end: int, p: KvpairModel)
    requires
        wf_pair(p),
        0 <= i,
        end == i + enc_pair(p).len(),
        end <= d.len(),
        d.subrange(i, end) == enc_pair(p),
    ensures
        dec_pair(d, i, end) == Some(p),
{
    let ka = enc_str_field(0x0a, p.key);
    let vb = match p.value {
        ValueModel::Nil => Seq::<u8>::empty(),
        _ => enc_len_field(0x12, enc_value(p.value)),
    };
    lemma_subrange_concat(d, i, ka, vb);
    lemma_dec_enc_str_field(d, i, end, 0x0a, p.key);
    let j = i + ka.len();
    match p.value {
        ValueModel::Nil => {
            assert(j == end);
        },
        _ => {
            assert(j < end);
            lemma_dec_enc_len_field(d, j, end, 0x12, enc_value(p.value));
            let a = j + 1 + enc_varint(enc_value(p.value).len()).len();
            lemma_dec_enc_value(d, a, end, p.value);
        },
    }
}

/// Appends the canonical encoding of `p` to `buf`.
pub fn encode_pair(p: &Kvpair, buf: &mut Vec<u8>)
    ensures
        final(buf)@ == old(buf)@ + enc_pair(p@),
{
    let ghost pre = buf@;
    encode_str_field(0x0a, &p.key, buf);
    match &p.value {
        Value::Nil => {
            assert(buf@ =~= pre + enc_pair(p@));
        },
        _ => {
            let mut tmp: Vec<u8> = Vec::new();
            encode_value(&p.value, &mut tmp);
            encode_len_field(0x12, tmp, buf);
            assert(buf@ =~= pre + enc_pair(p@));
        },
    }
}

/// Reads the pair that fills `[i, end)`; mirrors `dec_pair`.
pub fn decode_pair(d: &Vec<u8>, i: usize, end: usize) -> (r: Result<Kvpair, KvError>)
    requires
        i <= end <= d@.len(),
    ensures
        match r {
            Ok(p) => dec_pair(d@, i as int, end as int) == Some(p@),
            Err(_) => dec_pair(d@, i as int, end as int) is None,
        },
{
    match decode_str_field(d, i, end, 0x0a) {
        Err(e) => Err(e),
        Ok((k, j)) => {
            if j == end {
                Ok(Kvpair { key: k, value: Value::Nil })
            } else {
                match decode_len_field(d, j, end, 0x12) {
                    Err(e) => Err(e),
                    Ok((a, b)) => if b == end {
                        match decode_value(d, a, b) {
                            Err(e) => Err(e),
                            Ok(v) => Ok(Kvpair { key: k, value: v }),
                        }
                    } else {
                        Err(KvError::DecodeError)
                    },
                }
            }
        },
    }
}

/// The concatenated encoding of repeated value fields under one tag.
pub open spec fn enc_values_rep(tag: u8, vs: Seq<ValueModel>) -> Seq<u8>
    decreases vs.len(),
{
    if vs.len() == 0 {
        Seq::empty()
    } else {
        enc_len_field(tag, enc_value(vs[0])) + enc_values_rep(tag, vs.drop_first())
    }
}

/// Every value in the sequence is well formed.
pub open spec fn wf_values(vs: Seq<ValueModel>) -> bool {
    forall|k: int| 0 <= k < vs.len() ==> wf_value(#[trigger] vs[k])
}

/// Decodes repeated value fields under one tag, stopping at `end` or at the
/// first byte that is not the tag.
pub open spec fn dec_values_rep(d: Seq<u8>, i: int, end: int, tag: u8) -> Option<
    (Seq<ValueModel>, int),
>
    decreases end - i,
{
    if !(0 <= i <= end <= d.len()) {
        None
    } else if i == end || d[i] != tag {
        Some((Seq::empty(), i))
    } else {
        match dec_len_field(d, i, end, tag) {
            Some((a, b)) => if i < a <= b <= end {
                match dec_value(d, a, b) {
                    Some(v) => match dec_values_rep(d, b, end, tag) {
                        Some((rest, j)) => Some((seq![v] + rest, j)),
                        None => None,
                    },
                    None => None,
                }
            } else {
                None
            },
            None => None,
        }
    }
}

/// Decoding inverts encoding for repeated value fields, provided the byte
/// after them (if any) does not carry the same tag.
pub proof fn lemma_dec_enc_values_rep(d: Seq<u8>, i: int, end: int, tag: u8, vs: Seq<ValueModel>)
    requires
        wf_values(vs),
        0 <= i,
        i + enc_values_rep(tag, vs).len() <= end <= d.len(),
        d.subrange(i, i + enc_values_rep(tag, vs).len()) == enc_values_rep(tag, vs),
        i + enc_values_rep(tag, vs).len() == end || d[i + enc_values_rep(tag, vs).len()] != tag,
    ensures
        dec_values_rep(d, i, end, tag) == Some((vs, i + enc_values_rep(tag, vs).len())),
    decreases vs.len(),
{
    if vs.len() == 0 {
    } else {
        let e0 = enc_len_field(tag, enc_value(vs[0]));
        let erest = enc_values_rep(tag, vs.drop_first());
        assert(enc_values_rep(tag, vs) == e0 + erest);
        lemma_subrange_concat(d, i, e0, erest);
        assert(d[i] == e0[0]);
        assert(wf_value(vs[0]));
        lemma_dec_enc_len_field(d, i, end, tag, enc_value(vs[0]));
        let a = i + 1 + enc_varint(enc_value(vs[0]).len()).len();
        let b = a + enc_value(vs[0]).len();
        lemma_dec_enc_value(d, a, b, vs[0]);
        assert(wf_values(vs.drop_first())) by {
            assert(forall|k: int|
                0 <= k < vs.drop_first().len() ==> vs.drop_first()[k] == vs[k + 1]);
        }
        lemma_dec_enc_values_rep(d, b, end, tag, vs.drop_first());
        assert(seq![vs[0]] + vs.drop_first() =~= vs);
    }
}

/// Reads repeated value fields; mirrors `dec_values_rep`.
pub fn decode_values_rep(d: &Vec<u8>, i: usize, end: usize, tag: u8) -> (r: Result<
    (Vec<Value>, usize),
    KvError,
>)
    requires
        i <= end <= d@.len(),
    ensures
        match r {
            Ok(p) => dec_values_rep(d@, i as int, end as int, tag) == Some(
                (view_values(p.0@), p.1 as int),
            ) && i <= p.1 <= end,
            Err(_) => dec_values_rep(d@, i as int, end as int, tag) is None,
        },
    decreases end - i,
{
    if i == end || d[i] != tag {
        let empty: Vec<Value> = Vec::new();
        assert(view_values(empty@) =~= Seq::<ValueModel>::empty());
        return Ok((empty, i));
    }
    match decode_len_field(d, i, end, tag) {
        Err(e) => Err(e),
        Ok((a, b)) => match decode_value(d, a, b) {
            Err(e) => Err(e),
            Ok(v) => match decode_values_rep(d, b, end, tag) {
                Err(e) => Err(e),
                Ok((rest, j)) => {
                    let mut out = rest;
                    let ghost rest0 = out@;
                    out.insert(0, v);
                    assert(view_values(out@) =~= seq![v@] + view_values(rest0));
                    Ok((out, j))
                },
            },
        },
    }
}

/// Appends the encodings of `vs[k..]` as repeated fields under `tag`.
pub fn encode_values_from(tag: u8, vs: &Vec<Value>, k: usize, buf: &mut Vec<u8>)
    requires
        k <= vs@.len(),
    ensures
        final(buf)@ == old(buf)@ + enc_values_rep(tag, view_values(vs@.skip(k as int))),
    decreases vs@.len() - k,
{
    let ghost pre = buf@;
    if k == vs.len() {
        assert(view_values(vs@.skip(k as int)) =~= Seq::<ValueModel>::empty());
        assert(buf@ =~= pre + enc_values_rep(tag, view_values(vs@.skip(k as int))));
    } else {
        let mut tmp: Vec<u8> = Vec::new();
        encode_value(&vs[k], &mut tmp);
        encode_len_field(tag, tmp, buf);
        encode_values_from(tag, vs, k + 1, buf);
        proof {
            let s = view_values(vs@.skip(k as int));
            assert(s[0] == vs@[k as int]@);
            assert(s.drop_first() =~= view_values(vs@.skip(k as int + 1)));
            assert(buf@ =~= pre + enc_values_rep(tag, s));
        }
    }
}

/// The concatenated encoding of repeated pair fields under one tag.
pub open spec fn enc_pairs_rep(tag: u8, ps: Seq<KvpairModel>) -> Seq<u8>
    decreases ps.len(),
{
    if ps.len() == 0 {
        Seq::empty()
    } else {
        enc_len_field(tag, enc_pair(ps[0])) + enc_pairs_rep(tag, ps.drop_first())
    }
}

/// Every pair in the sequence is well formed.
pub open spec fn wf_pairs(ps: Seq<KvpairModel>) -> bool {
    forall|k: int| 0 <= k < ps.len() ==> wf_pair(#[trigger] ps[k])
}

/// Decodes repeated pair fields under one tag.
pub open spec fn dec_pairs_rep(d: Seq<u8>, i: int, end: int, tag: u8) -> Option<
    (Seq<KvpairModel>, int),
>
    decreases end - i,
{
    if !(0 <= i <= end <= d.len()) {
        None
    } else if i == end || d[i] != tag {
        Some((Seq::empty(), i))
    } else {
        match dec_len_field(d, i, end, tag) {
            Some((a, b)) => if i < a <= b <= end {
                match dec_pair(d, a, b) {
                    Some(p) => match dec_pairs_rep(d, b, end, tag) {
                        Some((rest, j)) => Some((seq![p] + rest, j)),
                        None => None,
                    },
                    None => None,
                }
            } else {
                None
            },
            None => None,
        }
    }
}

/// Decoding inverts encoding for repeated pair fields.
pub proof fn lemma_dec_enc_pairs_rep(d: Seq<u8>, i: int, end: int, tag: u8, ps: Seq<KvpairModel>)
    requires
        wf_pairs(ps),
        0 <= i,
        i + enc_pairs_rep(tag, ps).len() <= end <= d.len(),
        d.subrange(i, i + enc_pairs_rep(tag, ps).len()) == enc_pairs_rep(tag, ps),
        i + enc_pairs_rep(tag, ps).len() == end || d[i + enc_pairs_rep(tag, ps).len()] != tag,
    ensures
        dec_pairs_rep(d, i, end, tag) == Some((ps, i + enc_pairs_rep(tag, ps).len())),
    decreases ps.len(),
{
    if ps.len() == 0 {
    } else {
        let e0 = enc_len_field(tag, enc_pair(ps[0]));
        let erest = enc_pairs_rep(tag, ps.drop_first());
        assert(enc_pairs_rep(tag, ps) == e0 + erest);
        lemma_subrange_concat(d, i, e0, erest);
        assert(d[i] == e0[0]);
        assert(wf_pair(ps[0]));
        lemma_dec_enc_len_field(d, i, end, tag, enc_pair(ps[0]));
        let a = i + 1 + enc_varint(enc_pair(ps[0]).len()).len();
        let b = a + enc_pair(ps[0]).len();
        lemma_dec_enc_pair(d, a, b, ps[0]);
        assert(wf_pairs(ps.drop_first())) by {
            assert(forall|k: int|
                0 <= k < ps.drop_first().len() ==> ps.drop_first()[k] == ps[k + 1]);
        }
        lemma_dec_enc_pairs_rep(d, b, end, tag, ps.drop_first());
        assert(seq![ps[0]] + ps.drop_first() =~= ps);
    }
}

/// Reads repeated pair fields; mirrors `dec_pairs_rep`.
pub fn decode_pairs_rep(d: &Vec<u8>, i: usize, end: usize, tag: u8) -> (r: Result<
    (Vec<Kvpair>, usize),
    KvError,
>)
    requires
        i <= end <= d@.len(),
    ensures
        match r {
            Ok(p) => dec_pairs_rep(d@, i as int, end as int, tag) == Some(
                (view_pairs(p.0@), p.1 as int),
            ) && i <= p.1 <= end,
            Err(_) => dec_pairs_rep(d@, i as int, end as int, tag) is None,
        },
    decreases end - i,
{
    if i == end || d[i] != tag {
        let empty: Vec<Kvpair> = Vec::new();
        assert(view_pairs(empty@) =~= Seq::<KvpairModel>::empty());
        return Ok((empty, i));
    }
    match decode_len_field(d, i, end, tag) {
        Err(e) => Err(e),
        Ok((a, b)) => match decode_pair(d, a, b) {
            Err(e) => Err(e),
            Ok(p) => match decode_pairs_rep(d, b, end, tag) {
                Err(e) => Err(e),
                Ok((rest, j)) => {
                    let mut out = rest;
                    let ghost rest0 = out@;
                    out.insert(0, p);
                    assert(view_pairs(out@) =~= seq![p@] + view_pairs(rest0));
                    Ok((out, j))
                },
            },
        },
    }
}

/// Appends the encodings of `ps[k..]` as repeated fields under `tag`.
pub fn encode_pairs_from(tag: u8, ps: &Vec<Kvpair>, k: usize, buf: &mut Vec<u8>)
    requires
        k <= ps@.len(),
    ensures
        final(buf)@ == old(buf)@ + enc_pairs_rep(tag, view_pairs(ps@.skip(k as int))),
    decreases ps@.len() - k,
{
    let ghost pre = buf@;
    if k == ps.len() {
        assert(view_pairs(ps@.skip(k as int)) =~= Seq::<KvpairModel>::empty());
        assert(buf@ =~= pre + enc_pairs_rep(tag, view_pairs(ps@.skip(k as int))));
    } else {
        let mut tmp: Vec<u8> = Vec::new();
        encode_pair(&ps[k], &mut tmp);
        encode_len_field(tag, tmp, buf);
        encode_pairs_from(tag, ps, k + 1, buf);
        proof {
            let s = view_pairs(ps@.skip(k as int));
            assert(s[0] == ps@[k as int]@);
            assert(s.drop_first() =~= view_pairs(ps@.skip(k as int + 1)));
            assert(buf@ =~= pre + enc_pairs_rep(tag, s));
        }
    }
}

/// The concatenated encoding of repeated string fields under one tag.
pub open spec fn enc_strs_rep(tag: u8, ss: Seq<Seq<char>>) -> Seq<u8>
    decreases ss.len(),
{
    if ss.len() == 0 {
        Seq::empty()
    } else {
        enc_str_field(tag, ss[0]) + enc_strs_rep(tag, ss.drop_first())
    }
}

/// Every string in the sequence encodes within one frame.
pub open spec fn wf_strs(ss: Seq<Seq<char>>) -> bool {
    forall|k: int| 0 <= k < ss.len() ==> encode_utf8(#[trigger] ss[k]).len() <= PAYLOAD_LIMIT
}

/// Decodes repeated string fields under one tag.
pub open spec fn dec_strs_rep(d: Seq<u8>, i: int, end: int, tag: u8) -> Option<
    (Seq<Seq<char>>, int),
>
    decreases end - i,
{
    if !(0 <= i <= end <= d.len()) {
        None
    } else if i == end || d[i] != tag {
        Some((Seq::empty(), i))
    } else {
        match dec_str_field(d, i, end, tag) {
            Some((s, j)) => if i < j <= end {
                match dec_strs_rep(d, j, end, tag) {
                    Some((rest, j2)) => Some((seq![s] + rest, j2)),
                    None => None,
                }
            } else {
                None
            },
            None => None,
        }
    }
}

/// Decoding inverts encoding for repeated string fields.
pub proof fn lemma_dec_enc_strs_rep(d: Seq<u8>, i: int, end: int, tag: u8, ss: Seq<Seq<char>>)
    requires
        wf_strs(ss),
        0 <= i,
        i + enc_strs_rep(tag, ss).len() <= end <= d.len(),
        d.subrange(i, i + enc_strs_rep(tag, ss).len()) == enc_strs_rep(tag, ss),
        i + enc_strs_rep(tag, ss).len() == end || d[i + enc_strs_rep(tag, ss).len()] != tag,
    ensures
        dec_strs_rep(d, i, end, tag) == Some((ss, i + enc_strs_rep(tag, ss).len())),
    decreases ss.len(),
{
    if ss.len() == 0 {
    } else {
        let e0 = enc_str_field(tag, ss[0]);
        let erest = enc_strs_rep(tag, ss.drop_first());
        assert(enc_strs_rep(tag, ss) == e0 + erest);
        lemma_subrange_concat(d, i, e0, erest);
        assert(d[i] == e0[0]);
        assert(encode_utf8(ss[0]).len() <= PAYLOAD_LIMIT);
        lemma_dec_enc_str_field(d, i, end, tag, ss[0]);
        let j = i + e0.len();
        assert(wf_strs(ss.drop_first())) by {
            assert(forall|k: int|
                0 <= k < ss.drop_first().len() ==> ss.drop_first()[k] == ss[k + 1]);
        }
        lemma_dec_enc_strs_rep(d, j, end, tag, ss.drop_first());
        assert(seq![ss[0]] + ss.drop_first() =~= ss);
    }
}

/// Reads repeated string fields; mirrors `dec_strs_rep`.
pub fn decode_strs_rep(d: &Vec<u8>, i: usize, end: usize, tag: u8) -> (r: Result<
    (Vec<String>, usize),
    KvError,
>)
    requires
        i <= end <= d@.len(),
    ensures
        match r {
            Ok(p) => dec_strs_rep(d@, i as int, end as int, tag) == Some(
                (view_strings(p.0@), p.1 as int),
            ) && i <= p.1 <= end,
            Err(_) => dec_strs_rep(d@, i as int, end as int, tag) is None,
        },
    decreases end - i,
{
    if i == end || d[i] != tag {
        let empty: Vec<String> = Vec::new();
        assert(view_strings(empty@) =~= Seq::<Seq<char>>::empty());
        return Ok((empty, i));
    }
    match decode_str_field(d, i, end, tag) {
        Err(e) => Err(e),
        Ok((s, j)) => match decode_strs_rep(d, j, end, tag) {
            Err(e) => Err(e),
            Ok((rest, j2)) => {
                let mut out = rest;
                let ghost rest0 = out@;
                out.insert(0, s);
                assert(view_strings(out@) =~= seq![out@[0]@] + view_strings(rest0));
                Ok((out, j2))
            },
        },
    }
}

/// Appends the encodings of `ss[k..]` as repeated fields under `tag`.
pub fn encode_strs_from(tag: u8, ss: &Vec<String>, k: usize, buf: &mut Vec<u8>)
    requires
        k <= ss@.len(),
    ensures
        final(buf)@ == old(buf)@ + enc_strs_rep(tag, view_strings(ss@.skip(k as int))),
    decreases ss@.len() - k,
{
    let ghost pre = buf@;
    if k == ss.len() {
        assert(view_strings(ss@.skip(k as int)) =~= Seq::<Seq<char>>::empty());
        assert(buf@ =~= pre + enc_strs_rep(tag, view_strings(ss@.skip(k as int))));
    } else {
        encode_str_field(tag, &ss[k], buf);
        encode_strs_from(tag, ss, k + 1, buf);
        proof {
            let s = view_strings(ss@.skip(k as int));
            assert(s[0] == ss@[k as int]@);
            assert(s.drop_first() =~= view_strings(ss@.skip(k as int + 1)));
            assert(buf@ =~= pre + enc_strs_rep(tag, s));
        }
    }
}

} // verus!
