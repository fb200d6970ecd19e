//! Canonical encoding of whole requests and responses, with proofs that
//! decoding inverts encoding.
//!
//! A request payload is empty (no command) or one tagged submessage whose tag
//! selects the command; a response payload is its four fields in tag order.

use vstd::prelude::*;
use vstd::utf8::encode_utf8;
use crate::abi::{
    Value, Kvpair, KvpairModel, ValueModel, RequestData, CommandRequest, CommandResponse,
    ReqModel, RespModel, Hget, Hgetall, Hmget, Hset, Hmset, Hdel, Hmdel, Hexist, Hmexist,
    Subscribe, Unsubscribe, Publish, view_strings, view_values, view_pairs,
};
use crate::error::KvError;
use crate::payload::{
    enc_value, dec_value, wf_value, lemma_dec_enc_value, encode_value, decode_value, enc_pair,
    dec_pair, wf_pair, lemma_dec_enc_pair, encode_pair, decode_pair, enc_values_rep,
    dec_values_rep, wf_values, lemma_dec_enc_values_rep, encode_values_from, decode_values_rep,
    enc_pairs_rep, dec_pairs_rep, wf_pairs, lemma_dec_enc_pairs_rep, encode_pairs_from,
    decode_pairs_rep, enc_strs_rep, dec_strs_rep, wf_strs, lemma_dec_enc_strs_rep,
    encode_strs_from, decode_strs_rep, PAYLOAD_LIMIT,
};
use crate::wire::{
    enc_varint, enc_len_field, dec_len_field, lemma_dec_enc_len_field, decode_len_field,
    encode_len_field, enc_varint_field, dec_varint_field, lemma_dec_enc_varint_field,
    decode_varint_field, encode_varint_field, enc_str_field, dec_str_field,
    lemma_dec_enc_str_field, decode_str_field, encode_str_field, lemma_subrange_concat,
    lemma_enc_varint_nonempty,
};

verus! {

/// The wire tag of the oneof field that carries each command.
pub open spec fn req_tag(rm: ReqModel) -> u8 {
    match rm {
        ReqModel::Hget { .. } => 0x0a,
        ReqModel::Hgetall { .. } => 0x12,
        ReqModel::Hmget { .. } => 0x1a,
        ReqModel::Hset { .. } => 0x22,
        ReqModel::Hmset { .. } => 0x2a,
        ReqModel::Hdel { .. } => 0x32,
        ReqModel::Hmdel { .. } => 0x3a,
        ReqModel::Hexist { .. } => 0x42,
        ReqModel::Hmexist { .. } => 0x4a,
        ReqModel::Subscribe { .. } => 0x52,
        ReqModel::Unsubscribe { .. } => 0x5a,
        ReqModel::Publish { .. } => 0x62,
    }
}

/// True of the twelve bytes that may open a non-empty request payload.
pub open spec fn is_req_tag(t: u8) -> bool {
    t == 0x0a || t == 0x12 || t == 0x1a || t == 0x22 || t == 0x2a || t == 0x32 || t == 0x3a
        || t == 0x42 || t == 0x4a || t == 0x52 || t == 0x5a || t == 0x62
}

/// The canonical encoding of a command submessage (the payload inside the
/// oneof field).
pub open spec fn enc_sub(rm: ReqModel) -> Seq<u8> {
    match rm {
        ReqModel::Hget { table, key } => enc_str_field(0x0a, table) + enc_str_field(0x12, key),
        ReqModel::Hgetall { table } => enc_str_field(0x0a, table),
        ReqModel::Hmget { table, keys } => enc_str_field(0x0a, table) + enc_strs_rep(0x12, keys),
        ReqModel::Hset { table, pair } => enc_str_field(0x0a, table) + (match pair {
            Some(p) => enc_len_field(0x12, enc_pair(p)),
            None => Seq::<u8>::empty(),
        }),
        ReqModel::Hmset { table, pairs } => enc_str_field(0x0a, table) + enc_pairs_rep(
            0x12,
            pairs,
        ),
        ReqModel::Hdel { table, key } => enc_str_field(0x0a, table) + enc_str_field(0x12, key),
        ReqModel::Hmdel { table, keys } => enc_str_field(0x0a, table) + enc_strs_rep(0x12, keys),
        ReqModel::Hexist { table, key } => enc_str_field(0x0a, table) + enc_str_field(0x12, key),
        ReqModel::Hmexist { table, keys } => enc_str_field(0x0a, table) + enc_strs_rep(
            0x12,
            keys,
        ),
        ReqModel::Subscribe { topic } => enc_str_field(0x0a, topic),
        ReqModel::Unsubscribe { topic, id } => enc_str_field(0x0a, topic) + enc_varint_field(
            0x10,
            id as nat,
        ),
        ReqModel::Publish { topic, data } => enc_str_field(0x0a, topic) + enc_values_rep(
            0x12,
            data,
        ),
    }
}

/// The canonical encoding of a whole request payload.
pub open spec fn enc_req(m: Option<ReqModel>) -> Seq<u8> {
    match m {
        None => Seq::empty(),
        Some(rm) => enc_len_field(req_tag(rm), enc_sub(rm)),
    }
}

/// Every string, pair and value inside the command fits in one frame.
pub open spec fn wf_sub(rm: ReqModel) -> bool {
    match rm {
        ReqModel::Hget { table, key } => encode_utf8(table).len() <= PAYLOAD_LIMIT && encode_utf8(
            key,
        ).len() <= PAYLOAD_LIMIT,
        ReqModel::Hgetall { table } => encode_utf8(table).len() <= PAYLOAD_LIMIT,
        ReqModel::Hmget { table, keys } => encode_utf8(table).len() <= PAYLOAD_LIMIT && wf_strs(
            keys,
        ),
        ReqModel::Hset { table, pair } => encode_utf8(table).len() <= PAYLOAD_LIMIT && (match pair {
            Some(p) => wf_pair(p),
            None => true,
        }),
        ReqModel::Hmset { table, pairs } => encode_utf8(table).len() <= PAYLOAD_LIMIT && wf_pairs(
            pairs,
        ),
        ReqModel::Hdel { table, key } => encode_utf8(table).len() <= PAYLOAD_LIMIT && encode_utf8(
            key,
        ).len() <= PAYLOAD_LIMIT,
        ReqModel::Hmdel { table, keys } => encode_utf8(table).len() <= PAYLOAD_LIMIT && wf_strs(
            keys,
        ),
        ReqModel::Hexist { table, key } => encode_utf8(table).len() <= PAYLOAD_LIMIT
            && encode_utf8(key).len() <= PAYLOAD_LIMIT,
        ReqModel::Hmexist { table, keys } => encode_utf8(table).len() <= PAYLOAD_LIMIT && wf_strs(
            keys,
        ),
        ReqModel::Subscribe { topic } => encode_utf8(topic).len() <= PAYLOAD_LIMIT,
        ReqModel::Unsubscribe { topic, id: _ } => encode_utf8(topic).len() <= PAYLOAD_LIMIT,
        ReqModel::Publish { topic, data } => encode_utf8(topic).len() <= PAYLOAD_LIMIT
            && wf_values(data),
    }
}

/// A request is well formed when its parts and its whole encoding fit in one
/// frame.
pub open spec fn wf_req(m: Option<ReqModel>) -> bool {
    match m {
        None => true,
        Some(rm) => wf_sub(rm) && enc_req(m).len() <= PAYLOAD_LIMIT,
    }
}

/// Decodes a table name and a key filling `[i, end)` exactly.
pub open spec fn dec_table_key(d: Seq<u8>, i: int, end: int) -> Option<(Seq<char>, Seq<char>)> {
    match dec_str_field(d, i, end, 0x0a) {
        Some((t, j)) => match dec_str_field(d, j, end, 0x12) {
            Some((k, j2)) => if j2 == end {
                Some((t, k))
            } else {
                None
            },
            None => None,
        },
        None => None,
    }
}

/// Decodes a lone table name filling `[i, end)` exactly.
pub open spec fn dec_table(d: Seq<u8>, i: int, end: int) -> Option<Seq<char>> {
    match dec_str_field(d, i, end, 0x0a) {
        Some((t, j)) => if j == end {
            Some(t)
        } else {
            None
        },
        None => None,
    }
}

/// Decodes a table name and repeated keys filling `[i, end)` exactly.
pub open spec fn dec_table_keys(d: Seq<u8>, i: int, end: int) -> Option<
    (Seq<char>, Seq<Seq<char>>),
> {
    match dec_str_field(d, i, end, 0x0a) {
        Some((t, j)) => match dec_strs_rep(d, j, end, 0x12) {
            Some((ks, j2)) => if j2 == end {
                Some((t, ks))
            } else {
                None
            },
            None => None,
        },
        None => None,
    }
}

/// Decodes a table name and an optional pair filling `[i, end)` exactly.
pub open spec fn dec_hset_sub(d: Seq<u8>, i: int, end: int) -> Option<
    (Seq<char>, Option<KvpairModel>),
> {
    match dec_str_field(d, i, end, 0x0a) {
        Some((t, j)) => if j == end {
            Some((t, None))
        } else {
            match dec_len_field(d, j, end, 0x12) {
                Some((a, b)) => if b == end {
                    match dec_pair(d, a, b) {
                        Some(p) => Some((t, Some(p))),
                        None => None,
                    }
                } else {
                    None
                },
                None => None,
            }
        },
        None => None,
    }
}

/// Decodes a table name and repeated pairs filling `[i, end)` exactly.
pub open spec fn dec_hmset_sub(d: Seq<u8>, i: int, end: int) -> Option<
    (Seq<char>, Seq<KvpairModel>),
> {
    match dec_str_field(d, i, end, 0x0a) {
        Some((t, j)) => match dec_pairs_rep(d, j, end, 0x12) {
            Some((ps, j2)) => if j2 == end {
                Some((t, ps))
            } else {
                None
            },
            None => None,
        },
        None => None,
    }
}

/// Decodes a topic name and a subscription id filling `[i, end)` exactly.
pub open spec fn dec_unsub_sub(d: Seq<u8>, i: int, end: int) -> Option<(Seq<char>, u32)> {
    match dec_str_field(d, i, end, 0x0a) {
        Some((t, j)) => match dec_varint_field(d, j, end, 0x10) {
            Some((n, j2)) => if j2 == end && n <= 0xffff_ffff {
                Some((t, n as u32))
            } else {
                None
            },
            None => None,
        },
        None => None,
    }
}

/// Decodes a topic name and repeated values filling `[i, end)` exactly.
pub open spec fn dec_publish_sub(d: Seq<u8>, i: int, end: int) -> Option<
    (Seq<char>, Seq<ValueModel>),
> {
    match dec_str_field(d, i, end, 0x0a) {
        Some((t, j)) => match dec_values_rep(d, j, end, 0x12) {
            Some((vs, j2)) => if j2 == end {
                Some((t, vs))
            } else {
                None
            },
            None => None,
        },
        None => None,
    }
}

/// Decodes the command submessage selected by `tag`, filling `[i, end)`.
pub open spec fn dec_sub(d: Seq<u8>, i: int, end: int, tag: u8) -> Option<ReqModel> {
    if tag == 0x0a {
        match dec_table_key(d, i, end) {
            Some((t, k)) => Some(ReqModel::Hget { table: t, key: k }),
            None => None,
        }
    } else if tag == 0x12 {
        match dec_table(d, i, end) {
            Some(t) => Some(ReqModel::Hgetall { table: t }),
            None => None,
        }
    } else if tag == 0x1a {
        match dec_table_keys(d, i, end) {
            Some((t, ks)) => Some(ReqModel::Hmget { table: t, keys: ks }),
            None => None,
        }
    } else if tag == 0x22 {
        match dec_hset_sub(d, i, end) {
            Some((t, p)) => Some(ReqModel::Hset { table: t, pair: p }),
            None => None,
        }
    } else if tag == 0x2a {
        match dec_hmset_sub(d, i, end) {
            Some((t, ps)) => Some(ReqModel::Hmset { table: t, pairs: ps }),
            None => None,
        }
    } else if tag == 0x32 {
        match dec_table_key(d, i, end) {
            Some((t, k)) => Some(ReqModel::Hdel { table: t, key: k }),
            None => None,
        }
    } else if tag == 0x3a {
        match dec_table_keys(d, i, end) {
            Some((t, ks)) => Some(ReqModel::Hmdel { table: t, keys: ks }),
            None => None,
        }
    } else if tag == 0x42 {
        match dec_table_key(d, i, end) {
            Some((t, k)) => Some(ReqModel::Hexist { table: t, key: k }),
            None => None,
        }
    } else if tag == 0x4a {
        match dec_table_keys(d, i, end) {
            Some((t, ks)) => Some(ReqModel::Hmexist { table: t, keys: ks }),
            None => None,
        }
    } else if tag == 0x52 {
        match dec_table(d, i, end) {
            Some(t) => Some(ReqModel::Subscribe { topic: t }),
            None => None,
        }
    } else if tag == 0x5a {
        match dec_unsub_sub(d, i, end) {
            Some((t, id)) => Some(ReqModel::Unsubscribe { topic: t, id: id }),
            None => None,
        }
    } else if tag == 0x62 {
        match dec_publish_sub(d, i, end) {
            Some((t, vs)) => Some(ReqModel::Publish { topic: t, data: vs }),
            None => None,
        }
    } else {
        None
    }
}

/// Decodes a whole request payload.
pub open spec fn dec_req(d: Seq<u8>) -> Option<Option<ReqModel>> {
    if d.len() == 0 {
        Some(None)
    } else if is_req_tag(d[0]) {
        match dec_len_field(d, 0, d.len() as int, d[0]) {
            Some((a, b)) => if b == d.len() {
                match dec_sub(d, a, b, d[0]) {
                    Some(rm) => Some(Some(rm)),
                    None => None,
                }
            } else {
                None
            },
            None => None,
        }
    } else {
        None
    }
}

/// Decoding inverts encoding for whole requests.
pub proof fn lemma_dec_enc_req(m: Option<ReqModel>)
    requires
        wf_req(m),
    ensures
        dec_req(enc_req(m)) == Some(m),
{
    match m {
        None => {},
        Some(rm) => {
            let d = enc_req(m);
            let sub = enc_sub(rm);
            let tag = req_tag(rm);
            assert(d[0] == tag);
            assert(is_req_tag(tag));
            assert(d.subrange(0, d.len() as int) =~= d);
            assert(sub.len() < d.len());
            lemma_dec_enc_len_field(d, 0, d.len() as int, tag, sub);
            let a: int = 1 + enc_varint(sub.len()).len() as int;
            let b: int = a + sub.len() as int;
            assert(b == d.len());
            lemma_dec_enc_sub(d, a, b, rm);
        },
    }
}

/// Decoding inverts encoding for command submessages.
pub proof fn lemma_dec_enc_sub(d: Seq<u8>, i: int, end: int, rm: ReqModel)
    requires
        wf_sub(rm),
        0 <= i,
        end == i + enc_sub(rm).len(),
        end <= d.len(),
        d.subrange(i, end) == enc_sub(rm),
    ensures
        dec_sub(d, i, end, req_tag(rm)) == Some(rm),
{
    match rm {
        ReqModel::Hget { table, key } => {
            lemma_dec_table_key(d, i, end, table, key);
        },
        ReqModel::Hgetall { table } => {
            lemma_dec_enc_str_field(d, i, end, 0x0a, table);
        },
        ReqModel::Hmget { table, keys } => {
            lemma_dec_table_keys(d, i, end, table, keys);
        },
        ReqModel::Hset { table, pair } => {
            let ta = enc_str_field(0x0a, table);
            let pb = match pair {
                Some(p) => enc_len_field(0x12, enc_pair(p)),
                None => Seq::<u8>::empty(),
            };
            lemma_subrange_concat(d, i, ta, pb);
            lemma_dec_enc_str_field(d, i, end, 0x0a, table);
            let j = i + ta.len();
            match pair {
                None => {},
                Some(p) => {
                    lemma_dec_enc_len_field(d, j, end, 0x12, enc_pair(p));
                    let a = j + 1 + enc_varint(enc_pair(p).len()).len();
                    lemma_dec_enc_pair(d, a, end, p);
                },
            }
        },
        ReqModel::Hmset { table, pairs } => {
            let ta = enc_str_field(0x0a, table);
            let pb = enc_pairs_rep(0x12, pairs);
            lemma_subrange_concat(d, i, ta, pb);
            lemma_dec_enc_str_field(d, i, end, 0x0a, table);
            lemma_dec_enc_pairs_rep(d, i + ta.len(), end, 0x12, pairs);
        },
        ReqModel::Hdel { table, key } => {
            lemma_dec_table_key(d, i, end, table, key);
        },
        ReqModel::Hmdel { table, keys } => {
            lemma_dec_table_keys(d, i, end, table, keys);
        },
        ReqModel::Hexist { table, key } => {
            lemma_dec_table_key(d, i, end, table, key);
        },
        ReqModel::Hmexist { table, keys } => {
            lemma_dec_table_keys(d, i, end, table, keys);
        },
        ReqModel::Subscribe { topic } => {
            lemma_dec_enc_str_field(d, i, end, 0x0a, topic);
        },
        ReqModel::Unsubscribe { topic, id } => {
            let ta = enc_str_field(0x0a, topic);
            let ib = enc_varint_field(0x10, id as nat);
            lemma_subrange_concat(d, i, ta, ib);
            lemma_dec_enc_str_field(d, i, end, 0x0a, topic);
            lemma_dec_enc_varint_field(d, i + ta.len(), end, 0x10, id as nat);
        },
        ReqModel::Publish { topic, data } => {
            let ta = enc_str_field(0x0a, topic);
            let vb = enc_values_rep(0x12, data);
            lemma_subrange_concat(d, i, ta, vb);
            lemma_dec_enc_str_field(d, i, end, 0x0a, topic);
            lemma_dec_enc_values_rep(d, i + ta.len(), end, 0x12, data);
        },
    }
}

/// Decoding inverts encoding for the table-and-key shape.
proof fn lemma_dec_table_key(d: Seq<u8>, i: int, end: int, table: Seq<char>, key: Seq<char>)
    requires
        encode_utf8(table).len() <= PAYLOAD_LIMIT,
        encode_utf8(key).len() <= PAYLOAD_LIMIT,
        0 <= i,
        end == i + enc_str_field(0x0a, table).len() + enc_str_field(0x12, key).len(),
        end <= d.len(),
        d.subrange(i, end) == enc_str_field(0x0a, table) + enc_str_field(0x12, key),
    ensures
        dec_table_key(d, i, end) == Some((table, key)),
{
    let ta = enc_str_field(0x0a, table);
    let kb = enc_str_field(0x12, key);
    lemma_subrange_concat(d, i, ta, kb);
    lemma_dec_enc_str_field(d, i, end, 0x0a, table);
    lemma_dec_enc_str_field(d, i + ta.len(), end, 0x12, key);
}

/// Decoding inverts encoding for the table-and-keys shape.
proof fn lemma_dec_table_keys(d: Seq<u8>, i: int, end: int, table: Seq<char>, keys: Seq<Seq<char>>)
    requires
        encode_utf8(table).len() <= PAYLOAD_LIMIT,
        wf_strs(keys),
        0 <= i,
        end == i + enc_str_field(0x0a, table).len() + enc_strs_rep(0x12, keys).len(),
        end <= d.len(),
        d.subrange(i, end) == enc_str_field(0x0a, table) + enc_strs_rep(0x12, keys),
    ensures
        dec_table_keys(d, i, end) == Some((table, keys)),
{
    let ta = enc_str_field(0x0a, table);
    let kb = enc_strs_rep(0x12, keys);
    lemma_subrange_concat(d, i, ta, kb);
    lemma_dec_enc_str_field(d, i, end, 0x0a, table);
    lemma_dec_enc_strs_rep(d, i + ta.len(), end, 0x12, keys);
}

/// The canonical encoding of a response payload: status, message, values,
/// pairs, in tag order, every field emitted.
pub open spec fn enc_resp(r: RespModel) -> Seq<u8> {
    enc_varint_field(0x08, r.status as nat) + enc_str_field(0x12, r.message) + enc_values_rep(
        0x1a,
        r.values,
    ) + enc_pairs_rep(0x22, r.pairs)
}

/// A response is well formed when all its parts fit in one frame.
pub open spec fn wf_resp(r: RespModel) -> bool {
    &&& encode_utf8(r.message).len() <= PAYLOAD_LIMIT
    &&& wf_values(r.values)
    &&& wf_pairs(r.pairs)
}

/// Decodes a whole response payload.
pub open spec fn dec_resp(d: Seq<u8>) -> Option<RespModel> {
    let end = d.len() as int;
    match dec_varint_field(d, 0, end, 0x08) {
        Some((n, j)) => if n <= 0xffff_ffff {
            match dec_str_field(d, j, end, 0x12) {
                Some((msg, j2)) => match dec_values_rep(d, j2, end, 0x1a) {
                    Some((vs, j3)) => match dec_pairs_rep(d, j3, end, 0x22) {
                        Some((ps, j4)) => if j4 == end {
                            Some(
                                RespModel {
                                    status: n as u32,
                                    message: msg,
                                    values: vs,
                                    pairs: ps,
                                },
                            )
                        } else {
                            None
                        },
                        None => None,
                    },
                    None => None,
                },
                None => None,
            }
        } else {
            None
        },
        None => None,
    }
}

/// Decoding inverts encoding for whole responses.
pub proof fn lemma_dec_enc_resp(r: RespModel)
    requires
        wf_resp(r),
    ensures
        dec_resp(enc_resp(r)) == Some(r),
{
    let d = enc_resp(r);
    let fa = enc_varint_field(0x08, r.status as nat);
    let fb = enc_str_field(0x12, r.message);
    let fc = enc_values_rep(0x1a, r.values);
    let fd = enc_pairs_rep(0x22, r.pairs);
    let end = d.len() as int;
    assert(d =~= fa + (fb + (fc + fd)));
    assert(d.subrange(0, end) =~= d);
    lemma_subrange_concat(d, 0, fa, fb + (fc + fd));
    lemma_dec_enc_varint_field(d, 0, end, 0x08, r.status as nat);
    let j: int = fa.len() as int;
    lemma_subrange_concat(d, j, fb, fc + fd);
    lemma_dec_enc_str_field(d, j, end, 0x12, r.message);
    let j2: int = j + fb.len() as int;
    lemma_subrange_concat(d, j2, fc, fd);
    let j3: int = j2 + fc.len() as int;
    if r.pairs.len() == 0 {
        assert(j3 == end);
    } else {
        assert(d[j3] == fd[0]);
        assert(fd[0] == 0x22);
    }
    lemma_dec_enc_values_rep(d, j2, end, 0x1a, r.values);
    lemma_dec_enc_pairs_rep(d, j3, end, 0x22, r.pairs);
}

/// Appends the canonical encoding of `req` to `buf`.
pub fn encode_request(req: &CommandRequest, buf: &mut Vec<u8>)
    ensures
        final(buf)@ == old(buf)@ + enc_req(req@),
{
    let ghost pre = buf@;
    match &req.request_data {
        None => {
            assert(buf@ =~= pre + enc_req(req@));
        },
        Some(rd) => {
            let mut sub: Vec<u8> = Vec::new();
            let tag: u8 = match rd {
                RequestData::Hget(c) => {
                    encode_str_field(0x0a, &c.table, &mut sub);
                    encode_str_field(0x12, &c.key, &mut sub);
                    proof {
                        assert(sub@ =~= enc_sub(rd@));
                    }
                    0x0a
                },
                RequestData::Hgetall(c) => {
                    encode_str_field(0x0a, &c.table, &mut sub);
                    proof {
                        assert(sub@ =~= enc_sub(rd@));
                    }
                    0x12
                },
                RequestData::Hmget(c) => {
                    encode_str_field(0x0a, &c.table, &mut sub);
                    encode_strs_from(0x12, &c.keys, 0, &mut sub);
                    proof {
                        assert(view_strings(c.keys@.skip(0)) =~= view_strings(c.keys@));
                        assert(sub@ =~= enc_sub(rd@));
                    }
                    0x1a
                },
                RequestData::Hset(c) => {
                    encode_str_field(0x0a, &c.table, &mut sub);
                    match &c.pair {
                        None => {},
                        Some(p) => {
                            let mut tmp: Vec<u8> = Vec::new();
                            encode_pair(p, &mut tmp);
                            encode_len_field(0x12, tmp, &mut sub);
                        },
                    }
                    proof {
                        assert(sub@ =~= enc_sub(rd@));
                    }
                    0x22
                },
                RequestData::Hmset(c) => {
                    encode_str_field(0x0a, &c.table, &mut sub);
                    encode_pairs_from(0x12, &c.pairs, 0, &mut sub);
                    proof {
                        assert(view_pairs(c.pairs@.skip(0)) =~= view_pairs(c.pairs@));
                        assert(sub@ =~= enc_sub(rd@));
                    }
                    0x2a
                },
                RequestData::Hdel(c) => {
                    encode_str_field(0x0a, &c.table, &mut sub);
                    encode_str_field(0x12, &c.key, &mut sub);
                    proof {
                        assert(sub@ =~= enc_sub(rd@));
                    }
                    0x32
                },
                RequestData::Hmdel(c) => {
                    encode_str_field(0x0a, &c.table, &mut sub);
                    encode_strs_from(0x12, &c.keys, 0, &mut sub);
                    proof {
                        assert(view_strings(c.keys@.skip(0)) =~= view_strings(c.keys@));
                        assert(sub@ =~= enc_sub(rd@));
                    }
                    0x3a
                },
                RequestData::Hexist(c) => {
                    encode_str_field(0x0a, &c.table, &mut sub);
                    encode_str_field(0x12, &c.key, &mut sub);
                    proof {
                        assert(sub@ =~= enc_sub(rd@));
                    }
                    0x42
                },
                RequestData::Hmexist(c) => {
                    encode_str_field(0x0a, &c.table, &mut sub);
                    encode_strs_from(0x12, &c.keys, 0, &mut sub);
                    proof {
                        assert(view_strings(c.keys@.skip(0)) =~= view_strings(c.keys@));
                        assert(sub@ =~= enc_sub(rd@));
                    }
                    0x4a
                },
                RequestData::Subscribe(c) => {
                    encode_str_field(0x0a, &c.topic, &mut sub);
                    proof {
                        assert(sub@ =~= enc_sub(rd@));
                    }
                    0x52
                },
                RequestData::Unsubscribe(c) => {
                    encode_str_field(0x0a, &c.topic, &mut sub);
                    encode_varint_field(0x10, c.id as u64, &mut sub);
                    proof {
                        assert(sub@ =~= enc_sub(rd@));
                    }
                    0x5a
                },
                RequestData::Publish(c) => {
                    encode_str_field(0x0a, &c.topic, &mut sub);
                    encode_values_from(0x12, &c.data, 0, &mut sub);
                    proof {
                        assert(view_values(c.data@.skip(0)) =~= view_values(c.data@));
                        assert(sub@ =~= enc_sub(rd@));
                    }
                    0x62
                },
            };
            proof {
                assert(tag == req_tag(rd@));
            }
            encode_len_field(tag, sub, buf);
            assert(buf@ =~= pre + enc_req(req@));
        },
    }
}

/// Reads a table name and a key; mirrors `dec_table_key`.
fn decode_table_key(d: &Vec<u8>, i: usize, end: usize) -> (r: Result<(String, String), KvError>)
    requires
        i <= end <= d@.len(),
    ensures
        match r {
            Ok(p) => dec_table_key(d@, i as int, end as int) == Some((p.0@, p.1@)),
            Err(_) => dec_table_key(d@, i as int, end as int) is None,
        },
{
    match decode_str_field(d, i, end, 0x0a) {
        Err(e) => Err(e),
        Ok((t, j)) => match decode_str_field(d, j, end, 0x12) {
            Err(e) => Err(e),
            Ok((k, j2)) => if j2 == end {
                Ok((t, k))
            } else {
                Err(KvError::DecodeError)
            },
        },
    }
}

/// Reads a lone table name; mirrors `dec_table`.
fn decode_table(d: &Vec<u8>, i: usize, end: usize) -> (r: Result<String, KvError>)
    requires
        i <= end <= d@.len(),
    ensures
        match r {
            Ok(t) => dec_table(d@, i as int, end as int) == Some(t@),
            Err(_) => dec_table(d@, i as int, end as int) is None,
        },
{
    match decode_str_field(d, i, end, 0x0a) {
        Err(e) => Err(e),
        Ok((t, j)) => if j == end {
            Ok(t)
        } else {
            Err(KvError::DecodeError)
        },
    }
}

/// Reads a table name and repeated keys; mirrors `dec_table_keys`.
fn decode_table_keys(d: &Vec<u8>, i: usize, end: usize) -> (r: Result<
    (String, Vec<String>),
    KvError,
>)
    requires
        i <= end <= d@.len(),
    ensures
        match r {
            Ok(p) => dec_table_keys(d@, i as int, end as int) == Some((p.0@, view_strings(p.1@))),
            Err(_) => dec_table_keys(d@, i as int, end as int) is None,
        },
{
    match decode_str_field(d, i, end, 0x0a) {
        Err(e) => Err(e),
        Ok((t, j)) => match decode_strs_rep(d, j, end, 0x12) {
            Err(e) => Err(e),
            Ok((ks, j2)) => if j2 == end {
                Ok((t, ks))
            } else {
                Err(KvError::DecodeError)
            },
        },
    }
}

/// Reads a table name and an optional pair; mirrors `dec_hset_sub`.
fn decode_hset_sub(d: &Vec<u8>, i: usize, end: usize) -> (r: Result<
    (String, Option<Kvpair>),
    KvError,
>)
    requires
        i <= end <= d@.len(),
    ensures
        match r {
            Ok(p) => ({
                let pv = match p.1 {
                    Some(q) => Some(q@),
                    None => None,
                };
                dec_hset_sub(d@, i as int, end as int) == Some((p.0@, pv))
            }),
            Err(_) => dec_hset_sub(d@, i as int, end as int) is None,
        },
{
    match decode_str_field(d, i, end, 0x0a) {
        Err(e) => Err(e),
        Ok((t, j)) => {
            if j == end {
                Ok((t, None))
            } else {
                match decode_len_field(d, j, end, 0x12) {
                    Err(e) => Err(e),
                    Ok((a, b)) => if b == end {
                        match decode_pair(d, a, b) {
                            Err(e) => Err(e),
                            Ok(p) => Ok((t, Some(p))),
                        }
                    } else {
                        Err(KvError::DecodeError)
                    },
                }
            }
        },
    }
}

/// Reads a table name and repeated pairs; mirrors `dec_hmset_sub`.
fn decode_hmset_sub(d: &Vec<u8>, i: usize, end: usize) -> (r: Result<
    (String, Vec<Kvpair>),
    KvError,
>)
    requires
        i <= end <= d@.len(),
    ensures
        match r {
            Ok(p) => dec_hmset_sub(d@, i as int, end as int) == Some((p.0@, view_pairs(p.1@))),
            Err(_) => dec_hmset_sub(d@, i as int, end as int) is None,
        },
{
    match decode_str_field(d, i, end, 0x0a) {
        Err(e) => Err(e),
        Ok((t, j)) => match decode_pairs_rep(d, j, end, 0x12) {
            Err(e) => Err(e),
            Ok((ps, j2)) => if j2 == end {
                Ok((t, ps))
            } else {
                Err(KvError::DecodeError)
            },
        },
    }
}

/// Reads a topic name and a subscription id; mirrors `dec_unsub_sub`.
fn decode_unsub_sub(d: &Vec<u8>, i: usize, end: usize) -> (r: Result<(String, u32), KvError>)
    requires
        i <= end <= d@.len(),
    ensures
        match r {
            Ok(p) => dec_unsub_sub(d@, i as int, end as int) == Some((p.0@, p.1)),
            Err(_) => dec_unsub_sub(d@, i as int, end as int) is None,
        },
{
    match decode_str_field(d, i, end, 0x0a) {
        Err(e) => Err(e),
        Ok((t, j)) => match decode_varint_field(d, j, end, 0x10) {
            Err(e) => Err(e),
            Ok((n, j2)) => if j2 == end && n <= 0xffff_ffff {
                Ok((t, n as u32))
            } else {
                Err(KvError::DecodeError)
            },
        },
    }
}

/// Reads a topic name and repeated values; mirrors `dec_publish_sub`.
fn decode_publish_sub(d: &Vec<u8>, i: usize, end: usize) -> (r: Result<
    (String, Vec<Value>),
    KvError,
>)
    requires
        i <= end <= d@.len(),
    ensures
        match r {
            Ok(p) => dec_publish_sub(d@, i as int, end as int) == Some((p.0@, view_values(p.1@))),
            Err(_) => dec_publish_sub(d@, i as int, end as int) is None,
        },
{
    match decode_str_field(d, i, end, 0x0a) {
        Err(e) => Err(e),
        Ok((t, j)) => match decode_values_rep(d, j, end, 0x12) {
            Err(e) => Err(e),
            Ok((vs, j2)) => if j2 == end {
                Ok((t, vs))
            } else {
                Err(KvError::DecodeError)
            },
        },
    }
}

/// Reads a whole request payload; mirrors `dec_req`.
pub fn decode_request(d: &Vec<u8>) -> (r: Result<CommandRequest, KvError>)
    ensures
        match r {
            Ok(c) => dec_req(d@) == Some(c@),
            Err(_) => dec_req(d@) is None,
        },
{
    let n = d.len();
    if n == 0 {
        return Ok(CommandRequest { request_data: None });
    }
    let t = d[0];
    let valid: bool = t == 0x0a || t == 0x12 || t == 0x1a || t == 0x22 || t == 0x2a || t == 0x32
        || t == 0x3a || t == 0x42 || t == 0x4a || t == 0x52 || t == 0x5a || t == 0x62;
    if !valid {
        return Err(KvError::DecodeError);
    }
    match decode_len_field(d, 0, n, t) {
        Err(e) => Err(e),
        Ok((a, b)) => {
            if b != n {
                return Err(KvError::DecodeError);
            }
            if t == 0x0a {
                match decode_table_key(d, a, b) {
                    Err(e) => Err(e),
                    Ok((table, key)) => Ok(
                        CommandRequest {
                            request_data: Some(RequestData::Hget(Hget { table, key })),
                        },
                    ),
                }
            } else if t == 0x12 {
                match decode_table(d, a, b) {
                    Err(e) => Err(e),
                    Ok(table) => Ok(
                        CommandRequest {
                            request_data: Some(RequestData::Hgetall(Hgetall { table })),
                        },
                    ),
                }
            } else if t == 0x1a {
                match decode_table_keys(d, a, b) {
                    Err(e) => Err(e),
                    Ok((table, keys)) => Ok(
                        CommandRequest {
                            request_data: Some(RequestData::Hmget(Hmget { table, keys })),
                        },
                    ),
                }
            } else if t == 0x22 {
                match decode_hset_sub(d, a, b) {
                    Err(e) => Err(e),
                    Ok((table, pair)) => Ok(
                        CommandRequest {
                            request_data: Some(RequestData::Hset(Hset { table, pair })),
                        },
                    ),
                }
            } else if t == 0x2a {
                match decode_hmset_sub(d, a, b) {
                    Err(e) => Err(e),
                    Ok((table, pairs)) => Ok(
                        CommandRequest {
                            request_data: Some(RequestData::Hmset(Hmset { table, pairs })),
                        },
                    ),
                }
            } else if t == 0x32 {
                match decode_table_key(d, a, b) {
                    Err(e) => Err(e),
                    Ok((table, key)) => Ok(
                        CommandRequest {
                            request_data: Some(RequestData::Hdel(Hdel { table, key })),
                        },
                    ),
                }
            } else if t == 0x3a {
                match decode_table_keys(d, a, b) {
                    Err(e) => Err(e),
                    Ok((table, keys)) => Ok(
                        CommandRequest {
                            request_data: Some(RequestData::Hmdel(Hmdel { table, keys })),
                        },
                    ),
                }
            } else if t == 0x42 {
                match decode_table_key(d, a, b) {
                    Err(e) => Err(e),
                    Ok((table, key)) => Ok(
                        CommandRequest {
                            request_data: Some(RequestData::Hexist(Hexist { table, key })),
                        },
                    ),
                }
            } else if t == 0x4a {
                match decode_table_keys(d, a, b) {
                    Err(e) => Err(e),
                    Ok((table, keys)) => Ok(
                        CommandRequest {
                            request_data: Some(RequestData::Hmexist(Hmexist { table, keys })),
                        },
                    ),
                }
            } else if t == 0x52 {
                match decode_table(d, a, b) {
                    Err(e) => Err(e),
                    Ok(topic) => Ok(
                        CommandRequest {
                            request_data: Some(RequestData::Subscribe(Subscribe { topic })),
                        },
                    ),
                }
            } else if t == 0x5a {
                match decode_unsub_sub(d, a, b) {
                    Err(e) => Err(e),
                    Ok((topic, id)) => Ok(
                        CommandRequest {
                            request_data: Some(RequestData::Unsubscribe(Unsubscribe { topic, id })),
                        },
                    ),
                }
            } else {
                match decode_publish_sub(d, a, b) {
                    Err(e) => Err(e),
                    Ok((topic, data)) => Ok(
                        CommandRequest {
                            request_data: Some(RequestData::Publish(Publish { topic, data })),
                        },
                    ),
                }
            }
        },
    }
}

/// Appends the canonical encoding of `resp` to `buf`.
pub fn encode_response(resp: &CommandResponse, buf: &mut Vec<u8>)
    ensures
        final(buf)@ == old(buf)@ + enc_resp(resp@),
{
    let ghost pre = buf@;
    encode_varint_field(0x08, resp.status as u64, buf);
    encode_str_field(0x12, &resp.message, buf);
    encode_values_from(0x1a, &resp.values, 0, buf);
    encode_pairs_from(0x22, &resp.pairs, 0, buf);
    proof {
        assert(view_values(resp.values@.skip(0)) =~= view_values(resp.values@));
        assert(view_pairs(resp.pairs@.skip(0)) =~= view_pairs(resp.pairs@));
        assert(buf@ =~= pre + enc_resp(resp@));
    }
}

/// Reads a whole response payload; mirrors `dec_resp`.
pub fn decode_response(d: &Vec<u8>) -> (r: Result<CommandResponse, KvError>)
    ensures
        match r {
            Ok(c) => dec_resp(d@) == Some(c@),
            Err(_) => dec_resp(d@) is None,
        },
{
    let n = d.len();
    match decode_varint_field(d, 0, n, 0x08) {
        Err(e) => Err(e),
        Ok((s, j)) => {
            if s > 0xffff_ffff {
                return Err(KvError::DecodeError);
            }
            match decode_str_field(d, j, n, 0x12) {
                Err(e) => Err(e),
                Ok((message, j2)) => match decode_values_rep(d, j2, n, 0x1a) {
                    Err(e) => Err(e),
                    Ok((values, j3)) => match decode_pairs_rep(d, j3, n, 0x22) {
                        Err(e) => Err(e),
                        Ok((pairs, j4)) => if j4 == n {
                            Ok(CommandResponse { status: s as u32, message, values, pairs })
                        } else {
                            Err(KvError::DecodeError)
                        },
                    },
                },
            }
        },
    }
}

} // verus!
