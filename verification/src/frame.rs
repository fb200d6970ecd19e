//! The framing codec: a frame is a 4-byte big-endian header followed by the
//! payload. The header's high bit marks a gzip-compressed payload; the low
//! 31 bits carry the payload's byte length. Payloads longer than
//! `COMPRESSION_LIMIT` are compressed before framing.

use vstd::prelude::*;
use crate::abi::{CommandRequest, CommandResponse, ReqModel, RespModel};
use crate::codec::{
    enc_req, dec_req, enc_resp, dec_resp, wf_req, wf_resp, encode_request, decode_request,
    encode_response, decode_response, lemma_dec_enc_req, lemma_dec_enc_resp,
};
use crate::error::KvError;
use crate::payload::PAYLOAD_LIMIT;
use crate::wire::copy_range;

verus! {

/// Number of bytes in a frame header.
pub const LEN_LEN: usize = 4;

/// The header's high bit marks a compressed payload.
pub const COMPRESSION_BIT: usize = 0x8000_0000;

/// Payloads longer than this many bytes are gzip-compressed: the threshold
/// keeps uncompressed frames within a typical Ethernet MTU minus overhead.
pub const COMPRESSION_LIMIT: usize = 1436;

/// Splits a raw frame header into the payload length (low 31 bits) and the
/// compression flag (high bit).
pub fn decode_header(header: usize) -> (r: (usize, bool))
    ensures
        r.0 == header & 0x7fff_ffff,
        r.1 == ((header & 0x8000_0000) == 0x8000_0000),
{
    let len: usize = header & 0x7fff_ffff;
    let compressed: bool = header & 0x8000_0000 == 0x8000_0000;
    (len, compressed)
}

/// What a well-formed gzip stream inflates to; what flate2's decoder returns.
pub uninterp spec fn gunzip_of(s: Seq<u8>) -> Option<Seq<u8>>;

/// The gzip stream flate2's encoder produces for a byte sequence at the
/// default level. It writes a fixed header (zero timestamp, the
/// operating-system byte pinned for reproducible streams) over the pure-Rust
/// deflate backend, so the output depends on the input bytes alone.
pub uninterp spec fn gzip_of(s: Seq<u8>) -> Seq<u8>;

/// Relies on flate2's `write::GzEncoder` at the default level: its output is
/// a function of the input bytes alone and a gzip stream that inflates back
/// to exactly the input. Writing through the encoder into a `Vec` cannot
/// fail, so this call always succeeds.
#[verifier::external_body]
fn gzip_compress(data: &Vec<u8>) -> (r: Vec<u8>)
    ensures
        r@ == gzip_of(data@),
        gunzip_of(r@) == Some(data@),
{
    let mut enc = flate2::write::GzEncoder::new(Vec::new(), flate2::Compression::default());
    std::io::Write::write_all(&mut enc, &data[..]).expect("a Vec accepts every write");
    enc.finish().expect("a Vec accepts every write")
}

/// Relies on flate2's `read::GzDecoder`: it succeeds exactly on well-formed
/// gzip input and returns the bytes the stream inflates to.
#[verifier::external_body]
fn gzip_decompress(data: &Vec<u8>) -> (r: Result<Vec<u8>, KvError>)
    ensures
        match r {
            Ok(b) => gunzip_of(data@) == Some(b@),
            Err(_) => gunzip_of(data@) is None,
        },
{
    let mut dec = flate2::read::GzDecoder::new(&data[..]);
    let mut out = Vec::new();
    match std::io::Read::read_to_end(&mut dec, &mut out) {
        Ok(_) => Ok(out),
        Err(_) => Err(KvError::DecodeError),
    }
}

/// The 4-byte big-endian representation of a header word.
pub open spec fn be32(x: u32) -> Seq<u8> {
    seq![
        (x >> 24) as u8,
        ((x >> 16) & 0xff) as u8,
        ((x >> 8) & 0xff) as u8,
        (x & 0xff) as u8,
    ]
}

/// The header word spelled by 4 big-endian bytes.
pub open spec fn be32_val(b: Seq<u8>) -> u32
    recommends
        b.len() == 4,
{
    ((b[0] as u32) << 24) | ((b[1] as u32) << 16) | ((b[2] as u32) << 8) | (b[3] as u32)
}

/// Reading the four bytes back gives the word they were made from.
pub proof fn lemma_be32_roundtrip(x: u32)
    ensures
        be32_val(be32(x)) == x,
{
    assert(((((x >> 24) as u8) as u32) << 24) | (((((x >> 16) & 0xff) as u8) as u32) << 16) | ((((
    (x >> 8) & 0xff) as u8) as u32) << 8) | (((x & 0xff) as u8) as u32) == x) by (bit_vector);
}

/// Appends the 4 big-endian bytes of `x` to `buf`.
fn push_be32(x: u32, buf: &mut Vec<u8>)
    ensures
        final(buf)@ == old(buf)@ + be32(x),
{
    let ghost pre = buf@;
    assert(x >> 24 <= 0xff && (x >> 16) & 0xff <= 0xff && (x >> 8) & 0xff <= 0xff && x & 0xff
        <= 0xff) by (bit_vector);
    buf.push((x >> 24) as u8);
    buf.push(((x >> 16) & 0xff) as u8);
    buf.push(((x >> 8) & 0xff) as u8);
    buf.push((x & 0xff) as u8);
    assert(buf@ =~= pre + be32(x));
}

/// Reads the big-endian word at `[i, i + 4)`.
fn read_be32(d: &Vec<u8>, i: usize) -> (x: u32)
    requires
        i + 4 <= d@.len(),
    ensures
        x == be32_val(d@.subrange(i as int, i as int + 4)),
{
    let n = d.len();
    let x = ((d[i] as u32) << 24) | ((d[i + 1] as u32) << 16) | ((d[i + 2] as u32) << 8) | (d[i
        + 3] as u32);
    proof {
        let s = d@.subrange(i as int, i as int + 4);
        assert(s[0] == d@[i as int] && s[1] == d@[i as int + 1] && s[2] == d@[i as int + 2] && s[3]
            == d@[i as int + 3]);
    }
    x
}

/// The payload a whole frame carries, when the frame is well formed: the
/// header's length must match the body, and a compressed body must be a
/// well-formed gzip stream.
pub open spec fn frame_payload(d: Seq<u8>) -> Option<Seq<u8>> {
    if d.len() < 4 {
        None
    } else {
        let hdr = be32_val(d.subrange(0, 4));
        if d.len() != 4 + (hdr & 0x7fff_ffff) {
            None
        } else if hdr >= 0x8000_0000 {
            gunzip_of(d.subrange(4, d.len() as int))
        } else {
            Some(d.subrange(4, d.len() as int))
        }
    }
}

/// What a frame decodes to as a request.
pub open spec fn dec_req_frame(d: Seq<u8>) -> Option<Option<ReqModel>> {
    match frame_payload(d) {
        Some(p) => dec_req(p),
        None => None,
    }
}

/// What a frame decodes to as a response.
pub open spec fn dec_resp_frame(d: Seq<u8>) -> Option<RespModel> {
    match frame_payload(d) {
        Some(p) => dec_resp(p),
        None => None,
    }
}

/// The frame around a payload at or under the compression threshold: the
/// length word, then the payload itself, uncompressed.
pub open spec fn enc_frame_plain(p: Seq<u8>) -> Seq<u8>
    recommends
        p.len() <= COMPRESSION_LIMIT,
{
    be32(p.len() as u32) + p
}

/// Unwrapping inverts wrapping for uncompressed frames.
pub proof fn lemma_plain_frame_round_trip(p: Seq<u8>)
    requires
        p.len() <= COMPRESSION_LIMIT,
    ensures
        frame_payload(enc_frame_plain(p)) == Some(p),
{
    let hdr = p.len() as u32;
    let d = enc_frame_plain(p);
    assert(hdr & 0x7fff_ffff == hdr && hdr < 0x8000_0000) by (bit_vector)
        requires
            hdr <= 1436,
    ;
    lemma_be32_roundtrip(hdr);
    assert(d.subrange(0, 4) =~= be32(hdr));
    assert(d.subrange(4, d.len() as int) =~= p);
}

/// Framing round trip for commands, at the level of the models: a
/// well-formed command that fits in an uncompressed frame decodes back from
/// its own frame. (Frames over the threshold are compressed; their round
/// trip is the contract of `CommandRequest::encode_frame`.)
pub proof fn lemma_request_frame_round_trip(m: Option<ReqModel>)
    requires
        wf_req(m),
        enc_req(m).len() <= COMPRESSION_LIMIT,
    ensures
        dec_req_frame(enc_frame_plain(enc_req(m))) == Some(m),
{
    lemma_plain_frame_round_trip(enc_req(m));
    lemma_dec_enc_req(m);
}

/// Framing round trip for responses, at the level of the models; see
/// `lemma_request_frame_round_trip`.
pub proof fn lemma_response_frame_round_trip(r: RespModel)
    requires
        wf_resp(r),
        enc_resp(r).len() <= COMPRESSION_LIMIT,
    ensures
        dec_resp_frame(enc_frame_plain(enc_resp(r))) == Some(r),
{
    lemma_plain_frame_round_trip(enc_resp(r));
    lemma_dec_enc_resp(r);
}

/// Appends one frame carrying `payload` to `buf`. It fails exactly when the
/// payload, or (over the compression threshold) its compressed form, does not
/// fit in 31 bits; in particular a payload at or under the threshold always
/// frames.
fn frame_wrap(payload: Vec<u8>, buf: &mut Vec<u8>) -> (r: Result<(), KvError>)
    ensures
        match r {
            Ok(_) => {
                &&& old(buf)@.len() + 4 <= final(buf)@.len()
                &&& final(buf)@.subrange(0, old(buf)@.len() as int) == old(buf)@
                &&& frame_payload(final(buf)@.skip(old(buf)@.len() as int)) == Some(payload@)
                &&& (final(buf)@[old(buf)@.len() as int] >= 0x80) <==> (payload@.len()
                    > COMPRESSION_LIMIT)
            },
            Err(_) => *final(buf) == *old(buf),
        },
        r is Err <==> (payload@.len() > COMPRESSION_LIMIT && (payload@.len() > PAYLOAD_LIMIT
            || gzip_of(payload@).len() > PAYLOAD_LIMIT)),
        r matches Err(e) ==> e == KvError::FrameError,
{
    let ghost pre = buf@;
    let len = payload.len();
    if len <= COMPRESSION_LIMIT {
        let hdr: u32 = len as u32;
        assert(hdr & 0x7fff_ffff == hdr && hdr < 0x8000_0000 && ((hdr >> 24) as u8) < 0x80) by (bit_vector)
            requires
                hdr <= 1436,
        ;
        push_be32(hdr, buf);
        let ghost p0 = payload@;
        let mut p = payload;
        buf.append(&mut p);
        proof {
            lemma_be32_roundtrip(hdr);
            let out = buf@.skip(pre.len() as int);
            assert(out =~= be32(hdr) + p0);
            assert(out.subrange(0, 4) =~= be32(hdr));
            assert(out.subrange(4, out.len() as int) =~= p0);
            assert(buf@.subrange(0, pre.len() as int) =~= pre);
            assert(buf@[pre.len() as int] == be32(hdr)[0]);
        }
        Ok(())
    } else {
        if len > PAYLOAD_LIMIT {
            return Err(KvError::FrameError);
        }
        let z = gzip_compress(&payload);
        if z.len() > PAYLOAD_LIMIT {
            return Err(KvError::FrameError);
        }
        let zl: u32 = z.len() as u32;
        let hdr: u32 = zl | 0x8000_0000;
        assert(hdr & 0x7fff_ffff == zl && hdr >= 0x8000_0000 && ((hdr >> 24) as u8) >= 0x80) by (
        bit_vector)
            requires
                zl <= 0x7fff_ffff && hdr == zl | 0x8000_0000,
        ;
        push_be32(hdr, buf);
        let ghost z0 = z@;
        let mut zz = z;
        buf.append(&mut zz);
        proof {
            lemma_be32_roundtrip(hdr);
            let out = buf@.skip(pre.len() as int);
            assert(out =~= be32(hdr) + z0);
            assert(out.subrange(0, 4) =~= be32(hdr));
            assert(out.subrange(4, out.len() as int) =~= z0);
            assert(buf@.subrange(0, pre.len() as int) =~= pre);
            assert(buf@[pre.len() as int] == be32(hdr)[0]);
        }
        Ok(())
    }
}

/// Extracts the payload of the frame that fills `buf` exactly.
fn frame_unwrap(buf: &Vec<u8>) -> (r: Result<Vec<u8>, KvError>)
    ensures
        match r {
            Ok(p) => frame_payload(buf@) == Some(p@),
            Err(_) => frame_payload(buf@) is None,
        },
{
    let n = buf.len();
    if n < 4 {
        return Err(KvError::FrameError);
    }
    let hdr = read_be32(buf, 0);
    let (len, compressed) = decode_header(hdr as usize);
    proof {
        assert((hdr as usize) & 0x7fff_ffff == hdr & 0x7fff_ffff && (((hdr as usize) & 0x8000_0000)
            == 0x8000_0000) == (hdr >= 0x8000_0000) && hdr & 0x7fff_ffff <= 0x7fff_ffff) by (
        bit_vector);
    }
    if n - 4 != len {
        return Err(KvError::FrameError);
    }
    let body = copy_range(buf, 4, n);
    if compressed {
        gzip_decompress(&body)
    } else {
        Ok(body)
    }
}

impl CommandRequest {
    /// Encodes `self` as one frame appended to `buf`. On success the new
    /// bytes form a frame that decodes back to `self`, and the frame is
    /// compressed exactly when the encoded command is longer than
    /// `COMPRESSION_LIMIT`. Encoding fails exactly when the command, or
    /// (over the threshold) its compressed form, does not fit in 31 bits.
    pub fn encode_frame(&self, buf: &mut Vec<u8>) -> (r: Result<(), KvError>)
        ensures
            match r {
                Ok(_) => {
                    &&& old(buf)@.len() + 4 <= final(buf)@.len()
                    &&& final(buf)@.subrange(0, old(buf)@.len() as int) == old(buf)@
                    &&& frame_payload(final(buf)@.skip(old(buf)@.len() as int)) == Some(
                        enc_req(self@),
                    )
                    &&& (final(buf)@[old(buf)@.len() as int] >= 0x80) <==> (enc_req(self@).len()
                        > COMPRESSION_LIMIT)
                    &&& wf_req(self@) ==> dec_req_frame(final(buf)@.skip(old(buf)@.len() as int))
                        == Some(self@)
                },
                Err(_) => *final(buf) == *old(buf),
            },
            r is Err <==> (enc_req(self@).len() > COMPRESSION_LIMIT && (enc_req(self@).len()
                > PAYLOAD_LIMIT || gzip_of(enc_req(self@)).len() > PAYLOAD_LIMIT)),
            r matches Err(e) ==> e == KvError::FrameError,
    {
        let mut payload: Vec<u8> = Vec::new();
        encode_request(self, &mut payload);
        proof {
            if wf_req(self@) {
                lemma_dec_enc_req(self@);
            }
        }
        frame_wrap(payload, buf)
    }

    /// Decodes the frame that fills `buf` exactly.
    pub fn decode_frame(buf: &Vec<u8>) -> (r: Result<CommandRequest, KvError>)
        ensures
            match r {
                Ok(c) => dec_req_frame(buf@) == Some(c@),
                Err(_) => dec_req_frame(buf@) is None,
            },
    {
        match frame_unwrap(buf) {
            Err(e) => Err(e),
            Ok(payload) => decode_request(&payload),
        }
    }
}

impl CommandResponse {
    /// Encodes `self` as one frame appended to `buf`; see
    /// `CommandRequest::encode_frame`.
    pub fn encode_frame(&self, buf: &mut Vec<u8>) -> (r: Result<(), KvError>)
        ensures
            match r {
                Ok(_) => {
                    &&& old(buf)@.len() + 4 <= final(buf)@.len()
                    &&& final(buf)@.subrange(0, old(buf)@.len() as int) == old(buf)@
                    &&& frame_payload(final(buf)@.skip(old(buf)@.len() as int)) == Some(
                        enc_resp(self@),
                    )
                    &&& (final(buf)@[old(buf)@.len() as int] >= 0x80) <==> (enc_resp(self@).len()
                        > COMPRESSION_LIMIT)
                    &&& wf_resp(self@) ==> dec_resp_frame(final(buf)@.skip(old(buf)@.len() as int))
                        == Some(self@)
                },
                Err(_) => *final(buf) == *old(buf),
            },
            r is Err <==> (enc_resp(self@).len() > COMPRESSION_LIMIT && (enc_resp(self@).len()
                > PAYLOAD_LIMIT || gzip_of(enc_resp(self@)).len() > PAYLOAD_LIMIT)),
            r matches Err(e) ==> e == KvError::FrameError,
    {
        let mut payload: Vec<u8> = Vec::new();
        encode_response(self, &mut payload);
        proof {
            if wf_resp(self@) {
                lemma_dec_enc_resp(self@);
            }
        }
        frame_wrap(payload, buf)
    }

    /// Decodes the frame that fills `buf` exactly.
    pub fn decode_frame(buf: &Vec<u8>) -> (r: Result<CommandResponse, KvError>)
        ensures
            match r {
                Ok(c) => dec_resp_frame(buf@) == Some(c@),
                Err(_) => dec_resp_frame(buf@) is None,
            },
    {
        match frame_unwrap(buf) {
            Err(e) => Err(e),
            Ok(payload) => decode_response(&payload),
        }
    }
}

} // verus!
