//! The wire codec: a packed, length-prefixed serialization of the
//! request/response schema.
//!
//! Every frame is a 64-bit little-endian payload length followed by
//! the payload. A payload is one request or one response:
//!
//! - request: sequence, space, then a one-byte operation tag (read,
//!   write or subscribe) and the operation's byte strings;
//! - response: sequence, then a one-byte body tag (ok, ok-with-data or
//!   delivery) and the body's byte strings.
//!
//! Integers are 64-bit little-endian; a byte string is its length
//! followed by its bytes; the space is its UTF-8 bytes as a byte
//! string. An unknown tag, a short field or trailing bytes fail the
//! decode. The spec functions `parse_*` are the grammar; each decoder
//! is proved to return exactly what the grammar says on every input.

use vstd::arithmetic::div_mod::{
    lemma_basic_div, lemma_div_denominator, lemma_fundamental_div_mod,
};
use vstd::prelude::*;

verus! {

/// The eight little-endian bytes of a 64-bit integer.
pub open spec fn u64_le(v: u64) -> Seq<u8> {
    seq![
        (v as int % 256) as u8,
        (v as int / 0x100 % 256) as u8,
        (v as int / 0x10000 % 256) as u8,
        (v as int / 0x1000000 % 256) as u8,
        (v as int / 0x100000000 % 256) as u8,
        (v as int / 0x10000000000 % 256) as u8,
        (v as int / 0x1000000000000 % 256) as u8,
        (v as int / 0x100000000000000 % 256) as u8,
    ]
}

/// The 64-bit integer read from eight little-endian bytes.
pub open spec fn u64_of_le(s: Seq<u8>) -> u64 {
    (s[0] as int + s[1] as int * 0x100 + s[2] as int * 0x10000 + s[3] as int * 0x1000000 + s[4]
        as int * 0x100000000 + s[5] as int * 0x10000000000 + s[6] as int * 0x1000000000000 + s[7]
        as int * 0x100000000000000) as u64
}

/// Reading back the eight bytes of an integer yields the integer.
pub proof fn lemma_u64_le_round_trip(v: u64)
    ensures
        u64_of_le(u64_le(v)) == v,
{
    let x = v as int;
    lemma_fundamental_div_mod(x, 0x100);
    lemma_div_denominator(x, 0x100, 0x100);
    lemma_fundamental_div_mod(x / 0x100, 0x100);
    lemma_div_denominator(x, 0x10000, 0x100);
    lemma_fundamental_div_mod(x / 0x10000, 0x100);
    lemma_div_denominator(x, 0x1000000, 0x100);
    lemma_fundamental_div_mod(x / 0x1000000, 0x100);
    lemma_div_denominator(x, 0x100000000, 0x100);
    lemma_fundamental_div_mod(x / 0x100000000, 0x100);
    lemma_div_denominator(x, 0x10000000000, 0x100);
    lemma_fundamental_div_mod(x / 0x10000000000, 0x100);
    lemma_div_denominator(x, 0x1000000000000, 0x100);
    lemma_fundamental_div_mod(x / 0x1000000000000, 0x100);
    lemma_div_denominator(x, 0x100000000000000, 0x100);
    lemma_fundamental_div_mod(x / 0x100000000000000, 0x100);
    lemma_basic_div(x, 0x10000000000000000);
}

/// Append the eight little-endian bytes of `v`.
pub fn push_u64(out: &mut Vec<u8>, v: u64)
    ensures
        final(out)@ == old(out)@ + u64_le(v),
{
    out.push((v % 256) as u8);
    out.push((v / 0x100 % 256) as u8);
    out.push((v / 0x10000 % 256) as u8);
    out.push((v / 0x1000000 % 256) as u8);
    out.push((v / 0x100000000 % 256) as u8);
    out.push((v / 0x10000000000 % 256) as u8);
    out.push((v / 0x1000000000000 % 256) as u8);
    out.push((v / 0x100000000000000 % 256) as u8);
    proof {
        assert(out@ =~= old(out)@ + u64_le(v));
    }
}

/// A 64-bit integer parsed at `pos`: the value and the position after
/// it, or nothing where fewer than eight bytes remain.
pub open spec fn parse_u64(s: Seq<u8>, pos: int) -> Option<(u64, int)> {
    if 0 <= pos && pos + 8 <= s.len() {
        Some((u64_of_le(s.subrange(pos, pos + 8)), pos + 8))
    } else {
        None
    }
}

/// Read the 64-bit little-endian integer at `pos`.
pub fn read_u64(buf: &[u8], pos: usize) -> (r: Option<(u64, usize)>)
    requires
        pos <= buf@.len(),
    ensures
        match r {
            Some((v, p)) => parse_u64(buf@, pos as int) == Some((v, p as int)),
            None => parse_u64(buf@, pos as int) is None,
        },
{
    if buf.len() - pos < 8 {
        return None;
    }
    let v: u64 = (buf[pos] as u64) + (buf[pos + 1] as u64) * 0x100 + (buf[pos + 2] as u64)
        * 0x10000 + (buf[pos + 3] as u64) * 0x1000000 + (buf[pos + 4] as u64) * 0x100000000 + (
    buf[pos + 5] as u64) * 0x10000000000 + (buf[pos + 6] as u64) * 0x1000000000000 + (buf[pos
        + 7] as u64) * 0x100000000000000;
    proof {
        let sub = buf@.subrange(pos as int, pos + 8);
        assert(sub[0] == buf@[pos as int]);
        assert(sub[1] == buf@[pos + 1]);
        assert(sub[2] == buf@[pos + 2]);
        assert(sub[3] == buf@[pos + 3]);
        assert(sub[4] == buf@[pos + 4]);
        assert(sub[5] == buf@[pos + 5]);
        assert(sub[6] == buf@[pos + 6]);
        assert(sub[7] == buf@[pos + 7]);
    }
    Some((v, pos + 8))
}

/// A byte string encoded as its length followed by its bytes.
pub open spec fn enc_bytes(b: Seq<u8>) -> Seq<u8> {
    u64_le(b.len() as u64) + b
}

/// A byte string parsed at `pos`: its bytes and the position after
/// them, or nothing where the length or the bytes are short.
pub open spec fn parse_bytes(s: Seq<u8>, pos: int) -> Option<(Seq<u8>, int)> {
    match parse_u64(s, pos) {
        Some((n, p)) => if p + n <= s.len() {
            Some((s.subrange(p, p + n), p + n))
        } else {
            None
        },
        None => None,
    }
}

/// Append `b` as a length-prefixed byte string.
pub fn push_bytes(out: &mut Vec<u8>, b: &[u8])
    ensures
        final(out)@ == old(out)@ + enc_bytes(b@),
{
    push_u64(out, b.len() as u64);
    let mut i: usize = 0;
    while i < b.len()
        invariant
            i <= b@.len(),
            out@ == old(out)@ + u64_le(b@.len() as u64) + b@.take(i as int),
        decreases b@.len() - i,
    {
        out.push(b[i]);
        proof {
            assert(out@ =~= old(out)@ + u64_le(b@.len() as u64) + b@.take(i + 1));
        }
        i = i + 1;
    }
    proof {
        assert(b@.take(b@.len() as int) =~= b@);
        assert(out@ =~= old(out)@ + enc_bytes(b@));
    }
}

/// Read the length-prefixed byte string at `pos`.
pub fn read_bytes(buf: &[u8], pos: usize) -> (r: Option<(Vec<u8>, usize)>)
    requires
        pos <= buf@.len(),
    ensures
        match r {
            Some((b, p)) => {
                &&& parse_bytes(buf@, pos as int) is Some
                &&& b@ == parse_bytes(buf@, pos as int)->Some_0.0
                &&& p as int == parse_bytes(buf@, pos as int)->Some_0.1
                &&& p <= buf@.len()
            },
            None => parse_bytes(buf@, pos as int) is None,
        },
{
    match read_u64(buf, pos) {
        Some((n, p)) => {
            if n <= (buf.len() - p) as u64 {
                let end = p + (n as usize);
                let b = vstd::slice::slice_to_vec(vstd::slice::slice_subrange(buf, p, end));
                Some((b, end))
            } else {
                None
            }
        },
        None => None,
    }
}

/// Parsing an encoded integer back out of any surrounding bytes
/// yields the integer.
pub proof fn lemma_parse_u64_in_context(s: Seq<u8>, pos: int, v: u64)
    requires
        0 <= pos,
        pos + 8 <= s.len(),
        s.subrange(pos, pos + 8) == u64_le(v),
    ensures
        parse_u64(s, pos) == Some((v, pos + 8)),
{
    lemma_u64_le_round_trip(v);
}

/// Parsing an encoded byte string back out of any surrounding bytes
/// yields the byte string.
pub proof fn lemma_parse_bytes_in_context(s: Seq<u8>, pos: int, b: Seq<u8>)
    requires
        0 <= pos,
        b.len() < 0x10000000000000000,
        pos + 8 + b.len() <= s.len(),
        s.subrange(pos, pos + 8 + b.len()) == enc_bytes(b),
    ensures
        parse_bytes(s, pos) == Some((b, pos + 8 + b.len())),
{
    let enc = enc_bytes(b);
    assert(s.subrange(pos, pos + 8) =~= enc.subrange(0, 8));
    assert(enc.subrange(0, 8) =~= u64_le(b.len() as u64));
    lemma_parse_u64_in_context(s, pos, b.len() as u64);
    assert(s.subrange(pos + 8, pos + 8 + b.len()) =~= enc.subrange(8, 8 + b.len() as int));
    assert(enc.subrange(8, 8 + b.len() as int) =~= b);
}

} // verus!

// === Requests on the wire ===

use vstd::utf8::{decode_utf8, encode_utf8, valid_utf8};

use crate::error::YakError;
use crate::message::{Operation, OperationView, Request, RequestView};

verus! {

/// Tag byte of a read operation.
pub const TAG_READ: u8 = 0;

/// Tag byte of a write operation.
pub const TAG_WRITE: u8 = 1;

/// Tag byte of a subscribe operation.
pub const TAG_SUBSCRIBE: u8 = 2;

/// The encoding of an operation: its tag byte and its byte strings.
pub open spec fn spec_encode_operation(op: OperationView) -> Seq<u8> {
    match op {
        OperationView::Read { key } => seq![TAG_READ] + enc_bytes(key),
        OperationView::Write { key, value } => seq![TAG_WRITE] + enc_bytes(key) + enc_bytes(value),
        OperationView::Subscribe => seq![TAG_SUBSCRIBE],
    }
}

/// The encoding of a request: sequence number, space, operation.
pub open spec fn spec_encode_request(r: RequestView) -> Seq<u8> {
    u64_le(r.sequence) + enc_bytes(encode_utf8(r.space)) + spec_encode_operation(r.operation)
}

/// The operation parsed at `pos`, which must reach the payload's end.
pub open spec fn parse_operation(s: Seq<u8>, pos: int) -> Option<OperationView> {
    if 0 <= pos < s.len() {
        let tag = s[pos];
        if tag == TAG_READ {
            match parse_bytes(s, pos + 1) {
                Some((key, p)) => if p == s.len() {
                    Some(OperationView::Read { key })
                } else {
                    None
                },
                None => None,
            }
        } else if tag == TAG_WRITE {
            match parse_bytes(s, pos + 1) {
                Some((key, p)) => match parse_bytes(s, p) {
                    Some((value, q)) => if q == s.len() {
                        Some(OperationView::Write { key, value })
                    } else {
                        None
                    },
                    None => None,
                },
                None => None,
            }
        } else if tag == TAG_SUBSCRIBE {
            if pos + 1 == s.len() {
                Some(OperationView::Subscribe)
            } else {
                None
            }
        } else {
            None
        }
    } else {
        None
    }
}

/// The request a whole payload decodes to, if any: the grammar of
/// request payloads.
pub open spec fn parse_request(s: Seq<u8>) -> Option<RequestView> {
    match parse_u64(s, 0) {
        Some((seqno, p1)) => match parse_bytes(s, p1) {
            Some((sp, p2)) => if valid_utf8(sp) {
                match parse_operation(s, p2) {
                    Some(op) => Some(
                        RequestView { sequence: seqno, space: decode_utf8(sp), operation: op },
                    ),
                    None => None,
                }
            } else {
                None
            },
            None => None,
        },
        None => None,
    }
}

/// Relies on `String::from_utf8`: it returns the string of exactly
/// the given bytes when they are valid UTF-8, and an error otherwise.
#[verifier::external_body]
fn bytes_to_string(b: Vec<u8>) -> (r: Option<String>)
    ensures
        r is Some <==> valid_utf8(b@),
        r is Some ==> encode_utf8(r->Some_0@) == b@,
{
    String::from_utf8(b).ok()
}

impl Request {
    /// Encode this request as one payload.
    pub fn encode(&self) -> (r: Vec<u8>)
        ensures
            r@ == spec_encode_request(self@),
    {
        let mut out: Vec<u8> = Vec::new();
        push_u64(&mut out, self.sequence);
        push_bytes(&mut out, self.space.as_str().as_bytes());
        match &self.operation {
            Operation::Read { key } => {
                out.push(TAG_READ);
                push_bytes(&mut out, key.as_slice());
            },
            Operation::Write { key, value } => {
                out.push(TAG_WRITE);
                push_bytes(&mut out, key.as_slice());
                push_bytes(&mut out, value.as_slice());
            },
            Operation::Subscribe => {
                out.push(TAG_SUBSCRIBE);
            },
        }
        proof {
            assert(out@ =~= spec_encode_request(self@));
        }
        out
    }

    /// Decode one payload as a request: exactly the grammar
    /// [`parse_request`], with a codec error where it fails.
    pub fn decode(buf: &[u8]) -> (r: Result<Request, YakError>)
        ensures
            r is Ok <==> parse_request(buf@) is Some,
            r is Ok ==> r->Ok_0@ == parse_request(buf@)->Some_0,
            r is Err ==> r == Err::<Request, YakError>(YakError::CodecError),
    {
        let (seqno, p1) = match read_u64(buf, 0) {
            Some(x) => x,
            None => {
                return Err(YakError::CodecError);
            },
        };
        let (sp_bytes, p2) = match read_bytes(buf, p1) {
            Some(x) => x,
            None => {
                return Err(YakError::CodecError);
            },
        };
        let space = match bytes_to_string(sp_bytes) {
            Some(s) => s,
            None => {
                return Err(YakError::CodecError);
            },
        };
        proof {
            vstd::utf8::encode_utf8_decode_utf8(space@);
        }
        if p2 >= buf.len() {
            return Err(YakError::CodecError);
        }
        let tag = buf[p2];
        if tag == TAG_READ {
            match read_bytes(buf, p2 + 1) {
                Some((key, p)) => {
                    if p == buf.len() {
                        Ok(Request { sequence: seqno, space, operation: Operation::Read { key } })
                    } else {
                        Err(YakError::CodecError)
                    }
                },
                None => Err(YakError::CodecError),
            }
        } else if tag == TAG_WRITE {
            match read_bytes(buf, p2 + 1) {
                Some((key, p)) => {
                    match read_bytes(buf, p) {
                        Some((value, q)) => {
                            if q == buf.len() {
                                Ok(
                                    Request {
                                        sequence: seqno,
                                        space,
                                        operation: Operation::Write { key, value },
                                    },
                                )
                            } else {
                                Err(YakError::CodecError)
                            }
                        },
                        None => Err(YakError::CodecError),
                    }
                },
                None => Err(YakError::CodecError),
            }
        } else if tag == TAG_SUBSCRIBE {
            if p2 + 1 == buf.len() {
                Ok(Request { sequence: seqno, space, operation: Operation::Subscribe })
            } else {
                Err(YakError::CodecError)
            }
        } else {
            Err(YakError::CodecError)
        }
    }
}

} // verus!

// === Responses on the wire ===

use crate::message::{Datum, DatumView, Response, ResponseView};

verus! {

/// Tag byte of a plain acknowledgment.
pub const TAG_OK: u8 = 0;

/// Tag byte of an acknowledgment carrying read data.
pub const TAG_OK_DATA: u8 = 1;

/// Tag byte of a delivery to a subscriber.
pub const TAG_DELIVERY: u8 = 2;

/// The concatenated encoding of read values. Only the content of each
/// datum is carried; the key is not.
pub open spec fn enc_values(data: Seq<DatumView>) -> Seq<u8>
    decreases data.len(),
{
    if data.len() == 0 {
        Seq::empty()
    } else {
        enc_bytes(data.first().content) + enc_values(data.drop_first())
    }
}

/// The encoding of a response: sequence number, body tag, body. A
/// delivery carries no sequence number of its own; zero stands in its
/// place.
pub open spec fn spec_encode_response(r: ResponseView) -> Seq<u8> {
    match r {
        ResponseView::Okay(seqno) => u64_le(seqno) + seq![TAG_OK],
        ResponseView::OkayData(seqno, data) => u64_le(seqno) + seq![TAG_OK_DATA] + u64_le(
            data.len() as u64,
        ) + enc_values(data),
        ResponseView::Delivery(d) => u64_le(0u64) + seq![TAG_DELIVERY] + enc_bytes(d.key)
            + enc_bytes(d.content),
    }
}

/// `count` read values parsed at `pos`. Each decoded datum carries an
/// empty key: the wire format does not carry keys for read data.
pub open spec fn parse_values(s: Seq<u8>, pos: int, count: int) -> Option<(Seq<DatumView>, int)>
    decreases count,
{
    if count <= 0 {
        Some((Seq::empty(), pos))
    } else {
        match parse_bytes(s, pos) {
            Some((content, p)) => match parse_values(s, p, count - 1) {
                Some((rest, pe)) => Some(
                    (seq![DatumView { key: Seq::empty(), content }] + rest, pe),
                ),
                None => None,
            },
            None => None,
        }
    }
}

/// The response a whole payload decodes to, if any: the grammar of
/// response payloads.
pub open spec fn parse_response(s: Seq<u8>) -> Option<ResponseView> {
    match parse_u64(s, 0) {
        Some((seqno, p1)) => if p1 < s.len() {
            let tag = s[p1];
            let p2 = p1 + 1;
            if tag == TAG_OK {
                if p2 == s.len() {
                    Some(ResponseView::Okay(seqno))
                } else {
                    None
                }
            } else if tag == TAG_OK_DATA {
                match parse_u64(s, p2) {
                    Some((count, p3)) => match parse_values(s, p3, count as int) {
                        Some((data, pe)) => if pe == s.len() {
                            Some(ResponseView::OkayData(seqno, data))
                        } else {
                            None
                        },
                        None => None,
                    },
                    None => None,
                }
            } else if tag == TAG_DELIVERY {
                match parse_bytes(s, p2) {
                    Some((key, p3)) => match parse_bytes(s, p3) {
                        Some((content, p4)) => if p4 == s.len() {
                            Some(ResponseView::Delivery(DatumView { key, content }))
                        } else {
                            None
                        },
                        None => None,
                    },
                    None => None,
                }
            } else {
                None
            }
        } else {
            None
        },
        None => None,
    }
}

/// Appending one datum to a batch appends its encoding.
#[verifier::rlimit(100)]
proof fn lemma_enc_values_push(data: Seq<DatumView>, d: DatumView)
    ensures
        enc_values(data.push(d)) == enc_values(data) + enc_bytes(d.content),
    decreases data.len(),
{
    let whole = data.push(d);
    assert(whole.first() == if data.len() == 0 {
        d
    } else {
        data.first()
    });
    if data.len() == 0 {
        assert(whole.drop_first() =~= Seq::<DatumView>::empty());
        assert(enc_values(whole) == enc_bytes(d.content) + enc_values(Seq::<DatumView>::empty()));
        assert(enc_bytes(d.content) + Seq::<u8>::empty() =~= enc_bytes(d.content));
        assert(Seq::<u8>::empty() + enc_bytes(d.content) =~= enc_bytes(d.content));
    } else {
        lemma_enc_values_push(data.drop_first(), d);
        assert(whole.drop_first() =~= data.drop_first().push(d));
        assert(enc_values(whole) == enc_bytes(data.first().content) + (enc_values(
            data.drop_first(),
        ) + enc_bytes(d.content)));
        vstd::seq_lib::lemma_concat_associative(
            enc_bytes(data.first().content),
            enc_values(data.drop_first()),
            enc_bytes(d.content),
        );
    }
}

impl Response {
    /// Encode this response as one payload.
    pub fn encode(&self) -> (r: Vec<u8>)
        ensures
            r@ == spec_encode_response(self@),
    {
        let mut out: Vec<u8> = Vec::new();
        match self {
            Response::Okay(seqno) => {
                push_u64(&mut out, *seqno);
                out.push(TAG_OK);
                proof {
                    assert(out@ =~= spec_encode_response(self@));
                }
            },
            Response::OkayData(seqno, data) => {
                push_u64(&mut out, *seqno);
                out.push(TAG_OK_DATA);
                push_u64(&mut out, data.len() as u64);
                let ghost head = out@;
                let mut i: usize = 0;
                while i < data.len()
                    invariant
                        i <= data@.len(),
                        out@ == head + enc_values(data.deep_view().take(i as int)),
                    decreases data@.len() - i,
                {
                    push_bytes(&mut out, data[i].content.as_slice());
                    proof {
                        lemma_enc_values_push(
                            data.deep_view().take(i as int),
                            data.deep_view()[i as int],
                        );
                        assert(data.deep_view().take(i + 1) =~= data.deep_view().take(
                            i as int,
                        ).push(data.deep_view()[i as int]));
                    }
                    i = i + 1;
                }
                proof {
                    assert(data.deep_view().take(data@.len() as int) =~= data.deep_view());
                    assert(out@ =~= spec_encode_response(self@));
                }
            },
            Response::Delivery(d) => {
                push_u64(&mut out, 0u64);
                out.push(TAG_DELIVERY);
                push_bytes(&mut out, d.key.as_slice());
                push_bytes(&mut out, d.content.as_slice());
                proof {
                    assert(out@ =~= spec_encode_response(self@));
                }
            },
        }
        out
    }

    /// Decode one payload as a response: exactly the grammar
    /// [`parse_response`], with a codec error where it fails.
    pub fn decode(buf: &[u8]) -> (r: Result<Response, YakError>)
        ensures
            r is Ok <==> parse_response(buf@) is Some,
            r is Ok ==> r->Ok_0@ == parse_response(buf@)->Some_0,
            r is Err ==> r == Err::<Response, YakError>(YakError::CodecError),
    {
        let (seqno, p1) = match read_u64(buf, 0) {
            Some(x) => x,
            None => {
                return Err(YakError::CodecError);
            },
        };
        if p1 >= buf.len() {
            return Err(YakError::CodecError);
        }
        let tag = buf[p1];
        let p2 = p1 + 1;
        if tag == TAG_OK {
            if p2 == buf.len() {
                Ok(Response::Okay(seqno))
            } else {
                Err(YakError::CodecError)
            }
        } else if tag == TAG_OK_DATA {
            let (count, p3) = match read_u64(buf, p2) {
                Some(x) => x,
                None => {
                    return Err(YakError::CodecError);
                },
            };
            let mut data: Vec<Datum> = Vec::new();
            let mut pos = p3;
            let mut rem = count;
            while rem > 0
                invariant
                    pos <= buf@.len(),
                    data.deep_view().len() + rem == count,
                    match parse_values(buf@, pos as int, rem as int) {
                        Some((rest, pe)) => parse_values(buf@, p3 as int, count as int) == Some(
                            (data.deep_view() + rest, pe),
                        ),
                        None => parse_values(buf@, p3 as int, count as int) is None,
                    },
                    parse_response(buf@) == (match parse_values(buf@, p3 as int, count as int) {
                        Some((whole, pe)) => if pe == buf@.len() {
                            Some(ResponseView::OkayData(seqno, whole))
                        } else {
                            None
                        },
                        None => None::<ResponseView>,
                    }),
                decreases rem,
            {
                match read_bytes(buf, pos) {
                    Some((content, p)) => {
                        let ghost data0 = data.deep_view();
                        let ghost content0 = content@;
                        data.push(Datum { key: Vec::new(), content });
                        proof {
                            assert(data.deep_view() =~= data0.push(
                                DatumView { key: Seq::empty(), content: content0 },
                            ));
                            assert(data0.push(
                                DatumView { key: Seq::empty(), content: content0 },
                            ) + parse_values(buf@, p as int, rem - 1)->Some_0.0 =~= data0 + (seq![
                                DatumView { key: Seq::empty(), content: content0 },
                            ] + parse_values(buf@, p as int, rem - 1)->Some_0.0));
                        }
                        pos = p;
                    },
                    None => {
                        return Err(YakError::CodecError);
                    },
                }
                rem = rem - 1;
            }
            proof {
                assert(data.deep_view() + Seq::<DatumView>::empty() =~= data.deep_view());
            }
            if pos == buf.len() {
                Ok(Response::OkayData(seqno, data))
            } else {
                Err(YakError::CodecError)
            }
        } else if tag == TAG_DELIVERY {
            match read_bytes(buf, p2) {
                Some((key, p3)) => {
                    match read_bytes(buf, p3) {
                        Some((content, p4)) => {
                            if p4 == buf.len() {
                                Ok(Response::Delivery(Datum { key, content }))
                            } else {
                                Err(YakError::CodecError)
                            }
                        },
                        None => Err(YakError::CodecError),
                    }
                },
                None => Err(YakError::CodecError),
            }
        } else {
            Err(YakError::CodecError)
        }
    }
}

} // verus!

// === Framing, and the codec's round-trip laws ===

verus! {

/// A payload framed for the byte stream: its length, then its bytes.
/// The frame convention is the same length prefix as a byte string.
pub fn encode_frame(payload: &[u8]) -> (r: Vec<u8>)
    ensures
        r@ == enc_bytes(payload@),
{
    let mut out: Vec<u8> = Vec::new();
    push_bytes(&mut out, payload);
    proof {
        assert(out@ =~= enc_bytes(payload@));
    }
    out
}

/// The payload length announced by a frame's eight-byte header.
pub fn frame_len(header: &[u8]) -> (n: u64)
    requires
        header@.len() == 8,
    ensures
        n == u64_of_le(header@),
{
    match read_u64(header, 0) {
        Some((v, _)) => {
            proof {
                assert(header@.subrange(0, 8) =~= header@);
            }
            v
        },
        None => {
            proof {
                assert(false);
            }
            0
        },
    }
}

/// Framing round-trip: a framed payload parsed back out of the byte
/// stream, whatever follows it, is the payload.
pub proof fn lemma_frame_round_trip(payload: Seq<u8>, rest: Seq<u8>)
    requires
        payload.len() < 0x10000000000000000,
    ensures
        parse_bytes(enc_bytes(payload) + rest, 0) == Some((payload, 8 + payload.len() as int)),
{
    let s = enc_bytes(payload) + rest;
    assert(s.subrange(0, 8 + payload.len() as int) =~= enc_bytes(payload));
    lemma_parse_bytes_in_context(s, 0, payload);
}

/// A request is well formed when each of its byte strings has a
/// length its encoding can carry. Every request held in memory is.
pub open spec fn wf_request(r: RequestView) -> bool {
    &&& encode_utf8(r.space).len() < 0x10000000000000000
    &&& match r.operation {
        OperationView::Read { key } => key.len() < 0x10000000000000000,
        OperationView::Write { key, value } => key.len() < 0x10000000000000000 && value.len()
            < 0x10000000000000000,
        OperationView::Subscribe => true,
    }
}

/// Request framing round-trip: decoding the encoding of any well
/// formed request yields the request.
#[verifier::rlimit(100)]
pub proof fn lemma_request_round_trip(r: RequestView)
    requires
        wf_request(r),
    ensures
        parse_request(spec_encode_request(r)) == Some(r),
{
    let spb = encode_utf8(r.space);
    let s = spec_encode_request(r);
    assert(s.subrange(0, 8) =~= u64_le(r.sequence));
    lemma_parse_u64_in_context(s, 0, r.sequence);
    let p1 = 8;
    assert(s.subrange(p1, p1 + 8 + spb.len()) =~= enc_bytes(spb));
    lemma_parse_bytes_in_context(s, p1, spb);
    let p2 = p1 + 8 + spb.len() as int;
    vstd::utf8::encode_utf8_valid_utf8(r.space);
    vstd::utf8::encode_utf8_decode_utf8(r.space);
    match r.operation {
        OperationView::Read { key } => {
            assert(s[p2] == TAG_READ);
            assert(s.subrange(p2 + 1, p2 + 1 + 8 + key.len()) =~= enc_bytes(key));
            lemma_parse_bytes_in_context(s, p2 + 1, key);
            assert(p2 + 1 + 8 + key.len() == s.len());
        },
        OperationView::Write { key, value } => {
            assert(s[p2] == TAG_WRITE);
            assert(s.subrange(p2 + 1, p2 + 1 + 8 + key.len()) =~= enc_bytes(key));
            lemma_parse_bytes_in_context(s, p2 + 1, key);
            let p3 = p2 + 1 + 8 + key.len() as int;
            assert(s.subrange(p3, p3 + 8 + value.len()) =~= enc_bytes(value));
            lemma_parse_bytes_in_context(s, p3, value);
            assert(p3 + 8 + value.len() == s.len());
        },
        OperationView::Subscribe => {
            assert(s[p2] == TAG_SUBSCRIBE);
            assert(p2 + 1 == s.len());
        },
    }
}

/// The datum a decoder hands back for an encoded read value: the
/// content with an empty key.
pub open spec fn content_only(d: DatumView) -> DatumView {
    DatumView { key: Seq::empty(), content: d.content }
}

/// A response whose read data went through the wire: the wire format
/// carries no keys for read data, so each decoded datum carries an
/// empty key. Deliveries and plain acknowledgments are untouched.
pub open spec fn key_defaulted(r: ResponseView) -> ResponseView {
    match r {
        ResponseView::OkayData(seqno, data) => ResponseView::OkayData(
            seqno,
            data.map_values(|d: DatumView| content_only(d)),
        ),
        _ => r,
    }
}

/// A response is well formed when each byte string and the data count
/// have lengths its encoding can carry. Every response held in memory
/// is.
pub open spec fn wf_response(r: ResponseView) -> bool {
    match r {
        ResponseView::Okay(_) => true,
        ResponseView::OkayData(_, data) => data.len() < 0x10000000000000000 && forall|i: int|
            0 <= i < data.len() ==> (#[trigger] data[i]).content.len() < 0x10000000000000000,
        ResponseView::Delivery(d) => d.key.len() < 0x10000000000000000 && d.content.len()
            < 0x10000000000000000,
    }
}

/// Parsing an encoded batch of read values back out of any
/// surrounding bytes yields the values, each under an empty key.
proof fn lemma_parse_values_in_context(s: Seq<u8>, pos: int, data: Seq<DatumView>)
    requires
        0 <= pos,
        forall|i: int| 0 <= i < data.len() ==> (#[trigger] data[i]).content.len()
            < 0x10000000000000000,
        pos + enc_values(data).len() <= s.len(),
        s.subrange(pos, pos + enc_values(data).len()) == enc_values(data),
    ensures
        parse_values(s, pos, data.len() as int) == Some(
            (
                data.map_values(|d: DatumView| content_only(d)),
                pos + enc_values(data).len() as int,
            ),
        ),
    decreases data.len(),
{
    if data.len() == 0 {
        assert(data.map_values(|d: DatumView| content_only(d)) =~= Seq::<DatumView>::empty());
    } else {
        let c0 = data.first().content;
        let rest = data.drop_first();
        assert(data[0].content.len() < 0x10000000000000000);
        assert(s.subrange(pos, pos + 8 + c0.len()) =~= enc_bytes(c0));
        lemma_parse_bytes_in_context(s, pos, c0);
        let p = pos + 8 + c0.len() as int;
        assert(forall|i: int| 0 <= i < rest.len() ==> (#[trigger] rest[i]).content.len()
            < 0x10000000000000000);
        let enc = enc_values(data);
        assert(enc == enc_bytes(c0) + enc_values(rest));
        assert forall|i: int| 0 <= i < enc_values(rest).len() implies s[p + i] == enc_values(
            rest,
        )[i] by {
            assert(s.subrange(pos, pos + enc.len() as int)[8 + c0.len() + i] == enc[8 + c0.len()
                + i]);
        }
        assert(s.subrange(p, p + enc_values(rest).len()) =~= enc_values(rest));
        lemma_parse_values_in_context(s, p, rest);
        assert(seq![DatumView { key: Seq::empty(), content: c0 }] + rest.map_values(
            |d: DatumView| content_only(d),
        ) =~= data.map_values(|d: DatumView| content_only(d)));
    }
}

proof fn lemma_response_round_trip_okay(seqno: u64)
    ensures
        parse_response(spec_encode_response(ResponseView::Okay(seqno))) == Some(
            ResponseView::Okay(seqno),
        ),
{
    let s = spec_encode_response(ResponseView::Okay(seqno));
    assert(s.subrange(0, 8) =~= u64_le(seqno));
    lemma_parse_u64_in_context(s, 0, seqno);
    assert(s[8] == TAG_OK);
    assert(s.len() == 9);
}

#[verifier::rlimit(100)]
proof fn lemma_response_round_trip_okay_data(seqno: u64, data: Seq<DatumView>)
    requires
        wf_response(ResponseView::OkayData(seqno, data)),
    ensures
        parse_response(spec_encode_response(ResponseView::OkayData(seqno, data))) == Some(
            key_defaulted(ResponseView::OkayData(seqno, data)),
        ),
{
    let s = spec_encode_response(ResponseView::OkayData(seqno, data));
    assert(s.subrange(0, 8) =~= u64_le(seqno));
    lemma_parse_u64_in_context(s, 0, seqno);
    assert(s[8] == TAG_OK_DATA);
    assert(s.subrange(9, 17) =~= u64_le(data.len() as u64));
    lemma_parse_u64_in_context(s, 9, data.len() as u64);
    assert(s.subrange(17, 17 + enc_values(data).len() as int) =~= enc_values(data));
    lemma_parse_values_in_context(s, 17, data);
    assert(17 + enc_values(data).len() == s.len());
}

#[verifier::rlimit(100)]
proof fn lemma_response_round_trip_delivery(d: DatumView)
    requires
        wf_response(ResponseView::Delivery(d)),
    ensures
        parse_response(spec_encode_response(ResponseView::Delivery(d))) == Some(
            ResponseView::Delivery(d),
        ),
{
    let s = spec_encode_response(ResponseView::Delivery(d));
    assert(s.subrange(0, 8) =~= u64_le(0u64));
    lemma_parse_u64_in_context(s, 0, 0u64);
    assert(s[8] == TAG_DELIVERY);
    assert(s.subrange(9, 9 + 8 + d.key.len() as int) =~= enc_bytes(d.key));
    lemma_parse_bytes_in_context(s, 9, d.key);
    let p3 = 9 + 8 + d.key.len() as int;
    assert(s.subrange(p3, p3 + 8 + d.content.len()) =~= enc_bytes(d.content));
    lemma_parse_bytes_in_context(s, p3, d.content);
    assert(p3 + 8 + d.content.len() == s.len());
}

/// Response framing round-trip: decoding the encoding of any well
/// formed response yields the response, except that read data comes
/// back under empty keys, which the wire format does not carry.
pub proof fn lemma_response_round_trip(r: ResponseView)
    requires
        wf_response(r),
    ensures
        parse_response(spec_encode_response(r)) == Some(key_defaulted(r)),
{
    match r {
        ResponseView::Okay(seqno) => lemma_response_round_trip_okay(seqno),
        ResponseView::OkayData(seqno, data) => lemma_response_round_trip_okay_data(seqno, data),
        ResponseView::Delivery(d) => lemma_response_round_trip_delivery(d),
    }
}

/// The round trip is the exact identity on every response that
/// carries no read-data keys, as none produced by a session does.
pub proof fn lemma_response_round_trip_identity(r: ResponseView)
    requires
        wf_response(r),
        r is OkayData ==> forall|i: int| 0 <= i < r->OkayData_1.len() ==> (#[trigger] r
            ->OkayData_1[i]).key == Seq::<u8>::empty(),
    ensures
        parse_response(spec_encode_response(r)) == Some(r),
{
    lemma_response_round_trip(r);
    match r {
        ResponseView::OkayData(seqno, data) => {
            assert(data.map_values(|d: DatumView| content_only(d)) =~= data);
        },
        _ => {},
    }
}

} // verus!
