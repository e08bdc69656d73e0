//! The messages of the framed request/response protocol.
//!
//! A `Request` carries a client-assigned sequence number, the name of
//! the space it addresses, and one operation: read a key, write a
//! key/value pair, or subscribe to the space. A `Response` is the
//! acknowledgment echoing that sequence number (`Okay`), the result of
//! a read (`OkayData`), or one record streamed to a subscriber
//! (`Delivery`).

use vstd::prelude::*;

use crate::error::YakError;

verus! {

/// A client-assigned request sequence number, echoed in the matching
/// response.
pub type SeqNo = u64;

/// The unit delivered to a subscriber: one key/value pair.
#[derive(Debug, Clone, PartialEq, Eq, PartialOrd, Ord)]
pub struct Datum {
    pub key: Vec<u8>,
    pub content: Vec<u8>,
}

/// The mathematical value of a `Datum`: both byte strings as sequences.
#[verifier::ext_equal]
pub ghost struct DatumView {
    pub key: Seq<u8>,
    pub content: Seq<u8>,
}

impl View for Datum {
    type V = DatumView;

    open spec fn view(&self) -> DatumView {
        DatumView { key: self.key@, content: self.content@ }
    }
}

impl DeepView for Datum {
    type V = DatumView;

    open spec fn deep_view(&self) -> DatumView {
        self.view()
    }
}

/// The operation a request asks the server to perform.
#[derive(Debug, Clone, PartialEq, Eq)]
pub enum Operation {
    Read { key: Vec<u8> },
    Write { key: Vec<u8>, value: Vec<u8> },
    Subscribe,
}

/// The mathematical value of an `Operation`.
#[verifier::ext_equal]
pub ghost enum OperationView {
    Read { key: Seq<u8> },
    Write { key: Seq<u8>, value: Seq<u8> },
    Subscribe,
}

impl View for Operation {
    type V = OperationView;

    open spec fn view(&self) -> OperationView {
        match *self {
            Operation::Read { key } => OperationView::Read { key: key@ },
            Operation::Write { key, value } => OperationView::Write {
                key: key@,
                value: value@,
            },
            Operation::Subscribe => OperationView::Subscribe,
        }
    }
}

/// One framed request: sequence number, target space, operation.
#[derive(Debug, Clone, PartialEq, Eq)]
pub struct Request {
    pub sequence: SeqNo,
    pub space: String,
    pub operation: Operation,
}

/// The mathematical value of a `Request`.
#[verifier::ext_equal]
pub ghost struct RequestView {
    pub sequence: SeqNo,
    pub space: Seq<char>,
    pub operation: OperationView,
}

impl View for Request {
    type V = RequestView;

    open spec fn view(&self) -> RequestView {
        RequestView { sequence: self.sequence, space: self.space@, operation: self.operation@ }
    }
}

impl Request {
    /// Build a read request for `key` in `space`.
    pub fn read(seq: SeqNo, space: &str, key: &[u8]) -> (r: Request)
        ensures
            r@ == (RequestView {
                sequence: seq,
                space: space@,
                operation: OperationView::Read { key: key@ },
            }),
    {
        Request {
            sequence: seq,
            space: space.to_owned(),
            operation: Operation::Read { key: vstd::slice::slice_to_vec(key) },
        }
    }

    /// Build a write request appending `value` under `key` in `space`.
    pub fn write(seq: SeqNo, space: &str, key: &[u8], value: &[u8]) -> (r: Request)
        ensures
            r@ == (RequestView {
                sequence: seq,
                space: space@,
                operation: OperationView::Write { key: key@, value: value@ },
            }),
    {
        Request {
            sequence: seq,
            space: space.to_owned(),
            operation: Operation::Write {
                key: vstd::slice::slice_to_vec(key),
                value: vstd::slice::slice_to_vec(value),
            },
        }
    }

    /// Build a subscribe request for `space`.
    pub fn subscribe(seq: SeqNo, space: &str) -> (r: Request)
        ensures
            r@ == (RequestView {
                sequence: seq,
                space: space@,
                operation: OperationView::Subscribe,
            }),
    {
        Request { sequence: seq, space: space.to_owned(), operation: Operation::Subscribe }
    }
}

/// One framed response.
#[derive(Debug, Clone, PartialEq, Eq)]
pub enum Response {
    /// Acknowledgment of a write or a subscribe.
    Okay(SeqNo),
    /// The result of a read: every value under the key, in append order.
    OkayData(SeqNo, Vec<Datum>),
    /// One record streamed to a subscriber.
    Delivery(Datum),
}

/// The mathematical value of a `Response`.
#[verifier::ext_equal]
pub ghost enum ResponseView {
    Okay(SeqNo),
    OkayData(SeqNo, Seq<DatumView>),
    Delivery(DatumView),
}

impl View for Response {
    type V = ResponseView;

    open spec fn view(&self) -> ResponseView {
        match *self {
            Response::Okay(seq) => ResponseView::Okay(seq),
            Response::OkayData(seq, data) => ResponseView::OkayData(seq, data.deep_view()),
            Response::Delivery(d) => ResponseView::Delivery(d@),
        }
    }
}

/// Copy a byte string.
pub fn copy_bytes(v: &Vec<u8>) -> (r: Vec<u8>)
    ensures
        r@ == v@,
{
    vstd::slice::slice_to_vec(v.as_slice())
}

/// Copy a datum.
pub fn copy_datum(d: &Datum) -> (r: Datum)
    ensures
        r@ == d@,
{
    Datum { key: copy_bytes(&d.key), content: copy_bytes(&d.content) }
}

/// Copy a list of datums.
pub fn copy_datum_list(data: &Vec<Datum>) -> (r: Vec<Datum>)
    ensures
        r.deep_view() == data.deep_view(),
{
    let mut out: Vec<Datum> = Vec::new();
    let mut i: usize = 0;
    while i < data.len()
        invariant
            i <= data.len(),
            out@.len() == i,
            forall|j: int| 0 <= j < i ==> #[trigger] out@[j]@ == data@[j]@,
        decreases data.len() - i,
    {
        out.push(copy_datum(&data[i]));
        i = i + 1;
    }
    proof {
        assert(out.deep_view() =~= data.deep_view());
    }
    out
}

impl Response {
    /// Return the echoed sequence number of an `Okay`; any other
    /// response is a protocol error.
    pub fn expect_ok(&self) -> (r: Result<SeqNo, YakError>)
        ensures
            match *self {
                Response::Okay(seq) => r == Ok::<SeqNo, YakError>(seq),
                _ => r == Err::<SeqNo, YakError>(YakError::ProtocolError),
            },
    {
        match self {
            Response::Okay(seq) => Ok(*seq),
            _ => Err(YakError::ProtocolError),
        }
    }

    /// Return the sequence number and data of an `OkayData`; any other
    /// response is a protocol error.
    pub fn expect_datum_list(&self) -> (r: Result<(SeqNo, Vec<Datum>), YakError>)
        ensures
            match *self {
                Response::OkayData(seq, data) => {
                    &&& r is Ok
                    &&& r->Ok_0.0 == seq
                    &&& r->Ok_0.1.deep_view() == data.deep_view()
                },
                _ => r == Err::<(SeqNo, Vec<Datum>), YakError>(YakError::ProtocolError),
            },
    {
        match self {
            Response::OkayData(seq, data) => Ok((*seq, copy_datum_list(data))),
            _ => Err(YakError::ProtocolError),
        }
    }

    /// Return the datum of a `Delivery`; any other response is a
    /// protocol error.
    pub fn expect_delivery(&self) -> (r: Result<Datum, YakError>)
        ensures
            match *self {
                Response::Delivery(d) => r is Ok && r->Ok_0@ == d@,
                _ => r == Err::<Datum, YakError>(YakError::ProtocolError),
            },
    {
        match self {
            Response::Delivery(d) => Ok(copy_datum(d)),
            _ => Err(YakError::ProtocolError),
        }
    }
}

} // verus!
