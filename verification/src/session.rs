//! The session engine: what one inbound request does to the store and
//! what goes back over the wire.
//!
//! A session is bound to one connection. Its loop reads a request,
//! hands it to [`process_one`], performs the outcome — reply, forward
//! downstream then reply, or acknowledge and stream deliveries — and
//! repeats. The loop, the transport and the downstream socket live
//! outside the library; every decision lives here.

use vstd::prelude::*;

use crate::error::{ServerError, YakError};
use crate::message::{copy_bytes, Datum, DatumView, Operation, OperationView, Request, Response,
    ResponseView, SeqNo};
use crate::store::{values_for, write_log, Store, Subscriber};

verus! {

/// What a session does after handling one request.
#[derive(Debug)]
pub enum Outcome {
    /// Send this response; nothing else to do.
    Reply(Response),
    /// The write is applied locally and a downstream is configured:
    /// forward the original request, then reply with whatever
    /// response the downstream returns.
    Forward(Request),
    /// Send the acknowledgment, then stream every datum the
    /// subscriber yields until the connection closes. No further
    /// requests are read.
    Stream(Response, Subscriber),
}

/// The datums a read hands back: each value under an empty key.
pub open spec fn read_data(values: Seq<Seq<u8>>) -> Seq<DatumView> {
    values.map_values(|v: Seq<u8>| DatumView { key: Seq::empty(), content: v })
}

/// Answer a read from the local store. Reads are never forwarded: any
/// node is authoritative for reads in its own store.
pub fn read_op<S: Store>(store: &S, seqno: SeqNo, space: &str, key: &[u8]) -> (r: Result<
    Response,
    ServerError,
>)
    ensures
        match r {
            Ok(resp) => resp@ == ResponseView::OkayData(
                seqno,
                read_data(values_for(store.log(), space@, key@)),
            ),
            Err(e) => e is StoreError,
        },
{
    match store.read(space, key) {
        Ok(values) => {
            let mut data: Vec<Datum> = Vec::new();
            let mut i: usize = 0;
            while i < values.len()
                invariant
                    i <= values@.len(),
                    data@.len() == i,
                    forall|j: int| 0 <= j < i ==> #[trigger] data@[j]@ == (DatumView {
                        key: Seq::empty(),
                        content: values@[j]@,
                    }),
                decreases values@.len() - i,
            {
                data.push(Datum { key: Vec::new(), content: copy_bytes(&values[i]) });
                i = i + 1;
            }
            proof {
                assert(data.deep_view() =~~= read_data(values.deep_view()));
            }
            Ok(Response::OkayData(seqno, data))
        },
        Err(e) => Err(ServerError::StoreError(e)),
    }
}

/// Apply a write to the local store and build the tentative
/// acknowledgment.
pub fn write_op<S: Store>(store: &mut S, seqno: SeqNo, space: &str, key: &[u8], value: &[u8]) -> (r:
    Result<Response, ServerError>)
    ensures
        match r {
            Ok(resp) => {
                &&& final(store).log() == write_log(old(store).log(), space@, key@, value@)
                &&& resp@ == ResponseView::Okay(seqno)
            },
            Err(e) => {
                &&& final(store).log() == old(store).log()
                &&& e is StoreError
            },
        },
{
    match store.write(space, key, value) {
        Ok(()) => Ok(Response::Okay(seqno)),
        Err(e) => Err(ServerError::StoreError(e)),
    }
}

/// Handle one request against the local store and say what to do
/// next. A read replies from the local store and changes nothing. A
/// write appends one record locally, then is forwarded downstream
/// when a downstream is configured — the local append happens before
/// the forward — and acknowledged directly otherwise. A subscribe is
/// acknowledged and turns the connection into a delivery stream from
/// sequence zero. A store failure terminates the session and leaves
/// the store unchanged.
pub fn process_one<S: Store>(store: &mut S, req: Request, has_downstream: bool) -> (r: Result<
    Outcome,
    ServerError,
>)
    ensures
        match r {
            Ok(outcome) => match req@.operation {
                OperationView::Read { key } => {
                    &&& final(store).log() == old(store).log()
                    &&& outcome matches Outcome::Reply(resp) && resp@ == ResponseView::OkayData(
                        req@.sequence,
                        read_data(values_for(old(store).log(), req@.space, key)),
                    )
                },
                OperationView::Write { key, value } => {
                    &&& final(store).log() == write_log(old(store).log(), req@.space, key, value)
                    &&& if has_downstream {
                        outcome matches Outcome::Forward(fwd) && fwd@ == req@
                    } else {
                        outcome matches Outcome::Reply(resp) && resp@ == ResponseView::Okay(
                            req@.sequence,
                        )
                    }
                },
                OperationView::Subscribe => {
                    &&& final(store).log() == old(store).log()
                    &&& outcome matches Outcome::Stream(resp, sub) && resp@ == ResponseView::Okay(
                        req@.sequence,
                    ) && sub.space@ == req@.space && sub.next_idx == 0
                },
            },
            Err(e) => {
                &&& final(store).log() == old(store).log()
                &&& e is StoreError
            },
        },
{
    match &req.operation {
        Operation::Read { key } => {
            match read_op(store, req.sequence, self_space(&req), key.as_slice()) {
                Ok(resp) => Ok(Outcome::Reply(resp)),
                Err(e) => Err(e),
            }
        },
        Operation::Write { key, value } => {
            match write_op(
                store,
                req.sequence,
                self_space(&req),
                key.as_slice(),
                value.as_slice(),
            ) {
                Ok(resp) => if has_downstream {
                    Ok(Outcome::Forward(req))
                } else {
                    Ok(Outcome::Reply(resp))
                },
                Err(e) => Err(e),
            }
        },
        Operation::Subscribe => {
            match store.subscribe(self_space(&req)) {
                Ok(sub) => Ok(Outcome::Stream(Response::Okay(req.sequence), sub)),
                Err(e) => Err(ServerError::StoreError(e)),
            }
        },
    }
}

/// The space a request addresses.
fn self_space(req: &Request) -> (r: &str)
    ensures
        r@ == req.space@,
{
    req.space.as_str()
}

/// The session's view of what a downstream call handed back: the
/// downstream's response, or a downstream protocol error where the
/// connection closed before one arrived.
pub fn downstream_reply(resp: Option<Response>) -> (r: Result<Response, ServerError>)
    ensures
        match resp {
            Some(p) => r == Ok::<Response, ServerError>(p),
            None => r == Err::<Response, ServerError>(
                ServerError::DownstreamError(YakError::ProtocolError),
            ),
        },
{
    match resp {
        Some(p) => Ok(p),
        None => Err(ServerError::DownstreamError(YakError::ProtocolError)),
    }
}

} // verus!
