//! The pure parts of the client library.
//!
//! A client binds one connection to one space. It builds requests
//! with [`crate::message::Request`]'s constructors, numbers them with
//! a [`SeqCtr`], and classifies what comes back with the functions
//! here. The socket itself, and the loop that drives a subscription,
//! live outside the library.

use vstd::prelude::*;

use crate::error::YakError;
use crate::message::{Datum, Response, SeqNo};

verus! {

/// The client's outbound sequence counter: monotonic per client
/// instance, starting at zero, wrapping only at the top of the
/// 64-bit range.
#[derive(Debug, Clone, PartialEq, Eq)]
pub struct SeqCtr(pub u64);

impl SeqCtr {
    /// A fresh counter at zero.
    pub fn new() -> (r: SeqCtr)
        ensures
            r.0 == 0,
    {
        SeqCtr(0)
    }

    /// The next sequence number: returns the current value and steps
    /// the counter.
    pub fn next(&mut self) -> (r: u64)
        ensures
            r == old(self).0,
            final(self).0 == if old(self).0 == u64::MAX {
                0u64
            } else {
                (old(self).0 + 1) as u64
            },
    {
        let v = self.0;
        self.0 = if self.0 == u64::MAX {
            0
        } else {
            self.0 + 1
        };
        v
    }
}

/// The reply a write or a subscribe awaits: the acknowledgment's
/// echoed sequence number. Any other response, or end of stream
/// before one arrives, is a protocol error.
pub fn ok_reply(resp: Option<Response>) -> (r: Result<SeqNo, YakError>)
    ensures
        match resp {
            Some(p) => match p {
                Response::Okay(seqno) => r == Ok::<SeqNo, YakError>(seqno),
                _ => r == Err::<SeqNo, YakError>(YakError::ProtocolError),
            },
            None => r == Err::<SeqNo, YakError>(YakError::ProtocolError),
        },
{
    match resp {
        Some(p) => p.expect_ok(),
        None => Err(YakError::ProtocolError),
    }
}

/// The reply a read awaits: the data of the acknowledgment. Any other
/// response, or end of stream before one arrives, is a protocol
/// error.
pub fn data_reply(resp: Option<Response>) -> (r: Result<Vec<Datum>, YakError>)
    ensures
        match resp {
            Some(p) => match p {
                Response::OkayData(_, data) => r is Ok && r->Ok_0.deep_view() == data.deep_view(),
                _ => r == Err::<Vec<Datum>, YakError>(YakError::ProtocolError),
            },
            None => r == Err::<Vec<Datum>, YakError>(YakError::ProtocolError),
        },
{
    match resp {
        Some(p) => match p.expect_datum_list() {
            Ok((_, data)) => Ok(data),
            Err(e) => Err(e),
        },
        None => Err(YakError::ProtocolError),
    }
}

/// One step of a subscription's delivery stream: a delivery yields
/// its datum; a plain acknowledgment or a clean end of stream ends
/// the stream; read data has no place here and is a protocol error.
pub fn next_delivery(resp: Option<Response>) -> (r: Result<Option<Datum>, YakError>)
    ensures
        match resp {
            Some(p) => match p {
                Response::Delivery(d) => r is Ok && r->Ok_0 is Some && r->Ok_0->Some_0@ == d@,
                Response::Okay(_) => r == Ok::<Option<Datum>, YakError>(None),
                Response::OkayData(_, _) => r == Err::<Option<Datum>, YakError>(
                    YakError::ProtocolError,
                ),
            },
            None => r == Ok::<Option<Datum>, YakError>(None),
        },
{
    match resp {
        Some(p) => match p {
            Response::Delivery(d) => Ok(Some(d)),
            Response::Okay(_) => Ok(None),
            Response::OkayData(_, _) => Err(YakError::ProtocolError),
        },
        None => Ok(None),
    }
}

} // verus!
