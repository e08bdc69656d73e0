//! The client-side pieces: sequence numbering and the classification
//! of responses.

use yak::client::{data_reply, next_delivery, ok_reply, SeqCtr};
use yak::error::YakError;
use yak::message::{Datum, Response};

#[test]
fn test_seq_ctr_counts_up() {
    let mut ctr = SeqCtr::new();
    assert_eq!(ctr.next(), 0);
    assert_eq!(ctr.next(), 1);
    assert_eq!(ctr.next(), 2);
}

#[test]
fn test_seq_ctr_wraps() {
    let mut ctr = SeqCtr(u64::MAX);
    assert_eq!(ctr.next(), u64::MAX);
    assert_eq!(ctr.next(), 0);
}

#[test]
fn test_expect_ok() {
    assert_eq!(Response::Okay(4).expect_ok(), Ok(4));
    assert_eq!(
        Response::OkayData(4, vec![]).expect_ok(),
        Err(YakError::ProtocolError)
    );
    let d = Datum { key: vec![], content: vec![] };
    assert_eq!(Response::Delivery(d).expect_ok(), Err(YakError::ProtocolError));
}

#[test]
fn test_expect_datum_list() {
    let data = vec![Datum { key: vec![], content: b"v".to_vec() }];
    assert_eq!(
        Response::OkayData(4, data.clone()).expect_datum_list(),
        Ok((4, data))
    );
    assert_eq!(
        Response::Okay(4).expect_datum_list(),
        Err(YakError::ProtocolError)
    );
}

#[test]
fn test_expect_delivery() {
    let d = Datum { key: b"k".to_vec(), content: b"v".to_vec() };
    assert_eq!(Response::Delivery(d.clone()).expect_delivery(), Ok(d));
    assert_eq!(Response::Okay(4).expect_delivery(), Err(YakError::ProtocolError));
}

#[test]
fn test_ok_reply() {
    assert_eq!(ok_reply(Some(Response::Okay(8))), Ok(8));
    assert_eq!(
        ok_reply(Some(Response::OkayData(8, vec![]))),
        Err(YakError::ProtocolError)
    );
    assert_eq!(ok_reply(None), Err(YakError::ProtocolError));
}

#[test]
fn test_data_reply() {
    let data = vec![Datum { key: vec![], content: b"v".to_vec() }];
    assert_eq!(data_reply(Some(Response::OkayData(8, data.clone()))), Ok(data));
    assert_eq!(
        data_reply(Some(Response::Okay(8))),
        Err(YakError::ProtocolError)
    );
    assert_eq!(data_reply(None), Err(YakError::ProtocolError));
}

#[test]
fn test_next_delivery() {
    let d = Datum { key: b"k".to_vec(), content: b"v".to_vec() };
    assert_eq!(next_delivery(Some(Response::Delivery(d.clone()))), Ok(Some(d)));
    // A plain acknowledgment or a clean end of stream ends the stream.
    assert_eq!(next_delivery(Some(Response::Okay(1))), Ok(None));
    assert_eq!(next_delivery(None), Ok(None));
    assert_eq!(
        next_delivery(Some(Response::OkayData(1, vec![]))),
        Err(YakError::ProtocolError)
    );
}
