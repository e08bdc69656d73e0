//! End-to-end scenarios: a client driving a session against a store
//! through the wire codec, all in process.

use yak::client::{next_delivery, ok_reply, SeqCtr};
use yak::mem_store::MemStore;
use yak::message::{Datum, Request, Response};
use yak::session::{process_one, Outcome};
use yak::store::{Store, Subscriber};

/// One head/tail pair of clients against a standalone node: both talk
/// to the same store, each with its own sequence counter.
fn open_client(_name: &str) -> (MemStore, SeqCtr, SeqCtr) {
    (MemStore::new(), SeqCtr::new(), SeqCtr::new())
}

/// Drive one request through the full path: encode, decode, process,
/// encode the response, decode it back.
fn exchange(store: &mut MemStore, req: Request) -> (Response, Option<Subscriber>) {
    let frame = req.encode();
    let req = Request::decode(&frame).unwrap();
    match process_one(store, req, false).unwrap() {
        Outcome::Reply(resp) => {
            let frame = resp.encode();
            (Response::decode(&frame).unwrap(), None)
        }
        Outcome::Stream(resp, sub) => {
            let frame = resp.encode();
            (Response::decode(&frame).unwrap(), Some(sub))
        }
        Outcome::Forward(_) => panic!("no downstream is configured"),
    }
}

fn client_truncate(store: &mut MemStore, space: &str) {
    store.truncate(space).unwrap();
}

fn client_write(store: &mut MemStore, ctr: &mut SeqCtr, space: &str, key: &[u8], val: &[u8]) {
    let (resp, _) = exchange(store, Request::write(ctr.next(), space, key, val));
    ok_reply(Some(resp)).unwrap();
}

fn client_read(store: &mut MemStore, ctr: &mut SeqCtr, space: &str, key: &[u8]) -> Vec<Datum> {
    let (resp, _) = exchange(store, Request::read(ctr.next(), space, key));
    let (_, data) = resp.expect_datum_list().unwrap();
    data
}

fn client_subscribe(store: &mut MemStore, ctr: &mut SeqCtr, space: &str) -> Subscriber {
    let (resp, sub) = exchange(store, Request::subscribe(ctr.next(), space));
    ok_reply(Some(resp)).unwrap();
    sub.unwrap()
}

/// One step of the delivery stream: the session fetches the next
/// datum and sends it as a delivery frame; the client decodes it.
fn fetch_next(store: &MemStore, sub: &mut Subscriber) -> Option<Datum> {
    match store.fetch(sub).unwrap() {
        Some(datum) => {
            let frame = Response::Delivery(datum).encode();
            let resp = Response::decode(&frame).unwrap();
            next_delivery(Some(resp)).unwrap()
        }
        None => None,
    }
}

#[test]
fn test_put_read_empty() {
    let (mut store, mut head, mut tail) = open_client("test_put_read_empty");
    let space = "test_put_read_empty";
    let key = "key";

    let _ = &mut head;
    client_truncate(&mut store, space);

    let resp = client_read(&mut store, &mut tail, space, key.as_bytes());
    assert_eq!(resp.len(), 0);
}

#[test]
fn test_put_read_single_value() {
    let (mut store, mut head, mut tail) = open_client("test_put_read_single_value");
    let space = "test_put_read_single_value";
    let key = "mykey";
    let val = "myvalue";

    client_truncate(&mut store, space);

    client_write(&mut store, &mut head, space, key.as_bytes(), val.as_bytes());

    let resp = client_read(&mut store, &mut tail, space, key.as_bytes());
    let expected_datum = Datum {
        key: vec![],
        content: val.as_bytes().to_vec(),
    };
    assert_eq!(resp, vec![expected_datum])
}

#[test]
fn test_put_read_two_values() {
    let (mut store, mut head, mut tail) = open_client("test_put_read_two_values");
    let space = "test_put_read_two_values";
    let key = "key";
    let vals = vec!["a".as_bytes(), "b".as_bytes()];

    client_truncate(&mut store, space);

    for val in &vals {
        client_write(&mut store, &mut head, space, key.as_bytes(), val);
    }

    let resp = client_read(&mut store, &mut tail, space, key.as_bytes());
    let returned: Vec<Vec<u8>> = resp.iter().map(|v| v.content.clone()).collect();
    assert_eq!(returned, vals);
}

#[test]
fn test_truncate() {
    let (mut store, mut head, mut tail) = open_client("test_truncate");
    let space = "test_truncate";
    let key = "key";
    let val = "value";

    client_truncate(&mut store, space);
    client_write(&mut store, &mut head, space, key.as_bytes(), val.as_bytes());
    client_truncate(&mut store, space);

    let resp = client_read(&mut store, &mut tail, space, key.as_bytes());
    assert_eq!(resp.len(), 0);
}

#[test]
fn test_subscribe_after_put_single_value() {
    static TEST_NAME: &'static str = "test_subscribe_after_put_single_value";
    let (mut store, mut head, mut tail) = open_client(TEST_NAME);
    let key = b"key";
    let val = b"value";
    client_truncate(&mut store, TEST_NAME);
    client_write(&mut store, &mut head, TEST_NAME, key, val);

    let mut subscription = client_subscribe(&mut store, &mut tail, TEST_NAME);
    let maybe_message = fetch_next(&store, &mut subscription);

    assert_eq!(
        maybe_message.map(|message| (message.key, message.content)),
        Some((key.to_vec(), val.to_vec()))
    )
}

#[test]
fn test_subscribe_async_deliveries() {
    static TEST_NAME: &'static str = "test_subscribe_async_deliveries";
    let (mut store, mut head, mut tail) = open_client(TEST_NAME);
    let key = b"key";
    let val = b"value";
    client_truncate(&mut store, TEST_NAME);

    // The subscriber is opened before the write; its blocking wait is
    // a poll here: the first fetch finds nothing, the fetch after the
    // write finds the delivery.
    let mut subscription = client_subscribe(&mut store, &mut tail, TEST_NAME);
    assert_eq!(fetch_next(&store, &mut subscription), None);

    client_write(&mut store, &mut head, TEST_NAME, key, val);

    let maybe_message = fetch_next(&store, &mut subscription);

    assert_eq!(
        maybe_message.map(|message| (message.key, message.content)),
        Some((key.to_vec(), val.to_vec()))
    )
}
