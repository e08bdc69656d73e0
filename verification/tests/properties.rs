//! Concrete checks of the store laws: round-trip reads, subscription
//! completeness and ordering, space isolation, truncate isolation,
//! and chain replication.

use yak::mem_store::MemStore;
use yak::message::{Request, Response};
use yak::session::{downstream_reply, process_one, Outcome};
use yak::store::{Store, Subscriber};

fn write(store: &mut MemStore, space: &str, key: &[u8], val: &[u8]) {
    store.write(space, key, val).unwrap();
}

fn read(store: &MemStore, space: &str, key: &[u8]) -> Vec<Vec<u8>> {
    store.read(space, key).unwrap()
}

fn subscribe(store: &MemStore, space: &str) -> Subscriber {
    store.subscribe(space).unwrap()
}

fn drain(store: &MemStore, sub: &mut Subscriber) -> Vec<(Vec<u8>, Vec<u8>)> {
    let mut out = Vec::new();
    while let Some(d) = store.fetch(sub).unwrap() {
        out.push((d.key, d.content));
    }
    out
}

#[test]
fn test_put_read_values() {
    let mut store = MemStore::new();
    let space = "X";
    write(&mut store, space, b"one", b"a");
    write(&mut store, space, b"two", b"b");
    write(&mut store, space, b"one", b"c");

    assert_eq!(read(&store, space, b"one"), vec![b"a".to_vec(), b"c".to_vec()]);
    assert_eq!(read(&store, space, b"two"), vec![b"b".to_vec()]);
    assert_eq!(read(&store, space, b"none"), Vec::<Vec<u8>>::new());
}

#[test]
fn test_put_subscribe_values() {
    let mut store = MemStore::new();
    let space = "test_put_subscribe_values";
    let kvs: Vec<(&[u8], &[u8])> = vec![(b"k1", b"v1"), (b"k2", b"v2"), (b"k1", b"v3")];

    let mut sub = subscribe(&store, space);
    for (k, v) in &kvs {
        write(&mut store, space, k, v);
    }

    let expected: Vec<(Vec<u8>, Vec<u8>)> =
        kvs.iter().map(|(k, v)| (k.to_vec(), v.to_vec())).collect();
    assert_eq!(drain(&store, &mut sub), expected);
}

#[test]
fn test_subscribe_concurrent_writes() {
    // A subscriber that interleaves its fetches with the writes
    // observes every write, in order, with no loss.
    let mut store = MemStore::new();
    let space = "test_subscribe_concurrent_writes";

    let mut sub = subscribe(&store, space);
    assert_eq!(store.fetch(&mut sub).unwrap(), None);

    write(&mut store, space, b"a", b"1");
    let first = store.fetch(&mut sub).unwrap().unwrap();
    assert_eq!((first.key, first.content), (b"a".to_vec(), b"1".to_vec()));

    write(&mut store, space, b"b", b"2");
    write(&mut store, space, b"c", b"3");
    let rest = drain(&store, &mut sub);
    assert_eq!(
        rest,
        vec![(b"b".to_vec(), b"2".to_vec()), (b"c".to_vec(), b"3".to_vec())]
    );
}

#[test]
fn test_put_subscribe_values_per_space() {
    let mut store = MemStore::new();
    let here = "space/true";
    let there = "space/false";

    let mut sub = subscribe(&store, here);
    write(&mut store, there, b"x", b"0");
    write(&mut store, here, b"k1", b"v1");
    write(&mut store, there, b"y", b"1");
    write(&mut store, here, b"k2", b"v2");

    assert_eq!(
        drain(&store, &mut sub),
        vec![(b"k1".to_vec(), b"v1".to_vec()), (b"k2".to_vec(), b"v2".to_vec())]
    );
}

#[test]
fn test_truncate_isolation() {
    let mut store = MemStore::new();
    write(&mut store, "S1", b"key", b"gone");
    write(&mut store, "S2", b"key", b"kept");

    store.truncate("S1").unwrap();

    assert_eq!(read(&store, "S1", b"key"), Vec::<Vec<u8>>::new());
    assert_eq!(read(&store, "S2", b"key"), vec![b"kept".to_vec()]);

    let mut sub = subscribe(&store, "S2");
    assert_eq!(drain(&store, &mut sub), vec![(b"key".to_vec(), b"kept".to_vec())]);
}

#[test]
fn test_chain_write_read() {
    // A head node with a downstream commits locally, forwards the
    // original request, and replies with the downstream's response;
    // the tail is authoritative for reads.
    let mut head = MemStore::new();
    let mut tail = MemStore::new();
    let req = Request::write(0, "chain", b"k", b"v");

    let forwarded = match process_one(&mut head, req, true).unwrap() {
        Outcome::Forward(fwd) => fwd,
        _ => panic!("a write with a downstream must be forwarded"),
    };
    assert_eq!(forwarded.sequence, 0);
    assert_eq!(forwarded.space, "chain");

    let resp = match process_one(&mut tail, forwarded, false).unwrap() {
        Outcome::Reply(resp) => resp,
        _ => panic!("the tail has no downstream"),
    };
    let resp = downstream_reply(Some(resp)).unwrap();
    assert_eq!(resp, Response::Okay(0));

    assert_eq!(read(&head, "chain", b"k"), vec![b"v".to_vec()]);
    assert_eq!(read(&tail, "chain", b"k"), vec![b"v".to_vec()]);
}

#[test]
fn test_downstream_eof_is_error() {
    assert!(downstream_reply(None).is_err());
}
