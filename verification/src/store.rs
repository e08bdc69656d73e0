//! The store abstraction: an append-only, per-space keyed log.
//!
//! A backend keeps a log of slots. Each slot either holds a record
//! (space, key, value) or is empty because a truncate of its space
//! removed it. A slot's position in the log is its instance-wide
//! sequence number; slots are never reordered and the log never
//! shrinks, so within one space records stay in append order.
//!
//! The model of a store is `Seq<Option<LogRecordView>>`; the spec
//! functions here say what read, truncate and subscribe mean over it.

use vstd::prelude::*;

use crate::error::StoreError;
use crate::message::{Datum, DatumView};

verus! {

/// One stored value.
pub type Val = Vec<u8>;

/// The values under one key, in append order.
pub type Values = Vec<Val>;

/// One record of the log: the unit appended by a write.
#[derive(Debug, Clone, PartialEq, Eq)]
pub struct LogRecord {
    pub space: String,
    pub key: Vec<u8>,
    pub value: Vec<u8>,
}

/// The mathematical value of a `LogRecord`.
#[verifier::ext_equal]
pub ghost struct LogRecordView {
    pub space: Seq<char>,
    pub key: Seq<u8>,
    pub value: Seq<u8>,
}

impl View for LogRecord {
    type V = LogRecordView;

    open spec fn view(&self) -> LogRecordView {
        LogRecordView { space: self.space@, key: self.key@, value: self.value@ }
    }
}

/// The model of a whole store: one slot per sequence number, empty
/// where a truncate removed the record.
pub type Log = Seq<Option<LogRecordView>>;

/// The values ever written to (`space`, `key`) and not yet truncated,
/// in append order: what a read returns.
pub open spec fn values_for(log: Log, space: Seq<char>, key: Seq<u8>) -> Seq<Seq<u8>>
    decreases log.len(),
{
    if log.len() == 0 {
        Seq::empty()
    } else {
        let init = values_for(log.drop_last(), space, key);
        match log.last() {
            Some(r) => if r.space == space && r.key == key {
                init.push(r.value)
            } else {
                init
            },
            None => init,
        }
    }
}

/// The records of `space` still in the log, as datums, in append
/// order: what a subscriber of `space` is owed.
pub open spec fn space_data(log: Log, space: Seq<char>) -> Seq<DatumView>
    decreases log.len(),
{
    if log.len() == 0 {
        Seq::empty()
    } else {
        let init = space_data(log.drop_last(), space);
        match log.last() {
            Some(r) => if r.space == space {
                init.push(DatumView { key: r.key, content: r.value })
            } else {
                init
            },
            None => init,
        }
    }
}

/// The log after truncating `space`: every slot of that space is
/// emptied, every other slot is untouched.
pub open spec fn truncate_log(log: Log, space: Seq<char>) -> Log {
    Seq::new(
        log.len(),
        |i: int|
            match log[i] {
                Some(r) => if r.space == space {
                    None
                } else {
                    log[i]
                },
                None => None,
            },
    )
}

/// The log after appending one record to `space`.
pub open spec fn write_log(log: Log, space: Seq<char>, key: Seq<u8>, value: Seq<u8>) -> Log {
    log.push(Some(LogRecordView { space, key, value }))
}

/// A subscriber's cursor over one space of a store's log.
///
/// The cursor holds no reference to the store; each fetch is handed
/// the store it was opened on. It is meaningful only against that
/// store, whose log never shrinks, so `next_idx` stays within the log.
#[derive(Debug, Clone, PartialEq, Eq)]
pub struct Subscriber {
    pub space: String,
    pub next_idx: usize,
}

/// The capability set of a log store backend.
///
/// `log()` is the backend's model. Each operation says what the model
/// looks like when it succeeds; a failing operation leaves the model
/// unchanged (a write never partially persists).
pub trait Store: Sized {
    /// The model: one slot per sequence number.
    spec fn log(&self) -> Log;

    /// Remove every record of `space`; no other space is affected.
    fn truncate(&mut self, space: &str) -> (r: Result<(), StoreError>)
        ensures
            r is Ok ==> final(self).log() == truncate_log(old(self).log(), space@),
            r is Err ==> final(self).log() == old(self).log(),
    ;

    /// Return every value written to (`space`, `key`) since the last
    /// truncate of `space`, in append order.
    fn read(&self, space: &str, key: &[u8]) -> (r: Result<Values, StoreError>)
        ensures
            r is Ok ==> r->Ok_0.deep_view() == values_for(self.log(), space@, key@),
    ;

    /// Append one record with the next sequence number, then wake
    /// subscribers.
    fn write(&mut self, space: &str, key: &[u8], val: &[u8]) -> (r: Result<(), StoreError>)
        ensures
            r is Ok ==> final(self).log() == write_log(old(self).log(), space@, key@, val@),
            r is Err ==> final(self).log() == old(self).log(),
    ;

    /// Open a subscriber cursor over `space`, starting at sequence 0.
    fn subscribe(&self, space: &str) -> (r: Result<Subscriber, StoreError>)
        ensures
            r is Ok ==> r->Ok_0.space@ == space@ && r->Ok_0.next_idx == 0,
    ;

    /// Advance `sub` to the next record of its space, if one is
    /// present, and return it as a datum. `Ok(None)` means the cursor
    /// has seen the whole log: the caller blocks on the store's
    /// notifier and retries.
    fn fetch(&self, sub: &mut Subscriber) -> (r: Result<Option<Datum>, StoreError>)
        requires
            old(sub).next_idx <= self.log().len(),
        ensures
            r is Ok ==> match r->Ok_0 {
                Some(d) => {
                    &&& final(sub).space == old(sub).space
                    &&& final(sub).next_idx <= self.log().len()
                    &&& space_data(self.log().take(final(sub).next_idx as int), old(sub).space@)
                        == space_data(
                        self.log().take(old(sub).next_idx as int),
                        old(sub).space@,
                    ).push(d@)
                },
                None => {
                    &&& *final(sub) == *old(sub)
                    &&& space_data(self.log(), old(sub).space@) == space_data(
                        self.log().take(old(sub).next_idx as int),
                        old(sub).space@,
                    )
                },
            },
            r is Err ==> *final(sub) == *old(sub),
    ;
}

/// Compare two byte strings.
pub fn bytes_eq(a: &[u8], b: &[u8]) -> (r: bool)
    ensures
        r == (a@ == b@),
{
    if a.len() != b.len() {
        proof {
            assert(a@ != b@);
        }
        return false;
    }
    let mut i: usize = 0;
    while i < a.len()
        invariant
            i <= a.len(),
            a@.len() == b@.len(),
            forall|j: int| 0 <= j < i ==> a@[j] == b@[j],
        decreases a.len() - i,
    {
        if a[i] != b[i] {
            return false;
        }
        i = i + 1;
    }
    proof {
        assert(a@ =~= b@);
    }
    true
}

/// One scan step: extending the prefix by one slot extends the data of
/// a space exactly when that slot holds a record of the space.
pub proof fn lemma_space_data_take_step(log: Log, space: Seq<char>, i: int)
    requires
        0 <= i < log.len(),
    ensures
        space_data(log.take(i + 1), space) == match log[i] {
            Some(r) => if r.space == space {
                space_data(log.take(i), space).push(DatumView { key: r.key, content: r.value })
            } else {
                space_data(log.take(i), space)
            },
            None => space_data(log.take(i), space),
        },
{
    let pre = log.take(i + 1);
    assert(pre.drop_last() =~= log.take(i));
    assert(pre.last() == log[i]);
}

/// One scan step for reads, as `lemma_space_data_take_step` is for
/// subscriptions.
pub proof fn lemma_values_for_take_step(log: Log, space: Seq<char>, key: Seq<u8>, i: int)
    requires
        0 <= i < log.len(),
    ensures
        values_for(log.take(i + 1), space, key) == match log[i] {
            Some(r) => if r.space == space && r.key == key {
                values_for(log.take(i), space, key).push(r.value)
            } else {
                values_for(log.take(i), space, key)
            },
            None => values_for(log.take(i), space, key),
        },
{
    let pre = log.take(i + 1);
    assert(pre.drop_last() =~= log.take(i));
    assert(pre.last() == log[i]);
}

} // verus!
