//! The in-memory store backend.
//!
//! The whole log lives in one vector of slots; the slot index is the
//! instance-wide sequence number. A truncate empties the slots of its
//! space in place, so surviving records keep their sequence numbers
//! and subscriber cursors stay meaningful.

use vstd::prelude::*;

use crate::error::StoreError;
use crate::message::{copy_bytes, Datum};
use crate::store::{
    lemma_space_data_take_step, lemma_values_for_take_step, space_data, truncate_log, values_for,
    write_log, Log, LogRecord, LogRecordView, Store, Subscriber, Values,
};

verus! {

/// An append-only keyed log held entirely in memory.
#[derive(Debug, Clone, PartialEq, Eq)]
pub struct MemStore {
    slots: Vec<Option<LogRecord>>,
}

impl View for MemStore {
    type V = Log;

    closed spec fn view(&self) -> Log {
        Seq::new(
            self.slots@.len(),
            |i: int|
                match self.slots@[i] {
                    Some(r) => Some(r@),
                    None => None,
                },
        )
    }
}

impl MemStore {
    /// Create an empty store.
    pub fn new() -> (r: MemStore)
        ensures
            r@ == Seq::<Option<LogRecordView>>::empty(),
    {
        let r = MemStore { slots: Vec::new() };
        proof {
            assert(r@ =~= Seq::<Option<LogRecordView>>::empty());
        }
        r
    }
}

impl Store for MemStore {
    open spec fn log(&self) -> Log {
        self@
    }

    fn truncate(&mut self, space: &str) -> (r: Result<(), StoreError>)
        ensures
            r is Ok,
            final(self)@ == truncate_log(old(self)@, space@),
    {
        let sp: String = space.to_owned();
        let ghost log0 = self@;
        let mut i: usize = 0;
        while i < self.slots.len()
            invariant
                i <= self.slots@.len(),
                self.slots@.len() == log0.len(),
                sp@ == space@,
                forall|j: int| 0 <= j < i ==> self@[j] == truncate_log(log0, space@)[j],
                forall|j: int| i <= j < log0.len() ==> self@[j] == log0[j],
            decreases self.slots@.len() - i,
        {
            let ghost prev = self@;
            let matched = match &self.slots[i] {
                Some(rec) => rec.space == sp,
                None => false,
            };
            if matched {
                self.slots[i] = None;
            }
            proof {
                assert forall|j: int| 0 <= j < i + 1 implies self@[j] == truncate_log(
                    log0,
                    space@,
                )[j] by {
                    if j < i as int {
                        assert(self@[j] == prev[j]);
                    } else {
                        assert(self@[i as int] == truncate_log(log0, space@)[i as int]);
                    }
                }
                assert forall|j: int| i + 1 <= j < log0.len() implies self@[j] == log0[j] by {
                    assert(self@[j] == prev[j]);
                }
            }
            i = i + 1;
        }
        proof {
            assert(self@ =~= truncate_log(log0, space@));
        }
        Ok(())
    }

    fn read(&self, space: &str, key: &[u8]) -> (r: Result<Values, StoreError>)
        ensures
            r is Ok,
            r->Ok_0.deep_view() == values_for(self@, space@, key@),
    {
        let sp: String = space.to_owned();
        let mut out: Values = Vec::new();
        let mut i: usize = 0;
        while i < self.slots.len()
            invariant
                i <= self.slots@.len(),
                self.slots@.len() == self@.len(),
                sp@ == space@,
                out.deep_view() == values_for(self@.take(i as int), space@, key@),
            decreases self.slots@.len() - i,
        {
            proof {
                lemma_values_for_take_step(self@, space@, key@, i as int);
            }
            let ghost out0 = out.deep_view();
            match &self.slots[i] {
                Some(rec) => {
                    if rec.space == sp && crate::store::bytes_eq(rec.key.as_slice(), key) {
                        out.push(copy_bytes(&rec.value));
                        proof {
                            assert(out.deep_view() =~~= out0.push(rec.value@));
                        }
                    }
                },
                None => {},
            }
            i = i + 1;
        }
        proof {
            assert(self@.take(self@.len() as int) =~= self@);
        }
        Ok(out)
    }

    fn write(&mut self, space: &str, key: &[u8], val: &[u8]) -> (r: Result<(), StoreError>)
        ensures
            r is Ok,
            final(self)@ == write_log(old(self)@, space@, key@, val@),
    {
        let rec = LogRecord {
            space: space.to_owned(),
            key: vstd::slice::slice_to_vec(key),
            value: vstd::slice::slice_to_vec(val),
        };
        self.slots.push(Some(rec));
        proof {
            assert(self@ =~= write_log(old(self)@, space@, key@, val@));
        }
        Ok(())
    }

    fn subscribe(&self, space: &str) -> (r: Result<Subscriber, StoreError>)
        ensures
            r is Ok,
            r->Ok_0.space@ == space@,
            r->Ok_0.next_idx == 0,
    {
        Ok(Subscriber { space: space.to_owned(), next_idx: 0 })
    }

    fn fetch(&self, sub: &mut Subscriber) -> (r: Result<Option<Datum>, StoreError>)
        ensures
            r is Ok,
            match r->Ok_0 {
                Some(d) => {
                    &&& final(sub).space == old(sub).space
                    &&& old(sub).next_idx < final(sub).next_idx <= self@.len()
                    &&& space_data(self@.take(final(sub).next_idx as int), old(sub).space@)
                        == space_data(self@.take(old(sub).next_idx as int), old(sub).space@).push(
                        d@,
                    )
                },
                None => {
                    &&& *final(sub) == *old(sub)
                    &&& space_data(self@, old(sub).space@) == space_data(
                        self@.take(old(sub).next_idx as int),
                        old(sub).space@,
                    )
                },
            },
    {
        let mut off = sub.next_idx;
        while off < self.slots.len()
            invariant
                old(sub).next_idx <= off <= self.slots@.len(),
                self.slots@.len() == self@.len(),
                *sub == *old(sub),
                space_data(self@.take(off as int), sub.space@) == space_data(
                    self@.take(old(sub).next_idx as int),
                    sub.space@,
                ),
            decreases self.slots@.len() - off,
        {
            proof {
                lemma_space_data_take_step(self@, sub.space@, off as int);
            }
            match &self.slots[off] {
                Some(rec) => {
                    if rec.space == sub.space {
                        let d = Datum {
                            key: copy_bytes(&rec.key),
                            content: copy_bytes(&rec.value),
                        };
                        sub.next_idx = off + 1;
                        return Ok(Some(d));
                    }
                },
                None => {},
            }
            off = off + 1;
        }
        proof {
            assert(self@.take(self@.len() as int) =~= self@);
        }
        Ok(None)
    }
}

} // verus!
