//! The laws of the store model.
//!
//! Each proof function here states, over the log model of
//! [`crate::store`], a guarantee that holds for every sequence of
//! store operations: what a read returns after a batch of writes, what
//! a subscriber observes, and what a truncate leaves untouched.

use vstd::prelude::*;

use crate::message::DatumView;
use crate::store::{space_data, truncate_log, values_for, Log, LogRecordView};

verus! {

/// The log after a batch of writes, applied in order.
pub open spec fn apply_writes(log: Log, writes: Seq<LogRecordView>) -> Log
    decreases writes.len(),
{
    if writes.len() == 0 {
        log
    } else {
        apply_writes(log, writes.drop_last()).push(Some(writes.last()))
    }
}

/// The datum a write delivers to a subscriber of its space.
pub open spec fn datum_of(w: LogRecordView) -> DatumView {
    DatumView { key: w.key, content: w.value }
}

/// PUT/GET round-trip. After any batch of writes, a read of (`space`,
/// `key`) returns what it returned before, extended by exactly the
/// written values whose write addressed (`space`, `key`), in write
/// order.
pub proof fn lemma_put_get_round_trip(
    log: Log,
    writes: Seq<LogRecordView>,
    space: Seq<char>,
    key: Seq<u8>,
)
    ensures
        values_for(apply_writes(log, writes), space, key) == values_for(log, space, key)
            + writes.filter(|w: LogRecordView| w.space == space && w.key == key).map_values(
            |w: LogRecordView| w.value,
        ),
    decreases writes.len(),
{
    reveal(Seq::filter);
    let pred = |w: LogRecordView| w.space == space && w.key == key;
    let val = |w: LogRecordView| w.value;
    if writes.len() == 0 {
        assert(writes.filter(pred) =~= Seq::<LogRecordView>::empty());
        assert(values_for(log, space, key) + writes.filter(pred).map_values(val) =~= values_for(
            log,
            space,
            key,
        ));
    } else {
        let init = writes.drop_last();
        let w = writes.last();
        lemma_put_get_round_trip(log, init, space, key);
        let applied = apply_writes(log, init);
        assert(apply_writes(log, writes) == applied.push(Some(w)));
        assert(applied.push(Some(w)).drop_last() =~= applied);
        assert(applied.push(Some(w)).last() == Some(w));
        if pred(w) {
            assert(writes.filter(pred) == init.filter(pred).push(w));
            assert(values_for(log, space, key) + writes.filter(pred).map_values(val)
                =~= (values_for(log, space, key) + init.filter(pred).map_values(val)).push(
                w.value,
            ));
        } else {
            assert(writes.filter(pred) == init.filter(pred));
        }
    }
}

/// Space isolation. After any mix of writes, the data of `space` is
/// what it was before, extended by exactly the writes whose space is
/// `space`, in write order: a subscriber of a space never observes
/// another space's records.
pub proof fn lemma_space_isolation(log: Log, writes: Seq<LogRecordView>, space: Seq<char>)
    ensures
        space_data(apply_writes(log, writes), space) == space_data(log, space) + writes.filter(
            |w: LogRecordView| w.space == space,
        ).map_values(|w: LogRecordView| datum_of(w)),
    decreases writes.len(),
{
    reveal(Seq::filter);
    let pred = |w: LogRecordView| w.space == space;
    let dat = |w: LogRecordView| datum_of(w);
    if writes.len() == 0 {
        assert(writes.filter(pred) =~= Seq::<LogRecordView>::empty());
        assert(space_data(log, space) + writes.filter(pred).map_values(dat) =~= space_data(
            log,
            space,
        ));
    } else {
        let init = writes.drop_last();
        let w = writes.last();
        lemma_space_isolation(log, init, space);
        let applied = apply_writes(log, init);
        assert(applied.push(Some(w)).drop_last() =~= applied);
        assert(applied.push(Some(w)).last() == Some(w));
        if pred(w) {
            assert(writes.filter(pred) == init.filter(pred).push(w));
            assert(space_data(log, space) + writes.filter(pred).map_values(dat) =~= (space_data(
                log,
                space,
            ) + init.filter(pred).map_values(dat)).push(datum_of(w)));
        } else {
            assert(writes.filter(pred) == init.filter(pred));
        }
    }
}

/// Subscription completeness. A subscriber of `space` opened on an
/// empty store before a batch of writes to `space` is owed, as its
/// first deliveries, exactly those writes, in write order.
pub proof fn lemma_subscription_completeness(writes: Seq<LogRecordView>, space: Seq<char>)
    requires
        forall|i: int| 0 <= i < writes.len() ==> (#[trigger] writes[i]).space == space,
    ensures
        space_data(apply_writes(Seq::empty(), writes), space) == writes.map_values(
            |w: LogRecordView| datum_of(w),
        ),
{
    let pred = |w: LogRecordView| w.space == space;
    lemma_space_isolation(Seq::empty(), writes, space);
    lemma_filter_all(writes, pred);
    assert(space_data(Seq::empty(), space) + writes.map_values(|w: LogRecordView| datum_of(w))
        =~= writes.map_values(|w: LogRecordView| datum_of(w)));
}

/// A filter that accepts every element returns the sequence unchanged.
proof fn lemma_filter_all<A>(s: Seq<A>, pred: spec_fn(A) -> bool)
    requires
        forall|i: int| 0 <= i < s.len() ==> pred(#[trigger] s[i]),
    ensures
        s.filter(pred) == s,
    decreases s.len(),
{
    reveal(Seq::filter);
    if s.len() == 0 {
        assert(s.filter(pred) =~= s);
    } else {
        lemma_filter_all(s.drop_last(), pred);
        assert(pred(s.last()));
        assert(s.filter(pred) =~= s.drop_last().push(s.last()));
        assert(s.drop_last().push(s.last()) =~= s);
    }
}

/// Subscription concurrency. Appending records never disturbs a
/// subscriber: a cursor position that was valid stays valid with the
/// same deliveries behind it, and the grown log owes the subscriber
/// the old remainder followed by the new records of its space — every
/// concurrent write is observed, in order, with no loss.
pub proof fn lemma_subscription_concurrent(log: Log, ext: Log, space: Seq<char>, n: int)
    requires
        0 <= n <= log.len(),
    ensures
        space_data((log + ext).take(n), space) == space_data(log.take(n), space),
        space_data(log + ext, space) == space_data(log, space) + space_data(ext, space),
{
    assert((log + ext).take(n) =~= log.take(n));
    lemma_space_data_add(log, ext, space);
}

/// The data of a space distributes over log concatenation.
proof fn lemma_space_data_add(log: Log, ext: Log, space: Seq<char>)
    ensures
        space_data(log + ext, space) == space_data(log, space) + space_data(ext, space),
    decreases ext.len(),
{
    if ext.len() == 0 {
        assert(log + ext =~= log);
        assert(space_data(log, space) + space_data(ext, space) =~= space_data(log, space));
    } else {
        lemma_space_data_add(log, ext.drop_last(), space);
        assert((log + ext).drop_last() =~= log + ext.drop_last());
        assert((log + ext).last() == ext.last());
        match ext.last() {
            Some(r) => {
                if r.space == space {
                    assert(space_data(log, space) + space_data(ext, space) =~= (space_data(
                        log,
                        space,
                    ) + space_data(ext.drop_last(), space)).push(
                        DatumView { key: r.key, content: r.value },
                    ));
                } else {
                    assert(space_data(ext, space) == space_data(ext.drop_last(), space));
                }
            },
            None => {
                assert(space_data(ext, space) == space_data(ext.drop_last(), space));
            },
        }
    }
}

/// Truncating a space removes all of its records: every read of the
/// space returns nothing and a fresh subscriber of it is owed
/// nothing, until new writes arrive.
pub proof fn lemma_truncate_clears(log: Log, space: Seq<char>, key: Seq<u8>)
    ensures
        values_for(truncate_log(log, space), space, key) == Seq::<Seq<u8>>::empty(),
        space_data(truncate_log(log, space), space) == Seq::<DatumView>::empty(),
    decreases log.len(),
{
    if log.len() == 0 {
        assert(truncate_log(log, space) =~= log);
    } else {
        lemma_truncate_clears(log.drop_last(), space, key);
        assert(truncate_log(log, space).drop_last() =~= truncate_log(log.drop_last(), space));
        assert(truncate_log(log, space).last() == match log.last() {
            Some(r) => if r.space == space {
                None
            } else {
                log.last()
            },
            None => None::<LogRecordView>,
        });
    }
}

/// Truncate isolation. Truncating one space leaves every read and
/// every subscription of any other space unchanged.
pub proof fn lemma_truncate_isolation(log: Log, s1: Seq<char>, s2: Seq<char>, key: Seq<u8>)
    requires
        s1 != s2,
    ensures
        values_for(truncate_log(log, s1), s2, key) == values_for(log, s2, key),
        space_data(truncate_log(log, s1), s2) == space_data(log, s2),
    decreases log.len(),
{
    if log.len() == 0 {
        assert(truncate_log(log, s1) =~= log);
    } else {
        lemma_truncate_isolation(log.drop_last(), s1, s2, key);
        assert(truncate_log(log, s1).drop_last() =~= truncate_log(log.drop_last(), s1));
        assert(truncate_log(log, s1).last() == match log.last() {
            Some(r) => if r.space == s1 {
                None
            } else {
                log.last()
            },
            None => None::<LogRecordView>,
        });
    }
}

} // verus!
