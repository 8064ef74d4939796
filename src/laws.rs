//! Laws that relate the store's operations to one another.
use crate::record::{encodable, record_bytes, RecordModel};
use crate::replay::{apply, lemma_replay_one_more, lemma_replay_truncate, replay, replay_start};
use crate::store::log_contents;
use vstd::prelude::*;

verus! {

/// Setting a key twice: the second set finds the first value, and the key
/// then holds the second.
pub proof fn lemma_set_twice(m: Map<Seq<char>, Seq<char>>, k: Seq<char>, v1: Seq<char>, v2: Seq<char>)
    ensures
        m.insert(k, v1).contains_key(k),
        m.insert(k, v1)[k] == v1,
        m.insert(k, v1).insert(k, v2).contains_key(k),
        m.insert(k, v1).insert(k, v2)[k] == v2,
{
}

/// Removing a key that was set finds its last value, and the key is then absent.
pub proof fn lemma_remove_after_set(m: Map<Seq<char>, Seq<char>>, k: Seq<char>, v: Seq<char>)
    ensures
        m.insert(k, v).contains_key(k),
        m.insert(k, v)[k] == v,
        !m.insert(k, v).remove(k).contains_key(k),
{
}

/// Replaying a log twice gives the same result, and so does replaying the
/// part of it that the first replay read: a store opened on a log, and one
/// opened on that store's log, hold the same keys with the same values.
pub proof fn lemma_replay_idempotent(log: Seq<u8>)
    ensures
        replay(log) matches Ok(st) ==> replay(log.subrange(0, st.end as int)) == replay(log),
{
    if replay(log) is Ok {
        lemma_replay_truncate(log, replay_start());
    }
}

/// Two sets of distinct keys, appended to a log in either order, leave the
/// same contents, in which each key holds its own value: neither set is lost.
pub proof fn lemma_distinct_sets_commute(
    log: Seq<u8>,
    k1: Seq<char>,
    v1: Seq<char>,
    k2: Seq<char>,
    v2: Seq<char>,
)
    requires
        replay(log) matches Ok(st) && st.end == log.len(),
        k1 != k2,
        encodable(RecordModel::Put { key: k1, val: v1 }),
        encodable(RecordModel::Put { key: k2, val: v2 }),
    ensures
        ({
            let r1 = record_bytes(RecordModel::Put { key: k1, val: v1 });
            let r2 = record_bytes(RecordModel::Put { key: k2, val: v2 });
            &&& log_contents(log + r1 + r2) == log_contents(log + r2 + r1)
            &&& log_contents(log + r1 + r2) matches Some(m) && m.contains_key(k1) && m[k1] == v1
                && m.contains_key(k2) && m[k2] == v2
        }),
{
    let a = RecordModel::Put { key: k1, val: v1 };
    let b = RecordModel::Put { key: k2, val: v2 };
    let st = replay(log)->Ok_0;
    lemma_replay_one_more(log, a);
    let s1 = apply(st, a, record_bytes(a).len());
    lemma_replay_one_more(log + record_bytes(a), b);
    lemma_replay_one_more(log, b);
    lemma_replay_one_more(log + record_bytes(b), a);
    let ab = apply(s1, b, record_bytes(b).len()).values;
    let ba = apply(apply(st, b, record_bytes(b).len()), a, record_bytes(a).len()).values;
    assert(ab =~= ba);
}

} // verus!
