//! Replay: the index and the contents that a log stands for, read record by record
//! from its start.
use crate::index::Span;
use crate::record::{
    encodable, lemma_parse_record_bounds, lemma_parse_record_prefix, lemma_record_round_trip,
    parse_record, record_bytes, Parsed, RecordModel,
};
use vstd::prelude::*;

verus! {

/// Where a replay stands: the span and the value of each live key, and the
/// offset of the next record.
pub ghost struct Replayed {
    pub spans: Map<Seq<char>, Span>,
    pub values: Map<Seq<char>, Seq<char>>,
    pub end: nat,
}

/// The state before the first record.
pub open spec fn replay_start() -> Replayed {
    Replayed { spans: Map::empty(), values: Map::empty(), end: 0 }
}

/// The state after the record `rec`, which occupies `len` bytes at `st.end`.
pub open spec fn apply(st: Replayed, rec: RecordModel, len: nat) -> Replayed {
    match rec {
        RecordModel::Put { key, val } => Replayed {
            spans: st.spans.insert(key, Span { start: st.end, len }),
            values: st.values.insert(key, val),
            end: st.end + len,
        },
        RecordModel::Remove { key } => Replayed {
            spans: st.spans.remove(key),
            values: st.values.remove(key),
            end: st.end + len,
        },
    }
}

/// Replays `log` from `st` on. The replay stops at the end of the log, and
/// before a record that the log cuts short; it fails, with that record's
/// offset, at bytes that cannot start a record.
pub open spec fn replay_from(log: Seq<u8>, st: Replayed) -> Result<Replayed, nat>
    decreases log.len() - st.end,
{
    if st.end >= log.len() {
        Ok(st)
    } else {
        match parse_record(log.subrange(st.end as int, log.len() as int)) {
            Parsed::Record { rec, len } => if 0 < len && st.end + len <= log.len() {
                replay_from(log, apply(st, rec, len))
            } else {
                Err(st.end)
            },
            Parsed::Truncated => Ok(st),
            Parsed::Invalid => Err(st.end),
        }
    }
}

/// Replays the whole log.
pub open spec fn replay(log: Seq<u8>) -> Result<Replayed, nat> {
    replay_from(log, replay_start())
}

/// Each span of `st` lies before `st.end` and holds a `Put` record of its key
/// with the key's value; spans and values have the same keys.
pub open spec fn consistent(log: Seq<u8>, st: Replayed) -> bool {
    &&& st.end <= log.len()
    &&& st.spans.dom() == st.values.dom()
    &&& forall|k: Seq<char>|
        #[trigger] st.spans.contains_key(k) ==> {
            &&& st.spans[k].start + st.spans[k].len <= st.end
            &&& parse_record(
                log.subrange(
                    st.spans[k].start as int,
                    (st.spans[k].start + st.spans[k].len) as int,
                ),
            ) == (Parsed::Record {
                rec: RecordModel::Put { key: k, val: st.values[k] },
                len: st.spans[k].len,
            })
        }
}

/// A replay only moves forward.
pub proof fn lemma_replay_end(log: Seq<u8>, st: Replayed)
    ensures
        replay_from(log, st) matches Ok(r) ==> st.end <= r.end,
        st.end <= log.len() ==> (replay_from(log, st) matches Ok(r) ==> r.end <= log.len()),
    decreases log.len() - st.end,
{
    if st.end < log.len() {
        if let Parsed::Record { rec, len } = parse_record(
            log.subrange(st.end as int, log.len() as int),
        ) {
            if 0 < len && st.end + len <= log.len() {
                lemma_replay_end(log, apply(st, rec, len));
            }
        }
    }
}

/// The record read at `st.end` of `log` is the record read from its own span.
proof fn lemma_record_in_span(log: Seq<u8>, pos: nat, len: nat)
    requires
        pos + len <= log.len(),
        parse_record(log.subrange(pos as int, log.len() as int)) matches Parsed::Record {
            len: n,
            ..
        } && n == len,
    ensures
        parse_record(log.subrange(pos as int, (pos + len) as int)) == parse_record(
            log.subrange(pos as int, log.len() as int),
        ),
{
    let s = log.subrange(pos as int, log.len() as int);
    let t = log.subrange(pos as int, (pos + len) as int);
    assert(t.subrange(0, len as int) =~= s.subrange(0, len as int));
    lemma_parse_record_prefix(s, t);
}

/// Replay keeps each span tied to the record that holds its key's value.
pub proof fn lemma_replay_consistent(log: Seq<u8>, st: Replayed)
    requires
        consistent(log, st),
    ensures
        replay_from(log, st) matches Ok(r) ==> consistent(log, r),
    decreases log.len() - st.end,
{
    if st.end < log.len() {
        if let Parsed::Record { rec, len } = parse_record(
            log.subrange(st.end as int, log.len() as int),
        ) {
            if 0 < len && st.end + len <= log.len() {
                let next = apply(st, rec, len);
                lemma_record_in_span(log, st.end, len);
                assert(next.spans.dom() =~= next.values.dom());
                lemma_replay_consistent(log, next);
            }
        }
    }
}

/// Replaying the log cut right after the last record read gives the same result.
pub proof fn lemma_replay_truncate(log: Seq<u8>, st: Replayed)
    requires
        replay_from(log, st) is Ok,
        st.end <= log.len(),
    ensures
        replay_from(log, st) matches Ok(r) ==> replay_from(log.subrange(0, r.end as int), st)
            == replay_from(log, st),
    decreases log.len() - st.end,
{
    let r = replay_from(log, st)->Ok_0;
    lemma_replay_end(log, st);
    let cut = log.subrange(0, r.end as int);
    if st.end < log.len() {
        let s = log.subrange(st.end as int, log.len() as int);
        match parse_record(s) {
            Parsed::Record { rec, len } => {
                let next = apply(st, rec, len);
                lemma_replay_truncate(log, next);
                lemma_replay_end(log, next);
                assert(next.end <= r.end);
                let t = cut.subrange(st.end as int, cut.len() as int);
                assert(t.subrange(0, len as int) =~= s.subrange(0, len as int));
                lemma_parse_record_prefix(s, t);
                assert(cut.subrange(0, r.end as int) =~= cut);
                assert(parse_record(cut.subrange(st.end as int, cut.len() as int)) == parse_record(
                    s,
                ));
            },
            _ => {
                assert(cut.len() == st.end);
            },
        }
    }
}

/// Bytes added after a log that replays to its end are replayed from the state
/// that the log left.
pub proof fn lemma_replay_append(log: Seq<u8>, st: Replayed, t: Seq<u8>)
    requires
        replay_from(log, st) matches Ok(r) && r.end == log.len(),
    ensures
        replay_from(log + t, st) == replay_from(log + t, replay_from(log, st)->Ok_0),
    decreases log.len() - st.end,
{
    let whole = log + t;
    if st.end < log.len() {
        let s = log.subrange(st.end as int, log.len() as int);
        if let Parsed::Record { rec, len } = parse_record(s) {
            let w = whole.subrange(st.end as int, whole.len() as int);
            assert(w.subrange(0, len as int) =~= s.subrange(0, len as int));
            lemma_parse_record_prefix(s, w);
            lemma_replay_append(log, apply(st, rec, len), t);
        }
    }
}

/// A log that replays to its end, followed by one record, replays to the end
/// of that record, which it applies.
pub proof fn lemma_replay_one_more(log: Seq<u8>, rec: RecordModel)
    requires
        replay(log) matches Ok(r) && r.end == log.len(),
        encodable(rec),
    ensures
        replay(log + record_bytes(rec)) == Ok::<Replayed, nat>(
            apply(replay(log)->Ok_0, rec, record_bytes(rec).len()),
        ),
{
    let r = replay(log)->Ok_0;
    let b = record_bytes(rec);
    let whole = log + b;
    lemma_replay_append(log, replay_start(), b);
    lemma_record_round_trip(rec, Seq::empty());
    assert(whole.subrange(log.len() as int, whole.len() as int) =~= b + Seq::<u8>::empty());
    lemma_parse_record_bounds(b);
    let next = apply(r, rec, b.len());
    assert(replay_from(whole, next) == Ok::<Replayed, nat>(next));
}

} // verus!
