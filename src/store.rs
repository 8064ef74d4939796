//! The store: a log of records and the index that replaying it gives.
//!
//! The store holds the image of the log in memory and appends each record to
//! it. Whatever keeps the log on durable storage writes the same bytes: those
//! of `Action::encode`, which are the bytes that `set` and `rm` append.
use crate::error::KVStoreError;
use crate::index::{Index, Pointer};
use crate::record::{
    decode, lemma_parse_record_bounds, parse_record, record_bytes, Action, Decoded, Parsed,
    RecordModel,
};
use crate::replay::{
    apply, consistent, lemma_replay_consistent, lemma_replay_one_more,
    lemma_replay_truncate, replay, replay_from, replay_start, Replayed,
};
use vstd::prelude::*;
use vstd::slice::{slice_subrange, slice_to_vec};

verus! {

/// The contents of a log: each live key with its value, if the log replays
/// without a fault.
pub open spec fn log_contents(log: Seq<u8>) -> Option<Map<Seq<char>, Seq<char>>> {
    match replay(log) {
        Ok(st) => Some(st.values),
        Err(_) => None,
    }
}

/// A key-value store whose every change is a record appended to its log.
pub struct KVStore {
    log: Vec<u8>,
    index: Index,
    values: Ghost<Map<Seq<char>, Seq<char>>>,
}

impl View for KVStore {
    type V = Map<Seq<char>, Seq<char>>;

    closed spec fn view(&self) -> Map<Seq<char>, Seq<char>> {
        self.values@
    }
}

/// The value held by the `Put` record that `p` points at in `log`.
fn read_value(
    log: &Vec<u8>,
    p: Pointer,
    Ghost(key): Ghost<Seq<char>>,
    Ghost(val): Ghost<Seq<char>>,
) -> (r: String)
    requires
        p.pos + p.len <= log@.len(),
        parse_record(log@.subrange(p.pos as int, (p.pos + p.len) as int)) == (Parsed::Record {
            rec: RecordModel::Put { key, val },
            len: p.len as nat,
        }),
    ensures
        r@ == val,
{
    let n = log.len();
    assert(p.pos <= n && p.len <= n);
    let start = p.pos as usize;
    let end = start + p.len as usize;
    match decode(slice_subrange(log.as_slice(), start, end)) {
        Decoded::Record(Action::Put { val, .. }, _) => val,
        _ => {
            proof {
                assert(false);
            }
            String::new()
        },
    }
}

impl KVStore {
    /// The bytes of the log.
    pub closed spec fn log(&self) -> Seq<u8> {
        self.log@
    }

    /// The index and the contents are what replaying the whole log gives.
    pub closed spec fn wf(&self) -> bool {
        &&& self.index.wf()
        &&& replay(self.log@) == Ok::<Replayed, nat>(
            Replayed { spans: self.index@, values: self.values@, end: self.log@.len() },
        )
    }

    spec fn state(&self) -> Replayed {
        Replayed { spans: self.index@, values: self.values@, end: self.log@.len() }
    }

    /// Each span of the index holds a `Put` record of its key and value.
    proof fn lemma_consistent(&self)
        requires
            self.wf(),
        ensures
            consistent(self.log@, self.state()),
    {
        lemma_replay_consistent(self.log@, replay_start());
        assert(replay_start().spans.dom() =~= replay_start().values.dom());
    }

    /// Opens the store whose log holds `bytes`. Replay stops before a record
    /// that the bytes cut short, and the store's log ends there; it fails at
    /// bytes that cannot start a record, with their offset.
    pub fn open(bytes: &[u8]) -> (r: Result<KVStore, KVStoreError>)
        ensures
            match replay(bytes@) {
                Ok(st) => r matches Ok(s) && s.wf() && s@ == st.values && s.log()
                    == bytes@.subrange(0, st.end as int),
                Err(off) => r matches Err(KVStoreError::Corrupt(o)) && o as nat == off,
            },
    {
        let mut index = Index::new();
        let ghost mut st = replay_start();
        let mut pos: usize = 0;
        assert(index@ =~= st.spans);
        loop
            invariant
                index.wf(),
                index@ == st.spans,
                st.end == pos,
                pos <= bytes@.len(),
                replay(bytes@) == replay_from(bytes@, st),
            ensures
                replay(bytes@) == Ok::<Replayed, nat>(st),
                index.wf(),
                index@ == st.spans,
                st.end == pos,
                pos <= bytes@.len(),
            decreases bytes@.len() - pos,
        {
            let rest = slice_subrange(bytes, pos, bytes.len());
            let decoded = decode(rest);
            proof {
                lemma_parse_record_bounds(rest@);
            }
            match decoded {
                Decoded::Record(action, n) => {
                    let p = Pointer { pos: pos as u64, len: n as u64 };
                    proof {
                        st = apply(st, action@, n as nat);
                    }
                    match action {
                        Action::Put { key, .. } => {
                            index.insert(key, p);
                        },
                        Action::Remove { key } => {
                            index.remove(&key);
                        },
                    }
                    pos = pos + n;
                },
                Decoded::Truncated => {
                    break ;
                },
                Decoded::Invalid => {
                    return Err(KVStoreError::Corrupt(pos as u64));
                },
            }
        }
        proof {
            lemma_replay_truncate(bytes@, replay_start());
        }
        let log = slice_to_vec(slice_subrange(bytes, 0, pos));
        Ok(KVStore { log, index, values: Ghost(st.values) })
    }

    /// A store's log replays, to its last byte, to the store's contents: a
    /// store opened on that log holds the same contents and the same log.
    pub proof fn lemma_log_holds_contents(&self)
        requires
            self.wf(),
        ensures
            log_contents(self.log()) == Some(self@),
            replay(self.log()) matches Ok(st) && st.end == self.log().len() && self.log().subrange(
                0,
                st.end as int,
            ) == self.log(),
    {
        assert(self.log@.subrange(0, self.log@.len() as int) =~= self.log@);
    }

    /// An empty store, with an empty log.
    pub fn new() -> (r: KVStore)
        ensures
            r.wf(),
            r@ == Map::<Seq<char>, Seq<char>>::empty(),
            r.log() == Seq::<u8>::empty(),
    {
        let s = KVStore { log: Vec::new(), index: Index::new(), values: Ghost(Map::empty()) };
        assert(s.index@ =~= Map::empty());
        s
    }

    /// The bytes of the log.
    pub fn log_bytes(&self) -> (r: &Vec<u8>)
        ensures
            r@ == self.log(),
    {
        &self.log
    }

    /// The value of `key`; absence is no error.
    pub fn get(&self, key: String) -> (r: Result<Option<String>, KVStoreError>)
        requires
            self.wf(),
        ensures
            r matches Ok(o) && (o is Some <==> self@.contains_key(key@)) && (o matches Some(
                v,
            ) ==> v@ == self@[key@]),
    {
        proof {
            self.lemma_consistent();
        }
        match self.index.lookup(&key) {
            Some(p) => Ok(Some(read_value(&self.log, p, Ghost(key@), Ghost(self.values@[key@])))),
            None => Ok(None),
        }
    }

    /// Appends the record of `action` to the log, and says what replaying the
    /// longer log gives; the index and the contents are left as they were.
    fn append(&mut self, action: &Action) -> (p: Pointer)
        requires
            old(self).wf(),
        ensures
            final(self).index == old(self).index,
            final(self).values == old(self).values,
            final(self).log@ == old(self).log@ + record_bytes(action@),
            p@.start == old(self).log@.len(),
            p@.len == record_bytes(action@).len(),
            replay(final(self).log@) == Ok::<Replayed, nat>(
                apply(old(self).state(), action@, record_bytes(action@).len()),
            ),
    {
        let mut bytes = action.encode();
        let pos = self.log.len();
        let n = bytes.len();
        self.log.append(&mut bytes);
        let _ = self.log.len();
        proof {
            lemma_replay_one_more(old(self).log@, action@);
        }
        Pointer { pos: pos as u64, len: n as u64 }
    }

    /// Gives `key` the value `val`; returns the value it held before.
    pub fn set(&mut self, key: String, val: String) -> (r: Result<Option<String>, KVStoreError>)
        requires
            old(self).wf(),
        ensures
            final(self).wf(),
            final(self)@ == old(self)@.insert(key@, val@),
            final(self).log() == old(self).log() + record_bytes(
                RecordModel::Put { key: key@, val: val@ },
            ),
            r matches Ok(o) && (o is Some <==> old(self)@.contains_key(key@)) && (o matches Some(
                v,
            ) ==> v@ == old(self)@[key@]),
    {
        proof {
            self.lemma_consistent();
        }
        let ghost k = key@;
        let ghost old_values = self.values@;
        let action = Action::Put { key: key.clone(), val };
        let p = self.append(&action);
        let prev = self.index.insert(key, p);
        self.values = Ghost(self.values@.insert(k, action@->Put_val));
        match prev {
            Some(q) => {
                assert(self.log@.subrange(q.pos as int, (q.pos + q.len) as int)
                    =~= old(self).log@.subrange(q.pos as int, (q.pos + q.len) as int));
                Ok(Some(read_value(&self.log, q, Ghost(k), Ghost(old_values[k]))))
            },
            None => Ok(None),
        }
    }

    /// Removes `key`; returns the value it held. A key with no value gives
    /// `KeyNotFound` and leaves the store as it was.
    pub fn rm(&mut self, key: String) -> (r: Result<Option<String>, KVStoreError>)
        requires
            old(self).wf(),
        ensures
            final(self).wf(),
            old(self)@.contains_key(key@) ==> {
                &&& final(self)@ == old(self)@.remove(key@)
                &&& final(self).log() == old(self).log() + record_bytes(
                    RecordModel::Remove { key: key@ },
                )
                &&& r matches Ok(Some(v)) && v@ == old(self)@[key@]
            },
            !old(self)@.contains_key(key@) ==> {
                &&& final(self)@ == old(self)@
                &&& final(self).log() == old(self).log()
                &&& r matches Err(KVStoreError::KeyNotFound(k)) && k@ == key@
            },
    {
        proof {
            self.lemma_consistent();
        }
        let ghost k = key@;
        match self.index.lookup(&key) {
            None => Err(KVStoreError::KeyNotFound(key)),
            Some(p) => {
                let val = read_value(&self.log, p, Ghost(k), Ghost(self.values@[k]));
                let action = Action::Remove { key };
                self.append(&action);
                self.index.remove(action.key());
                self.values = Ghost(self.values@.remove(k));
                Ok(Some(val))
            },
        }
    }
}

} // verus!
