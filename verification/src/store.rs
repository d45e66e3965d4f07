//! The key-value store: a table of entries with lazy per-key expiration,
//! read and written through `get` and `set`.

use vstd::prelude::*;
use crate::command::CommandError;
use crate::command::unpack_bulk_str;
use crate::codec::spec_parse_int;
use crate::frame::FrameModel;
use crate::frame::Value;
use crate::frame::bytes_eq;
use crate::frame::frames_of;

verus! {

/// One stored value, the time it was written, and its optional
/// time-to-live in milliseconds.
#[derive(Debug)]
pub struct RedisItem {
    pub value: Vec<u8>,
    pub created_at: u64,
    pub expiration: Option<u64>,
}

/// The model of a stored entry.
pub struct ItemModel {
    pub value: Seq<u8>,
    pub created_at: u64,
    pub expiration: Option<u64>,
}

impl View for RedisItem {
    type V = ItemModel;

    open spec fn view(&self) -> ItemModel {
        ItemModel { value: self.value@, created_at: self.created_at, expiration: self.expiration }
    }
}

/// Milliseconds gone by since `created`, zero if the clock reads earlier.
pub open spec fn elapsed_millis(now: u64, created: u64) -> int {
    if now >= created {
        now - created
    } else {
        0
    }
}

/// What `get` answers for `key` at time `now`: the value while the entry is
/// absent or expired reads as absent, the entry itself staying in the table.
pub open spec fn spec_lookup(m: Map<Seq<u8>, ItemModel>, key: Seq<u8>, now: u64) -> FrameModel {
    if m.contains_key(key) {
        let item = m[key];
        match item.expiration {
            Some(ttl) => if elapsed_millis(now, item.created_at) > ttl {
                FrameModel::NullBulkString
            } else {
                FrameModel::SimpleString(item.value)
            },
            None => FrameModel::SimpleString(item.value),
        }
    } else {
        FrameModel::NullBulkString
    }
}

/// The bytes of the literal `px`.
pub open spec fn px_token() -> Seq<u8> {
    seq![112u8, 120u8]
}

/// The bytes of the reply `OK`.
pub open spec fn ok_reply() -> Seq<u8> {
    seq![79u8, 75u8]
}

/// The key a `get` invocation names.
pub open spec fn spec_get_args(args: Seq<FrameModel>) -> Result<Seq<u8>, CommandError> {
    if args.len() < 1 {
        Err(CommandError::WrongArity)
    } else if !(args[0] is BulkString) {
        Err(CommandError::NotBulkString)
    } else {
        Ok(args[0]->BulkString_0)
    }
}

/// The key, value and optional time-to-live a `set` invocation names. A
/// third argument must be the literal `px`; the fourth, if present, a
/// non-negative integer of milliseconds.
pub open spec fn spec_set_args(args: Seq<FrameModel>) -> Result<(Seq<u8>, Seq<u8>, Option<u64>), CommandError> {
    if args.len() < 1 {
        Err(CommandError::WrongArity)
    } else if !(args[0] is BulkString) {
        Err(CommandError::NotBulkString)
    } else if args.len() < 2 {
        Err(CommandError::WrongArity)
    } else if !(args[1] is BulkString) {
        Err(CommandError::NotBulkString)
    } else if args.len() < 3 {
        Ok((args[0]->BulkString_0, args[1]->BulkString_0, None))
    } else if !(args[2] is BulkString) || args[2]->BulkString_0 != px_token() {
        Err(CommandError::InvalidExpiryOption)
    } else if args.len() < 4 {
        Ok((args[0]->BulkString_0, args[1]->BulkString_0, None))
    } else if !(args[3] is BulkString) {
        Err(CommandError::InvalidExpiryValue)
    } else {
        match spec_parse_int(args[3]->BulkString_0) {
            Some(v) => if v >= 0 {
                Ok((args[0]->BulkString_0, args[1]->BulkString_0, Some(v as u64)))
            } else {
                Err(CommandError::InvalidExpiryValue)
            },
            None => Err(CommandError::InvalidExpiryValue),
        }
    }
}

/// Whether no two entries of the table share a key.
pub open spec fn keys_unique(s: Seq<(Vec<u8>, RedisItem)>) -> bool {
    forall|p: int, q: int| 0 <= p < q < s.len() ==> (#[trigger] s[p]).0@ != (#[trigger] s[q]).0@
}

/// The mapping a table of entries denotes, later entries shadowing earlier
/// ones.
pub open spec fn assoc_map(s: Seq<(Vec<u8>, RedisItem)>) -> Map<Seq<u8>, ItemModel>
    decreases s.len(),
{
    if s.len() == 0 {
        Map::empty()
    } else {
        assoc_map(s.drop_last()).insert(s.last().0@, s.last().1@)
    }
}

proof fn lemma_assoc_absent(s: Seq<(Vec<u8>, RedisItem)>, key: Seq<u8>)
    requires
        forall|i: int| 0 <= i < s.len() ==> (#[trigger] s[i]).0@ != key,
    ensures
        !assoc_map(s).contains_key(key),
    decreases s.len(),
{
    if s.len() > 0 {
        lemma_assoc_absent(s.drop_last(), key);
    }
}

proof fn lemma_assoc_found(s: Seq<(Vec<u8>, RedisItem)>, idx: int)
    requires
        keys_unique(s),
        0 <= idx < s.len(),
    ensures
        assoc_map(s).contains_key(s[idx].0@),
        assoc_map(s)[s[idx].0@] == s[idx].1@,
    decreases s.len(),
{
    if idx < s.len() - 1 {
        lemma_assoc_found(s.drop_last(), idx);
    }
}

proof fn lemma_assoc_update(s: Seq<(Vec<u8>, RedisItem)>, idx: int, p: (Vec<u8>, RedisItem))
    requires
        keys_unique(s),
        0 <= idx < s.len(),
        p.0@ == s[idx].0@,
    ensures
        assoc_map(s.update(idx, p)) == assoc_map(s).insert(p.0@, p.1@),
    decreases s.len(),
{
    let s2 = s.update(idx, p);
    if idx == s.len() - 1 {
        assert(s2.drop_last() =~= s.drop_last());
        assert(assoc_map(s2) =~= assoc_map(s).insert(p.0@, p.1@));
    } else {
        assert(s2.drop_last() =~= s.drop_last().update(idx, p));
        lemma_assoc_update(s.drop_last(), idx, p);
        assert(s.last().0@ != p.0@);
        assert(assoc_map(s2) =~= assoc_map(s).insert(p.0@, p.1@));
    }
}

/// The table, owned by whoever serializes access to it; every operation
/// goes through `get` or `set`.
#[derive(Debug)]
pub struct Server {
    cache: Vec<(Vec<u8>, RedisItem)>,
}

impl View for Server {
    type V = Map<Seq<u8>, ItemModel>;

    closed spec fn view(&self) -> Map<Seq<u8>, ItemModel> {
        assoc_map(self.cache@)
    }
}

impl Server {
    /// No two entries of the table share a key.
    pub closed spec fn wf(&self) -> bool {
        keys_unique(self.cache@)
    }

    /// A fresh, empty store.
    pub fn new() -> (s: Server)
        ensures
            s.wf(),
            s@ == Map::<Seq<u8>, ItemModel>::empty(),
    {
        Server { cache: Vec::new() }
    }

    /// The position of `key` in the table, if present.
    fn find_key(&self, key: &Vec<u8>) -> (r: Option<usize>)
        ensures
            match r {
                Some(idx) => idx < self.cache@.len() && self.cache@[idx as int].0@ == key@,
                None => forall|i: int| 0 <= i < self.cache@.len()
                    ==> (#[trigger] self.cache@[i]).0@ != key@,
            },
    {
        let mut i: usize = 0;
        while i < self.cache.len()
            invariant
                i <= self.cache@.len(),
                forall|k: int| 0 <= k < i ==> (#[trigger] self.cache@[k]).0@ != key@,
            decreases self.cache@.len() - i,
        {
            if bytes_eq(&self.cache[i].0, key) {
                return Some(i);
            }
            i = i + 1;
        }
        None
    }

    /// Answers a `GET`: the named key's live value, or a null bulk string
    /// for a key that is absent or expired at `now_millis`.
    pub fn get(&self, args: Vec<Value>, now_millis: u64) -> (r: Result<Value, CommandError>)
        requires
            self.wf(),
        ensures
            match r {
                Ok(v) => spec_get_args(frames_of(args@)) is Ok
                    && v@ == spec_lookup(self@, spec_get_args(frames_of(args@))->Ok_0, now_millis),
                Err(e) => spec_get_args(frames_of(args@)) == Err::<Seq<u8>, CommandError>(e),
            },
    {
        let ghost argm = frames_of(args@);
        if args.len() == 0 {
            return Err(CommandError::WrongArity);
        }
        let mut rest = args;
        let a0 = rest.remove(0);
        let key = match unpack_bulk_str(a0) {
            Ok(k) => k,
            Err(e) => {
                return Err(e);
            }
        };
        match self.find_key(&key) {
            Some(idx) => {
                proof {
                    lemma_assoc_found(self.cache@, idx as int);
                }
                let entry = &self.cache[idx].1;
                match entry.expiration {
                    Some(ttl) => {
                        let elapsed: u64 = if now_millis >= entry.created_at {
                            now_millis - entry.created_at
                        } else {
                            0
                        };
                        if elapsed > ttl {
                            Ok(Value::NullBulkString)
                        } else {
                            Ok(Value::SimpleString(clone_bytes(&entry.value)))
                        }
                    }
                    None => Ok(Value::SimpleString(clone_bytes(&entry.value))),
                }
            }
            None => {
                proof {
                    lemma_assoc_absent(self.cache@, key@);
                }
                Ok(Value::NullBulkString)
            }
        }
    }

    /// Answers a `SET`: inserts or overwrites the named key with the given
    /// value, created now, carrying the `px` time-to-live if one is named.
    pub fn set(&mut self, args: Vec<Value>, now_millis: u64) -> (r: Result<Value, CommandError>)
        requires
            old(self).wf(),
        ensures
            final(self).wf(),
            match r {
                Ok(v) => spec_set_args(frames_of(args@)) is Ok
                    && ({
                        let (key, val, ttl) = spec_set_args(frames_of(args@))->Ok_0;
                        final(self)@ == old(self)@.insert(key, (ItemModel {
                            value: val,
                            created_at: now_millis,
                            expiration: ttl,
                        }))
                    })
                    && v@ == FrameModel::SimpleString(ok_reply()),
                Err(e) => spec_set_args(frames_of(args@))
                    == Err::<(Seq<u8>, Seq<u8>, Option<u64>), CommandError>(e)
                    && final(self)@ == old(self)@,
            },
    {
        let ghost argm = frames_of(args@);
        let ghost orig = args@;
        let mut rest = args;
        if rest.len() == 0 {
            return Err(CommandError::WrongArity);
        }
        let a0 = rest.remove(0);
        proof {
            assert(rest@ =~= orig.skip(1));
        }
        let key = match unpack_bulk_str(a0) {
            Ok(k) => k,
            Err(e) => {
                return Err(e);
            }
        };
        if rest.len() == 0 {
            return Err(CommandError::WrongArity);
        }
        let a1 = rest.remove(0);
        proof {
            assert(a1 == orig[1]);
            assert(rest@ =~= orig.skip(2));
        }
        let value = match unpack_bulk_str(a1) {
            Ok(v) => v,
            Err(e) => {
                return Err(e);
            }
        };
        let expiration: Option<u64> = if rest.len() == 0 {
            None
        } else {
            let a2 = rest.remove(0);
            proof {
                assert(a2 == orig[2]);
                assert(rest@ =~= orig.skip(3));
            }
            match a2 {
                Value::BulkString(sub) => {
                    let px = px_lit();
                    if !bytes_eq(&sub, &px) {
                        return Err(CommandError::InvalidExpiryOption);
                    }
                    if rest.len() == 0 {
                        None
                    } else {
                        let a3 = rest.remove(0);
                        proof {
                            assert(a3 == orig[3]);
                        }
                        match a3 {
                            Value::BulkString(t) => {
                                proof {
                                    assert(t@.subrange(0, t@.len() as int) =~= t@);
                                }
                                match crate::codec::parse_int(&t, 0, t.len()) {
                                    Ok(v) => if v >= 0 {
                                        Some(v as u64)
                                    } else {
                                        return Err(CommandError::InvalidExpiryValue);
                                    },
                                    Err(_) => {
                                        return Err(CommandError::InvalidExpiryValue);
                                    }
                                }
                            }
                            _ => {
                                return Err(CommandError::InvalidExpiryValue);
                            }
                        }
                    }
                }
                _ => {
                    return Err(CommandError::InvalidExpiryOption);
                }
            }
        };
        let item = RedisItem { value, created_at: now_millis, expiration };
        match self.find_key(&key) {
            Some(idx) => {
                let p = (key, item);
                proof {
                    lemma_assoc_update(self.cache@, idx as int, p);
                }
                let ghost before = self.cache@;
                self.cache[idx] = p;
                proof {
                    assert forall|q1: int, q2: int| 0 <= q1 < q2 < self.cache@.len()
                        implies (#[trigger] self.cache@[q1]).0@ != (#[trigger] self.cache@[q2]).0@ by {
                        assert(before[q1].0@ != before[q2].0@);
                    }
                }
            }
            None => {
                let ghost before = self.cache@;
                self.cache.push((key, item));
                proof {
                    assert(self.cache@.drop_last() =~= before);
                    assert forall|q1: int, q2: int| 0 <= q1 < q2 < self.cache@.len()
                        implies (#[trigger] self.cache@[q1]).0@ != (#[trigger] self.cache@[q2]).0@ by {
                        if q2 < before.len() {
                            assert(before[q1].0@ != before[q2].0@);
                        }
                    }
                }
            }
        }
        Ok(Value::SimpleString(ok_lit()))
    }
}

/// A key never set reads as absent: `get` answers a null bulk string.
pub proof fn lemma_get_unset_key(m: Map<Seq<u8>, ItemModel>, key: Seq<u8>, now: u64)
    requires
        !m.contains_key(key),
    ensures
        spec_lookup(m, key, now) == FrameModel::NullBulkString,
{
}

/// A key set without a time-to-live answers its value at every later (or
/// earlier) clock reading: nothing expires it.
pub proof fn lemma_set_then_get(
    m: Map<Seq<u8>, ItemModel>,
    key: Seq<u8>,
    val: Seq<u8>,
    t_set: u64,
    t_get: u64,
)
    ensures
        spec_lookup(
            m.insert(key, (ItemModel { value: val, created_at: t_set, expiration: None })),
            key,
            t_get,
        ) == FrameModel::SimpleString(val),
{
}

/// A key set with a `px` time-to-live answers its value while the elapsed
/// time is within the ttl and a null bulk string after, the entry itself
/// staying in the table either way.
pub proof fn lemma_set_px_then_get(
    m: Map<Seq<u8>, ItemModel>,
    key: Seq<u8>,
    val: Seq<u8>,
    ttl: u64,
    t_set: u64,
    t_get: u64,
)
    ensures
        ({
            let m2 = m.insert(key, (ItemModel {
                value: val,
                created_at: t_set,
                expiration: Some(ttl),
            }));
            m2.contains_key(key) && spec_lookup(m2, key, t_get)
                == (if elapsed_millis(t_get, t_set) > ttl {
                    FrameModel::NullBulkString
                } else {
                    FrameModel::SimpleString(val)
                })
        }),
{
}

/// A `set` on one key changes nothing a `get` on any other key observes:
/// operations on disjoint keys do not disturb one another.
pub proof fn lemma_set_other_key(
    m: Map<Seq<u8>, ItemModel>,
    key: Seq<u8>,
    other: Seq<u8>,
    item: ItemModel,
    now: u64,
)
    requires
        key != other,
    ensures
        spec_lookup(m.insert(key, item), other, now) == spec_lookup(m, other, now),
{
}

/// The literal `px` as bytes.
fn px_lit() -> (r: Vec<u8>)
    ensures
        r@ == px_token(),
{
    let mut v: Vec<u8> = Vec::new();
    v.push(112);
    v.push(120);
    proof {
        assert(v@ =~= px_token());
    }
    v
}

/// The literal `OK` as bytes.
fn ok_lit() -> (r: Vec<u8>)
    ensures
        r@ == ok_reply(),
{
    let mut v: Vec<u8> = Vec::new();
    v.push(79);
    v.push(75);
    proof {
        assert(v@ =~= ok_reply());
    }
    v
}

/// A copy of a byte string.
fn clone_bytes(v: &Vec<u8>) -> (r: Vec<u8>)
    ensures
        r@ == v@,
{
    let mut out: Vec<u8> = Vec::new();
    let mut i: usize = 0;
    while i < v.len()
        invariant
            i <= v.len(),
            out@ == v@.subrange(0, i as int),
        decreases v.len() - i,
    {
        out.push(v[i]);
        i = i + 1;
        proof {
            assert(out@ =~= v@.subrange(0, i as int));
        }
    }
    proof {
        assert(v@.subrange(0, v.len() as int) =~= v@);
    }
    out
}

} // verus!
