//! The cache engine: the map from keys to entries and the four operations
//! on it.
//!
//! The map is seen as a `Map<Seq<u8>, (u32, Seq<u8>)>`: each key has at most
//! one entry, a tag and bytes. It is kept in buckets under the 64-bit hash of
//! the key; a bucket holds the entries whose keys share that hash.

use crate::message::{payload, request, response, Code, Message, MessageView, Op, PayloadView};
use std::collections::hash_map::DefaultHasher;
use std::collections::HashMap;
use std::hash::Hasher;
use vstd::prelude::*;
use vstd::slice::slice_to_vec;
use vstd::std_specs::hash::DefaultHasherAdditionalSpecFns;

verus! {

broadcast use vstd::std_specs::hash::group_hash_axioms;

/// The store as a mathematical map: key to tag and bytes.
pub type Store = Map<Seq<u8>, (u32, Seq<u8>)>;

/// The lock that an operation needs on the shared map.
#[derive(Clone, Copy, Debug, PartialEq, Eq, Structural)]
pub enum Access {
    /// It reads the map: any number of readers may run together.
    Shared,
    /// It changes the map: it runs alone.
    Exclusive,
    /// It does not touch the map.
    Unlocked,
}

/// The lock that `op` needs: a lookup shares the map, a store has it alone,
/// and the other two do not touch it.
pub open spec fn access_of(op: Op) -> Access {
    match op {
        Op::Get => Access::Shared,
        Op::Put => Access::Exclusive,
        Op::Del => Access::Unlocked,
        Op::Stats => Access::Unlocked,
    }
}

pub fn access(op: Op) -> (a: Access)
    ensures
        a == access_of(op),
{
    match op {
        Op::Get => Access::Shared,
        Op::Put => Access::Exclusive,
        Op::Del => Access::Unlocked,
        Op::Stats => Access::Unlocked,
    }
}

/// The messages that the engine can work on: a lookup or a store must be a
/// request, since only a request names a key.
pub open spec fn accepts(m: MessageView) -> bool {
    m.op() == Op::Get || m.op() == Op::Put ==> m is Request
}

/// The answer to a lookup of `key`: the entry under a success status, tag
/// and bytes as they were stored; or, on a miss, a message without payload
/// that carries the key asked for.
pub open spec fn lookup_reply(store: Store, key: Seq<u8>) -> MessageView {
    if store.contains_key(key) {
        MessageView::Response(
            Op::Get,
            Code::Success,
            Some(PayloadView { type_id: store[key].0, data: store[key].1 }),
        )
    } else {
        MessageView::Request(Op::Get, key, None)
    }
}

/// The store after the engine has worked on `m`: a store puts the entry that
/// the message carries under its key, in place of any entry there; nothing
/// else changes the store.
pub open spec fn store_after(store: Store, m: MessageView) -> Store {
    if m.op() == Op::Put {
        store.insert(m.parts().0, m.parts().1)
    } else {
        store
    }
}

/// The engine's answer to `m` on `store`.
pub open spec fn reply_to(store: Store, m: MessageView) -> MessageView {
    match m.op() {
        Op::Put => MessageView::Response(Op::Put, Code::Success, None),
        Op::Get => lookup_reply(store, m.parts().0),
        Op::Del => m,
        Op::Stats => m,
    }
}

/// The hash under which a key is kept.
pub open spec fn key_hash(key: Seq<u8>) -> u64 {
    DefaultHasher::spec_finish(seq![key])
}

fn hash_of(key: &[u8]) -> (h: u64)
    ensures
        h == key_hash(key@),
{
    let mut hasher = DefaultHasher::new();
    hasher.write(key);
    hasher.finish()
}

fn same_bytes(a: &[u8], b: &[u8]) -> (same: bool)
    ensures
        same == (a@ == b@),
{
    if a.len() != b.len() {
        return false;
    }
    let mut i: usize = 0;
    while i < a.len()
        invariant
            a@.len() == b@.len(),
            i <= a@.len(),
            forall|j: int| 0 <= j < i ==> a@[j] == b@[j],
        decreases a@.len() - i,
    {
        if a[i] != b[i] {
            return false;
        }
        i += 1;
    }
    assert(a@ =~= b@);
    true
}

struct Entry {
    key: Vec<u8>,
    type_id: u32,
    data: Vec<u8>,
}

/// The entry that a bucket holds for `key`: that of the first place with
/// this key.
spec fn find(bucket: Seq<Entry>, key: Seq<u8>) -> Option<(u32, Seq<u8>)>
    decreases bucket.len(),
{
    if bucket.len() == 0 {
        None
    } else if bucket[0].key@ == key {
        Some((bucket[0].type_id, bucket[0].data@))
    } else {
        find(bucket.skip(1), key)
    }
}

/// `i` is the first place of `bucket` that holds `key`.
spec fn first_at(bucket: Seq<Entry>, key: Seq<u8>, i: int) -> bool {
    &&& 0 <= i < bucket.len()
    &&& bucket[i].key@ == key
    &&& forall|j: int| 0 <= j < i ==> bucket[j].key@ != key
}

/// No place of `bucket` holds `key`.
spec fn absent(bucket: Seq<Entry>, key: Seq<u8>) -> bool {
    forall|j: int| 0 <= j < bucket.len() ==> bucket[j].key@ != key
}

proof fn lemma_find_first(bucket: Seq<Entry>, key: Seq<u8>, i: int)
    requires
        first_at(bucket, key, i),
    ensures
        find(bucket, key) == Some((bucket[i].type_id, bucket[i].data@)),
    decreases bucket.len(),
{
    if i > 0 {
        let rest = bucket.skip(1);
        assert(first_at(rest, key, i - 1)) by {
            assert forall|j: int| 0 <= j < i - 1 implies rest[j].key@ != key by {
                assert(rest[j] == bucket[j + 1]);
            }
        }
        lemma_find_first(rest, key, i - 1);
    }
}

proof fn lemma_find_absent(bucket: Seq<Entry>, key: Seq<u8>)
    requires
        absent(bucket, key),
    ensures
        find(bucket, key) is None,
    decreases bucket.len(),
{
    if bucket.len() > 0 {
        let rest = bucket.skip(1);
        assert(absent(rest, key)) by {
            assert forall|j: int| 0 <= j < rest.len() implies rest[j].key@ != key by {
                assert(rest[j] == bucket[j + 1]);
            }
        }
        lemma_find_absent(rest, key);
    }
}

/// Two buckets that hold `key` at the same places, with the same entries
/// there, hold the same entry for it.
proof fn lemma_find_same(a: Seq<Entry>, b: Seq<Entry>, key: Seq<u8>)
    requires
        a.len() <= b.len(),
        forall|j: int| 0 <= j < a.len() ==> (a[j].key@ == key <==> b[j].key@ == key),
        forall|j: int| 0 <= j < a.len() && a[j].key@ == key ==> a[j] == b[j],
        forall|j: int| a.len() <= j < b.len() ==> b[j].key@ != key,
    ensures
        find(a, key) == find(b, key),
    decreases a.len(),
{
    if a.len() == 0 {
        assert(absent(b, key));
        lemma_find_absent(b, key);
    } else if a[0].key@ != key {
        let ra = a.skip(1);
        let rb = b.skip(1);
        assert forall|j: int| 0 <= j < ra.len() implies (ra[j].key@ == key <==> rb[j].key@
            == key) by {
            assert(ra[j] == a[j + 1] && rb[j] == b[j + 1]);
        }
        assert forall|j: int| 0 <= j < ra.len() && ra[j].key@ == key implies ra[j] == rb[j] by {
            assert(ra[j] == a[j + 1] && rb[j] == b[j + 1]);
        }
        assert forall|j: int| ra.len() <= j < rb.len() implies rb[j].key@ != key by {
            assert(rb[j] == b[j + 1]);
        }
        lemma_find_same(ra, rb, key);
    }
}

fn position(bucket: &Vec<Entry>, key: &[u8]) -> (at: Option<usize>)
    ensures
        match at {
            Some(i) => first_at(bucket@, key@, i as int),
            None => absent(bucket@, key@),
        },
{
    let mut i: usize = 0;
    while i < bucket.len()
        invariant
            i <= bucket@.len(),
            forall|j: int| 0 <= j < i ==> bucket@[j].key@ != key@,
        decreases bucket@.len() - i,
    {
        if same_bytes(bucket[i].key.as_slice(), key) {
            return Some(i);
        }
        i += 1;
    }
    None
}

/// The cache engine. It owns the map from keys to entries.
pub struct Cache {
    buckets: HashMap<u64, Vec<Entry>>,
}

impl View for Cache {
    type V = Store;

    closed spec fn view(&self) -> Store {
        Map::new(
            |key: Seq<u8>|
                self.buckets@.contains_key(key_hash(key)) && find(
                    self.buckets@[key_hash(key)]@,
                    key,
                ) is Some,
            |key: Seq<u8>| find(self.buckets@[key_hash(key)]@, key).unwrap(),
        )
    }
}

impl Cache {
    /// An engine that holds nothing.
    pub fn new() -> (cache: Cache)
        ensures
            cache@ == Store::empty(),
    {
        let cache = Cache { buckets: HashMap::new() };
        assert(cache@ =~= Store::empty());
        cache
    }

    /// Looks `key` up. The store is only read.
    pub fn get(&self, key: &[u8]) -> (reply: Message)
        ensures
            reply@ == lookup_reply(self@, key@),
    {
        let h = hash_of(key);
        match self.buckets.get(&h) {
            Some(bucket) => match position(bucket, key) {
                Some(i) => {
                    proof {
                        lemma_find_first(bucket@, key@, i as int);
                    }
                    let entry = &bucket[i];
                    response(
                        Op::Get,
                        Code::Success,
                        Some(payload(entry.type_id, entry.data.clone())),
                    )
                },
                None => {
                    proof {
                        lemma_find_absent(bucket@, key@);
                    }
                    request(Op::Get, slice_to_vec(key), None)
                },
            },
            None => request(Op::Get, slice_to_vec(key), None),
        }
    }

    /// Puts `entry` under `key`, in place of the entry that was there, if
    /// any. The entries of all other keys stay as they are.
    pub fn set(&mut self, key: Vec<u8>, entry: (u32, Vec<u8>)) -> (reply: Message)
        ensures
            final(self)@ == old(self)@.insert(key@, (entry.0, entry.1@)),
            reply@ == MessageView::Response(Op::Put, Code::Success, None),
    {
        let h = hash_of(key.as_slice());
        let ghost k = key@;
        let ghost value = (entry.0, entry.1@);
        let mut bucket: Vec<Entry> = match self.buckets.remove(&h) {
            Some(bucket) => bucket,
            None => Vec::new(),
        };
        let ghost before = bucket@;
        assert(forall|other: Seq<u8>|
            key_hash(other) == h ==> (old(self)@.contains_key(other) <==> find(before, other)
                is Some));
        let fresh = Entry { key, type_id: entry.0, data: entry.1 };
        match position(&bucket, fresh.key.as_slice()) {
            Some(i) => {
                bucket[i] = fresh;
                proof {
                    lemma_find_first(bucket@, k, i as int);
                    assert forall|other: Seq<u8>| other != k implies find(bucket@, other) == find(
                        before,
                        other,
                    ) by {
                        lemma_find_same(before, bucket@, other);
                    }
                }
            },
            None => {
                bucket.push(fresh);
                proof {
                    lemma_find_first(bucket@, k, before.len() as int);
                    assert forall|other: Seq<u8>| other != k implies find(bucket@, other) == find(
                        before,
                        other,
                    ) by {
                        lemma_find_same(before, bucket@, other);
                    }
                }
            },
        }
        let ghost after = bucket@;
        self.buckets.insert(h, bucket);
        proof {
            assert(find(after, k) == Some(value));
            assert forall|other: Seq<u8>|
                self@.contains_key(other) == old(self)@.insert(k, value).contains_key(
                    other,
                ) && (self@.contains_key(other) ==> self@[other] == old(self)@.insert(
                    k,
                    value,
                )[other]) by {
                if key_hash(other) == h {
                    assert(self.buckets@[h]@ == after);
                } else {
                    assert(self.buckets@.contains_key(key_hash(other)) == old(
                        self,
                    ).buckets@.contains_key(key_hash(other)));
                }
            }
            assert(self@ =~= old(self)@.insert(k, value));
        }
        response(Op::Put, Code::Success, None)
    }

    /// Whether `message` is one the engine can work on.
    pub fn can_process(message: &Message) -> (yes: bool)
        ensures
            yes == accepts(message@),
    {
        match message {
            Message::Request(_, _, _) => true,
            Message::Response(op, _, _) => match op {
                Op::Get => false,
                Op::Put => false,
                Op::Del => true,
                Op::Stats => true,
            },
        }
    }

    /// Works on one message and gives the one answer to it.
    ///
    /// A store puts the message's entry under its key and answers with a
    /// success status and no payload. A lookup answers with the entry found,
    /// or with the key and no payload where there is none. The other two
    /// operations are handed back as they came, and nothing is changed.
    pub fn process(&mut self, message: Message) -> (reply: Message)
        requires
            accepts(message@),
        ensures
            final(self)@ == store_after(old(self)@, message@),
            reply@ == reply_to(old(self)@, message@),
    {
        match message.op() {
            Op::Put => {
                let (key, entry) = message.consume();
                self.set(key, entry)
            },
            Op::Get => match &message {
                Message::Request(_, key, _) => self.get(key.as_slice()),
                Message::Response(_, _, _) => message,
            },
            Op::Del => message,
            Op::Stats => message,
        }
    }
}

/// The answer to an operation that could not be carried out because the
/// shared map was left behind by a holder that failed: an error status for
/// this one operation, and no payload.
pub fn internal_error(op: Op) -> (reply: Message)
    ensures
        reply@ == MessageView::Response(op, Code::Error, None),
{
    response(op, Code::Error, None)
}

/// The store after the engine has worked on each message of `ms` in turn.
pub open spec fn store_after_all(store: Store, ms: Seq<MessageView>) -> Store
    decreases ms.len(),
{
    if ms.len() == 0 {
        store
    } else {
        store_after(store_after_all(store, ms.drop_last()), ms.last())
    }
}

/// A lookup after a store of the same key answers with what was stored: the
/// payload's tag and bytes come back unchanged, whatever the store held
/// before and whatever payload the lookup itself carries.
pub proof fn lemma_get_after_set(
    store: Store,
    key: Seq<u8>,
    stored: PayloadView,
    asked: Option<PayloadView>,
)
    ensures
        reply_to(
            store_after(store, MessageView::Request(Op::Put, key, Some(stored))),
            MessageView::Request(Op::Get, key, asked),
        ) == MessageView::Response(Op::Get, Code::Success, Some(stored)),
{
}

/// A lookup of a key that was never stored is a miss: starting from an empty
/// store, after any messages among which none stores under `key`, the answer
/// carries no payload and its key is `key`.
pub proof fn lemma_get_without_set(ms: Seq<MessageView>, key: Seq<u8>, asked: Option<PayloadView>)
    requires
        forall|i: int| 0 <= i < ms.len() ==> !(ms[i].op() == Op::Put && ms[i].parts().0 == key),
    ensures
        !store_after_all(Store::empty(), ms).contains_key(key),
        reply_to(store_after_all(Store::empty(), ms), MessageView::Request(Op::Get, key, asked))
            == MessageView::Request(Op::Get, key, None),
        MessageView::Request(Op::Get, key, None::<PayloadView>).key() == Some(key),
        MessageView::Request(Op::Get, key, None::<PayloadView>).payload() is None,
    decreases ms.len(),
{
    if ms.len() > 0 {
        let front = ms.drop_last();
        assert forall|i: int| 0 <= i < front.len() implies !(front[i].op() == Op::Put
            && front[i].parts().0 == key) by {
            assert(front[i] == ms[i]);
        }
        lemma_get_without_set(front, key, asked);
    }
}

/// Keys do not interfere: whatever the engine works on, the answer to a
/// lookup of `key` stays the same unless the message stores under `key`.
pub proof fn lemma_other_keys_untouched(
    store: Store,
    m: MessageView,
    key: Seq<u8>,
    asked: Option<PayloadView>,
)
    requires
        !(m.op() == Op::Put && m.parts().0 == key),
    ensures
        reply_to(store_after(store, m), MessageView::Request(Op::Get, key, asked)) == reply_to(
            store,
            MessageView::Request(Op::Get, key, asked),
        ),
{
}

/// Stores under different keys do not disturb one another: after stores
/// whose keys all differ, in whatever order they ran, a lookup of each of
/// the keys answers with the entry that was stored under it.
pub proof fn lemma_disjoint_keys_all_kept(
    store: Store,
    ms: Seq<MessageView>,
    i: int,
    asked: Option<PayloadView>,
)
    requires
        forall|j: int| 0 <= j < ms.len() ==> (#[trigger] ms[j]).op() == Op::Put,
        forall|j: int, k: int|
            #![trigger ms[j], ms[k]]
            0 <= j < k < ms.len() ==> ms[j].parts().0 != ms[k].parts().0,
        0 <= i < ms.len(),
    ensures
        reply_to(
            store_after_all(store, ms),
            MessageView::Request(Op::Get, ms[i].parts().0, asked),
        ) == MessageView::Response(
            Op::Get,
            Code::Success,
            Some(PayloadView { type_id: ms[i].parts().1.0, data: ms[i].parts().1.1 }),
        ),
    decreases ms.len(),
{
    let front = ms.drop_last();
    if i < ms.len() - 1 {
        assert(front[i] == ms[i]);
        assert forall|j: int| 0 <= j < front.len() implies (#[trigger] front[j]).op()
            == Op::Put by {
            assert(front[j] == ms[j]);
        }
        assert forall|j: int, k: int|
            #![trigger front[j], front[k]]
            0 <= j < k < front.len() implies front[j].parts().0 != front[k].parts().0 by {
            assert(front[j] == ms[j] && front[k] == ms[k]);
        }
        lemma_disjoint_keys_all_kept(store, front, i, asked);
        assert(ms[i].parts().0 != ms[ms.len() - 1].parts().0);
    }
}

} // verus!
