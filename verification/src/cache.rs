//! A bounded cache of objects, private to one caller.

use crate::object::{object_of, Kind, Object};
use crate::path::{copy_bytes, same_bytes};
use vstd::prelude::*;

verus! {

/// What a cache holds, oldest first: keys with their objects.
pub type Entries = Seq<(Seq<u8>, (Kind, Seq<u8>))>;

/// The position of `key` among `entries`, or their number if it is not there.
pub open spec fn position(entries: Entries, key: Seq<u8>) -> int
    decreases entries.len(),
{
    if entries.len() == 0 {
        0
    } else if entries[0].0 == key {
        0
    } else {
        1 + position(entries.drop_first(), key)
    }
}

/// The object that `entries` hold under `key`.
pub open spec fn held(entries: Entries, key: Seq<u8>) -> Option<(Kind, Seq<u8>)> {
    let at = position(entries, key);
    if 0 <= at < entries.len() {
        Some(entries[at].1)
    } else {
        None
    }
}

/// No key occurs twice.
pub open spec fn distinct_keys(entries: Entries) -> bool {
    forall|i: int, j: int|
        0 <= i < j < entries.len() ==> (#[trigger] entries[i]).0 != (#[trigger] entries[j]).0
}

/// The entries without the one under `key`.
pub open spec fn without(entries: Entries, key: Seq<u8>) -> Entries {
    let at = position(entries, key);
    if 0 <= at < entries.len() {
        entries.remove(at)
    } else {
        entries
    }
}

/// The entries after `object` was stored under `key` in a cache for
/// `capacity` entries: an older entry under the key goes, then the oldest
/// entry where there is no room, and the new one comes last. A cache for no
/// entries keeps none.
pub open spec fn stored(entries: Entries, capacity: nat, key: Seq<u8>, object: (Kind, Seq<u8>))
    -> Entries {
    if capacity == 0 {
        entries
    } else {
        let rest = without(entries, key);
        let room = if rest.len() >= capacity {
            rest.drop_first()
        } else {
            rest
        };
        room.push((key, object))
    }
}

pub proof fn lemma_position(entries: Entries, key: Seq<u8>)
    ensures
        0 <= position(entries, key) <= entries.len(),
        position(entries, key) < entries.len() ==> entries[position(entries, key)].0 == key,
        forall|i: int| 0 <= i < position(entries, key) ==> (#[trigger] entries[i]).0 != key,
    decreases entries.len(),
{
    if entries.len() > 0 && entries[0].0 != key {
        let rest = entries.drop_first();
        lemma_position(rest, key);
        assert forall|i: int| 0 <= i < position(entries, key) implies (#[trigger] entries[i]).0
            != key by {
            if i > 0 {
                assert(entries[i] == rest[i - 1]);
            }
        }
    }
}

proof fn lemma_position_is(entries: Entries, key: Seq<u8>, at: int)
    requires
        0 <= at <= entries.len(),
        forall|i: int| 0 <= i < at ==> (#[trigger] entries[i]).0 != key,
        at < entries.len() ==> entries[at].0 == key,
    ensures
        position(entries, key) == at,
{
    lemma_position(entries, key);
}

/// Taking out the entry under a key leaves none under it, and the keys distinct.
pub proof fn lemma_without(entries: Entries, key: Seq<u8>)
    requires
        distinct_keys(entries),
    ensures
        distinct_keys(without(entries, key)),
        without(entries, key).len() <= entries.len(),
        forall|i: int|
            0 <= i < without(entries, key).len() ==> (#[trigger] without(entries, key)[i]).0 != key,
        forall|other: Seq<u8>|
            other != key ==> held(without(entries, key), other) == held(entries, other),
{
    lemma_position(entries, key);
    let rest = without(entries, key);
    let at = position(entries, key);
    if 0 <= at < entries.len() {
        assert forall|i: int| 0 <= i < rest.len() implies (#[trigger] rest[i]).0 != key by {
            if i < at {
                assert(rest[i] == entries[i]);
            } else {
                assert(rest[i] == entries[i + 1]);
            }
        }
        assert forall|i: int, j: int| 0 <= i < j < rest.len() implies (#[trigger] rest[i]).0 != (
        #[trigger] rest[j]).0 by {
            let a = if i < at { i } else { i + 1 };
            let b = if j < at { j } else { j + 1 };
            assert(rest[i] == entries[a] && rest[j] == entries[b]);
        }
        assert forall|other: Seq<u8>| other != key implies held(rest, other) == held(
            entries,
            other,
        ) by {
            lemma_position(entries, other);
            let there = position(entries, other);
            let here = if there < at { there } else { there - 1 };
            assert forall|i: int| 0 <= i < here implies (#[trigger] rest[i]).0 != other by {
                if i < at {
                    assert(rest[i] == entries[i]);
                } else {
                    assert(rest[i] == entries[i + 1]);
                }
            }
            if there < entries.len() {
                assert(rest[here] == entries[there]);
            }
            lemma_position_is(rest, other, here);
        }
    }
}

/// Storing keeps the keys distinct and the cache within its capacity.
pub proof fn lemma_stored_is_bounded(
    entries: Entries,
    capacity: nat,
    key: Seq<u8>,
    object: (Kind, Seq<u8>),
)
    requires
        distinct_keys(entries),
        entries.len() <= capacity,
    ensures
        distinct_keys(stored(entries, capacity, key, object)),
        stored(entries, capacity, key, object).len() <= capacity,
{
    if capacity > 0 {
        lemma_without(entries, key);
        let rest = without(entries, key);
        let room = if rest.len() >= capacity {
            rest.drop_first()
        } else {
            rest
        };
        assert(distinct_keys(room) && forall|i: int|
            0 <= i < room.len() ==> (#[trigger] room[i]).0 != key) by {
            if rest.len() >= capacity {
                assert forall|i: int| 0 <= i < room.len() implies (#[trigger] room[i]).0 != key by {
                    assert(room[i] == rest[i + 1]);
                }
                assert forall|i: int, j: int| 0 <= i < j < room.len() implies (#[trigger] room[i]).0
                    != (#[trigger] room[j]).0 by {
                    assert(room[i] == rest[i + 1] && room[j] == rest[j + 1]);
                }
            }
        }
        let all = room.push((key, object));
        assert forall|i: int, j: int| 0 <= i < j < all.len() implies (#[trigger] all[i]).0 != (
        #[trigger] all[j]).0 by {
            assert(all[i] == room[i]);
            if j < room.len() {
                assert(all[j] == room[j]);
            }
        }
    }
}

/// What was stored in a cache with room for anything is held under its key.
pub proof fn lemma_stored_is_held(
    entries: Entries,
    capacity: nat,
    key: Seq<u8>,
    object: (Kind, Seq<u8>),
)
    requires
        distinct_keys(entries),
        capacity > 0,
    ensures
        held(stored(entries, capacity, key, object), key) == Some(object),
{
    lemma_without(entries, key);
    let rest = without(entries, key);
    let room = if rest.len() >= capacity {
        rest.drop_first()
    } else {
        rest
    };
    assert forall|i: int| 0 <= i < room.len() implies (#[trigger] room[i]).0 != key by {
        if rest.len() >= capacity {
            assert(room[i] == rest[i + 1]);
        }
    }
    let all = room.push((key, object));
    assert forall|i: int| 0 <= i < room.len() implies (#[trigger] all[i]).0 != key by {
        assert(all[i] == room[i]);
    }
    lemma_position_is(all, key, room.len() as int);
}

struct Entry {
    key: Vec<u8>,
    object: Object,
}

/// The entries that a vector holds, in order.
spec fn entries_of(entries: Seq<Entry>) -> Entries {
    Seq::new(entries.len(), |i: int| (entries[i].key@, entries[i].object@))
}

/// A cache that holds up to a fixed number of objects and lets the oldest go
/// when there is no room for a new one.
pub struct MemoryCache {
    capacity: usize,
    entries: Vec<Entry>,
}

/// The cache of one caller for whole objects, by identity.
pub type ObjectCache = MemoryCache;

/// The cache of one caller for entries of packs, by keys that the backend chooses.
pub type PackCache = MemoryCache;

impl View for MemoryCache {
    type V = Entries;

    closed spec fn view(&self) -> Entries {
        entries_of(self.entries@)
    }
}

impl MemoryCache {
    #[verifier::type_invariant]
    spec fn bounded(self) -> bool {
        distinct_keys(entries_of(self.entries@)) && self.entries@.len() <= self.capacity
    }

    /// The number of entries that the cache has room for.
    pub closed spec fn limit(&self) -> nat {
        self.capacity as nat
    }

    /// An empty cache with room for `capacity` entries.
    pub fn new(capacity: usize) -> (cache: MemoryCache)
        ensures
            cache@ == Seq::<(Seq<u8>, (Kind, Seq<u8>))>::empty(),
            cache.limit() == capacity,
    {
        MemoryCache { capacity, entries: Vec::new() }
    }

    /// A cache that never keeps anything.
    pub fn never() -> (cache: MemoryCache)
        ensures
            cache@ == Seq::<(Seq<u8>, (Kind, Seq<u8>))>::empty(),
            cache.limit() == 0,
    {
        MemoryCache::new(0)
    }

    /// The number of entries in the cache. It never exceeds the room there
    /// is, and no key is held twice.
    pub fn len(&self) -> (len: usize)
        ensures
            len == self@.len(),
            len <= self.limit(),
            distinct_keys(self@),
    {
        proof {
            use_type_invariant(self);
        }
        self.entries.len()
    }

    fn find(&self, key: &[u8]) -> (at: usize)
        ensures
            at == position(self@, key@),
            at <= self.entries.len(),
    {
        let mut at: usize = 0;
        while at < self.entries.len()
            invariant
                at <= self.entries.len(),
                forall|i: int| 0 <= i < at ==> (#[trigger] self@[i]).0 != key@,
            decreases self.entries.len() - at,
        {
            if same_bytes(self.entries[at].key.as_slice(), key) {
                proof {
                    assert(self@[at as int].0 == key@);
                    lemma_position_is(self@, key@, at as int);
                }
                return at;
            }
            at += 1;
        }
        proof {
            lemma_position_is(self@, key@, at as int);
        }
        at
    }

    /// A copy of the object that is held under `key`.
    pub fn get(&self, key: &[u8]) -> (object: Option<Object>)
        ensures
            object_of(object) == held(self@, key@),
    {
        let at = self.find(key);
        if at < self.entries.len() {
            Some(self.entries[at].object.duplicate())
        } else {
            None
        }
    }

    /// Stores `object` under `key`, as [`stored`] says, and tells whether it
    /// was kept: a cache without room keeps nothing.
    pub fn put(&mut self, key: &[u8], object: Object) -> (kept: bool)
        ensures
            final(self)@ == stored(old(self)@, old(self).limit(), key@, object@),
            final(self).limit() == old(self).limit(),
            kept == (old(self).limit() > 0),
    {
        proof {
            use_type_invariant(&*self);
        }
        if self.capacity == 0 {
            return false;
        }
        let at = self.find(key);
        let ghost before = self@;
        proof {
            lemma_without(before, key@);
            lemma_stored_is_bounded(before, self.capacity as nat, key@, object@);
        }
        let mut entries: Vec<Entry> = Vec::new();
        std::mem::swap(&mut self.entries, &mut entries);
        if at < entries.len() {
            entries.remove(at);
        }
        proof {
            assert(entries_of(entries@) == without(before, key@));
        }
        if entries.len() >= self.capacity {
            entries.remove(0);
            proof {
                assert(entries_of(entries@) == without(before, key@).drop_first());
            }
        }
        let ghost room = entries_of(entries@);
        let entry = Entry { key: copy_bytes(key), object };
        entries.push(entry);
        proof {
            assert(entries_of(entries@) == room.push((key@, object@)));
        }
        self.entries = entries;
        true
    }
}

} // verus!
