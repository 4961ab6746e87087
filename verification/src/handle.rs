//! A caller's own access to a shared backend, with caches that it shares with nobody.

use crate::cache::{
    distinct_keys, held, lemma_stored_is_held, stored, Entries, MemoryCache, ObjectCache,
    PackCache,
};
use crate::object::{answer_of, object_of, BackendError, Kind, Object};
use crate::store::{may_answer, Answer, Find};
use git_features::threading::OwnShared;
use vstd::prelude::*;

verus! {

/// Why a lookup failed. That a backend has no object under an identity is no failure.
#[derive(Clone, Copy, Debug, PartialEq, Eq, Structural)]
pub enum LookupError {
    /// The backend could not tell whether it has the object.
    BackendResolutionFailed(BackendError),
}

/// What a lookup answers, with the object as a value.
pub type Looked = Result<Option<(Kind, Seq<u8>)>, LookupError>;

/// What a lookup answers.
pub open spec fn looked_of(result: Result<Option<Object>, LookupError>) -> Looked {
    match result {
        Ok(object) => Ok(object_of(object)),
        Err(error) => Err(error),
    }
}

/// A cache as contracts see it: its entries, oldest first, and the number of
/// entries that it has room for.
pub type CacheState = Option<(Entries, nat)>;

/// The object that a cache holds under `id`; a cache that is not there holds nothing.
pub open spec fn cached_in(cache: CacheState, id: Seq<u8>) -> Option<(Kind, Seq<u8>)> {
    match cache {
        Some((entries, _)) => held(entries, id),
        None => None,
    }
}

/// What a lookup that missed the cache answers once the backend has, and what
/// the cache of objects then holds: an object that was found is stored in it,
/// as far as the cache takes it; nothing else changes the cache, and only an
/// error of the backend makes the lookup fail.
pub open spec fn settled(cache: CacheState, id: Seq<u8>, found: Answer) -> (Looked, CacheState) {
    match found {
        Ok(Some(object)) => (
            Ok(Some(object)),
            match cache {
                Some((entries, limit)) => Some((stored(entries, limit, id, object), limit)),
                None => None,
            },
        ),
        Ok(None) => (Ok(None), cache),
        Err(error) => (Err(LookupError::BackendResolutionFailed(error)), cache),
    }
}

/// What a lookup answers and what the cache of objects then holds, for a
/// cache that is ready for use: an object that the cache holds is the answer,
/// whatever the backend would say, and nothing changes; else the answer of the
/// backend decides, as [`settled`] says.
pub open spec fn answered(ready: CacheState, id: Seq<u8>, found: Answer) -> (Looked, CacheState) {
    match cached_in(ready, id) {
        Some(object) => (Ok(Some(object)), ready),
        None => settled(ready, id, found),
    }
}

/// An identity that the backend does not have is answered with "no such
/// object", which is no error, and leaves the cache of objects as it was.
pub proof fn law_absent_is_not_cached(ready: CacheState, id: Seq<u8>)
    requires
        cached_in(ready, id) is None,
    ensures
        answered(ready, id, Ok(None)) == (Ok::<Option<(Kind, Seq<u8>)>, LookupError>(None), ready),
        cached_in(answered(ready, id, Ok(None)).1, id) is None,
{
}

/// An object that the backend found is answered from the cache from then on:
/// once a lookup has found it, with a cache that has room for anything, the
/// next lookup gives the same object whatever the backend would answer, and
/// changes nothing.
pub proof fn law_found_is_cached(
    entries: Entries,
    limit: nat,
    id: Seq<u8>,
    object: (Kind, Seq<u8>),
    later: Answer,
)
    requires
        distinct_keys(entries),
        limit > 0,
        held(entries, id) is None,
    ensures
        ({
            let first = answered(Some((entries, limit)), id, Ok(Some(object)));
            &&& first.0 == Ok::<Option<(Kind, Seq<u8>)>, LookupError>(Some(object))
            &&& answered(first.1, id, later) == (
                Ok::<Option<(Kind, Seq<u8>)>, LookupError>(Some(object)),
                first.1,
            )
        }),
{
    lemma_stored_is_held(entries, limit, id, object);
}

/// A failed lookup is the backend's failure, and the other way round: the
/// backend's error is not kept from the caller.
pub proof fn law_only_the_backend_fails(ready: CacheState, id: Seq<u8>, found: Answer)
    ensures
        answered(ready, id, found).0 is Err <==> cached_in(ready, id) is None && found is Err,
        answered(ready, id, found).0 matches Err(LookupError::BackendResolutionFailed(error))
            ==> found == Err::<Option<(Kind, Seq<u8>)>, BackendError>(error),
{
}

/// A handle that has made no cache holds nothing, and a lookup through it
/// leaves it so unless it makes a cache of its own. New handles and
/// duplicates begin like this (see [`Handle::new`] and [`Handle::duplicate`]),
/// so what one handle has found is not cached for any other.
pub proof fn law_caches_are_private(id: Seq<u8>, found: Answer)
    ensures
        cached_in(None, id) is None,
        answered(None, id, found).1 is None,
        answered(None, id, found).0 == settled(None, id, found).0,
{
}

/// Whether `ready` is the cache that a lookup works with, given the cache
/// that was there `before` and the function that makes one: a cache that is
/// there stays, and one that is not is made, where there is a function for it.
pub open spec fn made_ready<F: Fn() -> MemoryCache>(
    before: CacheState,
    make: Option<OwnShared<F>>,
    ready: CacheState,
) -> bool {
    match before {
        Some(_) => ready == before,
        None => match make {
            Some(f) => exists|cache: MemoryCache| #[trigger]
                call_ensures(*f, (), cache) && ready == Some((cache@, cache.limit())),
            None => ready is None,
        },
    }
}

/// Whether `packs` and `objects` are the two caches that a lookup works with:
/// see [`made_ready`].
pub open spec fn caches_ready<P: Fn() -> PackCache, O: Fn() -> ObjectCache>(
    packs_before: CacheState,
    make_packs: Option<OwnShared<P>>,
    packs: CacheState,
    objects_before: CacheState,
    make_objects: Option<OwnShared<O>>,
    objects: CacheState,
) -> bool {
    made_ready(packs_before, make_packs, packs) && made_ready(
        objects_before,
        make_objects,
        objects,
    )
}

/// A cache as contracts see it.
pub open spec fn cache_state(cache: MemoryCache) -> (Entries, nat) {
    (cache@, cache.limit())
}

/// The cache that a backend is handed for entries of packs: the one that is
/// there, and else one that is empty and keeps nothing.
pub open spec fn handed(packs: CacheState) -> (Entries, nat) {
    match packs {
        Some(cache) => cache,
        None => (Seq::empty(), 0),
    }
}

/// Whether a lookup of `id` in `store`, with the cache of objects `ready`, may
/// end with `result` and the cache `after`: as [`answered`] says for an answer
/// of the backend, which is only asked if the cache does not hold the object.
pub open spec fn lookup_ends<S: Find>(
    store: &S,
    id: &[u8],
    ready: CacheState,
    result: Looked,
    after: CacheState,
) -> bool {
    exists|found: Result<Option<Object>, BackendError>|
        {
            &&& cached_in(ready, id@) is None ==> may_answer(store, id, found)
            &&& (result, after) == answered(ready, id@, #[trigger] answer_of(found))
        }
}

/// Another owner of what `shared` points to, by `Clone::clone` of the shared
/// pointer `git_features::threading::OwnShared`: both point to the same value.
#[verifier::external_body]
fn share<T>(shared: &OwnShared<T>) -> (again: OwnShared<T>)
    ensures
        again == *shared,
{
    OwnShared::clone(shared)
}

/// One caller's access to a backend that it shares with others.
///
/// The two caches are made when they are first needed, by the functions given
/// for that, and belong to this handle alone.
pub struct Handle<S, P: Fn() -> PackCache, O: Fn() -> ObjectCache> {
    store: OwnShared<S>,
    new_pack_cache: Option<OwnShared<P>>,
    new_object_cache: Option<OwnShared<O>>,
    pack_cache: Option<PackCache>,
    object_cache: Option<ObjectCache>,
}

impl<S, P: Fn() -> PackCache, O: Fn() -> ObjectCache> Handle<S, P, O> {
    #[verifier::type_invariant]
    spec fn can_make_caches(self) -> bool {
        &&& self.new_pack_cache matches Some(make) ==> call_requires(*make, ())
        &&& self.new_object_cache matches Some(make) ==> call_requires(*make, ())
    }
}

impl<S: Find, P: Fn() -> PackCache, O: Fn() -> ObjectCache> Handle<S, P, O> {
    /// The backend.
    pub closed spec fn store(&self) -> OwnShared<S> {
        self.store
    }

    /// The function that makes the cache for entries of packs.
    pub closed spec fn new_pack_cache(&self) -> Option<OwnShared<P>> {
        self.new_pack_cache
    }

    /// The function that makes the cache for objects.
    pub closed spec fn new_object_cache(&self) -> Option<OwnShared<O>> {
        self.new_object_cache
    }

    /// The cache for entries of packs, once it is made.
    pub closed spec fn pack_cache(&self) -> CacheState {
        match self.pack_cache {
            Some(cache) => Some((cache@, cache.limit())),
            None => None,
        }
    }

    /// The cache for objects, once it is made.
    pub closed spec fn object_cache(&self) -> CacheState {
        match self.object_cache {
            Some(cache) => Some((cache@, cache.limit())),
            None => None,
        }
    }

    /// A handle on `store` that makes its caches with the given functions,
    /// when it first needs them. Without a function there is no such cache.
    pub fn new(
        store: OwnShared<S>,
        new_pack_cache: Option<OwnShared<P>>,
        new_object_cache: Option<OwnShared<O>>,
    ) -> (handle: Self)
        requires
            new_pack_cache matches Some(make) ==> call_requires(*make, ()),
            new_object_cache matches Some(make) ==> call_requires(*make, ()),
        ensures
            handle.store() == store,
            handle.new_pack_cache() == new_pack_cache,
            handle.new_object_cache() == new_object_cache,
            handle.pack_cache() is None,
            handle.object_cache() is None,
    {
        Handle { store, new_pack_cache, new_object_cache, pack_cache: None, object_cache: None }
    }

    /// A handle for another caller: on the same backend, with the same
    /// functions to make caches, and with no cache made yet.
    pub fn duplicate(&self) -> (handle: Self)
        ensures
            handle.store() == self.store(),
            handle.new_pack_cache() == self.new_pack_cache(),
            handle.new_object_cache() == self.new_object_cache(),
            handle.pack_cache() is None,
            handle.object_cache() is None,
    {
        proof {
            use_type_invariant(self);
        }
        Handle {
            store: share(&self.store),
            new_pack_cache: match &self.new_pack_cache {
                Some(make) => Some(share(make)),
                None => None,
            },
            new_object_cache: match &self.new_object_cache {
                Some(make) => Some(share(make)),
                None => None,
            },
            pack_cache: None,
            object_cache: None,
        }
    }

    /// A copy of the object that the cache of objects holds under `id`.
    pub fn cached(&self, id: &[u8]) -> (object: Option<Object>)
        ensures
            object_of(object) == cached_in(self.object_cache(), id@),
    {
        match &self.object_cache {
            Some(cache) => cache.get(id),
            None => None,
        }
    }

    /// Makes the caches that are not made yet and that there is a function for.
    pub fn prepare(&mut self)
        ensures
            final(self).store() == old(self).store(),
            final(self).new_pack_cache() == old(self).new_pack_cache(),
            final(self).new_object_cache() == old(self).new_object_cache(),
            old(self).pack_cache() is Some ==> final(self).pack_cache() == old(self).pack_cache(),
            old(self).object_cache() is Some ==> final(self).object_cache() == old(
                self,
            ).object_cache(),
            made_ready(
                old(self).pack_cache(),
                old(self).new_pack_cache(),
                final(self).pack_cache(),
            ),
            made_ready(
                old(self).object_cache(),
                old(self).new_object_cache(),
                final(self).object_cache(),
            ),
    {
        proof {
            use_type_invariant(&*self);
        }
        if self.pack_cache.is_none() {
            let made = match &self.new_pack_cache {
                Some(make) => {
                    let make: &P = &*make;
                    Some(make())
                },
                None => None,
            };
            self.pack_cache = made;
        }
        if self.object_cache.is_none() {
            let made = match &self.new_object_cache {
                Some(make) => {
                    let make: &O = &*make;
                    Some(make())
                },
                None => None,
            };
            self.object_cache = made;
        }
    }

    /// Ends a lookup that missed the cache with what the backend answered:
    /// see [`settled`].
    pub fn settle(&mut self, id: &[u8], found: Result<Option<Object>, BackendError>) -> (result:
        Result<Option<Object>, LookupError>)
        ensures
            (looked_of(result), final(self).object_cache()) == settled(
                old(self).object_cache(),
                id@,
                answer_of(found),
            ),
            final(self).pack_cache() == old(self).pack_cache(),
            final(self).store() == old(self).store(),
            final(self).new_pack_cache() == old(self).new_pack_cache(),
            final(self).new_object_cache() == old(self).new_object_cache(),
    {
        proof {
            use_type_invariant(&*self);
        }
        match found {
            Ok(Some(object)) => {
                let mut cache: Option<ObjectCache> = None;
                std::mem::swap(&mut self.object_cache, &mut cache);
                match cache {
                    Some(mut objects) => {
                        objects.put(id, object.duplicate());
                        self.object_cache = Some(objects);
                    },
                    None => {},
                }
                Ok(Some(object))
            },
            Ok(None) => Ok(None),
            Err(error) => Err(LookupError::BackendResolutionFailed(error)),
        }
    }

    /// Looks up the object with the identity `id`.
    ///
    /// The caches are made if they are not yet. An object that the cache of
    /// objects holds is answered from there: the backend is not asked, and
    /// neither cache changes. Else the backend is asked, with the cache for
    /// entries of packs at its disposal, or one that keeps nothing where there
    /// is none; what it leaves in that cache stays with the handle, and its
    /// answer ends the lookup as [`settled`] says.
    pub fn lookup(&mut self, id: &[u8]) -> (result: Result<Option<Object>, LookupError>)
        ensures
            final(self).store() == old(self).store(),
            final(self).new_pack_cache() == old(self).new_pack_cache(),
            final(self).new_object_cache() == old(self).new_object_cache(),
            final(self).object_cache() is Some <==> old(self).object_cache() is Some || old(
                self,
            ).new_object_cache() is Some,
            final(self).pack_cache() is Some <==> old(self).pack_cache() is Some || old(
                self,
            ).new_pack_cache() is Some,
            exists|packs: CacheState, ready: CacheState|
                {
                    &&& #[trigger] caches_ready(
                        old(self).pack_cache(),
                        old(self).new_pack_cache(),
                        packs,
                        old(self).object_cache(),
                        old(self).new_object_cache(),
                        ready,
                    )
                    &&& lookup_ends(
                        &*old(self).store(),
                        id,
                        ready,
                        looked_of(result),
                        final(self).object_cache(),
                    )
                    &&& match cached_in(ready, id@) {
                        Some(object) => {
                            &&& looked_of(result) == Ok::<Option<(Kind, Seq<u8>)>, LookupError>(
                                Some(object),
                            )
                            &&& final(self).object_cache() == ready
                            &&& final(self).pack_cache() == packs
                        },
                        None => exists|
                            found: Result<Option<Object>, BackendError>,
                            pack_cache: &mut PackCache,
                        |
                            {
                                &&& #[trigger] call_ensures(
                                    S::try_find,
                                    (&*old(self).store(), id, pack_cache),
                                    found,
                                )
                                &&& cache_state(*pack_cache) == handed(packs)
                                &&& match packs {
                                    Some(_) => final(self).pack_cache() == Some(
                                        cache_state(*final(pack_cache)),
                                    ),
                                    None => final(self).pack_cache() is None,
                                }
                                &&& (looked_of(result), final(self).object_cache()) == settled(
                                    ready,
                                    id@,
                                    answer_of(found),
                                )
                            },
                    }
                },
    {
        self.prepare();
        let ghost ready = self.object_cache();
        let ghost packs = self.pack_cache();
        match self.cached(id) {
            Some(object) => {
                proof {
                    let unasked = Ok::<Option<Object>, BackendError>(None);
                    assert((looked_of(Ok::<Option<Object>, LookupError>(Some(object))), ready)
                        == answered(ready, id@, answer_of(unasked)));
                    assert(lookup_ends(
                        &*self.store(),
                        id,
                        ready,
                        looked_of(Ok::<Option<Object>, LookupError>(Some(object))),
                        ready,
                    ));
                    assert(caches_ready(
                        old(self).pack_cache(),
                        old(self).new_pack_cache(),
                        packs,
                        old(self).object_cache(),
                        old(self).new_object_cache(),
                        ready,
                    ));
                }
                return Ok(Some(object));
            },
            None => {},
        }
        proof {
            use_type_invariant(&*self);
        }
        let mut kept: Option<PackCache> = None;
        std::mem::swap(&mut self.pack_cache, &mut kept);
        let found = match kept {
            Some(mut mine) => {
                let found = self.store.try_find(id, &mut mine);
                self.pack_cache = Some(mine);
                found
            },
            None => {
                let mut never = PackCache::never();
                self.store.try_find(id, &mut never)
            },
        };
        proof {
            assert(may_answer(&*self.store(), id, found));
        }
        let result = self.settle(id, found);
        proof {
            assert((looked_of(result), self.object_cache()) == answered(
                ready,
                id@,
                answer_of(found),
            ));
            assert(lookup_ends(&*self.store(), id, ready, looked_of(result), self.object_cache()));
            assert(caches_ready(
                old(self).pack_cache(),
                old(self).new_pack_cache(),
                packs,
                old(self).object_cache(),
                old(self).new_object_cache(),
                ready,
            ));
        }
        result
    }
}

} // verus!
