use git_features::threading::OwnShared;
use repo_discover::cache::{MemoryCache, ObjectCache, PackCache};
use repo_discover::handle::{Handle, LookupError};
use repo_discover::object::{BackendError, Kind, Object};
use repo_discover::store::{
    is_decisive, Alternate, Backend, Compound, Find, LinkError, Linked, Sink, PACKED_BEFORE_LOOSE,
};
use std::cell::Cell;

/// A backend that holds what it is given and counts how often it is asked.
struct Counting {
    calls: Cell<usize>,
    objects: Vec<(&'static [u8], Kind, &'static [u8])>,
    broken: Option<BackendError>,
    uses_pack_cache: bool,
    /// How often the object was already in the cache for entries of packs.
    pack_hits: Cell<usize>,
}

impl Counting {
    fn holding(objects: Vec<(&'static [u8], Kind, &'static [u8])>) -> Counting {
        Counting {
            calls: Cell::new(0),
            objects,
            broken: None,
            uses_pack_cache: false,
            pack_hits: Cell::new(0),
        }
    }

    fn broken(error: BackendError) -> Counting {
        Counting {
            calls: Cell::new(0),
            objects: vec![],
            broken: Some(error),
            uses_pack_cache: false,
            pack_hits: Cell::new(0),
        }
    }
}

impl Find for Counting {
    fn try_find(&self, id: &[u8], pack_cache: &mut PackCache) -> Result<Option<Object>, BackendError> {
        self.calls.set(self.calls.get() + 1);
        if let Some(error) = self.broken {
            return Err(error);
        }
        for (key, kind, data) in &self.objects {
            if *key == id {
                if self.uses_pack_cache {
                    if pack_cache.get(id).is_some() {
                        self.pack_hits.set(self.pack_hits.get() + 1);
                    }
                    pack_cache.put(id, Object { kind: *kind, data: data.to_vec() });
                }
                return Ok(Some(Object { kind: *kind, data: data.to_vec() }));
            }
        }
        Ok(None)
    }
}

type MakeCache = fn() -> MemoryCache;

fn small_cache() -> MemoryCache {
    MemoryCache::new(2)
}

fn blob(data: &[u8]) -> Object {
    Object { kind: Kind::Blob, data: data.to_vec() }
}

fn same(object: Option<Object>, kind: Kind, data: &[u8]) -> bool {
    match object {
        Some(object) => object.kind == kind && object.data == data,
        None => false,
    }
}

#[test]
fn a_cache_holds_what_was_put() {
    let mut cache = MemoryCache::new(2);
    assert_eq!(cache.len(), 0);
    assert!(cache.get(b"a").is_none());
    assert!(cache.put(b"a", blob(b"1")));
    assert!(cache.put(b"b", Object { kind: Kind::Tree, data: b"2".to_vec() }));
    assert_eq!(cache.len(), 2);
    assert!(same(cache.get(b"a"), Kind::Blob, b"1"));
    assert!(same(cache.get(b"b"), Kind::Tree, b"2"));
    assert!(cache.get(b"c").is_none());
}

#[test]
fn a_full_cache_lets_the_oldest_go() {
    let mut cache = MemoryCache::new(2);
    cache.put(b"a", blob(b"1"));
    cache.put(b"b", blob(b"2"));
    cache.put(b"c", blob(b"3"));
    assert_eq!(cache.len(), 2);
    assert!(cache.get(b"a").is_none());
    assert!(same(cache.get(b"b"), Kind::Blob, b"2"));
    assert!(same(cache.get(b"c"), Kind::Blob, b"3"));
}

#[test]
fn putting_again_replaces_and_renews() {
    let mut cache = MemoryCache::new(2);
    cache.put(b"a", blob(b"1"));
    cache.put(b"b", blob(b"2"));
    cache.put(b"a", Object { kind: Kind::Commit, data: b"new".to_vec() });
    assert_eq!(cache.len(), 2);
    assert!(same(cache.get(b"a"), Kind::Commit, b"new"));
    // "b" is the oldest now
    cache.put(b"c", blob(b"3"));
    assert!(cache.get(b"b").is_none());
    assert!(same(cache.get(b"a"), Kind::Commit, b"new"));
}

#[test]
fn a_cache_without_room_keeps_nothing() {
    let mut cache = PackCache::never();
    assert!(!cache.put(b"a", blob(b"1")));
    assert_eq!(cache.len(), 0);
    assert!(cache.get(b"a").is_none());
    let mut cache = ObjectCache::new(0);
    assert!(!cache.put(b"a", blob(b"1")));
    assert!(cache.get(b"a").is_none());
}

#[test]
fn an_object_is_copied_whole() {
    let object = Object { kind: Kind::Tag, data: b"tagged".to_vec() };
    let copy = object.duplicate();
    assert_eq!(copy.kind, Kind::Tag);
    assert_eq!(copy.data, b"tagged".to_vec());
}

#[test]
fn the_sink_has_no_objects() {
    let mut cache = PackCache::new(4);
    assert!(matches!(Sink.try_find(b"any", &mut cache), Ok(None)));
    assert!(matches!(Sink.try_find(b"", &mut cache), Ok(None)));
    assert_eq!(cache.len(), 0);
    let backend: Backend<Sink, Sink> = Backend::Sink;
    assert!(matches!(backend.try_find(b"any", &mut cache), Ok(None)));
}

#[test]
fn only_no_such_object_lets_the_asking_go_on() {
    assert!(!is_decisive(&Ok(None)));
    assert!(is_decisive(&Ok(Some(blob(b"x")))));
    assert!(is_decisive(&Err(BackendError::CorruptIndex)));
    assert!(is_decisive(&Err(BackendError::UnreadablePack)));
    assert!(is_decisive(&Err(BackendError::UnreadableObject)));
}

fn compound(
    location: &[u8],
    loose: Vec<(&'static [u8], Kind, &'static [u8])>,
    packed: Vec<(&'static [u8], Kind, &'static [u8])>,
) -> Compound<Counting, Counting> {
    Compound {
        location: location.to_vec(),
        loose: Counting::holding(loose),
        packed: Counting::holding(packed),
    }
}

#[test]
fn packs_are_asked_before_loose_objects() {
    assert!(PACKED_BEFORE_LOOSE);
    let both = compound(
        b"/objects",
        vec![(b"id", Kind::Blob, b"loose"), (b"only-loose", Kind::Tree, b"l")],
        vec![(b"id", Kind::Blob, b"packed")],
    );
    let mut cache = PackCache::never();
    assert!(same(both.try_find(b"id", &mut cache).unwrap(), Kind::Blob, b"packed"));
    assert_eq!(both.packed.calls.get(), 1);
    assert_eq!(both.loose.calls.get(), 0);
    assert!(same(both.try_find(b"only-loose", &mut cache).unwrap(), Kind::Tree, b"l"));
    assert_eq!(both.packed.calls.get(), 2);
    assert_eq!(both.loose.calls.get(), 1);
    assert!(matches!(both.try_find(b"nowhere", &mut cache), Ok(None)));
}

#[test]
fn an_error_of_the_packs_is_not_passed_over() {
    let broken = Compound {
        location: b"/objects".to_vec(),
        loose: Counting::holding(vec![(b"id", Kind::Blob, b"loose")]),
        packed: Counting::broken(BackendError::CorruptIndex),
    };
    let mut cache = PackCache::never();
    assert!(matches!(broken.try_find(b"id", &mut cache), Err(BackendError::CorruptIndex)));
    assert_eq!(broken.loose.calls.get(), 0);
}

#[test]
fn alternates_are_asked_in_order_up_to_the_first_hit() {
    let primary = compound(b"/a", vec![(b"in-a", Kind::Blob, b"a")], vec![]);
    let second = compound(b"/b", vec![(b"in-b", Kind::Blob, b"b"), (b"twice", Kind::Blob, b"b")], vec![]);
    let third = compound(b"/c", vec![(b"in-c", Kind::Blob, b"c"), (b"twice", Kind::Blob, b"c")], vec![]);
    let linked = Linked::new(primary, vec![Alternate::Compound(second), Alternate::Compound(third)])
        .expect("three directories");
    assert_eq!(linked.len(), 3);
    let mut cache = PackCache::never();
    assert!(same(linked.try_find(b"in-a", &mut cache).unwrap(), Kind::Blob, b"a"));
    assert!(same(linked.try_find(b"in-c", &mut cache).unwrap(), Kind::Blob, b"c"));
    assert!(same(linked.try_find(b"twice", &mut cache).unwrap(), Kind::Blob, b"b"));
    assert!(matches!(linked.try_find(b"nowhere", &mut cache), Ok(None)));
    let backend = Backend::Linked(linked);
    assert!(same(backend.try_find(b"in-b", &mut cache).unwrap(), Kind::Blob, b"b"));
}

#[test]
fn an_error_of_an_alternate_ends_the_asking() {
    let primary = compound(b"/a", vec![], vec![]);
    let broken = Compound {
        location: b"/b".to_vec(),
        loose: Counting::broken(BackendError::UnreadableObject),
        packed: Counting::holding(vec![]),
    };
    let third = compound(b"/c", vec![(b"id", Kind::Blob, b"c")], vec![]);
    let linked = Linked::new(primary, vec![Alternate::Compound(broken), Alternate::Compound(third)])
        .expect("three directories");
    let mut cache = PackCache::never();
    assert!(matches!(linked.try_find(b"id", &mut cache), Err(BackendError::UnreadableObject)));
}

#[test]
fn linked_alternates_keep_their_order() {
    let inner = Linked::new(
        compound(b"/b", vec![(b"id", Kind::Blob, b"b")], vec![]),
        vec![Alternate::Compound(compound(b"/c", vec![(b"id", Kind::Blob, b"c"), (b"c", Kind::Tree, b"c")], vec![]))],
    )
    .expect("two directories");
    let outer = Linked::new(
        compound(b"/a", vec![], vec![]),
        vec![
            Alternate::Linked(inner),
            Alternate::Compound(compound(b"/d", vec![(b"c", Kind::Blob, b"d")], vec![])),
        ],
    )
    .expect("four directories");
    assert_eq!(outer.len(), 4);
    let mut cache = PackCache::never();
    assert!(same(outer.try_find(b"id", &mut cache).unwrap(), Kind::Blob, b"b"));
    assert!(same(outer.try_find(b"c", &mut cache).unwrap(), Kind::Tree, b"c"));
}

#[test]
fn a_backend_cannot_be_its_own_alternate() {
    let result = Linked::new(
        compound(b"/a", vec![], vec![]),
        vec![Alternate::Compound(compound(b"/a", vec![], vec![]))],
    );
    assert!(matches!(result, Err(LinkError::Cycle { location }) if location == b"/a".to_vec()));

    let inner = Linked::new(
        compound(b"/b", vec![], vec![]),
        vec![Alternate::Compound(compound(b"/a", vec![], vec![]))],
    )
    .expect("two directories");
    let result = Linked::new(compound(b"/a", vec![], vec![]), vec![Alternate::Linked(inner)]);
    assert!(matches!(result, Err(LinkError::Cycle { location }) if location == b"/a".to_vec()));

    let result = Linked::new(
        compound(b"/a", vec![], vec![]),
        vec![
            Alternate::Compound(compound(b"/b", vec![], vec![])),
            Alternate::Compound(compound(b"/c", vec![], vec![])),
            Alternate::Compound(compound(b"/b", vec![], vec![])),
        ],
    );
    assert!(matches!(result, Err(LinkError::Cycle { location }) if location == b"/b".to_vec()));
}

#[test]
fn a_backend_without_alternates_links_alone() {
    let linked = Linked::new(compound(b"/a", vec![(b"id", Kind::Blob, b"a")], vec![]), vec![])
        .expect("one directory");
    assert_eq!(linked.len(), 1);
    let mut cache = PackCache::never();
    assert!(same(linked.try_find(b"id", &mut cache).unwrap(), Kind::Blob, b"a"));
}

#[test]
fn an_absent_object_is_not_found_and_not_cached() {
    let store = OwnShared::new(Counting::holding(vec![(b"here", Kind::Blob, b"data")]));
    let mut handle = Handle::new(
        OwnShared::clone(&store),
        None::<OwnShared<MakeCache>>,
        Some(OwnShared::new(small_cache as MakeCache)),
    );
    assert!(matches!(handle.lookup(b"absent"), Ok(None)));
    assert!(handle.cached(b"absent").is_none());
    assert_eq!(store.calls.get(), 1);
    // asked again, the backend is asked again
    assert!(matches!(handle.lookup(b"absent"), Ok(None)));
    assert_eq!(store.calls.get(), 2);
}

#[test]
fn a_found_object_is_answered_from_the_cache_afterwards() {
    let store = OwnShared::new(Counting::holding(vec![(b"here", Kind::Commit, b"data")]));
    let mut handle = Handle::new(
        OwnShared::clone(&store),
        None::<OwnShared<MakeCache>>,
        Some(OwnShared::new(small_cache as MakeCache)),
    );
    assert!(handle.cached(b"here").is_none());
    assert!(same(handle.lookup(b"here").unwrap(), Kind::Commit, b"data"));
    assert_eq!(store.calls.get(), 1);
    assert!(same(handle.cached(b"here"), Kind::Commit, b"data"));
    assert!(same(handle.lookup(b"here").unwrap(), Kind::Commit, b"data"));
    assert!(same(handle.lookup(b"here").unwrap(), Kind::Commit, b"data"));
    assert_eq!(store.calls.get(), 1);
}

#[test]
fn without_a_cache_the_backend_is_always_asked() {
    let store = OwnShared::new(Counting::holding(vec![(b"here", Kind::Blob, b"data")]));
    let mut handle = Handle::new(
        OwnShared::clone(&store),
        None::<OwnShared<MakeCache>>,
        None::<OwnShared<MakeCache>>,
    );
    assert!(same(handle.lookup(b"here").unwrap(), Kind::Blob, b"data"));
    assert!(same(handle.lookup(b"here").unwrap(), Kind::Blob, b"data"));
    assert_eq!(store.calls.get(), 2);
    assert!(handle.cached(b"here").is_none());
}

#[test]
fn a_cache_that_keeps_nothing_does_not_fail_the_lookup() {
    let store = OwnShared::new(Counting::holding(vec![(b"here", Kind::Blob, b"data")]));
    let mut handle = Handle::new(
        OwnShared::clone(&store),
        None::<OwnShared<MakeCache>>,
        Some(OwnShared::new(MemoryCache::never as MakeCache)),
    );
    assert!(same(handle.lookup(b"here").unwrap(), Kind::Blob, b"data"));
    assert!(handle.cached(b"here").is_none());
    assert!(same(handle.lookup(b"here").unwrap(), Kind::Blob, b"data"));
    assert_eq!(store.calls.get(), 2);
}

#[test]
fn an_error_of_the_backend_fails_the_lookup() {
    let store = OwnShared::new(Counting::broken(BackendError::UnreadablePack));
    let mut handle = Handle::new(
        OwnShared::clone(&store),
        Some(OwnShared::new(small_cache as MakeCache)),
        Some(OwnShared::new(small_cache as MakeCache)),
    );
    assert_eq!(
        handle.lookup(b"any").map(|object| object.is_some()),
        Err(LookupError::BackendResolutionFailed(BackendError::UnreadablePack))
    );
    assert!(handle.cached(b"any").is_none());
    // nothing is retried or remembered
    assert!(handle.lookup(b"any").is_err());
    assert_eq!(store.calls.get(), 2);
}

#[test]
fn handles_on_one_backend_have_caches_of_their_own() {
    let store = OwnShared::new(Counting::holding(vec![(b"here", Kind::Blob, b"data")]));
    let make = OwnShared::new(small_cache as MakeCache);
    let mut first = Handle::new(
        OwnShared::clone(&store),
        None::<OwnShared<MakeCache>>,
        Some(OwnShared::clone(&make)),
    );
    let mut second = Handle::new(
        OwnShared::clone(&store),
        None::<OwnShared<MakeCache>>,
        Some(OwnShared::clone(&make)),
    );
    assert!(same(first.lookup(b"here").unwrap(), Kind::Blob, b"data"));
    assert!(first.cached(b"here").is_some());
    assert!(second.cached(b"here").is_none());
    assert_eq!(store.calls.get(), 1);
    // the second handle asks the backend itself
    assert!(same(second.lookup(b"here").unwrap(), Kind::Blob, b"data"));
    assert_eq!(store.calls.get(), 2);
    assert!(second.cached(b"here").is_some());
}

#[test]
fn a_duplicate_shares_the_backend_and_starts_with_no_cache() {
    let store = OwnShared::new(Counting::holding(vec![(b"here", Kind::Blob, b"data")]));
    let mut first = Handle::new(
        OwnShared::clone(&store),
        None::<OwnShared<MakeCache>>,
        Some(OwnShared::new(small_cache as MakeCache)),
    );
    assert!(first.lookup(b"here").unwrap().is_some());
    let mut second = first.duplicate();
    assert!(second.cached(b"here").is_none());
    assert!(same(second.lookup(b"here").unwrap(), Kind::Blob, b"data"));
    // both asked the one backend
    assert_eq!(store.calls.get(), 2);
    assert!(second.cached(b"here").is_some());
    assert!(first.cached(b"here").is_some());
}

#[test]
fn the_pack_cache_is_handed_to_the_backend() {
    let mut backend = Counting::holding(vec![(b"here", Kind::Blob, b"data")]);
    backend.uses_pack_cache = true;
    let store = OwnShared::new(backend);
    let mut handle = Handle::new(
        OwnShared::clone(&store),
        Some(OwnShared::new(small_cache as MakeCache)),
        None::<OwnShared<MakeCache>>,
    );
    assert!(same(handle.lookup(b"here").unwrap(), Kind::Blob, b"data"));
    assert_eq!(store.pack_hits.get(), 0);
    // without a cache of objects nothing is answered without the backend
    assert!(handle.cached(b"here").is_none());
    assert!(same(handle.lookup(b"here").unwrap(), Kind::Blob, b"data"));
    assert_eq!(store.calls.get(), 2);
    // what the backend left in the cache was still there
    assert_eq!(store.pack_hits.get(), 1);
    assert!(same(handle.lookup(b"here").unwrap(), Kind::Blob, b"data"));
    assert_eq!(store.pack_hits.get(), 2);
}

#[test]
fn the_pack_cache_belongs_to_one_handle() {
    let mut backend = Counting::holding(vec![(b"here", Kind::Blob, b"data")]);
    backend.uses_pack_cache = true;
    let store = OwnShared::new(backend);
    let mut first = Handle::new(
        OwnShared::clone(&store),
        Some(OwnShared::new(small_cache as MakeCache)),
        None::<OwnShared<MakeCache>>,
    );
    assert!(first.lookup(b"here").unwrap().is_some());
    assert!(first.lookup(b"here").unwrap().is_some());
    assert_eq!(store.pack_hits.get(), 1);
    let mut second = first.duplicate();
    assert!(second.lookup(b"here").unwrap().is_some());
    assert_eq!(store.pack_hits.get(), 1);
    assert!(second.lookup(b"here").unwrap().is_some());
    assert_eq!(store.pack_hits.get(), 2);
}

#[test]
fn without_a_pack_cache_the_backend_gets_one_that_keeps_nothing() {
    let mut backend = Counting::holding(vec![(b"here", Kind::Blob, b"data")]);
    backend.uses_pack_cache = true;
    let store = OwnShared::new(backend);
    let mut handle = Handle::new(
        OwnShared::clone(&store),
        None::<OwnShared<MakeCache>>,
        None::<OwnShared<MakeCache>>,
    );
    assert!(handle.lookup(b"here").unwrap().is_some());
    assert!(handle.lookup(b"here").unwrap().is_some());
    assert_eq!(store.calls.get(), 2);
    assert_eq!(store.pack_hits.get(), 0);
}

#[test]
fn settling_a_lookup() {
    let store = OwnShared::new(Sink);
    let mut handle = Handle::new(
        store,
        None::<OwnShared<MakeCache>>,
        Some(OwnShared::new(small_cache as MakeCache)),
    );
    handle.prepare();
    assert!(matches!(handle.settle(b"a", Ok(None)), Ok(None)));
    assert!(handle.cached(b"a").is_none());
    assert_eq!(
        handle.settle(b"a", Err(BackendError::CorruptIndex)).map(|object| object.is_some()),
        Err(LookupError::BackendResolutionFailed(BackendError::CorruptIndex))
    );
    assert!(handle.cached(b"a").is_none());
    assert!(same(handle.settle(b"a", Ok(Some(blob(b"1")))).unwrap(), Kind::Blob, b"1"));
    assert!(same(handle.cached(b"a"), Kind::Blob, b"1"));
    // the sink has nothing, the cache answers
    assert!(same(handle.lookup(b"a").unwrap(), Kind::Blob, b"1"));
    assert!(matches!(handle.lookup(b"b"), Ok(None)));
}

/// A backend without objects that leaves a mark in the cache it is handed
/// and counts how often the mark was already there.
struct Marking {
    seen_before: Cell<usize>,
}

impl Marking {
    fn new() -> Marking {
        Marking { seen_before: Cell::new(0) }
    }
}

impl Find for Marking {
    fn try_find(&self, _id: &[u8], pack_cache: &mut PackCache) -> Result<Option<Object>, BackendError> {
        if pack_cache.get(b"mark").is_some() {
            self.seen_before.set(self.seen_before.get() + 1);
        }
        pack_cache.put(b"mark", blob(b""));
        Ok(None)
    }
}

fn marking(location: &[u8]) -> Compound<Marking, Marking> {
    Compound { location: location.to_vec(), loose: Marking::new(), packed: Marking::new() }
}

#[test]
fn one_cache_goes_from_backend_to_backend() {
    let both = marking(b"/a");
    let mut cache = PackCache::new(4);
    assert!(matches!(both.try_find(b"id", &mut cache), Ok(None)));
    // the packs were handed the caller's cache, the loose objects what the packs left
    assert_eq!(both.packed.seen_before.get(), 0);
    assert_eq!(both.loose.seen_before.get(), 1);
    assert!(cache.get(b"mark").is_some());

    let linked = Linked::new(
        marking(b"/a"),
        vec![Alternate::Compound(marking(b"/b")), Alternate::Compound(marking(b"/c"))],
    )
    .expect("three directories");
    let mut cache = PackCache::new(4);
    assert!(cache.get(b"mark").is_none());
    assert!(matches!(linked.try_find(b"id", &mut cache), Ok(None)));
    assert!(cache.get(b"mark").is_some());
    assert_eq!(cache.len(), 1);

    let backend = Backend::Linked(linked);
    let mut cache = PackCache::never();
    assert!(matches!(backend.try_find(b"id", &mut cache), Ok(None)));
    assert!(cache.get(b"mark").is_none());
}

#[test]
fn every_alternate_sees_what_the_one_before_left() {
    let store = OwnShared::new(
        Linked::new(marking(b"/a"), vec![Alternate::Compound(marking(b"/b"))])
            .expect("two directories"),
    );
    let mut handle = Handle::new(
        OwnShared::clone(&store),
        Some(OwnShared::new(small_cache as MakeCache)),
        None::<OwnShared<MakeCache>>,
    );
    assert!(matches!(handle.lookup(b"id"), Ok(None)));
    // asked again, even the first backend finds the mark: the cache stayed with the handle
    assert!(matches!(handle.lookup(b"id"), Ok(None)));
    let mut other = handle.duplicate();
    assert!(matches!(other.lookup(b"id"), Ok(None)));
}
