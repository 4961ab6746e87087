//! The backends that objects are read from, behind one interface.

use crate::cache::{MemoryCache, PackCache};
use crate::object::{answer_of, BackendError, Kind, Object};
use crate::path::same_bytes;
use vstd::prelude::*;

verus! {

/// What a backend can do: find an object by its identity.
///
/// `Ok(None)` says that the backend has no object under `id`, which is no
/// error. An `Err` says that the backend could not tell. A backend may keep
/// entries of packs in `pack_cache`, which belongs to the caller alone.
pub trait Find {
    fn try_find(&self, id: &[u8], pack_cache: &mut PackCache) -> Result<
        Option<Object>,
        BackendError,
    >;
}

/// What a backend answers, with the object as a value.
pub type Answer = Result<Option<(Kind, Seq<u8>)>, BackendError>;

/// An answer after which no further backend is asked: an object or an error.
pub open spec fn decisive(answer: Answer) -> bool {
    answer != Ok::<Option<(Kind, Seq<u8>)>, BackendError>(None)
}

/// Whether `found` is an answer that `backend` may give when it is asked for
/// `id`, as far as its own contract says.
pub open spec fn may_answer<B: Find>(
    backend: &B,
    id: &[u8],
    found: Result<Option<Object>, BackendError>,
) -> bool {
    exists|pack_cache: &mut PackCache| #[trigger]
        call_ensures(B::try_find, (backend, id, pack_cache), found)
}

/// Whether `found` is what the backends may answer when the first `asked` of
/// them have no such object: the decisive answer of the next one, or "no such
/// object" where there is no next one.
pub open spec fn may_answer_after<B: Find>(
    backends: Seq<B>,
    id: &[u8],
    found: Result<Option<Object>, BackendError>,
    asked: int,
) -> bool {
    &&& 0 <= asked <= backends.len()
    &&& forall|i: int|
        0 <= i < asked ==> may_answer(
            &#[trigger] backends[i],
            id,
            Ok::<Option<Object>, BackendError>(None),
        )
    &&& if asked < backends.len() {
        decisive(answer_of(found)) && may_answer(&backends[asked], id, found)
    } else {
        found matches Ok(None)
    }
}

/// Whether `found` is what backends that are asked in order may answer: the
/// first answer that is decisive, where all backends before it had no such
/// object, or "no such object" where none of them had it.
pub open spec fn may_answer_in_order<B: Find>(
    backends: Seq<B>,
    id: &[u8],
    found: Result<Option<Object>, BackendError>,
) -> bool {
    exists|asked: int| #[trigger] may_answer_after(backends, id, found, asked)
}

/// Tells whether the answer of one backend ends the asking.
pub fn is_decisive(found: &Result<Option<Object>, BackendError>) -> (stop: bool)
    ensures
        stop == decisive(answer_of(*found)),
{
    match found {
        Ok(None) => false,
        _ => true,
    }
}

/// A backend that holds nothing: it answers "no such object" for every identity.
#[derive(Clone, Copy, Debug)]
pub struct Sink;

impl Find for Sink {
    fn try_find(&self, id: &[u8], pack_cache: &mut PackCache) -> (found: Result<
        Option<Object>,
        BackendError,
    >)
        ensures
            found matches Ok(None),
            *final(pack_cache) == *old(pack_cache),
    {
        Ok(None)
    }
}

/// Whether a backend of loose objects and packs asks its packs first. This is
/// fixed for all backends and all calls.
pub const PACKED_BEFORE_LOOSE: bool = true;

/// The objects of one directory: those stored one by one, and those in packs.
pub struct Compound<L, P> {
    /// The directory that holds the objects; it tells backends apart.
    pub location: Vec<u8>,
    pub loose: L,
    pub packed: P,
}

impl<L: Find, P: Find> Find for Compound<L, P> {
    /// Asks the packs, and the loose objects if the packs have no such object.
    fn try_find(&self, id: &[u8], pack_cache: &mut PackCache) -> (found: Result<
        Option<Object>,
        BackendError,
    >)
        ensures
            if PACKED_BEFORE_LOOSE {
                ||| decisive(answer_of(found)) && may_answer(&self.packed, id, found)
                ||| may_answer(&self.packed, id, Ok::<Option<Object>, BackendError>(None))
                    && may_answer(&self.loose, id, found)
            } else {
                ||| decisive(answer_of(found)) && may_answer(&self.loose, id, found)
                ||| may_answer(&self.loose, id, Ok::<Option<Object>, BackendError>(None))
                    && may_answer(&self.packed, id, found)
            },
            // the caller's cache goes to the packs, and as they leave it to the
            // loose objects; what the last of them leaves is the caller's again
            PACKED_BEFORE_LOOSE ==> exists|
                first: &mut PackCache,
                early: Result<Option<Object>, BackendError>,
            |
                {
                    &&& #[trigger] call_ensures(P::try_find, (&self.packed, id, first), early)
                    &&& *first == *old(pack_cache)
                    &&& if decisive(answer_of(early)) {
                        found == early && *final(first) == *final(pack_cache)
                    } else {
                        exists|second: &mut PackCache|
                            {
                                &&& #[trigger] call_ensures(
                                    L::try_find,
                                    (&self.loose, id, second),
                                    found,
                                )
                                &&& *second == *final(first)
                                &&& *final(second) == *final(pack_cache)
                            }
                    }
                },
    {
        if PACKED_BEFORE_LOOSE {
            let first = self.packed.try_find(id, pack_cache);
            if is_decisive(&first) {
                return first;
            }
            proof {
                assert(first == Ok::<Option<Object>, BackendError>(None));
            }
            self.loose.try_find(id, pack_cache)
        } else {
            let first = self.loose.try_find(id, pack_cache);
            if is_decisive(&first) {
                return first;
            }
            proof {
                assert(first == Ok::<Option<Object>, BackendError>(None));
            }
            self.packed.try_find(id, pack_cache)
        }
    }
}

/// The directories of backends, in the order of the backends.
pub open spec fn locations_of<L, P>(members: Seq<Compound<L, P>>) -> Seq<Seq<u8>> {
    Seq::new(members.len(), |i: int| members[i].location@)
}

/// No directory occurs twice.
pub open spec fn no_repeats(locations: Seq<Seq<u8>>) -> bool {
    forall|i: int, j: int|
        0 <= i < j < locations.len() ==> (#[trigger] locations[i]) != (#[trigger] locations[j])
}

/// A backend with alternates: further backends that are asked, in a fixed
/// order, where the first one has no such object. No backend occurs twice in
/// it, so none is its own alternate, directly or by way of others.
pub struct Linked<L, P> {
    members: Vec<Compound<L, P>>,
}

/// What can serve as an alternate.
pub enum Alternate<L, P> {
    Compound(Compound<L, P>),
    Linked(Linked<L, P>),
}

/// Why backends cannot be linked.
#[derive(Debug)]
pub enum LinkError {
    /// The backend at `location` would be asked twice.
    Cycle { location: Vec<u8> },
}

/// The backends that an alternate brings, in the order in which they are asked.
pub open spec fn alternate_members<L, P>(alternate: Alternate<L, P>) -> Seq<Compound<L, P>> {
    match alternate {
        Alternate::Compound(compound) => seq![compound],
        Alternate::Linked(linked) => linked.members(),
    }
}

/// The backends that alternates bring, front to back.
pub open spec fn chain<L, P>(alternates: Seq<Alternate<L, P>>) -> Seq<Compound<L, P>>
    decreases alternates.len(),
{
    if alternates.len() == 0 {
        Seq::empty()
    } else {
        alternate_members(alternates[0]) + chain(alternates.drop_first())
    }
}

fn find_location<L, P>(members: &Vec<Compound<L, P>>, location: &[u8]) -> (at: Option<usize>)
    ensures
        match at {
            Some(i) => i < members.len() && members[i as int].location@ == location@,
            None => forall|i: int| 0 <= i < members.len() ==> members[i].location@ != location@,
        },
{
    let mut i: usize = 0;
    while i < members.len()
        invariant
            i <= members.len(),
            forall|j: int| 0 <= j < i ==> members[j].location@ != location@,
        decreases members.len() - i,
    {
        if same_bytes(members[i].location.as_slice(), location) {
            return Some(i);
        }
        i += 1;
    }
    None
}

impl<L, P> Linked<L, P> {
    #[verifier::type_invariant]
    spec fn sound(self) -> bool {
        self.members@.len() >= 1 && no_repeats(locations_of(self.members@))
    }

    /// The backends, in the order in which they are asked: the first, then
    /// its alternates.
    pub closed spec fn members(&self) -> Seq<Compound<L, P>> {
        self.members@
    }

    /// The directories of the backends, in the order in which they are asked.
    pub open spec fn locations(&self) -> Seq<Seq<u8>> {
        locations_of(self.members())
    }

    /// The number of backends: the first and its alternates. There is at
    /// least one, and no two share a directory.
    pub fn len(&self) -> (len: usize)
        ensures
            len == self.members().len(),
            len >= 1,
            no_repeats(self.locations()),
    {
        proof {
            use_type_invariant(self);
        }
        self.members.len()
    }

    /// Links `primary` with its alternates. They are asked in the order
    /// given, an alternate that is itself linked in its own order. Linking
    /// fails if a directory would then occur twice.
    pub fn new(primary: Compound<L, P>, alternates: Vec<Alternate<L, P>>) -> (linked: Result<
        Linked<L, P>,
        LinkError,
    >)
        ensures
            match linked {
                Ok(l) => l.members() == seq![primary] + chain(alternates@) && no_repeats(
                    l.locations(),
                ),
                Err(LinkError::Cycle { location }) => {
                    let all = locations_of(seq![primary] + chain(alternates@));
                    exists|i: int, j: int|
                        0 <= i < j < all.len() && (#[trigger] all[i]) == location@ && (
                        #[trigger] all[j]) == location@
                },
            },
    {
        let ghost all = seq![primary] + chain(alternates@);
        let mut members: Vec<Compound<L, P>> = Vec::new();
        members.push(primary);
        let mut rest = alternates;
        proof {
            assert(members@ == seq![primary]);
        }
        while rest.len() > 0
            invariant
                members.len() >= 1,
                no_repeats(locations_of(members@)),
                all == members@ + chain(rest@),
                all == seq![primary] + chain(alternates@),
            decreases rest.len(),
        {
            let ghost outer = rest@;
            let alternate = rest.remove(0);
            proof {
                assert(rest@ == outer.drop_first());
                assert(chain(outer) == alternate_members(alternate) + chain(rest@));
            }
            let mut inner: Vec<Compound<L, P>> = Vec::new();
            match alternate {
                Alternate::Compound(compound) => {
                    inner.push(compound);
                    proof {
                        assert(inner@ == alternate_members(alternate));
                    }
                },
                Alternate::Linked(linked) => {
                    inner = linked.members;
                },
            }
            proof {
                assert(all == members@ + inner@ + chain(rest@));
            }
            while inner.len() > 0
                invariant
                    members.len() >= 1,
                    no_repeats(locations_of(members@)),
                    all == members@ + inner@ + chain(rest@),
                    all == seq![primary] + chain(alternates@),
                decreases inner.len(),
            {
                let ghost before = inner@;
                let ghost known = members@;
                let compound = inner.remove(0);
                proof {
                    assert(before == seq![compound] + inner@);
                    assert(all == known + seq![compound] + inner@ + chain(rest@));
                    assert(all[known.len() as int] == compound);
                }
                match find_location(&members, compound.location.as_slice()) {
                    Some(at) => {
                        proof {
                            let places = locations_of(all);
                            assert(all[at as int] == known[at as int]);
                            assert(0 <= at < known.len() < all.len());
                            assert(places[at as int] == compound.location@);
                            assert(places[known.len() as int] == compound.location@);
                        }
                        return Err(LinkError::Cycle { location: compound.location });
                    },
                    None => {},
                }
                members.push(compound);
                proof {
                    assert(members@ == known + seq![compound]);
                    assert(locations_of(members@) == locations_of(known).push(compound.location@));
                }
            }
            proof {
                assert(inner@ == Seq::<Compound<L, P>>::empty());
                assert(all == members@ + chain(rest@));
            }
        }
        proof {
            assert(chain(rest@) == Seq::<Compound<L, P>>::empty());
            assert(all == members@);
        }
        Ok(Linked { members })
    }
}

/// Whether a cache went from backend to backend: `befores` and `afters` hold
/// the cache as each backend was handed it and as it left it, the first was
/// handed `first`, each next one what the one before left, and the last one
/// left `last`.
pub open spec fn handed_on(
    befores: Seq<MemoryCache>,
    afters: Seq<MemoryCache>,
    first: MemoryCache,
    last: MemoryCache,
) -> bool {
    &&& 1 <= befores.len() == afters.len()
    &&& befores[0] == first
    &&& afters[afters.len() - 1] == last
    &&& forall|i: int| 0 <= i < afters.len() - 1 ==> #[trigger] afters[i] == befores[i + 1]
}

impl<L: Find, P: Find> Find for Linked<L, P> {
    /// Asks the backends in their order, up to the first decisive answer.
    /// Each is handed the caller's cache as the one before left it.
    #[verifier::spinoff_prover]
    fn try_find(&self, id: &[u8], pack_cache: &mut PackCache) -> (found: Result<
        Option<Object>,
        BackendError,
    >)
        ensures
            may_answer_in_order(self.members(), id, found),
            exists|befores: Seq<MemoryCache>, afters: Seq<MemoryCache>|
                {
                    &&& #[trigger] handed_on(
                        befores,
                        afters,
                        *old(pack_cache),
                        *final(pack_cache),
                    )
                    &&& befores.len() <= self.members().len()
                    &&& decisive(answer_of(found)) || befores.len() == self.members().len()
                    &&& forall|i: int|
                        #![trigger befores[i]]
                        0 <= i < befores.len() ==> exists|
                            handed: &mut PackCache,
                            answer: Result<Option<Object>, BackendError>,
                        |
                            {
                                &&& #[trigger] call_ensures(
                                    Compound::<L, P>::try_find,
                                    (&self.members()[i], id, handed),
                                    answer,
                                )
                                &&& answer == (if i < befores.len() - 1 {
                                    Ok::<Option<Object>, BackendError>(None)
                                } else {
                                    found
                                })
                                &&& *handed == befores[i]
                                &&& *final(handed) == afters[i]
                            }
                },
    {
        proof {
            use_type_invariant(self);
        }
        let ghost mut befores: Seq<MemoryCache> = Seq::empty();
        let ghost mut afters: Seq<MemoryCache> = Seq::empty();
        let mut i: usize = 0;
        while i < self.members.len()
            invariant
                i < self.members.len(),
                forall|j: int|
                    0 <= j < i ==> may_answer(
                        &#[trigger] self.members@[j],
                        id,
                        Ok::<Option<Object>, BackendError>(None),
                    ),
                befores.len() == i,
                afters.len() == i,
                i > 0 ==> befores[0] == *old(pack_cache) && afters[i - 1] == *pack_cache,
                i == 0 ==> *pack_cache == *old(pack_cache),
                forall|j: int| 0 <= j < i - 1 ==> #[trigger] afters[j] == befores[j + 1],
                forall|j: int|
                    #![trigger befores[j]]
                    0 <= j < i ==> exists|handed: &mut PackCache|
                        {
                            &&& #[trigger] call_ensures(
                                Compound::<L, P>::try_find,
                                (&self.members@[j], id, handed),
                                Ok::<Option<Object>, BackendError>(None),
                            )
                            &&& *handed == befores[j]
                            &&& *final(handed) == afters[j]
                        },
            decreases self.members.len() - i,
        {
            let ghost before = *pack_cache;
            let found = self.members[i].try_find(id, pack_cache);
            proof {
                assert(may_answer(&self.members@[i as int], id, found));
                befores = befores.push(before);
                afters = afters.push(*pack_cache);
            }
            if is_decisive(&found) || i + 1 == self.members.len() {
                proof {
                    if decisive(answer_of(found)) {
                        assert(may_answer_after(self.members(), id, found, i as int));
                    } else {
                        assert(found == Ok::<Option<Object>, BackendError>(None));
                        assert(may_answer_after(self.members(), id, found, i + 1));
                    }
                    assert(handed_on(befores, afters, *old(pack_cache), *pack_cache));
                }
                return found;
            }
            proof {
                assert(found == Ok::<Option<Object>, BackendError>(None));
            }
            i += 1;
        }
        Ok(None)
    }
}

/// The backends there are.
pub enum Backend<L, P> {
    /// Objects that are stored one by one.
    Loose(L),
    /// The objects of one directory, loose and in packs.
    Compound(Compound<L, P>),
    /// A backend with alternates.
    Linked(Linked<L, P>),
    /// Nothing at all.
    Sink,
}

impl<L: Find, P: Find> Find for Backend<L, P> {
    /// Asks the backend that this is.
    fn try_find(&self, id: &[u8], pack_cache: &mut PackCache) -> (found: Result<
        Option<Object>,
        BackendError,
    >)
        ensures
            match *self {
                Backend::Loose(loose) => may_answer(&loose, id, found),
                Backend::Compound(compound) => may_answer(&compound, id, found),
                Backend::Linked(linked) => may_answer(&linked, id, found),
                Backend::Sink => found matches Ok(None),
            },
            // the backend that this is gets the caller's cache and leaves it to the caller
            match *self {
                Backend::Loose(loose) => exists|handed: &mut PackCache|
                    {
                        &&& #[trigger] call_ensures(L::try_find, (&loose, id, handed), found)
                        &&& *handed == *old(pack_cache)
                        &&& *final(handed) == *final(pack_cache)
                    },
                Backend::Compound(compound) => exists|handed: &mut PackCache|
                    {
                        &&& #[trigger] call_ensures(
                            Compound::<L, P>::try_find,
                            (&compound, id, handed),
                            found,
                        )
                        &&& *handed == *old(pack_cache)
                        &&& *final(handed) == *final(pack_cache)
                    },
                Backend::Linked(linked) => exists|handed: &mut PackCache|
                    {
                        &&& #[trigger] call_ensures(
                            Linked::<L, P>::try_find,
                            (&linked, id, handed),
                            found,
                        )
                        &&& *handed == *old(pack_cache)
                        &&& *final(handed) == *final(pack_cache)
                    },
                Backend::Sink => *final(pack_cache) == *old(pack_cache),
            },
    {
        match self {
            Backend::Loose(loose) => loose.try_find(id, pack_cache),
            Backend::Compound(compound) => compound.try_find(id, pack_cache),
            Backend::Linked(linked) => linked.try_find(id, pack_cache),
            Backend::Sink => Sink.try_find(id, pack_cache),
        }
    }
}

} // verus!
