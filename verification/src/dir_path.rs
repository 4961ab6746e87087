//! Directories named by their components from the root.

use crate::ceiling::{
    first_separator, lemma_first_separator, lemma_first_separator_is, lemma_split_pieces, split_on,
    split_segments,
};
use crate::path::{copy_bytes, is_absolute, paths_of, same_bytes, SEPARATOR};
use vstd::prelude::*;

verus! {

/// The component that stands for the directory itself.
pub open spec fn dot() -> Seq<u8> {
    seq![0x2eu8]
}

/// The component that stands for the parent directory.
pub open spec fn dot_dot() -> Seq<u8> {
    seq![0x2eu8, 0x2eu8]
}

/// A component that names an entry of a directory: it is not empty, holds no
/// separator and is neither `.` nor `..`.
pub open spec fn is_name(component: Seq<u8>) -> bool {
    &&& component.len() > 0
    &&& component != dot()
    &&& component != dot_dot()
    &&& forall|i: int| 0 <= i < component.len() ==> component[i] != SEPARATOR
}

/// Every component names an entry.
pub open spec fn all_names(parts: Seq<Seq<u8>>) -> bool {
    forall|i: int| 0 <= i < parts.len() ==> is_name(#[trigger] parts[i])
}

/// Follows one component from the directory `stack`: an empty component and
/// `.` stay, `..` goes to the parent and fails at the root, a name descends.
pub open spec fn follow(stack: Seq<Seq<u8>>, component: Seq<u8>) -> Option<Seq<Seq<u8>>> {
    if component.len() == 0 || component == dot() {
        Some(stack)
    } else if component == dot_dot() {
        if stack.len() == 0 {
            None
        } else {
            Some(stack.drop_last())
        }
    } else {
        Some(stack.push(component))
    }
}

/// Follows the first `count` of `components` from the directory `base`.
pub open spec fn follow_all(base: Seq<Seq<u8>>, components: Seq<Seq<u8>>, count: nat) -> Option<
    Seq<Seq<u8>>,
>
    decreases count,
{
    if count == 0 {
        Some(base)
    } else {
        match follow_all(base, components, (count - 1) as nat) {
            Some(stack) => follow(stack, components[count - 1]),
            None => None,
        }
    }
}

/// The directory that `path` names when it is read from the directory `base`.
pub open spec fn descend(base: Seq<Seq<u8>>, path: Seq<u8>) -> Option<Seq<Seq<u8>>> {
    follow_all(base, split_on(path, SEPARATOR), split_on(path, SEPARATOR).len())
}

/// The directory that `path` names, without looking at the file system.
///
/// An absolute path is read from the root. A relative one is read from
/// `current_dir`, which must be there and be absolute. `None` also where a
/// `..` would lead above the root.
pub open spec fn resolve(path: Seq<u8>, current_dir: Option<Seq<u8>>) -> Option<Seq<Seq<u8>>> {
    if is_absolute(path) {
        descend(Seq::empty(), path)
    } else {
        match current_dir {
            Some(cwd) => if is_absolute(cwd) {
                match descend(Seq::empty(), cwd) {
                    Some(base) => descend(base, path),
                    None => None,
                }
            } else {
                None
            },
            None => None,
        }
    }
}

/// The bytes of the first `count` components, each behind a separator.
pub open spec fn render_parts(parts: Seq<Seq<u8>>, count: nat) -> Seq<u8>
    decreases count,
{
    if count == 0 {
        Seq::empty()
    } else {
        render_parts(parts, (count - 1) as nat) + seq![SEPARATOR] + parts[count - 1]
    }
}

/// The path of a directory as bytes: `/` for the root, else each component behind a `/`.
pub open spec fn render(parts: Seq<Seq<u8>>) -> Seq<u8> {
    if parts.len() == 0 {
        seq![SEPARATOR]
    } else {
        render_parts(parts, parts.len())
    }
}

/// Whether `dir` lies in `ancestor` or is `ancestor` itself.
pub open spec fn is_within(dir: Seq<Seq<u8>>, ancestor: Seq<Seq<u8>>) -> bool {
    ancestor.len() <= dir.len() && dir.take(ancestor.len() as int) == ancestor
}

proof fn lemma_split_appended(prefix: Seq<u8>, name: Seq<u8>)
    requires
        forall|i: int| 0 <= i < name.len() ==> name[i] != SEPARATOR,
    ensures
        split_on(prefix + seq![SEPARATOR] + name, SEPARATOR) == split_on(prefix, SEPARATOR).push(
            name,
        ),
    decreases prefix.len(),
{
    let whole = prefix + seq![SEPARATOR] + name;
    lemma_first_separator(prefix, SEPARATOR);
    let cut = first_separator(prefix, SEPARATOR);
    assert forall|j: int| 0 <= j < cut implies whole[j] != SEPARATOR by {
        assert(whole[j] == prefix[j]);
    }
    if cut < prefix.len() {
        assert(whole[cut] == prefix[cut]);
    } else {
        assert(whole[cut] == SEPARATOR);
    }
    lemma_first_separator_is(whole, SEPARATOR, cut);
    if cut < prefix.len() {
        let rest = prefix.skip(cut + 1);
        lemma_split_appended(rest, name);
        assert(whole.skip(cut + 1) == rest + seq![SEPARATOR] + name);
        assert(whole.take(cut) == prefix.take(cut));
        assert(seq![prefix.take(cut)] + split_on(rest, SEPARATOR).push(name) == (seq![
            prefix.take(cut),
        ] + split_on(rest, SEPARATOR)).push(name));
    } else {
        assert(whole.take(cut) == prefix);
        assert(whole.skip(cut + 1) == name);
        lemma_first_separator_is(name, SEPARATOR, name.len() as int);
        assert(split_on(name, SEPARATOR) == seq![name]);
        assert(split_on(prefix, SEPARATOR) == seq![prefix]);
        assert(seq![prefix] + seq![name] == seq![prefix].push(name));
    }
}

proof fn lemma_split_rendered(parts: Seq<Seq<u8>>, count: nat)
    requires
        all_names(parts),
        count <= parts.len(),
    ensures
        split_on(render_parts(parts, count), SEPARATOR) == seq![Seq::<u8>::empty()] + parts.take(
            count as int,
        ),
    decreases count,
{
    if count == 0 {
        lemma_first_separator_is(Seq::<u8>::empty(), SEPARATOR, 0);
        assert(split_on(Seq::<u8>::empty(), SEPARATOR) == seq![Seq::<u8>::empty()]);
        assert(parts.take(0) == Seq::<Seq<u8>>::empty());
    } else {
        let before = (count - 1) as nat;
        lemma_split_rendered(parts, before);
        lemma_split_appended(render_parts(parts, before), parts[count - 1]);
        assert((seq![Seq::<u8>::empty()] + parts.take(before as int)).push(parts[count - 1])
            == seq![Seq::<u8>::empty()] + parts.take(count as int));
    }
}

proof fn lemma_follow_names(parts: Seq<Seq<u8>>, count: nat)
    requires
        all_names(parts),
        count <= parts.len(),
    ensures
        follow_all(Seq::empty(), seq![Seq::<u8>::empty()] + parts, count + 1) == Some(
            parts.take(count as int),
        ),
    decreases count,
{
    let components = seq![Seq::<u8>::empty()] + parts;
    if count == 0 {
        assert(follow_all(Seq::empty(), components, 0) == Some(Seq::<Seq<u8>>::empty()));
        assert(components[0].len() == 0);
        assert(parts.take(0) == Seq::<Seq<u8>>::empty());
    } else {
        lemma_follow_names(parts, (count - 1) as nat);
        assert(components[count as int] == parts[count - 1]);
        assert(is_name(parts[count - 1]));
        assert(parts.take(count - 1).push(parts[count - 1]) == parts.take(count as int));
    }
}

/// The path that a directory is rendered as names that directory again.
pub proof fn lemma_render_resolves(parts: Seq<Seq<u8>>, current_dir: Option<Seq<u8>>)
    requires
        all_names(parts),
    ensures
        is_absolute(render(parts)),
        resolve(render(parts), current_dir) == Some(parts),
{
    lemma_render_absolute(parts);
    if parts.len() == 0 {
        let root = seq![SEPARATOR];
        let nothing = Seq::<u8>::empty();
        lemma_split_appended(nothing, nothing);
        lemma_first_separator_is(nothing, SEPARATOR, 0);
        assert(nothing + seq![SEPARATOR] + nothing == root);
        assert(split_on(nothing, SEPARATOR) == seq![nothing]);
        let components = split_on(root, SEPARATOR);
        assert(components == seq![nothing, nothing]);
        assert(follow_all(Seq::empty(), components, 0) == Some(parts));
        assert(follow_all(Seq::empty(), components, 1) == Some(parts));
        assert(follow_all(Seq::empty(), components, 2) == Some(parts));
    } else {
        lemma_split_rendered(parts, parts.len());
        lemma_follow_names(parts, parts.len());
        assert(parts.take(parts.len() as int) == parts);
    }
}

/// A rendered directory is an absolute path.
pub proof fn lemma_render_absolute(parts: Seq<Seq<u8>>)
    ensures
        is_absolute(render(parts)),
{
    lemma_render_parts_absolute(parts, parts.len());
}

proof fn lemma_render_parts_absolute(parts: Seq<Seq<u8>>, count: nat)
    ensures
        count > 0 ==> is_absolute(render_parts(parts, count)),
    decreases count,
{
    if count > 1 {
        lemma_render_parts_absolute(parts, (count - 1) as nat);
        let before = render_parts(parts, (count - 1) as nat);
        assert(render_parts(parts, count)[0] == before[0]);
    } else if count == 1 {
        assert(render_parts(parts, 0).len() == 0);
        assert(render_parts(parts, 1)[0] == SEPARATOR);
    }
}

/// A directory, held as the names on the way from the root to it.
#[derive(Debug)]
pub struct DirPath {
    parts: Vec<Vec<u8>>,
}

impl View for DirPath {
    type V = Seq<Seq<u8>>;

    closed spec fn view(&self) -> Seq<Seq<u8>> {
        paths_of(self.parts@)
    }
}

impl DirPath {
    #[verifier::type_invariant]
    spec fn named(self) -> bool {
        all_names(paths_of(self.parts@))
    }

    /// The root directory.
    pub fn root() -> (dir: DirPath)
        ensures
            dir@ == Seq::<Seq<u8>>::empty(),
    {
        DirPath { parts: Vec::new() }
    }

    /// The number of components below the root.
    pub fn depth(&self) -> (depth: usize)
        ensures
            depth == self@.len(),
    {
        self.parts.len()
    }

    /// A copy of this directory.
    pub fn duplicate(&self) -> (copy: DirPath)
        ensures
            copy@ == self@,
    {
        proof {
            use_type_invariant(self);
        }
        let mut parts: Vec<Vec<u8>> = Vec::new();
        let mut i: usize = 0;
        while i < self.parts.len()
            invariant
                i <= self.parts.len(),
                all_names(paths_of(self.parts@)),
                paths_of(parts@) == paths_of(self.parts@).take(i as int),
            decreases self.parts.len() - i,
        {
            let part = copy_bytes(self.parts[i].as_slice());
            proof {
                assert(paths_of(parts@.push(part)) == paths_of(parts@).push(part@));
                assert(paths_of(self.parts@).take(i + 1) == paths_of(self.parts@).take(i as int).push(
                    self.parts@[i as int]@,
                ));
            }
            parts.push(part);
            i += 1;
        }
        proof {
            assert(paths_of(self.parts@).take(self.parts.len() as int) == paths_of(self.parts@));
        }
        DirPath { parts }
    }

    /// The directory that `path` names when it is read from this one.
    pub fn descend(self, path: &[u8]) -> (dir: Option<DirPath>)
        ensures
            match dir {
                Some(d) => descend(self@, path@) == Some(d@),
                None => descend(self@, path@) is None,
            },
    {
        proof {
            use_type_invariant(&self);
            lemma_split_pieces(path@, SEPARATOR);
        }
        let components = split_segments(path, SEPARATOR);
        let ghost base = self@;
        let ghost raw = split_on(path@, SEPARATOR);
        let mut parts = self.parts;
        let mut i: usize = 0;
        while i < components.len()
            invariant
                i <= components.len(),
                paths_of(components@) == raw,
                raw == split_on(path@, SEPARATOR),
                base == self@,
                follow_all(base, raw, i as nat) == Some(paths_of(parts@)),
                all_names(paths_of(parts@)),
                forall|k: int, j: int|
                    0 <= k < raw.len() && 0 <= j < raw[k].len() ==> (#[trigger] raw[k][j])
                        != SEPARATOR,
            decreases components.len() - i,
        {
            let component = components[i].as_slice();
            proof {
                assert(raw.len() == components.len());
                assert(raw[i as int] == component@);
            }
            let ghost stack = paths_of(parts@);
            if component.len() == 0 || (component.len() == 1 && component[0] == 0x2e) {
                proof {
                    if component.len() == 1 {
                        assert(component@ =~= dot());
                    }
                }
            } else if component.len() == 2 && component[0] == 0x2e && component[1] == 0x2e {
                proof {
                    assert(component@ =~= dot_dot());
                    assert(component@ != dot());
                }
                if parts.len() == 0 {
                    proof {
                        assert(follow_all(base, raw, (i + 1) as nat) is None);
                        lemma_follow_all_stays_none(base, raw, (i + 1) as nat, raw.len());
                    }
                    return None;
                }
                parts.pop();
                proof {
                    assert(paths_of(parts@) == stack.drop_last());
                }
            } else {
                proof {
                    assert(component@ != dot()) by {
                        if component@ == dot() {
                            assert(component@.len() == 1 && component@[0] == 0x2e);
                        }
                    }
                    assert(component@ != dot_dot()) by {
                        if component@ == dot_dot() {
                            assert(component@.len() == 2 && component@[0] == 0x2e && component@[1]
                                == 0x2e);
                        }
                    }
                }
                let name = copy_bytes(component);
                proof {
                    assert(paths_of(parts@.push(name)) == stack.push(component@));
                    assert forall|j: int| 0 <= j < component@.len() implies component@[j]
                        != SEPARATOR by {
                        assert(raw[i as int][j] != SEPARATOR);
                    }
                    assert(is_name(component@));
                }
                parts.push(name);
            }
            i += 1;
        }
        proof {
            assert(raw.len() == components.len());
        }
        Some(DirPath { parts })
    }

    /// The directory that `path` names: see [`resolve`].
    pub fn resolve(path: &[u8], current_dir: Option<&[u8]>) -> (dir: Option<DirPath>)
        ensures
            match dir {
                Some(d) => resolve(
                    path@,
                    match current_dir {
                        Some(c) => Some(c@),
                        None => None,
                    },
                ) == Some(d@),
                None => resolve(
                    path@,
                    match current_dir {
                        Some(c) => Some(c@),
                        None => None,
                    },
                ) is None,
            },
    {
        if path.len() > 0 && path[0] == SEPARATOR {
            DirPath::root().descend(path)
        } else {
            match current_dir {
                Some(cwd) => {
                    if cwd.len() > 0 && cwd[0] == SEPARATOR {
                        match DirPath::root().descend(cwd) {
                            Some(base) => base.descend(path),
                            None => None,
                        }
                    } else {
                        None
                    }
                },
                None => None,
            }
        }
    }

    /// The path of this directory as bytes. It is absolute and names this
    /// directory again, and every component of the directory is a name.
    pub fn to_bytes(&self) -> (bytes: Vec<u8>)
        ensures
            bytes@ == render(self@),
            all_names(self@),
            is_absolute(bytes@),
            resolve(bytes@, None) == Some(self@),
    {
        proof {
            use_type_invariant(self);
            lemma_render_resolves(self@, None);
        }
        let mut bytes: Vec<u8> = Vec::new();
        if self.parts.len() == 0 {
            bytes.push(SEPARATOR);
            proof {
                assert(bytes@ == seq![SEPARATOR]);
            }
            return bytes;
        }
        let mut i: usize = 0;
        while i < self.parts.len()
            invariant
                i <= self.parts.len(),
                bytes@ == render_parts(self@, i as nat),
            decreases self.parts.len() - i,
        {
            bytes.push(SEPARATOR);
            let part = self.parts[i].as_slice();
            let ghost before = bytes@;
            let mut j: usize = 0;
            while j < part.len()
                invariant
                    j <= part.len(),
                    bytes@ == before + part@.take(j as int),
                decreases part.len() - j,
            {
                bytes.push(part[j]);
                proof {
                    assert(part@.take(j + 1) == part@.take(j as int).push(part@[j as int]));
                }
                j += 1;
            }
            proof {
                assert(part@.take(part.len() as int) == part@);
                assert(self@[i as int] == part@);
            }
            i += 1;
        }
        bytes
    }

    /// Moves to the parent directory. At the root nothing changes and `false` comes back.
    pub fn ascend(&mut self) -> (moved: bool)
        ensures
            moved == (old(self)@.len() > 0),
            moved ==> final(self)@ == old(self)@.drop_last(),
            !moved ==> final(self)@ == old(self)@,
    {
        proof {
            use_type_invariant(&*self);
        }
        if self.parts.len() == 0 {
            return false;
        }
        let ghost before = paths_of(self.parts@);
        proof {
            assert(all_names(before.drop_last())) by {
                assert forall|i: int| 0 <= i < before.drop_last().len() implies is_name(
                    #[trigger] before.drop_last()[i],
                ) by {
                    assert(before.drop_last()[i] == before[i]);
                }
            }
        }
        let mut parts: Vec<Vec<u8>> = Vec::new();
        proof {
            assert(all_names(paths_of(parts@)));
        }
        std::mem::swap(&mut self.parts, &mut parts);
        parts.pop();
        proof {
            assert(paths_of(parts@) == before.drop_last());
        }
        self.parts = parts;
        true
    }

    /// Tells whether both name the same directory.
    pub fn is_same(&self, other: &DirPath) -> (same: bool)
        ensures
            same == (self@ == other@),
    {
        proof {
            assert(self@.take(self@.len() as int) == self@);
        }
        self.parts.len() == other.parts.len() && self.lies_within(other)
    }

    /// Tells whether this directory is `ancestor` or lies below it.
    pub fn lies_within(&self, ancestor: &DirPath) -> (within: bool)
        ensures
            within == is_within(self@, ancestor@),
    {
        if ancestor.parts.len() > self.parts.len() {
            return false;
        }
        let mut i: usize = 0;
        while i < ancestor.parts.len()
            invariant
                i <= ancestor.parts.len() <= self.parts.len(),
                self@.take(i as int) == ancestor@.take(i as int),
            decreases ancestor.parts.len() - i,
        {
            if !same_bytes(self.parts[i].as_slice(), ancestor.parts[i].as_slice()) {
                proof {
                    assert(self@[i as int] != ancestor@[i as int]);
                    assert(self@.take(ancestor@.len() as int)[i as int] == self@[i as int]);
                }
                return false;
            }
            proof {
                assert(self@.take(i + 1) == self@.take(i as int).push(self@[i as int]));
                assert(ancestor@.take(i + 1) == ancestor@.take(i as int).push(ancestor@[i as int]));
            }
            i += 1;
        }
        proof {
            assert(ancestor@.take(ancestor@.len() as int) == ancestor@);
        }
        true
    }
}

proof fn lemma_follow_all_stays_none(
    base: Seq<Seq<u8>>,
    components: Seq<Seq<u8>>,
    failed: nat,
    count: nat,
)
    requires
        failed <= count,
        follow_all(base, components, failed) is None,
    ensures
        follow_all(base, components, count) is None,
    decreases count,
{
    if count > failed {
        lemma_follow_all_stays_none(base, components, failed, (count - 1) as nat);
    }
}

} // verus!
