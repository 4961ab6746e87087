//! Reading a list of ceiling directories from its `:`-separated form.

use crate::path::{
    copy_bytes, decodes_as_path, is_absolute, is_ascii, path_of, paths_of, realpath,
    starts_at_root,
};
use vstd::prelude::*;

verus! {

/// The byte that separates the entries of a list of ceiling directories.
pub const LIST_SEPARATOR: u8 = 0x3a;

/// The number of bytes of `s` before its first `sep`; the length of `s` if it holds none.
pub open spec fn first_separator(s: Seq<u8>, sep: u8) -> int
    decreases s.len(),
{
    if s.len() == 0 || s[0] == sep {
        0
    } else {
        1 + first_separator(s.skip(1), sep)
    }
}

/// The pieces of `s` between occurrences of `sep`, in order. A string with `n`
/// separators has `n + 1` pieces, some of which may be empty.
pub open spec fn split_on(s: Seq<u8>, sep: u8) -> Seq<Seq<u8>>
    decreases s.len(),
{
    let cut = first_separator(s, sep);
    if 0 <= cut < s.len() {
        seq![s.take(cut)] + split_on(s.skip(cut + 1), sep)
    } else {
        seq![s]
    }
}

/// Segments are normalized until the first empty one: whether the segment at
/// `index` still is.
pub open spec fn normalizing(segments: Seq<Seq<u8>>, index: int) -> bool {
    forall|j: int| 0 <= j < index && j < segments.len() ==> (#[trigger] segments[j]).len() > 0
}

/// The directory that one segment contributes, if any.
///
/// `decodable` says whether the platform takes the segment as a path, and
/// `resolved` is the segment with its symbolic links resolved, where that
/// succeeded. An empty, undecodable or relative segment contributes nothing; so
/// does one that resolves to a relative path. A segment that is not normalized,
/// or whose resolution failed, stands as it is written.
pub open spec fn admitted(
    segment: Seq<u8>,
    normalize: bool,
    decodable: bool,
    resolved: Option<Seq<u8>>,
) -> Option<Seq<u8>> {
    if segment.len() == 0 || !decodable || !is_absolute(segment) {
        None
    } else if normalize {
        match resolved {
            Some(target) => if is_absolute(target) { Some(target) } else { None },
            None => Some(segment),
        }
    } else {
        Some(segment)
    }
}

/// The directories that the first `count` segments contribute, given what the
/// platform says of each segment.
pub open spec fn ceiling_dirs_of(
    segments: Seq<Seq<u8>>,
    decodable: Seq<bool>,
    resolved: Seq<Option<Seq<u8>>>,
    count: nat,
) -> Seq<Seq<u8>>
    decreases count,
{
    if count == 0 {
        Seq::empty()
    } else {
        let last = (count - 1) as nat;
        let before = ceiling_dirs_of(segments, decodable, resolved, last);
        match admitted(
            segments[last as int],
            normalizing(segments, last as int),
            decodable[last as int],
            resolved[last as int],
        ) {
            Some(dir) => before.push(dir),
            None => before,
        }
    }
}

/// What the platform can have said of the segments of a list: one answer for
/// each segment; a segment of ASCII characters can be decoded on every
/// platform; and only a segment that is normalized, can be decoded and is
/// absolute has been resolved.
pub open spec fn platform_answers(
    segments: Seq<Seq<u8>>,
    decodable: Seq<bool>,
    resolved: Seq<Option<Seq<u8>>>,
) -> bool {
    &&& decodable.len() == segments.len()
    &&& resolved.len() == segments.len()
    &&& forall|i: int|
        0 <= i < segments.len() && is_ascii(segments[i]) ==> #[trigger] decodable[i]
    &&& forall|i: int|
        0 <= i < segments.len() && (#[trigger] resolved[i]) is Some ==> normalizing(segments, i)
            && decodable[i] && is_absolute(segments[i])
}

/// Whether `dirs` is what the list `input` gives for some answers of the
/// platform, one for each of its segments.
pub open spec fn parses_to(input: Seq<u8>, dirs: Seq<Seq<u8>>) -> bool {
    exists|decodable: Seq<bool>, resolved: Seq<Option<Seq<u8>>>|
        {
            &&& platform_answers(split_on(input, LIST_SEPARATOR), decodable, resolved)
            &&& dirs == #[trigger] ceiling_dirs_of(
                split_on(input, LIST_SEPARATOR),
                decodable,
                resolved,
                decodable.len(),
            )
        }
}

/// The absolute segments among those from `from` up to `to`, as they are written.
pub open spec fn written_dirs(segments: Seq<Seq<u8>>, from: nat, to: nat) -> Seq<Seq<u8>>
    decreases to,
{
    if to <= from {
        Seq::empty()
    } else {
        let before = written_dirs(segments, from, (to - 1) as nat);
        if is_absolute(segments[to - 1]) {
            before.push(segments[to - 1])
        } else {
            before
        }
    }
}

proof fn lemma_written_after_empty(
    segments: Seq<Seq<u8>>,
    decodable: Seq<bool>,
    resolved: Seq<Option<Seq<u8>>>,
    empty: nat,
    count: nat,
)
    requires
        platform_answers(segments, decodable, resolved),
        empty < count <= segments.len(),
        segments[empty as int].len() == 0,
        forall|i: int| empty < i < segments.len() ==> is_ascii(#[trigger] segments[i]),
    ensures
        ceiling_dirs_of(segments, decodable, resolved, count) == ceiling_dirs_of(
            segments,
            decodable,
            resolved,
            empty,
        ) + written_dirs(segments, empty + 1, count),
    decreases count,
{
    let head = ceiling_dirs_of(segments, decodable, resolved, empty);
    if count == empty + 1 {
        assert(ceiling_dirs_of(segments, decodable, resolved, count) == head);
        assert(written_dirs(segments, empty + 1, count) == Seq::<Seq<u8>>::empty());
        assert(head + Seq::<Seq<u8>>::empty() == head);
    } else {
        let last = (count - 1) as nat;
        lemma_written_after_empty(segments, decodable, resolved, empty, last);
        assert(!normalizing(segments, last as int));
        assert(is_ascii(segments[last as int]));
        assert(decodable[last as int]);
        let tail = written_dirs(segments, empty + 1, last);
        if is_absolute(segments[last as int]) {
            assert((head + tail).push(segments[last as int]) == head + tail.push(
                segments[last as int],
            ));
        }
    }
}

/// What follows an empty segment is fixed by the list alone: a list of ASCII
/// characters gives its absolute segments behind an empty one as they are
/// written, in order, on every platform and whatever the disk holds. Only what
/// stands before the first empty segment depends on the platform.
pub proof fn law_written_after_empty(input: Seq<u8>, dirs: Seq<Seq<u8>>, empty: nat)
    requires
        parses_to(input, dirs),
        empty < split_on(input, LIST_SEPARATOR).len(),
        split_on(input, LIST_SEPARATOR)[empty as int].len() == 0,
        forall|i: int|
            empty < i < split_on(input, LIST_SEPARATOR).len() ==> is_ascii(
                #[trigger] split_on(input, LIST_SEPARATOR)[i],
            ),
    ensures
        exists|head: Seq<Seq<u8>>|
            head.len() <= empty && dirs == #[trigger] (head + written_dirs(
                split_on(input, LIST_SEPARATOR),
                empty + 1,
                split_on(input, LIST_SEPARATOR).len(),
            )),
        empty == 0 ==> dirs == written_dirs(
            split_on(input, LIST_SEPARATOR),
            1,
            split_on(input, LIST_SEPARATOR).len(),
        ),
{
    let segments = split_on(input, LIST_SEPARATOR);
    let (decodable, resolved) = choose|decodable: Seq<bool>, resolved: Seq<Option<Seq<u8>>>|
        {
            &&& platform_answers(segments, decodable, resolved)
            &&& dirs == #[trigger] ceiling_dirs_of(segments, decodable, resolved, decodable.len())
        };
    lemma_written_after_empty(segments, decodable, resolved, empty, segments.len());
    lemma_ceiling_dirs_len(segments, decodable, resolved, empty);
    let head = ceiling_dirs_of(segments, decodable, resolved, empty);
    let tail = written_dirs(segments, empty + 1, segments.len());
    assert(dirs == head + tail);
    if empty == 0 {
        assert(head + tail == tail);
    }
}

/// Where the first separator is: nothing before it is one.
pub proof fn lemma_first_separator(s: Seq<u8>, sep: u8)
    ensures
        0 <= first_separator(s, sep) <= s.len(),
        first_separator(s, sep) < s.len() ==> s[first_separator(s, sep)] == sep,
        forall|j: int| 0 <= j < first_separator(s, sep) ==> s[j] != sep,
    decreases s.len(),
{
    if s.len() == 0 || s[0] == sep {
    } else {
        let rest = s.skip(1);
        lemma_first_separator(rest, sep);
        assert forall|j: int| 0 <= j < first_separator(s, sep) implies s[j] != sep by {
            if j > 0 {
                assert(s[j] == rest[j - 1]);
            }
        }
        if first_separator(s, sep) < s.len() {
            assert(s[first_separator(s, sep)] == rest[first_separator(rest, sep)]);
        }
    }
}

/// A position with a separator and none before it is that of the first one.
pub proof fn lemma_first_separator_is(s: Seq<u8>, sep: u8, cut: int)
    requires
        0 <= cut <= s.len(),
        forall|j: int| 0 <= j < cut ==> s[j] != sep,
        cut < s.len() ==> s[cut] == sep,
    ensures
        first_separator(s, sep) == cut,
{
    lemma_first_separator(s, sep);
}

/// A split has at least one piece, and no piece holds the separator.
pub proof fn lemma_split_pieces(s: Seq<u8>, sep: u8)
    ensures
        split_on(s, sep).len() >= 1,
        forall|i: int, j: int|
            0 <= i < split_on(s, sep).len() && 0 <= j < split_on(s, sep)[i].len()
                ==> (#[trigger] split_on(s, sep)[i][j]) != sep,
    decreases s.len(),
{
    lemma_first_separator(s, sep);
    let cut = first_separator(s, sep);
    if 0 <= cut < s.len() {
        let rest = s.skip(cut + 1);
        lemma_split_pieces(rest, sep);
        let pieces = split_on(s, sep);
        assert forall|i: int, j: int| 0 <= i < pieces.len() && 0 <= j < pieces[i].len() implies (
        #[trigger] pieces[i][j]) != sep by {
            if i == 0 {
                assert(pieces[0] == s.take(cut));
            } else {
                assert(pieces[i] == split_on(rest, sep)[i - 1]);
            }
        }
    } else {
        assert(cut == s.len());
    }
}

/// Splits `input` at each `sep`.
pub fn split_segments(input: &[u8], sep: u8) -> (segments: Vec<Vec<u8>>)
    ensures
        paths_of(segments@) == split_on(input@, sep),
{
    let mut segments: Vec<Vec<u8>> = Vec::new();
    let mut current: Vec<u8> = Vec::new();
    let mut start: usize = 0;
    let mut i: usize = 0;
    proof {
        assert(input@.skip(0) == input@);
        assert(paths_of(segments@) + split_on(input@.skip(0), sep) == split_on(input@, sep));
    }
    while i < input.len()
        invariant
            start <= i <= input.len(),
            current@ == input@.subrange(start as int, i as int),
            forall|j: int| start <= j < i ==> input@[j] != sep,
            paths_of(segments@) + split_on(input@.skip(start as int), sep) == split_on(input@, sep),
        decreases input.len() - i,
    {
        let byte = input[i];
        if byte == sep {
            proof {
                let tail = input@.skip(start as int);
                lemma_first_separator_is(tail, sep, i - start);
                assert(tail.take(i - start) == current@);
                assert(tail.skip(i - start + 1) == input@.skip(i + 1));
                assert(paths_of(segments@.push(current)) == paths_of(segments@).push(current@));
                assert(split_on(tail, sep) == seq![current@] + split_on(input@.skip(i + 1), sep));
                assert(paths_of(segments@).push(current@) + split_on(input@.skip(i + 1), sep)
                    == paths_of(segments@) + (seq![current@] + split_on(input@.skip(i + 1), sep)));
            }
            segments.push(current);
            current = Vec::new();
            start = i + 1;
            proof {
                assert(current@ == input@.subrange(start as int, start as int));
            }
        } else {
            current.push(byte);
            proof {
                assert(current@ == input@.subrange(start as int, i + 1));
            }
        }
        i += 1;
    }
    proof {
        let tail = input@.skip(start as int);
        lemma_first_separator_is(tail, sep, tail.len() as int);
        assert(tail == current@);
        assert(split_on(tail, sep) == seq![current@]);
        assert(paths_of(segments@.push(current)) == paths_of(segments@).push(current@));
        assert(paths_of(segments@).push(current@) == paths_of(segments@) + seq![current@]);
    }
    segments.push(current);
    segments
}

/// Decides what one segment contributes, from what the platform said of it.
pub fn admit_segment(
    segment: &[u8],
    normalize: bool,
    decodable: bool,
    resolved: Option<Vec<u8>>,
) -> (dir: Option<Vec<u8>>)
    ensures
        path_of(dir) == admitted(segment@, normalize, decodable, path_of(resolved)),
{
    if segment.len() == 0 || !decodable || !starts_at_root(segment) {
        return None;
    }
    if normalize {
        match resolved {
            Some(target) => {
                if starts_at_root(target.as_slice()) {
                    Some(target)
                } else {
                    None
                }
            },
            None => Some(copy_bytes(segment)),
        }
    } else {
        Some(copy_bytes(segment))
    }
}

/// Every directory that a list contributes is absolute, whatever the platform
/// says of its segments.
pub proof fn lemma_ceiling_dirs_absolute(
    segments: Seq<Seq<u8>>,
    decodable: Seq<bool>,
    resolved: Seq<Option<Seq<u8>>>,
    count: nat,
)
    ensures
        forall|i: int|
            0 <= i < ceiling_dirs_of(segments, decodable, resolved, count).len() ==> is_absolute(
                #[trigger] ceiling_dirs_of(segments, decodable, resolved, count)[i],
            ),
    decreases count,
{
    if count > 0 {
        let last = (count - 1) as nat;
        lemma_ceiling_dirs_absolute(segments, decodable, resolved, last);
        let before = ceiling_dirs_of(segments, decodable, resolved, last);
        let all = ceiling_dirs_of(segments, decodable, resolved, count);
        assert forall|i: int| 0 <= i < all.len() implies is_absolute(#[trigger] all[i]) by {
            if i < before.len() {
                assert(all[i] == before[i]);
            }
        }
    }
}

/// A list contributes at most one directory for each of its segments.
pub proof fn lemma_ceiling_dirs_len(
    segments: Seq<Seq<u8>>,
    decodable: Seq<bool>,
    resolved: Seq<Option<Seq<u8>>>,
    count: nat,
)
    ensures
        ceiling_dirs_of(segments, decodable, resolved, count).len() <= count,
    decreases count,
{
    if count > 0 {
        lemma_ceiling_dirs_len(segments, decodable, resolved, (count - 1) as nat);
    }
}

/// What the first `count` segments contribute depends on the platform's
/// answers for those segments only.
proof fn lemma_ceiling_dirs_prefix(
    segments: Seq<Seq<u8>>,
    decodable: Seq<bool>,
    resolved: Seq<Option<Seq<u8>>>,
    decodable2: Seq<bool>,
    resolved2: Seq<Option<Seq<u8>>>,
    count: nat,
)
    requires
        forall|j: int| 0 <= j < count ==> decodable[j] == decodable2[j],
        forall|j: int| 0 <= j < count ==> resolved[j] == resolved2[j],
    ensures
        ceiling_dirs_of(segments, decodable, resolved, count) == ceiling_dirs_of(
            segments,
            decodable2,
            resolved2,
            count,
        ),
    decreases count,
{
    if count > 0 {
        lemma_ceiling_dirs_prefix(
            segments,
            decodable,
            resolved,
            decodable2,
            resolved2,
            (count - 1) as nat,
        );
    }
}

/// Parses a `:`-separated list of ceiling directories.
///
/// Segments keep their order and duplicates stay. Up to the first empty
/// segment each absolute segment has its symbolic links resolved; after it
/// segments are taken as written. The result is what [`ceiling_dirs_of`] gives
/// for the answers that the platform gave for the segments ([`parses_to`]),
/// and all of it is absolute.
pub fn parse_ceiling_dirs(ceiling_dirs: &[u8]) -> (dirs: Vec<Vec<u8>>)
    ensures
        forall|i: int| 0 <= i < dirs.len() ==> is_absolute(#[trigger] dirs[i]@),
        dirs.len() <= split_on(ceiling_dirs@, LIST_SEPARATOR).len(),
        parses_to(ceiling_dirs@, paths_of(dirs@)),
{
    let segments = split_segments(ceiling_dirs, LIST_SEPARATOR);
    let ghost pieces = split_on(ceiling_dirs@, LIST_SEPARATOR);
    let ghost mut decodable: Seq<bool> = Seq::empty();
    let ghost mut resolved: Seq<Option<Seq<u8>>> = Seq::empty();
    let mut should_normalize = true;
    let mut dirs: Vec<Vec<u8>> = Vec::new();
    let mut i: usize = 0;
    while i < segments.len()
        invariant
            i <= segments.len(),
            paths_of(segments@) == pieces,
            decodable.len() == i,
            resolved.len() == i,
            should_normalize == normalizing(pieces, i as int),
            paths_of(dirs@) == ceiling_dirs_of(pieces, decodable, resolved, i as nat),
            forall|j: int| 0 <= j < i && is_ascii(pieces[j]) ==> #[trigger] decodable[j],
            forall|j: int|
                0 <= j < i && (#[trigger] resolved[j]) is Some ==> normalizing(pieces, j)
                    && decodable[j] && is_absolute(pieces[j]),
        decreases segments.len() - i,
    {
        let segment = segments[i].as_slice();
        proof {
            assert(pieces[i as int] == segments@[i as int]@);
        }
        let can_decode = segment.len() > 0 && decodes_as_path(segment);
        let target = if can_decode && should_normalize && starts_at_root(segment) {
            realpath(segment)
        } else {
            None
        };
        let ghost before = ceiling_dirs_of(pieces, decodable, resolved, i as nat);
        let ghost decodable_before = decodable;
        let ghost resolved_before = resolved;
        proof {
            // an empty segment is never asked about; it could be decoded anywhere
            decodable = decodable.push(segment.len() == 0 || can_decode);
            resolved = resolved.push(path_of(target));
            lemma_ceiling_dirs_prefix(
                pieces,
                decodable_before,
                resolved_before,
                decodable,
                resolved,
                i as nat,
            );
        }
        match admit_segment(segment, should_normalize, can_decode, target) {
            Some(dir) => {
                proof {
                    assert(paths_of(dirs@.push(dir)) == paths_of(dirs@).push(dir@));
                }
                dirs.push(dir);
            },
            None => {},
        }
        if segment.len() == 0 {
            should_normalize = false;
        }
        proof {
            assert(normalizing(pieces, i + 1) == (normalizing(pieces, i as int) && pieces[i as int].len()
                > 0)) by {
                if normalizing(pieces, i as int) && pieces[i as int].len() > 0 {
                    assert forall|j: int| 0 <= j < i + 1 && j < pieces.len() implies (
                    #[trigger] pieces[j]).len() > 0 by {}
                }
            }
        }
        i += 1;
    }
    proof {
        lemma_ceiling_dirs_absolute(pieces, decodable, resolved, i as nat);
        lemma_ceiling_dirs_len(pieces, decodable, resolved, i as nat);
        assert forall|k: int| 0 <= k < dirs.len() implies is_absolute(#[trigger] dirs[k]@) by {
            assert(dirs[k]@ == paths_of(dirs@)[k]);
        }
        assert(paths_of(segments@).len() == segments.len());
        assert(platform_answers(pieces, decodable, resolved));
    }
    dirs
}

} // verus!
