//! What holds of every search, whatever the file system looks like.

use crate::dir_path::{is_within, render, resolve};
use crate::discover::{
    accept, below_a_ceiling, config_of, give_up, is_ceiling, launch, pass_over, step, Config,
    Limit, Request, StepView, WalkState,
};
use crate::error::Failure;
use crate::options::Options;
use crate::path::is_absolute;
use crate::trust::TrustLevel;
use crate::world::{
    answer, law_step_progress, outcome, questions_left, started, walk, World,
};
use vstd::prelude::*;

verus! {

/// The first question about a directory that the search climbs into.
pub open spec fn entry(config: Config) -> Request {
    if config.cross_fs {
        Request::Probe
    } else {
        Request::Stat
    }
}

/// A directory that gives the search nothing to end with: it is no
/// repository, or one whose owner is known and not trusted enough.
pub open spec fn barren(world: World, config: Config, dir: Seq<Seq<u8>>) -> bool {
    !(world.repository)(render(dir)) || ((world.trust)(render(dir)) matches Ok(trust)
        && !trust.satisfies(config.required_trust))
}

/// Whether the search may climb into `dir` as far as devices go: it may cross
/// file systems, or `dir` can be read and lies on the device `home`.
pub open spec fn same_device(world: World, config: Config, home: u64, dir: Seq<Seq<u8>>) -> bool {
    config.cross_fs || (world.device)(render(dir)) == Some(home)
}

/// The state in the parent directory, after a barren directory.
pub open spec fn level_up(world: World, st: WalkState) -> WalkState {
    let seen = if (world.repository)(render(st.cursor)) {
        pass_over(st)
    } else {
        st
    };
    WalkState { cursor: st.cursor.drop_last(), pending: entry(st.config), ..seen }
}

/// The state after climbing through barren directories until only `stop`
/// components are left.
pub open spec fn climb(world: World, st: WalkState, stop: nat) -> WalkState
    decreases st.cursor.len(),
{
    if st.cursor.len() <= stop {
        st
    } else {
        climb(world, level_up(world, st), stop)
    }
}

/// A search for a path that can be resolved at once begins in the directory
/// that the path names, and ends as the walk from there does: the laws on
/// searches that have started hold of it.
pub proof fn lemma_launch_started(world: World, input: Seq<u8>, options: Options)
    requires
        is_absolute(input) || options.current_dir is Some,
    ensures
        match launch(input, options) {
            StepView::Ask(st) => {
                &&& started(st)
                &&& st.config == config_of(options)
                &&& Some(st.start) == resolve(
                    input,
                    match options.current_dir {
                        Some(cwd) => Some(cwd@),
                        None => None,
                    },
                )
                &&& outcome(world, input, options) == walk(world, st)
            },
            StepView::Finished(end) => {
                &&& end == Err::<(Seq<u8>, TrustLevel), Failure>(
                    Failure::InvalidInput { directory: input },
                )
                &&& outcome(world, input, options) == end
            },
        },
{
}

proof fn lemma_within_parent(dir: Seq<Seq<u8>>, ancestor: Seq<Seq<u8>>)
    requires
        dir.len() > 0,
        is_within(dir.drop_last(), ancestor),
    ensures
        is_within(dir, ancestor),
{
    assert(dir.take(ancestor.len() as int) == dir.drop_last().take(ancestor.len() as int));
}

proof fn lemma_within_itself(dir: Seq<Seq<u8>>)
    ensures
        is_within(dir, dir),
{
    assert(dir.take(dir.len() as int) == dir);
}

proof fn lemma_barren_level(world: World, st: WalkState, home: u64)
    requires
        st.device == Some(home),
        st.pending == Request::Stat || st.pending == Request::Probe,
        st.pending == Request::Stat ==> (world.device)(render(st.cursor)) == Some(home),
        barren(world, st.config, st.cursor),
        !is_ceiling(st.config, st.cursor),
        st.cursor.len() > 0,
    ensures
        walk(world, st) == walk(world, level_up(world, st)),
{
    let probing = WalkState { pending: Request::Probe, ..st };
    assert(walk(world, st) == walk(world, probing));
    if (world.repository)(render(st.cursor)) {
        let trusting = WalkState { pending: Request::CheckTrust, ..st };
        assert(walk(world, probing) == walk(world, trusting));
        assert(walk(world, trusting) == walk(world, level_up(world, st)));
    } else {
        assert(walk(world, probing) == walk(world, level_up(world, st)));
    }
}

/// Through barren directories that are neither ceilings nor on another device
/// the search climbs on: it ends as a search that stands where they end.
pub proof fn lemma_climb(world: World, st: WalkState, home: u64, stop: nat)
    requires
        st.device == Some(home),
        st.pending == Request::Stat || st.pending == Request::Probe,
        st.pending == Request::Stat && st.cursor.len() > stop ==> (world.device)(render(st.cursor))
            == Some(home),
        forall|dir: Seq<Seq<u8>>| #[trigger]
            is_within(st.cursor, dir) && dir.len() > stop ==> barren(world, st.config, dir)
                && !is_ceiling(st.config, dir),
        forall|dir: Seq<Seq<u8>>| #[trigger]
            is_within(st.cursor, dir) && stop < dir.len() < st.cursor.len() ==> same_device(
                world,
                st.config,
                home,
                dir,
            ),
    ensures
        walk(world, st) == walk(world, climb(world, st, stop)),
        climb(world, st, stop).device == Some(home),
        climb(world, st, stop).config == st.config,
        climb(world, st, stop).start == st.start,
        climb(world, st, stop).input == st.input,
        st.cursor.len() >= stop ==> climb(world, st, stop).cursor == st.cursor.take(stop as int),
        st.cursor.len() > stop ==> climb(world, st, stop).pending == entry(st.config),
        st.cursor.len() <= stop ==> climb(world, st, stop) == st,
        climb(world, st, stop).pending == Request::Stat || climb(world, st, stop).pending
            == Request::Probe,
        climb(world, st, stop).pending == Request::Stat ==> st.cursor.len() <= stop
            || !st.config.cross_fs,
    decreases st.cursor.len(),
{
    lemma_within_itself(st.cursor);
    if st.cursor.len() > stop {
        let up = level_up(world, st);
        lemma_barren_level(world, st, home);
        assert(is_within(st.cursor, up.cursor)) by {
            assert(st.cursor.take(up.cursor.len() as int) == up.cursor);
        }
        assert forall|dir: Seq<Seq<u8>>| #[trigger]
            is_within(up.cursor, dir) && dir.len() > stop implies barren(world, up.config, dir)
            && !is_ceiling(up.config, dir) by {
            lemma_within_parent(st.cursor, dir);
        }
        assert forall|dir: Seq<Seq<u8>>| #[trigger]
            is_within(up.cursor, dir) && stop < dir.len() < up.cursor.len() implies same_device(
            world,
            up.config,
            home,
            dir,
        ) by {
            lemma_within_parent(st.cursor, dir);
        }
        lemma_within_itself(up.cursor);
        if up.pending == Request::Stat && up.cursor.len() > stop {
            assert(same_device(world, st.config, home, up.cursor));
        }
        lemma_climb(world, up, home, stop);
        assert(up.cursor.take(stop as int) == st.cursor.take(stop as int));
    } else if st.cursor.len() == stop {
        assert(st.cursor.take(stop as int) == st.cursor);
    }
}

/// The nearest repository at or above `dir` that has more than `stop` components.
pub open spec fn nearest_repository(world: World, dir: Seq<Seq<u8>>, stop: nat) -> Option<
    Seq<Seq<u8>>,
>
    decreases dir.len(),
{
    if dir.len() <= stop {
        None
    } else if (world.repository)(render(dir)) {
        Some(dir)
    } else {
        nearest_repository(world, dir.drop_last(), stop)
    }
}

/// A search that climbs through barren directories keeps in mind the nearest
/// repository that it has passed over.
pub proof fn lemma_climb_passes_over(world: World, st: WalkState, stop: nat)
    ensures
        climb(world, st, stop).discarded == (if st.discarded is Some {
            st.discarded
        } else {
            nearest_repository(world, st.cursor, stop)
        }),
    decreases st.cursor.len(),
{
    if st.cursor.len() > stop {
        lemma_climb_passes_over(world, level_up(world, st), stop);
    }
}

/// The nearest repository is one, lies on the way up, and nothing nearer is a
/// repository; where there is none, no directory on the way is a repository.
pub proof fn lemma_nearest_repository(world: World, dir: Seq<Seq<u8>>, stop: nat)
    ensures
        match nearest_repository(world, dir, stop) {
            Some(nearest) => {
                &&& is_within(dir, nearest)
                &&& nearest.len() > stop
                &&& (world.repository)(render(nearest))
                &&& forall|other: Seq<Seq<u8>>| #[trigger]
                    is_within(dir, other) && other.len() > nearest.len() ==> !(world.repository)(
                        render(other),
                    )
            },
            None => forall|other: Seq<Seq<u8>>| #[trigger]
                is_within(dir, other) && other.len() > stop ==> !(world.repository)(render(other)),
        },
    decreases dir.len(),
{
    lemma_within_itself(dir);
    if dir.len() > stop {
        let parent = dir.drop_last();
        lemma_nearest_repository(world, parent, stop);
        assert forall|other: Seq<Seq<u8>>| #[trigger]
            is_within(dir, other) && other.len() < dir.len() implies is_within(parent, other) by {
            assert(parent.take(other.len() as int) == dir.take(other.len() as int));
        }
        assert forall|other: Seq<Seq<u8>>| #[trigger]
            is_within(dir, other) && other.len() >= dir.len() implies other == dir by {
            assert(dir.take(dir.len() as int) == dir);
        }
        if let Some(nearest) = nearest_repository(world, dir, stop) {
            if !(world.repository)(render(dir)) {
                lemma_within_parent(dir, nearest);
            }
        }
    }
}

proof fn lemma_first_stat(world: World, st: WalkState, home: u64)
    requires
        started(st),
        (world.device)(render(st.start)) == Some(home),
    ensures
        walk(world, st) == walk(
            world,
            WalkState { device: Some(home), pending: Request::Probe, ..st },
        ),
{
}

/// Where no directory from the start up to the root is a repository, the
/// search ends with `NoGitRepository` for the start. This is so for a start
/// that can be read, as long as no directory on the way is a ceiling and the
/// search either may cross file systems or meets one device only.
pub proof fn law_no_repository(world: World, st: WalkState, home: u64)
    requires
        started(st),
        (world.device)(render(st.start)) == Some(home),
        forall|dir: Seq<Seq<u8>>| #[trigger]
            is_within(st.start, dir) ==> !(world.repository)(render(dir)) && !is_ceiling(
                st.config,
                dir,
            ),
        forall|dir: Seq<Seq<u8>>| #[trigger]
            is_within(st.start, dir) && dir.len() < st.start.len() ==> same_device(
                world,
                st.config,
                home,
                dir,
            ),
    ensures
        walk(world, st) == Err::<(Seq<u8>, TrustLevel), Failure>(
            Failure::NoGitRepository { path: render(st.start) },
        ),
{
    let first = WalkState { device: Some(home), pending: Request::Probe, ..st };
    lemma_first_stat(world, st, home);
    lemma_climb(world, first, home, 0);
    lemma_climb_passes_over(world, first, 0);
    lemma_nearest_repository(world, st.start, 0);
    let top = climb(world, first, 0);
    assert(top.cursor == Seq::<Seq<u8>>::empty());
    assert(is_within(st.start, top.cursor)) by {
        assert(st.start.take(0) == top.cursor);
    }
    let probing = WalkState { pending: Request::Probe, ..top };
    if top.pending == Request::Stat {
        assert(same_device(world, st.config, home, top.cursor));
        assert(walk(world, top) == walk(world, probing));
    }
    assert(walk(world, probing) == Err::<(Seq<u8>, TrustLevel), Failure>(
        give_up(probing, Limit::Root),
    ));
}

proof fn lemma_within_further(dir: Seq<Seq<u8>>, middle: Seq<Seq<u8>>, ancestor: Seq<Seq<u8>>)
    requires
        is_within(dir, middle),
        is_within(middle, ancestor),
    ensures
        is_within(dir, ancestor),
{
    assert(dir.take(ancestor.len() as int) == dir.take(middle.len() as int).take(
        ancestor.len() as int,
    ));
}

/// A search that has passed over a repository says so wherever it stops, be
/// it at the root, at a ceiling or at another file system: it ends with
/// `NoTrustedGitRepository` for the nearest repository that it passed over,
/// as long as every directory that it still looks at can be read and is
/// barren.
pub proof fn law_passed_over_is_reported(world: World, st: WalkState, candidate: Seq<Seq<u8>>)
    requires
        st.pending != Request::CurrentDir,
        st.discarded == Some(candidate),
        st.pending == Request::CheckTrust ==> (world.repository)(render(st.cursor)),
        forall|dir: Seq<Seq<u8>>| #[trigger]
            is_within(st.cursor, dir) ==> barren(world, st.config, dir) && (world.device)(
                render(dir),
            ) is Some,
    ensures
        walk(world, st) == Err::<(Seq<u8>, TrustLevel), Failure>(
            Failure::NoTrustedGitRepository {
                path: render(st.start),
                candidate: render(candidate),
                required: st.config.required_trust,
            },
        ),
    decreases questions_left(st),
{
    lemma_within_itself(st.cursor);
    match step(st, answer(world, st)) {
        StepView::Finished(end) => {},
        StepView::Ask(next) => {
            law_step_progress(st, answer(world, st));
            assert forall|dir: Seq<Seq<u8>>| #[trigger] is_within(next.cursor, dir) implies barren(
                world,
                next.config,
                dir,
            ) && (world.device)(render(dir)) is Some by {
                if next.cursor != st.cursor {
                    lemma_within_parent(st.cursor, dir);
                }
            }
            law_passed_over_is_reported(world, next, candidate);
        },
    }
}

/// Where the nearest repository on the way up is not trusted enough, and
/// nothing above it is, the search ends with `NoTrustedGitRepository`, naming
/// the start and that repository. This is so where the search gets as far as
/// the repository (no ceiling below it, and one device up to it or leave to
/// cross file systems), every owner is known, and what the search looks at
/// above it can be read; ceilings and other file systems above the
/// repository do not change the end.
pub proof fn law_no_trusted_repository(
    world: World,
    st: WalkState,
    home: u64,
    nearest: Seq<Seq<u8>>,
)
    requires
        started(st),
        (world.device)(render(st.start)) == Some(home),
        is_within(st.start, nearest),
        (world.repository)(render(nearest)),
        forall|dir: Seq<Seq<u8>>| #[trigger]
            is_within(st.start, dir) ==> barren(world, st.config, dir) && (world.device)(
                render(dir),
            ) is Some,
        forall|dir: Seq<Seq<u8>>| #[trigger]
            is_within(st.start, dir) && dir.len() > nearest.len() ==> !(world.repository)(
                render(dir),
            ) && !is_ceiling(st.config, dir),
        forall|dir: Seq<Seq<u8>>| #[trigger]
            is_within(st.start, dir) && nearest.len() <= dir.len() < st.start.len()
                ==> same_device(world, st.config, home, dir),
    ensures
        walk(world, st) == Err::<(Seq<u8>, TrustLevel), Failure>(
            Failure::NoTrustedGitRepository {
                path: render(st.start),
                candidate: render(nearest),
                required: st.config.required_trust,
            },
        ),
{
    let first = WalkState { device: Some(home), pending: Request::Probe, ..st };
    lemma_first_stat(world, st, home);
    lemma_climb(world, first, home, nearest.len());
    lemma_climb_passes_over(world, first, nearest.len());
    lemma_nearest_repository(world, st.start, nearest.len());
    let top = climb(world, first, nearest.len());
    assert(top.cursor == nearest);
    assert(top.discarded is None);
    let probing = WalkState { pending: Request::Probe, ..top };
    if top.pending == Request::Stat {
        assert(same_device(world, st.config, home, nearest));
        assert(walk(world, top) == walk(world, probing));
    }
    let trusting = WalkState { pending: Request::CheckTrust, ..top };
    assert(walk(world, probing) == walk(world, trusting));
    let passed = pass_over(trusting);
    assert(passed.discarded == Some(nearest));
    match step(trusting, answer(world, trusting)) {
        StepView::Finished(end) => {},
        StepView::Ask(next) => {
            assert forall|dir: Seq<Seq<u8>>| #[trigger] is_within(next.cursor, dir) implies barren(
                world,
                next.config,
                dir,
            ) && (world.device)(render(dir)) is Some by {
                lemma_within_parent(nearest, dir);
                lemma_within_further(st.start, nearest, dir);
            }
            law_passed_over_is_reported(world, next, nearest);
        },
    }
}

/// The search ends at the nearest repository that is trusted enough: where
/// `found` is one, and the directories below it are barren, no ceilings and
/// within reach, the search ends as [`accept`] says for `found`.
pub proof fn law_nearest_trusted_repository(
    world: World,
    st: WalkState,
    home: u64,
    found: Seq<Seq<u8>>,
    trust: TrustLevel,
)
    requires
        started(st),
        (world.device)(render(st.start)) == Some(home),
        is_within(st.start, found),
        (world.repository)(render(found)),
        (world.trust)(render(found)) == Ok::<TrustLevel, std::io::Error>(trust),
        trust.satisfies(st.config.required_trust),
        forall|dir: Seq<Seq<u8>>| #[trigger]
            is_within(st.start, dir) && dir.len() > found.len() ==> barren(world, st.config, dir)
                && !is_ceiling(st.config, dir),
        forall|dir: Seq<Seq<u8>>| #[trigger]
            is_within(st.start, dir) && found.len() <= dir.len() < st.start.len() ==> same_device(
                world,
                st.config,
                home,
                dir,
            ),
    ensures
        walk(world, st) == accept(WalkState { cursor: found, ..st }, trust),
{
    let first = WalkState { device: Some(home), pending: Request::Probe, ..st };
    lemma_first_stat(world, st, home);
    lemma_climb(world, first, home, found.len());
    let top = climb(world, first, found.len());
    assert(top.cursor == found);
    let probing = WalkState { pending: Request::Probe, ..top };
    if top.pending == Request::Stat {
        assert(same_device(world, st.config, home, found));
        assert(walk(world, top) == walk(world, probing));
    }
    let trusting = WalkState { pending: Request::CheckTrust, ..top };
    assert(walk(world, probing) == walk(world, trusting));
    assert(walk(world, trusting) == accept(trusting, trust));
}

/// Every repository whose owner is known is trusted enough for a search that
/// asks for `Reduced` trust only.
pub proof fn law_reduced_trust_suffices(trust: TrustLevel)
    ensures
        trust.satisfies(TrustLevel::Reduced),
{
}

/// Ceiling directories that do not contain the repository that is found are
/// reported: with ceilings given and a match asked for, the search of
/// [`law_nearest_trusted_repository`] ends with `NoMatchingCeilingDir` if none
/// of them contains `found`, and with `found` otherwise.
pub proof fn law_ineffective_ceilings(
    world: World,
    st: WalkState,
    home: u64,
    found: Seq<Seq<u8>>,
    trust: TrustLevel,
)
    requires
        started(st),
        (world.device)(render(st.start)) == Some(home),
        is_within(st.start, found),
        (world.repository)(render(found)),
        (world.trust)(render(found)) == Ok::<TrustLevel, std::io::Error>(trust),
        trust.satisfies(st.config.required_trust),
        forall|dir: Seq<Seq<u8>>| #[trigger]
            is_within(st.start, dir) && dir.len() > found.len() ==> barren(world, st.config, dir)
                && !is_ceiling(st.config, dir),
        forall|dir: Seq<Seq<u8>>| #[trigger]
            is_within(st.start, dir) && found.len() <= dir.len() < st.start.len() ==> same_device(
                world,
                st.config,
                home,
                dir,
            ),
        st.config.ceilings_given,
        st.config.match_ceiling_dir_or_error,
    ensures
        walk(world, st) == (if below_a_ceiling(st.config, found) {
            Ok::<(Seq<u8>, TrustLevel), Failure>((render(found), trust))
        } else {
            Err::<(Seq<u8>, TrustLevel), Failure>(Failure::NoMatchingCeilingDir)
        }),
{
    law_nearest_trusted_repository(world, st, home, found, trust);
}

/// A search that must not cross file systems ends at the first directory on
/// another device: with no repository and no ceiling below `limit`, it ends
/// with `NoGitRepositoryWithinFs`, naming the start and `limit`.
pub proof fn law_filesystem_boundary(
    world: World,
    st: WalkState,
    home: u64,
    limit: Seq<Seq<u8>>,
    other: u64,
)
    requires
        started(st),
        !st.config.cross_fs,
        (world.device)(render(st.start)) == Some(home),
        is_within(st.start, limit),
        limit.len() < st.start.len(),
        (world.device)(render(limit)) == Some(other),
        other != home,
        forall|dir: Seq<Seq<u8>>| #[trigger]
            is_within(st.start, dir) && dir.len() > limit.len() ==> !(world.repository)(
                render(dir),
            ) && !is_ceiling(st.config, dir),
        forall|dir: Seq<Seq<u8>>| #[trigger]
            is_within(st.start, dir) && limit.len() < dir.len() < st.start.len() ==> (
            world.device)(render(dir)) == Some(home),
    ensures
        walk(world, st) == Err::<(Seq<u8>, TrustLevel), Failure>(
            Failure::NoGitRepositoryWithinFs { path: render(st.start), limit: render(limit) },
        ),
{
    let first = WalkState { device: Some(home), pending: Request::Probe, ..st };
    lemma_first_stat(world, st, home);
    lemma_climb(world, first, home, limit.len());
    lemma_climb_passes_over(world, first, limit.len());
    lemma_nearest_repository(world, st.start, limit.len());
    let top = climb(world, first, limit.len());
    assert(top.cursor == limit);
    assert(walk(world, top) == Err::<(Seq<u8>, TrustLevel), Failure>(
        give_up(top, Limit::Filesystem),
    ));
}

/// What a search may still end at: a directory at or above the one it
/// examines that is a repository, whose owner gives it `trust`, enough for the
/// search, and which a ceiling directory contains where that is asked for.
pub open spec fn acceptable(world: World, st: WalkState, dir: Seq<Seq<u8>>, trust: TrustLevel)
    -> bool {
    &&& is_within(st.cursor, dir)
    &&& (world.repository)(render(dir))
    &&& (world.trust)(render(dir)) == Ok::<TrustLevel, std::io::Error>(trust)
    &&& trust.satisfies(st.config.required_trust)
    &&& st.config.ceilings_given && st.config.match_ceiling_dir_or_error ==> below_a_ceiling(
        st.config,
        dir,
    )
}

/// A search never ends at anything but a repository that is trusted enough:
/// the directory it gives is the one it examines or one above, the world has
/// it as a repository with the trust that is reported, that trust is enough,
/// and where ceiling directories must match, one of them contains it.
pub proof fn law_found_is_trusted_repository(world: World, st: WalkState)
    requires
        st.pending != Request::CurrentDir,
        st.pending == Request::CheckTrust ==> (world.repository)(render(st.cursor)),
    ensures
        walk(world, st) matches Ok((path, trust)) ==> exists|dir: Seq<Seq<u8>>|
            path == render(dir) && #[trigger] acceptable(world, st, dir, trust),
    decreases questions_left(st),
{
    lemma_within_itself(st.cursor);
    match step(st, answer(world, st)) {
        StepView::Finished(end) => {
            if let Ok((path, trust)) = end {
                assert(acceptable(world, st, st.cursor, trust));
            }
        },
        StepView::Ask(next) => {
            law_step_progress(st, answer(world, st));
            law_found_is_trusted_repository(world, next);
            if let Ok((path, trust)) = walk(world, next) {
                let dir = choose|dir: Seq<Seq<u8>>|
                    path == render(dir) && #[trigger] acceptable(world, next, dir, trust);
                if next.cursor != st.cursor {
                    lemma_within_parent(st.cursor, dir);
                }
                assert(acceptable(world, st, dir, trust));
            }
        },
    }
}

/// The directory that a search for `input` starts in, where that is known
/// without asking for the current directory.
pub open spec fn start_of(input: Seq<u8>, options: Options) -> Option<Seq<Seq<u8>>> {
    resolve(
        input,
        match options.current_dir {
            Some(cwd) => Some(cwd@),
            None => None,
        },
    )
}

/// Options without ceiling directories, as the default ones are, put no
/// ceiling in the way of a search and ask for no match.
pub proof fn lemma_no_ceiling_dirs(options: Options)
    requires
        options.ceiling_dirs@.len() == 0,
    ensures
        !config_of(options).ceilings_given,
        config_of(options).ceilings.len() == 0,
        forall|dir: Seq<Seq<u8>>| !is_ceiling(config_of(options), dir),
        forall|dir: Seq<Seq<u8>>| !below_a_ceiling(config_of(options), dir),
{
}

/// [`law_no_repository`] for a whole search: with no repository from the
/// start up to the root, no ceiling on the way and one device, or leave to
/// cross file systems, the search for `input` ends with `NoGitRepository`.
pub proof fn law_search_without_repository(
    world: World,
    input: Seq<u8>,
    options: Options,
    start: Seq<Seq<u8>>,
    home: u64,
)
    requires
        is_absolute(input) || options.current_dir is Some,
        start_of(input, options) == Some(start),
        (world.device)(render(start)) == Some(home),
        forall|dir: Seq<Seq<u8>>| #[trigger]
            is_within(start, dir) ==> !(world.repository)(render(dir)) && !is_ceiling(
                config_of(options),
                dir,
            ),
        forall|dir: Seq<Seq<u8>>| #[trigger]
            is_within(start, dir) && dir.len() < start.len() ==> same_device(
                world,
                config_of(options),
                home,
                dir,
            ),
    ensures
        outcome(world, input, options) == Err::<(Seq<u8>, TrustLevel), Failure>(
            Failure::NoGitRepository { path: render(start) },
        ),
{
    lemma_launch_started(world, input, options);
    if let StepView::Ask(st) = launch(input, options) {
        law_no_repository(world, st, home);
    }
}

/// [`law_no_trusted_repository`] for a whole search: the search for `input`
/// ends with `NoTrustedGitRepository`, whatever the options are otherwise,
/// where `nearest`, the nearest repository on the way up, is not trusted
/// enough and nothing above it is. This is so where the search gets as far as
/// the repository, every owner is known, and what it looks at can be read.
pub proof fn law_search_without_trusted_repository(
    world: World,
    input: Seq<u8>,
    options: Options,
    start: Seq<Seq<u8>>,
    home: u64,
    nearest: Seq<Seq<u8>>,
)
    requires
        is_absolute(input) || options.current_dir is Some,
        start_of(input, options) == Some(start),
        (world.device)(render(start)) == Some(home),
        is_within(start, nearest),
        (world.repository)(render(nearest)),
        forall|dir: Seq<Seq<u8>>| #[trigger]
            is_within(start, dir) ==> barren(world, config_of(options), dir) && (world.device)(
                render(dir),
            ) is Some,
        forall|dir: Seq<Seq<u8>>| #[trigger]
            is_within(start, dir) && dir.len() > nearest.len() ==> !(world.repository)(
                render(dir),
            ) && !is_ceiling(config_of(options), dir),
        forall|dir: Seq<Seq<u8>>| #[trigger]
            is_within(start, dir) && nearest.len() <= dir.len() < start.len() ==> same_device(
                world,
                config_of(options),
                home,
                dir,
            ),
    ensures
        outcome(world, input, options) == Err::<(Seq<u8>, TrustLevel), Failure>(
            Failure::NoTrustedGitRepository {
                path: render(start),
                candidate: render(nearest),
                required: options.required_trust,
            },
        ),
{
    lemma_launch_started(world, input, options);
    if let StepView::Ask(st) = launch(input, options) {
        law_no_trusted_repository(world, st, home, nearest);
    }
}

/// [`law_nearest_trusted_repository`] and [`law_ineffective_ceilings`] for a
/// whole search: the search for `input` ends at `found`, the nearest
/// repository that is trusted enough, unless ceiling directories were given,
/// a match is asked for, as it is by default, and none of them contains
/// `found`: then it ends with `NoMatchingCeilingDir`, although there is a
/// repository.
pub proof fn law_search_to_nearest_trusted_repository(
    world: World,
    input: Seq<u8>,
    options: Options,
    start: Seq<Seq<u8>>,
    home: u64,
    found: Seq<Seq<u8>>,
    trust: TrustLevel,
)
    requires
        is_absolute(input) || options.current_dir is Some,
        start_of(input, options) == Some(start),
        (world.device)(render(start)) == Some(home),
        is_within(start, found),
        (world.repository)(render(found)),
        (world.trust)(render(found)) == Ok::<TrustLevel, std::io::Error>(trust),
        trust.satisfies(options.required_trust),
        forall|dir: Seq<Seq<u8>>| #[trigger]
            is_within(start, dir) && dir.len() > found.len() ==> barren(
                world,
                config_of(options),
                dir,
            ) && !is_ceiling(config_of(options), dir),
        forall|dir: Seq<Seq<u8>>| #[trigger]
            is_within(start, dir) && found.len() <= dir.len() < start.len() ==> same_device(
                world,
                config_of(options),
                home,
                dir,
            ),
    ensures
        outcome(world, input, options) == (if options.ceiling_dirs@.len() > 0
            && options.match_ceiling_dir_or_error && !below_a_ceiling(config_of(options), found) {
            Err::<(Seq<u8>, TrustLevel), Failure>(Failure::NoMatchingCeilingDir)
        } else {
            Ok::<(Seq<u8>, TrustLevel), Failure>((render(found), trust))
        }),
{
    lemma_launch_started(world, input, options);
    if let StepView::Ask(st) = launch(input, options) {
        law_nearest_trusted_repository(world, st, home, found, trust);
    }
}

/// [`law_filesystem_boundary`] for a whole search: a search for `input` that
/// must not cross file systems, as it must not by default, ends with
/// `NoGitRepositoryWithinFs` at `limit`, the first directory on another
/// device, where no repository and no ceiling lies below it.
pub proof fn law_search_to_filesystem_boundary(
    world: World,
    input: Seq<u8>,
    options: Options,
    start: Seq<Seq<u8>>,
    home: u64,
    limit: Seq<Seq<u8>>,
    other: u64,
)
    requires
        is_absolute(input) || options.current_dir is Some,
        start_of(input, options) == Some(start),
        !options.cross_fs,
        (world.device)(render(start)) == Some(home),
        is_within(start, limit),
        limit.len() < start.len(),
        (world.device)(render(limit)) == Some(other),
        other != home,
        forall|dir: Seq<Seq<u8>>| #[trigger]
            is_within(start, dir) && dir.len() > limit.len() ==> !(world.repository)(render(dir))
                && !is_ceiling(config_of(options), dir),
        forall|dir: Seq<Seq<u8>>| #[trigger]
            is_within(start, dir) && limit.len() < dir.len() < start.len() ==> (world.device)(
                render(dir),
            ) == Some(home),
    ensures
        outcome(world, input, options) == Err::<(Seq<u8>, TrustLevel), Failure>(
            Failure::NoGitRepositoryWithinFs { path: render(start), limit: render(limit) },
        ),
{
    lemma_launch_started(world, input, options);
    if let StepView::Ask(st) = launch(input, options) {
        law_filesystem_boundary(world, st, home, limit, other);
    }
}

/// The trust that is asked for decides about a repository of another owner.
/// Where `found` is the only repository on the way up, its owner is not the
/// invoking principal, and the options name no ceiling directories, a search
/// that asks for `Reduced` trust, as the default options do, ends at `found`
/// with `Reduced` trust; the same search asking for `Full` trust ends with
/// `NoTrustedGitRepository`. This is so where the way up to `found` stays on
/// one device, or the search may cross file systems, and what the stricter
/// search looks at above `found` can be read.
pub proof fn law_trust_asked_for_decides(
    world: World,
    input: Seq<u8>,
    lenient: Options,
    strict: Options,
    start: Seq<Seq<u8>>,
    home: u64,
    found: Seq<Seq<u8>>,
)
    requires
        lenient.required_trust == TrustLevel::Reduced,
        strict.required_trust == TrustLevel::Full,
        lenient.ceiling_dirs@.len() == 0,
        strict.ceiling_dirs@.len() == 0,
        strict.cross_fs == lenient.cross_fs,
        strict.current_dir == lenient.current_dir,
        is_absolute(input) || lenient.current_dir is Some,
        start_of(input, lenient) == Some(start),
        (world.device)(render(start)) == Some(home),
        is_within(start, found),
        (world.repository)(render(found)),
        (world.trust)(render(found)) == Ok::<TrustLevel, std::io::Error>(TrustLevel::Reduced),
        forall|dir: Seq<Seq<u8>>| #[trigger]
            is_within(start, dir) && dir != found ==> !(world.repository)(render(dir)),
        forall|dir: Seq<Seq<u8>>| #[trigger]
            is_within(start, dir) && found.len() <= dir.len() < start.len() ==> lenient.cross_fs
                || (world.device)(render(dir)) == Some(home),
        forall|dir: Seq<Seq<u8>>| #[trigger]
            is_within(start, dir) ==> (world.device)(render(dir)) is Some,
    ensures
        outcome(world, input, lenient) == Ok::<(Seq<u8>, TrustLevel), Failure>(
            (render(found), TrustLevel::Reduced),
        ),
        outcome(world, input, strict) == Err::<(Seq<u8>, TrustLevel), Failure>(
            Failure::NoTrustedGitRepository {
                path: render(start),
                candidate: render(found),
                required: TrustLevel::Full,
            },
        ),
{
    lemma_no_ceiling_dirs(lenient);
    lemma_no_ceiling_dirs(strict);
    law_search_to_nearest_trusted_repository(
        world,
        input,
        lenient,
        start,
        home,
        found,
        TrustLevel::Reduced,
    );
    law_search_without_trusted_repository(world, input, strict, start, home, found);
}

} // verus!
