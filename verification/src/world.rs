//! What a search ends with in a world whose answers are known beforehand.

use crate::dir_path::{is_within, render};
use crate::discover::{
    launch, locate, step, Outcome, Reply, Request, StepView, WalkState,
};
use crate::error::Failure;
use crate::options::Options;
use crate::path::is_absolute;
use crate::trust::TrustLevel;
use vstd::prelude::*;

verus! {

/// The facts that a search can ask for, each as a function of the path.
pub struct World {
    /// The current working directory, or why it cannot be had.
    pub current_dir: Result<Seq<u8>, std::io::Error>,
    /// The device of a directory; `None` for what cannot be read or is no directory.
    pub device: spec_fn(Seq<u8>) -> Option<u64>,
    /// Whether a directory is the root of a repository.
    pub repository: spec_fn(Seq<u8>) -> bool,
    /// The trust that the owner of a directory gives it, or why the owner is unknown.
    pub trust: spec_fn(Seq<u8>) -> Result<TrustLevel, std::io::Error>,
}

/// The answer of `world` to the open question of `st`, for a search that has
/// left its first question, the one for the current directory, behind.
pub open spec fn answer(world: World, st: WalkState) -> Reply {
    let dir = render(st.cursor);
    match st.pending {
        Request::Stat => Reply::Stat((world.device)(dir)),
        Request::Probe => Reply::Probe((world.repository)(dir)),
        _ => Reply::Trust((world.trust)(dir)),
    }
}

/// Whether `reply` is what `world` holds for the open question of `st`.
pub open spec fn answers(world: World, st: WalkState, reply: Reply) -> bool {
    match st.pending {
        Request::CurrentDir => match reply {
            Reply::CurrentDir(Ok(cwd)) => world.current_dir == Ok::<Seq<u8>, std::io::Error>(cwd@),
            Reply::CurrentDir(Err(err)) => world.current_dir == Err::<Seq<u8>, std::io::Error>(err),
            _ => false,
        },
        _ => reply == answer(world, st),
    }
}

/// A bound on the number of questions that a search still asks: three for
/// each level up to the root, less those that are behind it at this level.
pub open spec fn questions_left(st: WalkState) -> nat {
    3 * st.cursor.len() + match st.pending {
        Request::CurrentDir => 3nat,
        Request::Stat => 2nat,
        Request::Probe => 1nat,
        Request::CheckTrust => 0nat,
    }
}

/// What a search in state `st` ends with when every question is answered as
/// `world` has it. A search that goes on always has fewer questions left
/// ([`law_step_progress`]), so the last case is never met.
pub open spec fn walk(world: World, st: WalkState) -> Outcome
    decreases questions_left(st),
{
    match step(st, answer(world, st)) {
        StepView::Finished(outcome) => outcome,
        StepView::Ask(next) => if st.pending != Request::CurrentDir && questions_left(next)
            < questions_left(st) {
            walk(world, next)
        } else {
            Err(Failure::InvalidInput { directory: st.input })
        },
    }
}

/// What a search that has just begun ends with in `world`.
pub open spec fn finish(world: World, first: StepView) -> Outcome {
    match first {
        StepView::Finished(outcome) => outcome,
        StepView::Ask(st) => if st.pending == Request::CurrentDir {
            match world.current_dir {
                Ok(cwd) => match locate(st, Some(cwd)) {
                    StepView::Finished(outcome) => outcome,
                    StepView::Ask(located) => walk(world, located),
                },
                Err(err) => Err(Failure::CurrentDir(err)),
            }
        } else {
            walk(world, st)
        },
    }
}

/// What the search for the repository that contains `input` ends with in `world`.
pub open spec fn outcome(world: World, input: Seq<u8>, options: Options) -> Outcome {
    finish(world, launch(input, options))
}

/// A search that is about to examine the directory it starts in.
pub open spec fn started(st: WalkState) -> bool {
    &&& st.pending == Request::Stat
    &&& st.device is None
    &&& st.discarded is None
    &&& st.cursor == st.start
}

/// A search that waits for the current directory before it can start.
pub open spec fn waiting(st: WalkState) -> bool {
    &&& st.pending == Request::CurrentDir
    &&& st.device is None
    &&& st.discarded is None
}

/// The search has its start behind it and has only climbed from there; what
/// it has passed over lies between the start and where it stands.
pub open spec fn on_the_way(st: WalkState) -> bool {
    &&& st.pending != Request::CurrentDir
    &&& is_within(st.start, st.cursor)
    &&& st.discarded matches Some(candidate) ==> is_within(st.start, candidate) && is_within(
        candidate,
        st.cursor,
    )
}

/// An answered question brings the end nearer: a search that goes on has
/// fewer questions left, and never asks for the current directory again.
pub proof fn law_step_progress(st: WalkState, reply: Reply)
    requires
        st.pending != Request::CurrentDir,
        match st.pending {
            Request::Stat => reply is Stat,
            Request::Probe => reply is Probe,
            _ => reply is Trust,
        },
    ensures
        step(st, reply) matches StepView::Ask(next) ==> next.pending != Request::CurrentDir
            && questions_left(next) < questions_left(st),
{
}

/// The first question, where it is for the current directory, is asked once:
/// its answer ends the search or leads to the directory that the search
/// starts in.
pub proof fn law_current_dir_asked_once(st: WalkState, reply: Reply)
    requires
        waiting(st),
        reply is CurrentDir,
    ensures
        step(st, reply) matches StepView::Ask(next) ==> started(next) && next.config == st.config,
{
}

/// Answering the open question as the world has it does not change what the
/// search ends with; and where the search ends, it ends with just that.
pub proof fn law_step_follows_world(world: World, st: WalkState, reply: Reply)
    requires
        st.pending != Request::CurrentDir,
        answers(world, st, reply),
    ensures
        match step(st, reply) {
            StepView::Ask(next) => walk(world, next) == walk(world, st),
            StepView::Finished(outcome) => outcome == walk(world, st),
        },
{
    law_step_progress(st, reply);
}

/// The same for the first question of a search.
pub proof fn law_first_step_follows_world(world: World, st: WalkState, reply: Reply)
    requires
        st.pending == Request::CurrentDir,
        answers(world, st, reply),
    ensures
        match step(st, reply) {
            StepView::Ask(next) => walk(world, next) == finish(world, StepView::Ask(st)),
            StepView::Finished(outcome) => outcome == finish(world, StepView::Ask(st)),
        },
{
}

/// A search only climbs: each step keeps it between the root and its start.
pub proof fn law_search_only_climbs(st: WalkState, reply: Reply)
    requires
        on_the_way(st),
    ensures
        step(st, reply) matches StepView::Ask(next) ==> on_the_way(next),
{
    if st.cursor.len() > 0 {
        let parent = st.cursor.drop_last();
        assert(is_within(st.start, parent)) by {
            assert(st.start.take(parent.len() as int) == st.start.take(st.cursor.len() as int).take(
                parent.len() as int,
            ));
        }
        assert(is_within(st.cursor, parent)) by {
            assert(st.cursor.take(parent.len() as int) == parent);
        }
        if let Some(candidate) = st.discarded {
            assert(is_within(candidate, parent)) by {
                assert(candidate.take(parent.len() as int) == candidate.take(
                    st.cursor.len() as int,
                ).take(parent.len() as int));
            }
        }
    }
    assert(is_within(st.cursor, st.cursor)) by {
        assert(st.cursor.take(st.cursor.len() as int) == st.cursor);
    }
}

/// Where the current directory is needed and cannot be had, the search ends
/// with the platform's error, before it has looked at any directory.
pub proof fn law_current_dir_unavailable(
    world: World,
    input: Seq<u8>,
    options: Options,
    err: std::io::Error,
)
    requires
        !is_absolute(input),
        options.current_dir is None,
        world.current_dir == Err::<Seq<u8>, std::io::Error>(err),
    ensures
        launch(input, options) matches StepView::Ask(st) && waiting(st),
        outcome(world, input, options) == Err::<(Seq<u8>, TrustLevel), Failure>(
            Failure::CurrentDir(err),
        ),
{
}

/// A search that asks for the current directory ends as the search that is
/// given that directory with its options.
pub proof fn law_current_dir_fetched(
    world: World,
    input: Seq<u8>,
    options: Options,
    given: Options,
    cwd: Seq<u8>,
)
    requires
        !is_absolute(input),
        options.current_dir is None,
        world.current_dir == Ok::<Seq<u8>, std::io::Error>(cwd),
        given.current_dir matches Some(dir) && dir@ == cwd,
        given.required_trust == options.required_trust,
        given.ceiling_dirs == options.ceiling_dirs,
        given.match_ceiling_dir_or_error == options.match_ceiling_dir_or_error,
        given.cross_fs == options.cross_fs,
    ensures
        outcome(world, input, options) == outcome(world, input, given),
{
}

} // verus!
