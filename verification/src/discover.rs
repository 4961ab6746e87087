//! The upward search for a repository, one question at a time.
//!
//! The search itself touches nothing: it asks its caller for one fact about
//! the file system at a time ([`Request`]), is told the answer ([`Reply`]) and
//! decides what follows ([`Discovery::advance`]). [`outcome`] says what a
//! search ends with in a world where every answer is known beforehand.

use crate::dir_path::{is_within, render, resolve, DirPath};
use crate::error::{Error, Failure};
use crate::options::Options;
use crate::path::{copy_bytes, is_absolute};
use crate::trust::TrustLevel;
use vstd::prelude::*;

verus! {

/// What the caller has to find out next. All but `CurrentDir` are about the
/// directory that [`Discovery::directory`] gives.
#[derive(Clone, Copy, Debug, PartialEq, Eq, Structural)]
pub enum Request {
    /// The current working directory of the process.
    CurrentDir,
    /// Whether the directory can be read, and the device it is on.
    Stat,
    /// Whether the directory is the root of a repository.
    Probe,
    /// How far the owner of the directory is trusted.
    CheckTrust,
}

/// What the caller found out.
#[derive(Debug)]
pub enum Reply {
    /// The current working directory, or why it could not be had.
    CurrentDir(Result<Vec<u8>, std::io::Error>),
    /// The device of the directory; `None` if it cannot be read or is no directory.
    Stat(Option<u64>),
    /// Whether the directory is the root of a repository.
    Probe(bool),
    /// The trust that the directory's owner gives it, or why the owner is unknown.
    Trust(Result<TrustLevel, std::io::Error>),
}

/// Why a search stops climbing.
pub enum Limit {
    /// The root has been examined.
    Root,
    /// A ceiling directory has been examined.
    Ceiling,
    /// The directory lies on another device than the start.
    Filesystem,
}

/// The settings of a search, with the ceiling directories resolved.
pub struct Config {
    pub required_trust: TrustLevel,
    /// The ceiling directories that are absolute and do not lead above the root.
    pub ceilings: Seq<Seq<Seq<u8>>>,
    /// Whether any ceiling directory was given, resolvable or not.
    pub ceilings_given: bool,
    pub match_ceiling_dir_or_error: bool,
    pub cross_fs: bool,
}

/// The state of a search.
pub struct WalkState {
    pub config: Config,
    /// The path to start from, as it was given.
    pub input: Seq<u8>,
    /// The directory that the search started in.
    pub start: Seq<Seq<u8>>,
    /// The directory under examination.
    pub cursor: Seq<Seq<u8>>,
    /// The device of `start`, once it is known.
    pub device: Option<u64>,
    /// The nearest repository that was passed over for want of trust.
    pub discarded: Option<Seq<Seq<u8>>>,
    /// The question that is open.
    pub pending: Request,
}

/// A repository and the trust that its owner gives it.
#[derive(Debug)]
pub struct Found {
    pub path: Vec<u8>,
    pub trust: TrustLevel,
}

/// How a search ends: with a repository's path and trust, or a failure.
pub type Outcome = Result<(Seq<u8>, TrustLevel), Failure>;

/// Where a search stands after a step.
pub enum StepView {
    Ask(WalkState),
    Finished(Outcome),
}

/// The ceiling directories among the first `count` of `dirs` that can be
/// resolved, in order.
pub open spec fn resolved_ceilings(dirs: Seq<Vec<u8>>, count: nat) -> Seq<Seq<Seq<u8>>>
    decreases count,
{
    if count == 0 {
        Seq::empty()
    } else {
        let before = resolved_ceilings(dirs, (count - 1) as nat);
        match resolve(dirs[count - 1]@, None) {
            Some(parts) => before.push(parts),
            None => before,
        }
    }
}

/// The settings that `options` ask for.
pub open spec fn config_of(options: Options) -> Config {
    Config {
        required_trust: options.required_trust,
        ceilings: resolved_ceilings(options.ceiling_dirs@, options.ceiling_dirs@.len()),
        ceilings_given: options.ceiling_dirs@.len() > 0,
        match_ceiling_dir_or_error: options.match_ceiling_dir_or_error,
        cross_fs: options.cross_fs,
    }
}

/// Whether `dir` is one of the ceiling directories.
pub open spec fn is_ceiling(config: Config, dir: Seq<Seq<u8>>) -> bool {
    exists|i: int| 0 <= i < config.ceilings.len() && #[trigger] config.ceilings[i] == dir
}

/// Whether a ceiling directory contains `dir` or is `dir`.
pub open spec fn below_a_ceiling(config: Config, dir: Seq<Seq<u8>>) -> bool {
    exists|i: int| 0 <= i < config.ceilings.len() && is_within(dir, #[trigger] config.ceilings[i])
}

/// The number of levels that the search has climbed.
pub open spec fn climbed(st: WalkState) -> nat {
    if st.start.len() >= st.cursor.len() {
        (st.start.len() - st.cursor.len()) as nat
    } else {
        0
    }
}

/// The failure of a search that cannot climb further. A repository that was
/// passed over for want of trust decides it; else the limit that was met does.
pub open spec fn give_up(st: WalkState, limit: Limit) -> Failure {
    match st.discarded {
        Some(candidate) => Failure::NoTrustedGitRepository {
            path: render(st.start),
            candidate: render(candidate),
            required: st.config.required_trust,
        },
        None => match limit {
            Limit::Root => Failure::NoGitRepository { path: render(st.start) },
            Limit::Ceiling => Failure::NoGitRepositoryWithinCeiling {
                path: render(st.start),
                ceiling_height: climbed(st),
            },
            Limit::Filesystem => Failure::NoGitRepositoryWithinFs {
                path: render(st.start),
                limit: render(st.cursor),
            },
        },
    }
}

/// The end of a search at a repository that is trusted enough: it is the
/// result, unless ceiling directories were given, one of them has to contain
/// the repository, and none does.
pub open spec fn accept(st: WalkState, trust: TrustLevel) -> Outcome {
    if st.config.ceilings_given && st.config.match_ceiling_dir_or_error && !below_a_ceiling(
        st.config,
        st.cursor,
    ) {
        Err(Failure::NoMatchingCeilingDir)
    } else {
        Ok((render(st.cursor), trust))
    }
}

/// What follows a directory that gave no repository: the search ends at a
/// ceiling directory and at the root, and else goes on in the parent.
pub open spec fn move_on(st: WalkState) -> StepView {
    if is_ceiling(st.config, st.cursor) {
        StepView::Finished(Err(give_up(st, Limit::Ceiling)))
    } else if st.cursor.len() == 0 {
        StepView::Finished(Err(give_up(st, Limit::Root)))
    } else {
        StepView::Ask(
            WalkState {
                cursor: st.cursor.drop_last(),
                pending: if st.config.cross_fs {
                    Request::Probe
                } else {
                    Request::Stat
                },
                ..st
            },
        )
    }
}

/// The state with the directory under examination passed over for want of
/// trust. The nearest such directory is remembered.
pub open spec fn pass_over(st: WalkState) -> WalkState {
    WalkState {
        discarded: if st.discarded is None {
            Some(st.cursor)
        } else {
            st.discarded
        },
        ..st
    }
}

/// The beginning of the walk, once the directory that relative paths are read
/// from is known.
pub open spec fn locate(st: WalkState, current_dir: Option<Seq<u8>>) -> StepView {
    match resolve(st.input, current_dir) {
        Some(parts) => StepView::Ask(
            WalkState { start: parts, cursor: parts, pending: Request::Stat, ..st },
        ),
        None => StepView::Finished(Err(Failure::InvalidInput { directory: st.input })),
    }
}

/// The beginning of a search for the repository that contains `input`.
pub open spec fn launch(input: Seq<u8>, options: Options) -> StepView {
    let st = WalkState {
        config: config_of(options),
        input,
        start: Seq::empty(),
        cursor: Seq::empty(),
        device: None,
        discarded: None,
        pending: Request::CurrentDir,
    };
    match options.current_dir {
        Some(cwd) => locate(st, Some(cwd@)),
        None => if is_absolute(input) {
            locate(st, None)
        } else {
            StepView::Ask(st)
        },
    }
}

/// What an answer to the open question leads to. A reply to another question
/// changes nothing.
pub open spec fn step(st: WalkState, reply: Reply) -> StepView {
    match st.pending {
        Request::CurrentDir => match reply {
            Reply::CurrentDir(Ok(cwd)) => locate(st, Some(cwd@)),
            Reply::CurrentDir(Err(err)) => StepView::Finished(Err(Failure::CurrentDir(err))),
            _ => StepView::Ask(st),
        },
        Request::Stat => match reply {
            Reply::Stat(Some(device)) => match st.device {
                None => StepView::Ask(
                    WalkState { device: Some(device), pending: Request::Probe, ..st },
                ),
                Some(first) => if device == first {
                    StepView::Ask(WalkState { pending: Request::Probe, ..st })
                } else {
                    StepView::Finished(Err(give_up(st, Limit::Filesystem)))
                },
            },
            Reply::Stat(None) => StepView::Finished(
                Err(Failure::InaccessibleDirectory { path: render(st.cursor) }),
            ),
            _ => StepView::Ask(st),
        },
        Request::Probe => match reply {
            Reply::Probe(true) => StepView::Ask(WalkState { pending: Request::CheckTrust, ..st }),
            Reply::Probe(false) => move_on(st),
            _ => StepView::Ask(st),
        },
        Request::CheckTrust => match reply {
            Reply::Trust(Ok(trust)) => if trust.satisfies(st.config.required_trust) {
                StepView::Finished(accept(st, trust))
            } else {
                move_on(pass_over(st))
            },
            Reply::Trust(Err(err)) => StepView::Finished(
                Err(Failure::CheckTrust { path: render(st.cursor), err }),
            ),
            _ => StepView::Ask(st),
        },
    }
}

/// The directories that a vector holds, in order.
pub open spec fn dirs_of(dirs: Seq<DirPath>) -> Seq<Seq<Seq<u8>>> {
    Seq::new(dirs.len(), |i: int| dirs[i]@)
}

/// The result of a search with its path as a sequence of bytes.
pub open spec fn outcome_of(result: Result<Found, Error>) -> Outcome {
    match result {
        Ok(found) => Ok((found.path@, found.trust)),
        Err(error) => Err(error@),
    }
}

/// A search in progress.
#[derive(Debug)]
pub struct Discovery {
    required_trust: TrustLevel,
    ceilings: Vec<DirPath>,
    ceilings_given: bool,
    match_ceiling_dir_or_error: bool,
    cross_fs: bool,
    input: Vec<u8>,
    start: DirPath,
    cursor: DirPath,
    device: Option<u64>,
    discarded: Option<DirPath>,
    pending: Request,
}

/// Where a search stands: it asks its next question or has ended.
#[derive(Debug)]
pub enum Step {
    Ask(Discovery),
    Finished(Result<Found, Error>),
}

impl View for Discovery {
    type V = WalkState;

    closed spec fn view(&self) -> WalkState {
        WalkState {
            config: Config {
                required_trust: self.required_trust,
                ceilings: dirs_of(self.ceilings@),
                ceilings_given: self.ceilings_given,
                match_ceiling_dir_or_error: self.match_ceiling_dir_or_error,
                cross_fs: self.cross_fs,
            },
            input: self.input@,
            start: self.start@,
            cursor: self.cursor@,
            device: self.device,
            discarded: match self.discarded {
                Some(dir) => Some(dir@),
                None => None,
            },
            pending: self.pending,
        }
    }
}

impl View for Step {
    type V = StepView;

    open spec fn view(&self) -> StepView {
        match *self {
            Step::Ask(discovery) => StepView::Ask(discovery@),
            Step::Finished(result) => StepView::Finished(outcome_of(result)),
        }
    }
}

/// Resolves the ceiling directories that can be resolved.
fn resolve_ceilings(dirs: &Vec<Vec<u8>>) -> (ceilings: Vec<DirPath>)
    ensures
        dirs_of(ceilings@) == resolved_ceilings(dirs@, dirs@.len()),
{
    let mut ceilings: Vec<DirPath> = Vec::new();
    let mut i: usize = 0;
    while i < dirs.len()
        invariant
            i <= dirs.len(),
            dirs_of(ceilings@) == resolved_ceilings(dirs@, i as nat),
        decreases dirs.len() - i,
    {
        match DirPath::resolve(dirs[i].as_slice(), None) {
            Some(dir) => {
                proof {
                    assert(dirs_of(ceilings@.push(dir)) == dirs_of(ceilings@).push(dir@));
                }
                ceilings.push(dir);
            },
            None => {},
        }
        i += 1;
    }
    ceilings
}

impl Discovery {
    /// The question that the caller has to answer next.
    pub fn request(&self) -> (request: Request)
        ensures
            request == self@.pending,
    {
        self.pending
    }

    /// The path of the directory that the open question is about. It is
    /// absolute and names that directory and no other.
    pub fn directory(&self) -> (path: Vec<u8>)
        ensures
            path@ == render(self@.cursor),
            is_absolute(path@),
            resolve(path@, None) == Some(self@.cursor),
    {
        self.cursor.to_bytes()
    }

    /// Begins the search for the repository that contains `directory`.
    ///
    /// A relative `directory` is read from `options.current_dir`; where that is
    /// unset the first question is for the current working directory. A path
    /// that leads above the root ends the search at once.
    pub fn begin(directory: &[u8], options: &Options) -> (first: Step)
        ensures
            first@ == launch(directory@, *options),
    {
        let discovery = Discovery {
            required_trust: options.required_trust,
            ceilings: resolve_ceilings(&options.ceiling_dirs),
            ceilings_given: options.ceiling_dirs.len() > 0,
            match_ceiling_dir_or_error: options.match_ceiling_dir_or_error,
            cross_fs: options.cross_fs,
            input: copy_bytes(directory),
            start: DirPath::root(),
            cursor: DirPath::root(),
            device: None,
            discarded: None,
            pending: Request::CurrentDir,
        };
        match options.current_dir {
            Some(cwd) => discovery.locate(Some(cwd)),
            None => {
                if directory.len() > 0 && directory[0] == crate::path::SEPARATOR {
                    discovery.locate(None)
                } else {
                    Step::Ask(discovery)
                }
            },
        }
    }

    fn locate(self, current_dir: Option<&[u8]>) -> (first: Step)
        ensures
            first@ == locate(
                self@,
                match current_dir {
                    Some(c) => Some(c@),
                    None => None,
                },
            ),
    {
        let mut this = self;
        match DirPath::resolve(this.input.as_slice(), current_dir) {
            Some(start) => {
                this.cursor = start.duplicate();
                this.start = start;
                this.pending = Request::Stat;
                Step::Ask(this)
            },
            None => Step::Finished(Err(Error::InvalidInput { directory: this.input })),
        }
    }

    fn at_ceiling(&self) -> (at: bool)
        ensures
            at == is_ceiling(self@.config, self@.cursor),
    {
        let mut i: usize = 0;
        while i < self.ceilings.len()
            invariant
                i <= self.ceilings.len(),
                forall|j: int| 0 <= j < i ==> (#[trigger] self@.config.ceilings[j]) != self@.cursor,
            decreases self.ceilings.len() - i,
        {
            if self.ceilings[i].is_same(&self.cursor) {
                proof {
                    assert(self@.config.ceilings[i as int] == self@.cursor);
                }
                return true;
            }
            i += 1;
        }
        false
    }

    fn below_ceiling(&self) -> (below: bool)
        ensures
            below == below_a_ceiling(self@.config, self@.cursor),
    {
        let mut i: usize = 0;
        while i < self.ceilings.len()
            invariant
                i <= self.ceilings.len(),
                forall|j: int|
                    0 <= j < i ==> !is_within(self@.cursor, #[trigger] self@.config.ceilings[j]),
            decreases self.ceilings.len() - i,
        {
            if self.cursor.lies_within(&self.ceilings[i]) {
                proof {
                    assert(is_within(self@.cursor, self@.config.ceilings[i as int]));
                }
                return true;
            }
            i += 1;
        }
        false
    }

    fn give_up(self, limit: Limit) -> (error: Error)
        ensures
            error@ == give_up(self@, limit),
    {
        let path = self.start.to_bytes();
        match self.discarded {
            Some(candidate) => Error::NoTrustedGitRepository {
                path,
                candidate: candidate.to_bytes(),
                required: self.required_trust,
            },
            None => match limit {
                Limit::Root => Error::NoGitRepository { path },
                Limit::Ceiling => {
                    let ceiling_height = if self.start.depth() >= self.cursor.depth() {
                        self.start.depth() - self.cursor.depth()
                    } else {
                        0
                    };
                    Error::NoGitRepositoryWithinCeiling { path, ceiling_height }
                },
                Limit::Filesystem => Error::NoGitRepositoryWithinFs {
                    path,
                    limit: self.cursor.to_bytes(),
                },
            },
        }
    }

    fn accept(self, trust: TrustLevel) -> (result: Result<Found, Error>)
        ensures
            outcome_of(result) == accept(self@, trust),
    {
        if self.ceilings_given && self.match_ceiling_dir_or_error && !self.below_ceiling() {
            Err(Error::NoMatchingCeilingDir)
        } else {
            Ok(Found { path: self.cursor.to_bytes(), trust })
        }
    }

    fn move_on(self) -> (next: Step)
        ensures
            next@ == move_on(self@),
    {
        let mut this = self;
        if this.at_ceiling() {
            Step::Finished(Err(this.give_up(Limit::Ceiling)))
        } else if this.cursor.depth() == 0 {
            Step::Finished(Err(this.give_up(Limit::Root)))
        } else {
            this.cursor.ascend();
            this.pending = if this.cross_fs {
                Request::Probe
            } else {
                Request::Stat
            };
            Step::Ask(this)
        }
    }

    /// Takes the answer to the open question and decides what follows: the
    /// next question, or the end of the search. See [`step`].
    pub fn advance(self, reply: Reply) -> (next: Step)
        ensures
            next@ == step(self@, reply),
    {
        let mut this = self;
        match this.pending {
            Request::CurrentDir => match reply {
                Reply::CurrentDir(Ok(cwd)) => this.locate(Some(cwd.as_slice())),
                Reply::CurrentDir(Err(err)) => Step::Finished(Err(Error::CurrentDir(err))),
                _ => Step::Ask(this),
            },
            Request::Stat => match reply {
                Reply::Stat(Some(device)) => match this.device {
                    None => {
                        this.device = Some(device);
                        this.pending = Request::Probe;
                        Step::Ask(this)
                    },
                    Some(first) => {
                        if device == first {
                            this.pending = Request::Probe;
                            Step::Ask(this)
                        } else {
                            Step::Finished(Err(this.give_up(Limit::Filesystem)))
                        }
                    },
                },
                Reply::Stat(None) => Step::Finished(
                    Err(Error::InaccessibleDirectory { path: this.cursor.to_bytes() }),
                ),
                _ => Step::Ask(this),
            },
            Request::Probe => match reply {
                Reply::Probe(true) => {
                    this.pending = Request::CheckTrust;
                    Step::Ask(this)
                },
                Reply::Probe(false) => this.move_on(),
                _ => Step::Ask(this),
            },
            Request::CheckTrust => match reply {
                Reply::Trust(Ok(trust)) => {
                    if trust.is_at_least(this.required_trust) {
                        Step::Finished(this.accept(trust))
                    } else {
                        if this.discarded.is_none() {
                            this.discarded = Some(this.cursor.duplicate());
                        }
                        this.move_on()
                    }
                },
                Reply::Trust(Err(err)) => Step::Finished(
                    Err(Error::CheckTrust { path: this.cursor.to_bytes(), err }),
                ),
                _ => Step::Ask(this),
            },
        }
    }
}

} // verus!
