use repo_discover::discover::{Discovery, Found, Reply, Request, Step};
use repo_discover::error::Error;
use repo_discover::options::Options;
use repo_discover::trust::TrustLevel;
use std::io;

/// A directory of a file system that exists in this file only.
struct Dir {
    path: &'static [u8],
    device: Option<u64>,
    repository: bool,
    owned: Option<bool>,
}

/// Directories that are not listed can be read, lie on device 1, are no
/// repositories and belong to the current user.
struct World {
    current_dir: Option<&'static [u8]>,
    dirs: Vec<Dir>,
}

impl World {
    fn dir(&self, path: &[u8]) -> Dir {
        for dir in &self.dirs {
            if dir.path == path {
                return Dir {
                    path: dir.path,
                    device: dir.device,
                    repository: dir.repository,
                    owned: dir.owned,
                };
            }
        }
        Dir { path: b"", device: Some(1), repository: false, owned: Some(true) }
    }

    fn answer(&self, request: Request, path: &[u8]) -> Reply {
        match request {
            Request::CurrentDir => Reply::CurrentDir(match self.current_dir {
                Some(cwd) => Ok(cwd.to_vec()),
                None => Err(io::Error::new(io::ErrorKind::NotFound, "no current directory")),
            }),
            Request::Stat => Reply::Stat(self.dir(path).device),
            Request::Probe => Reply::Probe(self.dir(path).repository),
            Request::CheckTrust => Reply::Trust(match self.dir(path).owned {
                Some(owned) => Ok(TrustLevel::from_ownership(owned)),
                None => Err(io::Error::new(io::ErrorKind::PermissionDenied, "owner unknown")),
            }),
        }
    }
}

/// Runs a search to its end and tells which questions it asked, about which directories.
fn discover(
    start: &[u8],
    options: &Options,
    world: &World,
) -> (Result<Found, Error>, Vec<(Request, Vec<u8>)>) {
    let mut asked = Vec::new();
    let mut step = Discovery::begin(start, options);
    loop {
        match step {
            Step::Finished(result) => return (result, asked),
            Step::Ask(discovery) => {
                let request = discovery.request();
                let directory = discovery.directory();
                let reply = world.answer(request, &directory);
                asked.push((request, directory));
                assert!(asked.len() < 1000, "a search ends");
                step = discovery.advance(reply);
            }
        }
    }
}

fn repository(path: &'static [u8], owned: bool) -> Dir {
    Dir { path, device: Some(1), repository: true, owned: Some(owned) }
}

fn options<'a>() -> Options<'a> {
    Options::default()
}

#[test]
fn no_repository_up_to_the_root() {
    let world = World { current_dir: None, dirs: vec![] };
    let (result, asked) = discover(b"/home/user/project", &options(), &world);
    match result {
        Err(Error::NoGitRepository { path }) => assert_eq!(path, b"/home/user/project".to_vec()),
        other => panic!("unexpected: {:?}", other),
    }
    let probed: Vec<Vec<u8>> = asked
        .iter()
        .filter(|(request, _)| *request == Request::Probe)
        .map(|(_, dir)| dir.clone())
        .collect();
    assert_eq!(
        probed,
        vec![
            b"/home/user/project".to_vec(),
            b"/home/user".to_vec(),
            b"/home".to_vec(),
            b"/".to_vec()
        ]
    );
}

#[test]
fn no_repository_at_the_root_itself() {
    let world = World { current_dir: None, dirs: vec![] };
    let (result, asked) = discover(b"/", &options(), &world);
    assert!(matches!(result, Err(Error::NoGitRepository { path }) if path == b"/".to_vec()));
    assert_eq!(
        asked,
        vec![(Request::Stat, b"/".to_vec()), (Request::Probe, b"/".to_vec())]
    );
}

#[test]
fn the_nearest_repository_is_found() {
    let world = World {
        current_dir: None,
        dirs: vec![repository(b"/home/user/project", true), repository(b"/home", true)],
    };
    let (result, asked) = discover(b"/home/user/project/src/deep", &options(), &world);
    let found = result.expect("a repository");
    assert_eq!(found.path, b"/home/user/project".to_vec());
    assert_eq!(found.trust, TrustLevel::Full);
    // the search stops there: nothing above was looked at
    assert_eq!(asked.last(), Some(&(Request::CheckTrust, b"/home/user/project".to_vec())));
    assert!(asked.iter().all(|(_, dir)| dir.starts_with(b"/home/user/project")));
}

#[test]
fn the_start_is_normalized_before_the_walk() {
    let world = World { current_dir: None, dirs: vec![repository(b"/a", true)] };
    let (result, asked) = discover(b"/a//b/../c/./", &options(), &world);
    assert_eq!(result.expect("a repository").path, b"/a".to_vec());
    assert_eq!(asked[0], (Request::Stat, b"/a/c".to_vec()));
}

#[test]
fn a_repository_of_another_owner_is_not_trusted_fully() {
    let world = World {
        current_dir: None,
        dirs: vec![repository(b"/srv/repo", false)],
    };
    let strict = Options { required_trust: TrustLevel::Full, ..Options::default() };
    let (result, asked) = discover(b"/srv/repo/src", &strict, &world);
    match result {
        Err(Error::NoTrustedGitRepository { path, candidate, required }) => {
            assert_eq!(path, b"/srv/repo/src".to_vec());
            assert_eq!(candidate, b"/srv/repo".to_vec());
            assert_eq!(required, TrustLevel::Full);
        }
        other => panic!("unexpected: {:?}", other),
    }
    // the search went on above the repository that it passed over
    assert!(asked.contains(&(Request::Probe, b"/".to_vec())));

    let (result, _) = discover(b"/srv/repo/src", &options(), &world);
    let found = result.expect("reduced trust is enough");
    assert_eq!(found.path, b"/srv/repo".to_vec());
    assert_eq!(found.trust, TrustLevel::Reduced);
}

#[test]
fn a_trusted_repository_above_an_untrusted_one_is_found() {
    let world = World {
        current_dir: None,
        dirs: vec![repository(b"/srv/repo/vendor", false), repository(b"/srv/repo", true)],
    };
    let strict = Options { required_trust: TrustLevel::Full, ..Options::default() };
    let (result, _) = discover(b"/srv/repo/vendor/lib", &strict, &world);
    let found = result.expect("the outer repository");
    assert_eq!(found.path, b"/srv/repo".to_vec());
    assert_eq!(found.trust, TrustLevel::Full);
}

#[test]
fn the_nearest_untrusted_repository_is_named() {
    let world = World {
        current_dir: None,
        dirs: vec![repository(b"/srv/repo/vendor", false), repository(b"/srv", false)],
    };
    let strict = Options { required_trust: TrustLevel::Full, ..Options::default() };
    let (result, _) = discover(b"/srv/repo/vendor", &strict, &world);
    assert!(matches!(
        result,
        Err(Error::NoTrustedGitRepository { candidate, .. }) if candidate == b"/srv/repo/vendor".to_vec()
    ));
}

#[test]
fn an_unknown_owner_ends_the_search() {
    let world = World {
        current_dir: None,
        dirs: vec![
            Dir { path: b"/srv/repo", device: Some(1), repository: true, owned: None },
            repository(b"/srv", true),
        ],
    };
    let (result, asked) = discover(b"/srv/repo/src", &options(), &world);
    match result {
        Err(Error::CheckTrust { path, err }) => {
            assert_eq!(path, b"/srv/repo".to_vec());
            assert_eq!(err.kind(), io::ErrorKind::PermissionDenied);
        }
        other => panic!("unexpected: {:?}", other),
    }
    assert_eq!(asked.last(), Some(&(Request::CheckTrust, b"/srv/repo".to_vec())));
}

#[test]
fn ceiling_directories_that_do_not_contain_the_repository_are_an_error() {
    let world = World { current_dir: None, dirs: vec![repository(b"/home/user/repo", true)] };
    let opts = Options { ceiling_dirs: vec![b"/unrelated".to_vec()], ..Options::default() };
    assert!(opts.match_ceiling_dir_or_error);
    let (result, _) = discover(b"/home/user/repo/src", &opts, &world);
    assert!(matches!(result, Err(Error::NoMatchingCeilingDir)));

    // without the demand for a match the repository is found
    let lenient = Options {
        ceiling_dirs: vec![b"/unrelated".to_vec()],
        match_ceiling_dir_or_error: false,
        ..Options::default()
    };
    let (result, _) = discover(b"/home/user/repo/src", &lenient, &world);
    assert_eq!(result.expect("a repository").path, b"/home/user/repo".to_vec());

    // a ceiling that contains the repository satisfies the demand
    let matching = Options {
        ceiling_dirs: vec![b"/unrelated".to_vec(), b"/home".to_vec()],
        ..Options::default()
    };
    let (result, _) = discover(b"/home/user/repo/src", &matching, &world);
    assert_eq!(result.expect("a repository").path, b"/home/user/repo".to_vec());
}

#[test]
fn ceiling_directories_that_cannot_be_resolved_match_nothing() {
    let world = World { current_dir: None, dirs: vec![repository(b"/repo", true)] };
    let opts = Options {
        ceiling_dirs: vec![b"relative".to_vec(), b"/../..".to_vec()],
        ..Options::default()
    };
    let (result, _) = discover(b"/repo", &opts, &world);
    assert!(matches!(result, Err(Error::NoMatchingCeilingDir)));
}

#[test]
fn a_ceiling_directory_ends_the_search() {
    let world = World { current_dir: None, dirs: vec![repository(b"/home", true)] };
    let opts = Options { ceiling_dirs: vec![b"/home/user/".to_vec()], ..Options::default() };
    let (result, asked) = discover(b"/home/user/project/src", &opts, &world);
    match result {
        Err(Error::NoGitRepositoryWithinCeiling { path, ceiling_height }) => {
            assert_eq!(path, b"/home/user/project/src".to_vec());
            assert_eq!(ceiling_height, 2);
        }
        other => panic!("unexpected: {:?}", other),
    }
    // the ceiling itself was examined, nothing above it
    assert_eq!(asked.last(), Some(&(Request::Probe, b"/home/user".to_vec())));
}

#[test]
fn a_repository_at_the_ceiling_is_found() {
    let world = World { current_dir: None, dirs: vec![repository(b"/home/user", true)] };
    let opts = Options { ceiling_dirs: vec![b"/home/user".to_vec()], ..Options::default() };
    let (result, _) = discover(b"/home/user/project", &opts, &world);
    assert_eq!(result.expect("a repository").path, b"/home/user".to_vec());
}

#[test]
fn the_start_as_ceiling() {
    let world = World { current_dir: None, dirs: vec![repository(b"/home", true)] };
    let opts = Options { ceiling_dirs: vec![b"/home/user".to_vec()], ..Options::default() };
    let (result, _) = discover(b"/home/user", &opts, &world);
    assert!(matches!(
        result,
        Err(Error::NoGitRepositoryWithinCeiling { ceiling_height: 0, .. })
    ));
}

#[test]
fn an_untrusted_repository_below_the_ceiling_is_reported() {
    let world = World { current_dir: None, dirs: vec![repository(b"/home/user/repo", false)] };
    let opts = Options {
        required_trust: TrustLevel::Full,
        ceiling_dirs: vec![b"/home".to_vec()],
        ..Options::default()
    };
    let (result, _) = discover(b"/home/user/repo", &opts, &world);
    assert!(matches!(
        result,
        Err(Error::NoTrustedGitRepository { candidate, .. }) if candidate == b"/home/user/repo".to_vec()
    ));
}

#[test]
fn the_search_stays_on_its_file_system() {
    let world = World {
        current_dir: None,
        dirs: vec![
            Dir { path: b"/mnt/vol/work", device: Some(2), repository: false, owned: Some(true) },
            Dir { path: b"/mnt/vol", device: Some(2), repository: false, owned: Some(true) },
            repository(b"/mnt", true),
        ],
    };
    let opts = options();
    assert!(!opts.cross_fs);
    let (result, asked) = discover(b"/mnt/vol/work", &opts, &world);
    match result {
        Err(Error::NoGitRepositoryWithinFs { path, limit }) => {
            assert_eq!(path, b"/mnt/vol/work".to_vec());
            assert_eq!(limit, b"/mnt".to_vec());
        }
        other => panic!("unexpected: {:?}", other),
    }
    assert_eq!(asked.last(), Some(&(Request::Stat, b"/mnt".to_vec())));

    let crossing = Options { cross_fs: true, ..Options::default() };
    let (result, asked) = discover(b"/mnt/vol/work", &crossing, &world);
    assert_eq!(result.expect("a repository").path, b"/mnt".to_vec());
    // only the start is looked at for its device
    let stats = asked.iter().filter(|(request, _)| *request == Request::Stat).count();
    assert_eq!(stats, 1);
}

#[test]
fn a_start_that_cannot_be_read() {
    let world = World {
        current_dir: None,
        dirs: vec![Dir { path: b"/gone", device: None, repository: true, owned: Some(true) }],
    };
    let (result, asked) = discover(b"/gone", &options(), &world);
    assert!(matches!(result, Err(Error::InaccessibleDirectory { path }) if path == b"/gone".to_vec()));
    assert_eq!(asked.len(), 1);
}

#[test]
fn a_parent_that_cannot_be_read() {
    let world = World {
        current_dir: None,
        dirs: vec![Dir { path: b"/a", device: None, repository: true, owned: Some(true) }],
    };
    let (result, _) = discover(b"/a/b", &options(), &world);
    assert!(matches!(result, Err(Error::InaccessibleDirectory { path }) if path == b"/a".to_vec()));
    // a search that may cross file systems does not look at the parent's device
    let crossing = Options { cross_fs: true, ..Options::default() };
    let (result, _) = discover(b"/a/b", &crossing, &world);
    assert_eq!(result.expect("a repository").path, b"/a".to_vec());
}

#[test]
fn a_relative_start_is_read_from_the_current_directory() {
    let world = World {
        current_dir: Some(b"/home/user"),
        dirs: vec![repository(b"/home/user/repo", true)],
    };
    let (result, asked) = discover(b"repo/src", &options(), &world);
    assert_eq!(result.expect("a repository").path, b"/home/user/repo".to_vec());
    assert_eq!(asked[0].0, Request::CurrentDir);
    assert_eq!(asked[1], (Request::Stat, b"/home/user/repo/src".to_vec()));
}

#[test]
fn the_current_directory_of_the_options_is_used() {
    let world = World { current_dir: None, dirs: vec![repository(b"/work/repo", true)] };
    let opts = Options { current_dir: Some(b"/work/repo/a/b"), ..Options::default() };
    let (result, asked) = discover(b"../c", &opts, &world);
    assert_eq!(result.expect("a repository").path, b"/work/repo".to_vec());
    assert_eq!(asked[0], (Request::Stat, b"/work/repo/a/c".to_vec()));
}

#[test]
fn an_absolute_start_needs_no_current_directory() {
    let world = World { current_dir: None, dirs: vec![repository(b"/repo", true)] };
    let (result, asked) = discover(b"/repo", &options(), &world);
    assert!(result.is_ok());
    assert!(asked.iter().all(|(request, _)| *request != Request::CurrentDir));
}

#[test]
fn no_current_directory() {
    let world = World { current_dir: None, dirs: vec![] };
    let (result, asked) = discover(b"relative", &options(), &world);
    match result {
        Err(Error::CurrentDir(err)) => assert_eq!(err.kind(), io::ErrorKind::NotFound),
        other => panic!("unexpected: {:?}", other),
    }
    assert_eq!(asked.len(), 1);
}

#[test]
fn a_relative_start_that_leaves_the_root_is_refused_at_once() {
    let world = World { current_dir: None, dirs: vec![] };
    let opts = Options { current_dir: Some(b"/a"), ..Options::default() };
    let (result, asked) = discover(b"../../b", &opts, &world);
    assert!(matches!(result, Err(Error::InvalidInput { directory }) if directory == b"../../b".to_vec()));
    assert!(asked.is_empty());

    let world = World { current_dir: Some(b"/a"), dirs: vec![] };
    let (result, asked) = discover(b"../../b", &options(), &world);
    assert!(matches!(result, Err(Error::InvalidInput { directory }) if directory == b"../../b".to_vec()));
    assert_eq!(asked.len(), 1);
}

#[test]
fn a_reply_to_another_question_changes_nothing() {
    let first = Discovery::begin(b"/a/b", &options());
    let discovery = match first {
        Step::Ask(discovery) => discovery,
        Step::Finished(_) => panic!("the search has not begun"),
    };
    assert_eq!(discovery.request(), Request::Stat);
    let discovery = match discovery.advance(Reply::Probe(true)) {
        Step::Ask(discovery) => discovery,
        Step::Finished(_) => panic!("the search has not begun"),
    };
    assert_eq!(discovery.request(), Request::Stat);
    assert_eq!(discovery.directory(), b"/a/b".to_vec());
    let discovery = match discovery.advance(Reply::Stat(Some(7))) {
        Step::Ask(discovery) => discovery,
        Step::Finished(_) => panic!("the directory can be read"),
    };
    assert_eq!(discovery.request(), Request::Probe);
    assert_eq!(discovery.directory(), b"/a/b".to_vec());
}

#[test]
fn a_search_asks_at_most_three_questions_for_each_level() {
    let world = World {
        current_dir: None,
        dirs: vec![
            repository(b"/a/b/c/d", false),
            repository(b"/a/b/c", false),
            repository(b"/a/b", false),
            repository(b"/a", false),
            repository(b"/", false),
        ],
    };
    let strict = Options { required_trust: TrustLevel::Full, ..Options::default() };
    let (result, asked) = discover(b"/a/b/c/d", &strict, &world);
    assert!(matches!(result, Err(Error::NoTrustedGitRepository { .. })));
    assert_eq!(asked.len(), 15);
}
