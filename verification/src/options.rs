//! What guides a search for a repository.

use crate::ceiling::{parse_ceiling_dirs, parses_to};
use crate::path::{is_absolute, paths_of};
use crate::trust::TrustLevel;
use vstd::prelude::*;

verus! {

/// The environment variable that lists ceiling directories, separated by `:`.
pub const CEILING_DIRECTORIES_VARIABLE: &'static str = "GIT_CEILING_DIRECTORIES";

/// The environment variable that allows a search to cross file systems. It is
/// named here and never applied: its values need a parser of configuration
/// booleans, so a caller reads it and sets [`Options::cross_fs`].
pub const DISCOVERY_ACROSS_FILESYSTEM_VARIABLE: &'static str = "GIT_DISCOVERY_ACROSS_FILESYSTEM";

/// Options that guide the search for a repository.
pub struct Options<'a> {
    /// A repository must be trusted at least this much, or it is passed over.
    pub required_trust: TrustLevel,
    /// The search does not look above any of these directories.
    pub ceiling_dirs: Vec<Vec<u8>>,
    /// If true and `ceiling_dirs` is not empty, one of them must contain the
    /// repository that is found, or the search fails.
    pub match_ceiling_dir_or_error: bool,
    /// If false, the search stays on the file system it started on.
    pub cross_fs: bool,
    /// The directory that a relative path is read from. If unset, the current
    /// working directory is asked for when it is needed.
    pub current_dir: Option<&'a [u8]>,
}

impl<'a> Options<'a> {
    /// Every ceiling directory is an absolute path.
    pub open spec fn well_formed(&self) -> bool {
        forall|i: int| 0 <= i < self.ceiling_dirs.len() ==> is_absolute(#[trigger] self.ceiling_dirs[i]@)
    }

    /// Takes the list of ceiling directories from the value of
    /// [`CEILING_DIRECTORIES_VARIABLE`], where the variable is set, and leaves
    /// everything else as it is.
    pub fn apply_environment(self, ceiling_directories: Option<&[u8]>) -> (updated: Self)
        ensures
            updated.required_trust == self.required_trust,
            updated.match_ceiling_dir_or_error == self.match_ceiling_dir_or_error,
            updated.cross_fs == self.cross_fs,
            updated.current_dir == self.current_dir,
            match ceiling_directories {
                Some(list) => parses_to(list@, paths_of(updated.ceiling_dirs@))
                    && updated.well_formed(),
                None => updated.ceiling_dirs == self.ceiling_dirs,
            },
    {
        match ceiling_directories {
            Some(list) => {
                let mut updated = self;
                updated.ceiling_dirs = parse_ceiling_dirs(list);
                updated
            },
            None => self,
        }
    }
}

impl Default for Options<'_> {
    fn default() -> (options: Self)
        ensures
            options.required_trust == TrustLevel::Reduced,
            options.ceiling_dirs@.len() == 0,
            options.match_ceiling_dir_or_error,
            !options.cross_fs,
            options.current_dir is None,
            options.well_formed(),
    {
        Options {
            required_trust: TrustLevel::Reduced,
            ceiling_dirs: Vec::new(),
            match_ceiling_dir_or_error: true,
            cross_fs: false,
            current_dir: None,
        }
    }
}

} // verus!
