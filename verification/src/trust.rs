//! How far the ownership of a repository is trusted.

use vstd::prelude::*;

verus! {

/// How safe a repository is taken to be, judged by who owns it.
#[derive(Clone, Copy, Debug, PartialEq, Eq, Structural)]
pub enum TrustLevel {
    /// The path is not owned by the invoking principal.
    Reduced,
    /// The path is owned by the invoking principal.
    Full,
}

impl TrustLevel {
    /// The position of the level in the order `Reduced < Full`.
    pub open spec fn rank(self) -> nat {
        match self {
            TrustLevel::Reduced => 0,
            TrustLevel::Full => 1,
        }
    }

    /// Whether `self` is at least as trusted as `required`.
    pub open spec fn satisfies(self, required: TrustLevel) -> bool {
        self.rank() >= required.rank()
    }

    /// Tells whether a repository of this level may be used where `required` is asked for.
    pub fn is_at_least(self, required: TrustLevel) -> (ok: bool)
        ensures
            ok == self.satisfies(required),
    {
        match (self, required) {
            (TrustLevel::Reduced, TrustLevel::Full) => false,
            _ => true,
        }
    }

    /// The level that ownership gives: `Full` for a path that the invoking
    /// principal owns, `Reduced` for any other.
    pub fn from_ownership(owned_by_current_user: bool) -> (level: TrustLevel)
        ensures
            level == (if owned_by_current_user { TrustLevel::Full } else { TrustLevel::Reduced }),
    {
        if owned_by_current_user {
            TrustLevel::Full
        } else {
            TrustLevel::Reduced
        }
    }
}

} // verus!
