//! Paths as byte strings, and the calls that hand them to the platform.

use bstr::{ByteSlice, ByteVec};
use vstd::prelude::*;

verus! {

/// The byte that separates the components of a path.
pub const SEPARATOR: u8 = 0x2f;

/// A path is absolute when it starts at the root.
pub open spec fn is_absolute(path: Seq<u8>) -> bool {
    path.len() > 0 && path[0] == SEPARATOR
}

/// Every byte is an ASCII character.
pub open spec fn is_ascii(bytes: Seq<u8>) -> bool {
    forall|i: int| 0 <= i < bytes.len() ==> bytes[i] < 0x80
}

/// The paths that a vector of byte strings holds, in order.
pub open spec fn paths_of(dirs: Seq<Vec<u8>>) -> Seq<Seq<u8>> {
    Seq::new(dirs.len(), |i: int| dirs[i]@)
}

/// The path that an optional byte string holds, if it holds one.
pub open spec fn path_of(bytes: Option<Vec<u8>>) -> Option<Seq<u8>> {
    match bytes {
        Some(b) => Some(b@),
        None => None,
    }
}

/// Tells whether `path` starts at the root.
pub fn starts_at_root(path: &[u8]) -> (absolute: bool)
    ensures
        absolute == is_absolute(path@),
{
    path.len() > 0 && path[0] == SEPARATOR
}

/// An owned copy of `bytes`.
pub fn copy_bytes(bytes: &[u8]) -> (copy: Vec<u8>)
    ensures
        copy@ == bytes@,
{
    let mut copy: Vec<u8> = Vec::new();
    let mut i: usize = 0;
    while i < bytes.len()
        invariant
            i <= bytes.len(),
            copy@ == bytes@.take(i as int),
        decreases bytes.len() - i,
    {
        copy.push(bytes[i]);
        i += 1;
    }
    copy
}

/// Tells whether two byte strings are the same.
pub fn same_bytes(a: &[u8], b: &[u8]) -> (same: bool)
    ensures
        same == (a@ == b@),
{
    if a.len() != b.len() {
        return false;
    }
    let mut i: usize = 0;
    while i < a.len()
        invariant
            i <= a.len(),
            a.len() == b.len(),
            a@.take(i as int) == b@.take(i as int),
        decreases a.len() - i,
    {
        if a[i] != b[i] {
            proof {
                assert(a@[i as int] != b@[i as int]);
            }
            return false;
        }
        proof {
            assert(a@.take(i + 1) == a@.take(i as int).push(a@[i as int]));
            assert(b@.take(i + 1) == b@.take(i as int).push(b@[i as int]));
        }
        i += 1;
    }
    proof {
        assert(a@.take(a.len() as int) == a@);
        assert(b@.take(b.len() as int) == b@);
    }
    true
}

/// Asks `bstr::ByteSlice::to_path` whether this platform can take the bytes as a
/// path. The answer differs between platforms: on Unix every byte string is a
/// path, elsewhere it has to be valid UTF-8. So it is claimed for ASCII only,
/// which is a path everywhere.
#[verifier::external_body]
pub(crate) fn decodes_as_path(bytes: &[u8]) -> (decodable: bool)
    ensures
        is_ascii(bytes@) ==> decodable,
{
    bytes.to_path().is_ok()
}

/// Resolves the symbolic links of an absolute path with `git_path::realpath`,
/// converting to and from a path with `bstr`. `None` stands for any failure of
/// the resolution or of a conversion. Nothing is claimed of the result: it
/// depends on what the file system holds when the call is made.
#[verifier::external_body]
pub(crate) fn realpath(path: &[u8]) -> (resolved: Option<Vec<u8>>)
    requires
        is_absolute(path@),
{
    let decoded = path.to_path().ok()?;
    let target = git_path::realpath(decoded).ok()?;
    Vec::from_path_buf(target).ok()
}

} // verus!
