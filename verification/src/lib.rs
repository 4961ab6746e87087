//! Locating a repository by walking upward from a starting directory, and
//! reading objects through a per-caller handle with private caches.
//!
//! Paths are byte strings in the Unix convention: `/` separates components and
//! a path is absolute exactly when its first byte is `/`.

pub mod cache;
pub mod ceiling;
pub mod dir_path;
pub mod discover;
pub mod error;
pub mod handle;
pub mod laws;
pub mod object;
pub mod options;
pub mod path;
pub mod store;
pub mod trust;
pub mod world;

pub use discover::Discovery;
pub use error::Error;
pub use handle::Handle;
pub use options::Options;
pub use trust::TrustLevel;
