//! Decision logic for a small clone-and-update command-line helper: deriving
//! a repository directory name from a URL, combining it with a working
//! directory, comparing dotted version strings, parsing the update-check
//! cache, scanning a release payload for its tag, and the policy that decides
//! whether an automatic update runs.

pub mod cache;
pub mod gate;
pub mod release;
pub mod repo_name;
pub mod target_dir;
pub mod text;
pub mod version;

pub use repo_name::extract_repo_name;
pub use repo_name::NameResolutionError;
pub use version::version_is_newer;
