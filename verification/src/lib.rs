//! Synchronization logic between mod repositories on a source-control host and
//! their translation projects on a translation platform.
//!
//! The crate verifies the decision logic of that synchronization: repository
//! configuration parsing, directory-name mapping, locale-directory inspection,
//! and the reconciliation of downloaded translation bundles with a repository
//! working tree.  Network, process and filesystem plumbing lives outside the
//! library and hands it plain values.

pub mod case;
pub mod chars;
pub mod escape;
pub mod crowdin;
pub mod github;
pub mod github_config;
pub mod github_mod_name;
pub mod github_repo_info;
pub mod json;
pub mod mod_directory;
pub mod reconcile;
pub mod text;
pub mod util;
