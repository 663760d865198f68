//! Next-version inference for a repository that tags its releases with
//! semantic versions and writes its commit messages as Conventional Commits.

pub mod cmd;
pub mod conventional_commits;
pub mod error;
pub mod git;
pub mod increment;
pub mod text;
pub mod version;
