//! Conventional-commit checking and semantic-version computation.
//!
//! The crate parses commit messages into structured conventional-commit
//! records, classifies each one as a major, minor, patch or neutral change,
//! and derives the next semantic version from a set of existing version tags
//! plus the highest change found in a commit range.

pub mod cc;
pub mod check;
pub mod cli;
pub mod config;
pub mod errors;
pub mod numerals;
pub mod semver;
pub mod tag;
pub mod text;

pub use cc::CCVec;
pub use cc::ConventionalCommit;
pub use check::BadCommit;
pub use check::CheckVerdict;
pub use cli::RuvexArgs;
pub use cli::RuvexCommand;
pub use config::Check;
pub use config::Config;
pub use config::Tag;
pub use errors::check_git_error;
pub use errors::CheckError;
pub use errors::CommandError;
pub use errors::ConventionalCommitParseError;
pub use errors::GitCommandError;
pub use semver::SemVer;
pub use semver::SemVerChangeType;
