//! Shell-completion candidate generation.
//!
//! The crate enumerates completion candidates from several sources (the
//! executables on a search path, the entries of a directory, environment
//! variable names, group/host/service/user records, a word list), narrows
//! them with a prefix and an optional glob filter, and decorates the
//! survivors with a prepend/append pair.

pub mod dirscan;
pub mod filter;
pub mod pathscan;
pub mod sources;
pub mod strutil;
pub mod wordlist;

pub use dirscan::resolve_scan_dir;
pub use dirscan::DirCompletion;
pub use dirscan::DirEntryInfo;
pub use dirscan::ScanTarget;
pub use filter::build_filter_params;
pub use filter::complete;
pub use filter::decorate;
pub use filter::filter_and_display;
pub use filter::passes_filter;
pub use filter::FilterParams;
pub use pathscan::path_dirs;
pub use pathscan::DirListing;
pub use pathscan::FileEntry;
pub use pathscan::PathCompletion;
pub use pathscan::PathDirIterator;
pub use sources::EnvCompletion;
pub use sources::GroupCompletion;
pub use sources::GroupRecord;
pub use sources::HostCompletion;
pub use sources::HostRecord;
pub use sources::ServiceCompletion;
pub use sources::ServiceRecord;
pub use sources::Stringify;
pub use sources::UserCompletion;
pub use sources::UserRecord;
pub use sources::VecCompletion;
pub use strutil::str_eq;
pub use strutil::str_starts_with;
pub use wordlist::WordListCompletion;
