//! Locates version tags embedded in text, parses them into semver
//! constraints with a catalog reference, and resolves each constraint
//! against an ini catalog to the best matching version and its hash.
pub mod checker;
pub mod grammar;
pub mod ini_source;
pub mod source;
pub mod syntax;
pub mod tag_checker;
pub mod tag_scanner;
pub mod version;
