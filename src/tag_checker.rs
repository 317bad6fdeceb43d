//! Resolving a parsed tag: its catalog file is found relative to the
//! directory of the file the tag was read from.
use vstd::prelude::*;
use crate::ini_source::{IniSource, ResolveError, Resolution, resolution, resolution_of};
use crate::source::VersionSource;
use crate::syntax::{DemverTag, SourceTag};
use crate::version::FixedVersion;

verus! {

/// What `std::path::Path::parent` gives for a path, as text.
pub uninterp spec fn path_parent(path: Seq<char>) -> Option<Seq<char>>;

/// What `std::path::Path::join` gives for a directory and a relative path,
/// as text, or `None` where the result is not valid text.
pub uninterp spec fn path_join(dir: Seq<char>, rel: Seq<char>) -> Option<Seq<char>>;

/// Relies on std::path::Path::parent: the path without its last component.
#[verifier::external_body]
fn parent_of(path: &str) -> (r: Option<String>)
    ensures
        match r {
            Some(d) => path_parent(path@) == Some(d@),
            None => path_parent(path@) is None,
        },
{
    std::path::Path::new(path).parent().map(|d| d.to_string_lossy().into_owned())
}

/// Relies on std::path::Path::join: `rel` appended to `dir`, as text.
#[verifier::external_body]
fn join_path(dir: &str, rel: &str) -> (r: Option<String>)
    ensures
        match r {
            Some(p) => path_join(dir@, rel@) == Some(p@),
            None => path_join(dir@, rel@) is None,
        },
{
    std::path::Path::new(dir).join(rel).to_str().map(|s| s.to_owned())
}

pub open spec fn ini_suffix() -> Seq<char> {
    seq!['.', 'i', 'n', 'i']
}

/// The text ends with `.ini`.
pub open spec fn has_ini_suffix(s: Seq<char>) -> bool {
    s.len() >= 4 && s.subrange(s.len() - 4, s.len() as int) == ini_suffix()
}

fn ends_with_ini(s: &str) -> (r: bool)
    ensures
        r == has_ini_suffix(s@),
{
    let n = s.unicode_len();
    if n < 4 {
        return false;
    }
    let tail = s.substring_char(n - 4, n);
    let r = tail.get_char(0) == '.' && tail.get_char(1) == 'i' && tail.get_char(2) == 'n'
        && tail.get_char(3) == 'i';
    proof {
        if r {
            assert(tail@ =~= ini_suffix());
        } else if tail@ == ini_suffix() {
            assert(tail@[0] == '.' && tail@[1] == 'i' && tail@[2] == 'n' && tail@[3] == 'i');
        }
    }
    r
}

/// Why a tag could not be resolved.
#[derive(Debug, PartialEq, Eq)]
pub enum CheckError {
    /// A file reference that does not name an `.ini` file.
    UnsupportedSourceFile,
    /// The tag's file has no parent directory.
    NoParentDirectory,
    /// The catalog's path is not valid text.
    PathNotText,
    /// The catalog gave no version.
    Resolve(ResolveError),
}

/// The ways a tag's resolution can fail before the catalog is consulted.
pub enum PathFault {
    UnsupportedSourceFile,
    NoParentDirectory,
    PathNotText,
}

/// The path of the catalog a tag refers to: its filename relative to the
/// directory of the file the tag was found in.
pub open spec fn catalog_path_of(tag: DemverTag) -> Result<Seq<char>, PathFault> {
    let rel = tag.version_source@;
    if !has_ini_suffix(rel) {
        Err(PathFault::UnsupportedSourceFile)
    } else {
        match path_parent(tag.tokenized_tag.origin_filename@) {
            None => Err(PathFault::NoParentDirectory),
            Some(dir) => match path_join(dir, rel) {
                None => Err(PathFault::PathNotText),
                Some(p) => Ok(p),
            },
        }
    }
}

pub open spec fn path_result_view(r: Result<String, CheckError>) -> Result<Seq<char>, PathFault> {
    match r {
        Ok(p) => Ok(p@),
        Err(CheckError::UnsupportedSourceFile) => Err(PathFault::UnsupportedSourceFile),
        Err(CheckError::NoParentDirectory) => Err(PathFault::NoParentDirectory),
        Err(_) => Err(PathFault::PathNotText),
    }
}


/// What resolving a tag can come to, as values.
pub enum CheckOutcome {
    Path(PathFault),
    Resolved(Resolution),
}

/// What resolving `tag` against the catalog text `text` gives.
pub open spec fn check_outcome(tag: DemverTag, text: Seq<char>) -> CheckOutcome {
    match catalog_path_of(tag) {
        Err(f) => CheckOutcome::Path(f),
        Ok(_) => CheckOutcome::Resolved(resolution(text, tag.semver@, Some(tag.identifier@))),
    }
}

pub open spec fn check_result_view(r: Result<FixedVersion, CheckError>) -> CheckOutcome {
    match r {
        Ok(v) => CheckOutcome::Resolved(resolution_of(Ok(v))),
        Err(CheckError::Resolve(e)) => CheckOutcome::Resolved(resolution_of(Err(e))),
        Err(CheckError::UnsupportedSourceFile) => CheckOutcome::Path(
            PathFault::UnsupportedSourceFile,
        ),
        Err(CheckError::NoParentDirectory) => CheckOutcome::Path(PathFault::NoParentDirectory),
        Err(CheckError::PathNotText) => CheckOutcome::Path(PathFault::PathNotText),
    }
}

/// Resolves parsed tags against their catalogs.
pub struct TagChecker {}

impl TagChecker {
    /// The path of the catalog file that `tag` refers to.
    pub fn catalog_path(tag: &DemverTag) -> (r: Result<String, CheckError>)
        ensures
            r is Err ==> !(r matches Err(CheckError::Resolve(_))),
            path_result_view(r) == catalog_path_of(*tag),
    {
        match &tag.version_source {
            SourceTag::File(file_source_tag) => {
                if !ends_with_ini(&file_source_tag.filename) {
                    return Err(CheckError::UnsupportedSourceFile);
                }
                let dir = match parent_of(tag.get_origin_filename()) {
                    Some(d) => d,
                    None => return Err(CheckError::NoParentDirectory),
                };
                match join_path(&dir, &file_source_tag.filename) {
                    Some(p) => Ok(p),
                    None => Err(CheckError::PathNotText),
                }
            },
        }
    }

    /// The best version for `tag` in the catalog whose text is
    /// `catalog_text`, read from the file that `catalog_path` names.
    pub fn get_current_version_from_source(tag: &DemverTag, catalog_text: &str) -> (r: Result<
        FixedVersion,
        CheckError,
    >)
        ensures
            check_result_view(r) == check_outcome(*tag, catalog_text@),
    {
        let path = match Self::catalog_path(tag) {
            Ok(p) => p,
            Err(e) => return Err(e),
        };
        let ini_source = IniSource::new(&path);
        match ini_source.get_fixed_version(catalog_text, &tag.semver, Some(tag.identifier.as_str())) {
            Ok(v) => Ok(v),
            Err(e) => Err(CheckError::Resolve(e)),
        }
    }
}

} // verus!
