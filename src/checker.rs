//! Checking a list of files: the scan of each file's text, one result per
//! file, in order.
use vstd::prelude::*;
pub use crate::tag_scanner::{FileInfo, FileVersion, TagVersion};
use crate::tag_scanner::{ReadError, batch_outcome, scan_batch, scannable};

verus! {

/// Checks the tags of a list of files.
#[derive(Debug)]
pub struct Checker {
    files: Vec<String>,
}

impl Checker {
    pub fn new(files: Vec<String>) -> (r: Self)
        ensures
            r.files_spec() == files@,
    {
        Self { files }
    }

    pub closed spec fn files_spec(&self) -> Seq<String> {
        self.files@
    }

    /// The files to check, in order.
    pub fn files(&self) -> (r: &Vec<String>)
        ensures
            r@ == self.files_spec(),
    {
        &self.files
    }

    /// Checks each file, given what reading it gave, in the order of `files`.
    pub fn do_check(&self, contents: Vec<Result<String, ReadError>>) -> (r: Vec<FileInfo>)
        requires
            contents@.len() == self.files_spec().len(),
            forall|i: int| 0 <= i < contents@.len() ==> scannable(#[trigger] contents@[i]),
        ensures
            batch_outcome(r@, self.files_spec(), contents@),
    {
        scan_batch(&self.files, contents)
    }
}

} // verus!
