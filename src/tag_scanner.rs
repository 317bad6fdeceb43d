//! Scanning a batch of files: each file's text is tokenized and each tag
//! parsed on its own, so that one bad tag or one unreadable file never
//! discards the others.
use vstd::prelude::*;
use crate::grammar::{Span, tags_of, utf8_len};
use crate::syntax::{DemverTag, TagError, TagFault, TokenizedTag, occurrence, tag_fault, tag_holds};

verus! {

/// A tag that parsed.
#[derive(Debug)]
pub struct TagVersion {
    pub tag: DemverTag,
}

/// What went wrong with one tag.
#[derive(Debug)]
pub enum TagFailure {
    /// The tag's fields could not be taken out of the text.
    Tokenize(String),
    /// The tag's fields were refused.
    Parse(TagError),
}

/// A tag that failed, with the file it was found in.
#[derive(Debug)]
pub struct ScanError {
    pub filename: String,
    pub failure: TagFailure,
}

pub type TagVersionResult = Result<TagVersion, ScanError>;

/// The outcome of each tag of one file, in text order.
#[derive(Debug)]
pub struct FileVersion {
    pub tag_version_results: Vec<TagVersionResult>,
}

/// Why a file could not be scanned at all.
#[derive(Debug, PartialEq, Eq)]
pub enum ReadError {
    /// The file could not be opened.
    Open,
    /// The file's content is not text.
    NotText,
}

pub type FileVersionResult = Result<FileVersion, ReadError>;

/// One file of a batch and what scanning it gave.
#[derive(Debug)]
pub struct FileInfo {
    pub filename: String,
    pub version_result: FileVersionResult,
}

/// The first refused field of the tag located by `t` in `s`, if any.
pub open spec fn fault_at(s: Seq<char>, t: Span) -> Option<TagFault> {
    tag_fault(s.subrange(t.0 + 8, t.1), s.subrange(t.1 + 2, t.2), s.subrange(t.3 + 2, t.4))
}

/// The fields of the tag located by `t` in `s` all parse.
pub open spec fn tag_parses(s: Seq<char>, t: Span) -> bool {
    fault_at(s, t) is None
}

/// `r` is the outcome of the tag located by `t` in the text `s` of
/// `filename`: the tag that `DemverTag::parse` makes of its fields, or that
/// parse's failure together with the filename.
pub open spec fn tag_outcome(r: TagVersionResult, s: Seq<char>, t: Span, filename: Seq<char>) -> bool {
    match r {
        Ok(v) => {
            &&& tag_parses(s, t)
            &&& tag_holds(
                v.tag,
                s.subrange(t.0 + 8, t.1),
                s.subrange(t.1 + 2, t.2),
                s.subrange(t.2 + 1, t.3),
                s.subrange(t.3 + 2, t.4),
                s.subrange(t.4 + 3, t.5),
            )
            &&& occurrence(v.tag.tokenized_tag, s, t, filename)
        },
        Err(e) => {
            &&& e.filename@ == filename
            &&& e.failure matches TagFailure::Parse(err)
            &&& fault_at(s, t) == Some(err@)
        },
    }
}

/// `r` holds the outcome of every tag of the text `s`, in order.
pub open spec fn file_outcome(r: FileVersion, s: Seq<char>, filename: Seq<char>) -> bool {
    &&& r.tag_version_results@.len() == tags_of(s).len()
    &&& forall|i: int|
        0 <= i < tags_of(s).len() ==> tag_outcome(
            #[trigger] r.tag_version_results@[i],
            s,
            tags_of(s)[i],
            filename,
        )
}

/// A file's text can be scanned: its byte length fits in memory.
pub open spec fn scannable(content: Result<String, ReadError>) -> bool {
    content matches Ok(text) ==> utf8_len(text@) <= usize::MAX
}

/// Scans the text of one file, or passes on why it could not be read.
pub fn scan_file(filename: &str, content: Result<String, ReadError>) -> (r: FileVersionResult)
    requires
        scannable(content),
    ensures
        match content {
            Ok(text) => r matches Ok(fv) && file_outcome(fv, text@, filename@),
            Err(e) => r == Err::<FileVersion, ReadError>(e),
        },
{
    let text = match content {
        Ok(t) => t,
        Err(e) => return Err(e),
    };
    let tokenized_tags = TokenizedTag::tokenize_all(filename, &text, 0);
    let ghost all = tags_of(text@);
    let mut version_results: Vec<TagVersionResult> = Vec::new();
    let mut i: usize = 0;
    while i < tokenized_tags.len()
        invariant
            all == tags_of(text@),
            tokenized_tags@.len() == all.len(),
            forall|j: int|
                0 <= j < tokenized_tags@.len() ==> (#[trigger] tokenized_tags@[j] matches Ok(tag)
                    && occurrence(tag, text@, all[j], filename@)),
            i <= tokenized_tags@.len(),
            version_results@.len() == i,
            forall|j: int|
                0 <= j < i ==> tag_outcome(#[trigger] version_results@[j], text@, all[j], filename@),
        decreases tokenized_tags@.len() - i,
    {
        let outcome = match &tokenized_tags[i] {
            Ok(tag) => match DemverTag::parse(tag) {
                Ok(demver_tag) => Ok(TagVersion { tag: demver_tag }),
                Err(e) => Err(ScanError { filename: filename.to_owned(), failure: TagFailure::Parse(e) }),
            },
            Err(msg) => Err(
                ScanError { filename: filename.to_owned(), failure: TagFailure::Tokenize(msg.clone()) },
            ),
        };
        version_results.push(outcome);
        i = i + 1;
    }
    Ok(FileVersion { tag_version_results: version_results })
}

/// A file whose text holds two tags, one whose fields parse and one whose
/// fields do not, scans to two outcomes: one success, and one failure that
/// carries the filename and the reason its tag was refused.
pub proof fn lemma_good_and_bad_tag(fv: FileVersion, s: Seq<char>, filename: Seq<char>)
    requires
        file_outcome(fv, s, filename),
        tags_of(s).len() == 2,
        tag_parses(s, tags_of(s)[0]) != tag_parses(s, tags_of(s)[1]),
    ensures
        fv.tag_version_results@.len() == 2,
        fv.tag_version_results@[0] is Ok != fv.tag_version_results@[1] is Ok,
        fv.tag_version_results@[0] is Ok == tag_parses(s, tags_of(s)[0]),
        forall|k: int|
            0 <= k < 2 && !tag_parses(s, tags_of(s)[k]) ==> (#[trigger] fv.tag_version_results@[k] matches Err(e)
                && e.filename@ == filename && (e.failure matches TagFailure::Parse(err) && fault_at(
                s,
                tags_of(s)[k],
            ) == Some(err@))),
{
    assert(tag_outcome(fv.tag_version_results@[0], s, tags_of(s)[0], filename));
    assert(tag_outcome(fv.tag_version_results@[1], s, tags_of(s)[1], filename));
}

/// A file that could not be read has a file-level error as its result, and
/// every other file of the batch that was read is scanned all the same.
pub proof fn lemma_unreadable_file_isolated(
    r: Seq<FileInfo>,
    files: Seq<String>,
    contents: Seq<Result<String, ReadError>>,
    bad: int,
)
    requires
        batch_outcome(r, files, contents),
        contents.len() == files.len(),
        0 <= bad < files.len(),
        contents[bad] is Err,
    ensures
        r.len() == files.len(),
        r[bad].version_result is Err,
        forall|j: int|
            0 <= j < files.len() && #[trigger] contents[j] is Ok ==> r[j].version_result is Ok
                && r[j].filename@ == files[j]@,
{
    assert(r[bad].filename@ == files[bad]@);
    assert forall|j: int|
        0 <= j < files.len() && #[trigger] contents[j] is Ok implies r[j].version_result is Ok
            && r[j].filename@ == files[j]@ by {
        assert(r[j].filename@ == files[j]@);
    }
}

/// Scans a list of files, one result per file, in order.
#[derive(Debug)]
pub struct TagScanner {
    files: Vec<String>,
}

/// `r` holds, for each file in turn, its name and what scanning its content gave.
pub open spec fn batch_outcome(
    r: Seq<FileInfo>,
    files: Seq<String>,
    contents: Seq<Result<String, ReadError>>,
) -> bool {
    &&& r.len() == files.len()
    &&& forall|i: int|
        0 <= i < files.len() ==> {
            &&& (#[trigger] r[i]).filename@ == files[i]@
            &&& match contents[i] {
                Ok(text) => r[i].version_result matches Ok(fv) && file_outcome(
                    fv,
                    text@,
                    files[i]@,
                ),
                Err(e) => r[i].version_result == Err::<FileVersion, ReadError>(e),
            }
        }
}

impl TagScanner {
    pub fn new(files: Vec<String>) -> (r: Self)
        ensures
            r.files_spec() == files@,
    {
        Self { files }
    }

    pub closed spec fn files_spec(&self) -> Seq<String> {
        self.files@
    }

    /// The files to scan, in order.
    pub fn files(&self) -> (r: &Vec<String>)
        ensures
            r@ == self.files_spec(),
    {
        &self.files
    }

    /// Scans each file, given what reading it gave, in the order of `files`.
    pub fn do_scan(&self, contents: Vec<Result<String, ReadError>>) -> (r: Vec<FileInfo>)
        requires
            contents@.len() == self.files_spec().len(),
            forall|i: int| 0 <= i < contents@.len() ==> scannable(#[trigger] contents@[i]),
        ensures
            batch_outcome(r@, self.files_spec(), contents@),
    {
        scan_batch(&self.files, contents)
    }
}

/// Scans each file of `files`, given what reading it gave.
pub fn scan_batch(files: &Vec<String>, contents: Vec<Result<String, ReadError>>) -> (r: Vec<FileInfo>)
    requires
        contents@.len() == files@.len(),
        forall|i: int| 0 <= i < contents@.len() ==> scannable(#[trigger] contents@[i]),
    ensures
        batch_outcome(r@, files@, contents@),
{
    let ghost all = contents@;
    let mut ret: Vec<FileInfo> = Vec::new();
    let mut rest = contents;
    let mut i: usize = 0;
    proof {
        assert(rest@ =~= all.skip(0));
    }
    while i < files.len()
        invariant
            all.len() == files@.len(),
            forall|k: int| 0 <= k < all.len() ==> scannable(#[trigger] all[k]),
            i <= files@.len(),
            rest@ =~= all.skip(i as int),
            ret@.len() == i,
            forall|k: int|
                0 <= k < i ==> {
                    &&& (#[trigger] ret@[k]).filename@ == files@[k]@
                    &&& match all[k] {
                        Ok(text) => ret@[k].version_result matches Ok(fv) && file_outcome(
                            fv,
                            text@,
                            files@[k]@,
                        ),
                        Err(e) => ret@[k].version_result == Err::<FileVersion, ReadError>(e),
                    }
                },
        decreases files@.len() - i,
    {
        let content = rest.remove(0);
        proof {
            assert(content == all[i as int]);
            assert(rest@ =~= all.skip(i + 1));
        }
        let file = &files[i];
        ret.push(FileInfo { filename: file.clone(), version_result: scan_file(file, content) });
        i = i + 1;
    }
    ret
}

} // verus!
