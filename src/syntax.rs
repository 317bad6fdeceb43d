//! Tags taken out of a text as raw fields, and raw fields turned into
//! validated tags: a version range, a catalog reference and a declared version.
use vstd::prelude::*;
use vstd::string::*;
use crate::grammar::{
    Span,
    advance,
    byte_offset,
    chars_of,
    find_next,
    lemma_tag_bounds,
    lemma_tags_from_none,
    lemma_tags_from_step,
    span_of,
    tag_at,
    tags_from,
    tags_of,
    utf8_len,
};
use crate::version::{ConcreteVersion, VersionConstraint, constraint_parses, version_parses};

verus! {
/// One tag as found in a text, its fields not yet interpreted.
#[derive(Debug, Clone)]
pub struct TokenizedTag {
    pub version_req: String,
    pub version_source: String,
    pub identifier: String,
    pub current_version: String,
    pub timestamp: String,
    /// Byte offset where the tag begins.
    pub idx_start: usize,
    /// Byte offset just past the tag's timestamp.
    pub idx_end: usize,
    pub origin_filename: String,
}

/// `tag` holds the fields of the tag of `s` located by `t`, and its byte span.
pub open spec fn occurrence(tag: TokenizedTag, s: Seq<char>, t: Span, filename: Seq<char>) -> bool {
    &&& tag.version_req@ == s.subrange(t.0 + 8, t.1)
    &&& tag.version_source@ == s.subrange(t.1 + 2, t.2)
    &&& tag.identifier@ == s.subrange(t.2 + 1, t.3)
    &&& tag.current_version@ == s.subrange(t.3 + 2, t.4)
    &&& tag.timestamp@ == s.subrange(t.4 + 3, t.5)
    &&& tag.idx_start == byte_offset(s, t.0)
    &&& tag.idx_end == byte_offset(s, t.5)
    &&& tag.origin_filename@ == filename
}

/// How many tags a search with the given limit returns (`0`: no limit).
pub open spec fn limited(n: nat, max_nr_tags: usize) -> nat {
    if max_nr_tags == 0 || n <= max_nr_tags {
        n
    } else {
        max_nr_tags as nat
    }
}

impl TokenizedTag {
    pub fn new(
        version_req: &str,
        version_source: &str,
        identifier: &str,
        current_version: &str,
        timestamp: &str,
        idx_start: usize,
        idx_end: usize,
        origin_filename: &str,
    ) -> (r: Self)
        ensures
            r.version_req@ == version_req@,
            r.version_source@ == version_source@,
            r.identifier@ == identifier@,
            r.current_version@ == current_version@,
            r.timestamp@ == timestamp@,
            r.idx_start == idx_start,
            r.idx_end == idx_end,
            r.origin_filename@ == origin_filename@,
    {
        Self {
            version_req: version_req.to_owned(),
            version_source: version_source.to_owned(),
            identifier: identifier.to_owned(),
            current_version: current_version.to_owned(),
            timestamp: timestamp.to_owned(),
            idx_start,
            idx_end,
            origin_filename: origin_filename.to_owned(),
        }
    }

    /// Builds the occurrence of the tag located by `t` in `text`.
    fn from_span(
        filename: &str,
        text: &str,
        t: (usize, usize, usize, usize, usize, usize),
        idx_start: usize,
        idx_end: usize,
    ) -> (r: Self)
        requires
            tag_at(text@, span_of(t)),
            idx_start == byte_offset(text@, t.0 as int),
            idx_end == byte_offset(text@, t.5 as int),
        ensures
            occurrence(r, text@, span_of(t), filename@),
    {
        proof {
            reveal(tag_at);
        }
        let (p, ce, se, ie, ve, te) = t;
        Self::new(
            text.substring_char(p + 8, ce),
            text.substring_char(ce + 2, se),
            text.substring_char(se + 1, ie),
            text.substring_char(ie + 2, ve),
            text.substring_char(ve + 3, te),
            idx_start,
            idx_end,
            filename,
        )
    }

    /// Every tag of `unparsed`, leftmost first, each search resuming where
    /// the previous tag ended; at most `max_nr_tags` of them unless it is `0`.
    pub fn tokenize_all(filename: &str, unparsed: &str, max_nr_tags: usize) -> (r: Vec<
        Result<Self, String>,
    >)
        requires
            utf8_len(unparsed@) <= usize::MAX,
        ensures
            r@.len() == limited(tags_of(unparsed@).len(), max_nr_tags),
            forall|i: int|
                0 <= i < r@.len() ==> (#[trigger] r@[i] matches Ok(tag) && occurrence(
                    tag,
                    unparsed@,
                    tags_of(unparsed@)[i],
                    filename@,
                )),
    {
        let s = chars_of(unparsed);
        let ghost all = tags_of(s@);
        let mut ret: Vec<Result<Self, String>> = Vec::new();
        let mut from: usize = 0;
        let mut at_byte: usize = 0;
        let mut done = false;
        proof {
            assert(s@.subrange(0, 0).len() == 0);
            assert(all.skip(0) =~= all);
        }
        while !done
            invariant
                s@ == unparsed@,
                all == tags_of(s@),
                utf8_len(s@) <= usize::MAX,
                from <= s@.len(),
                at_byte == byte_offset(s@, from as int),
                ret@.len() <= all.len(),
                !done ==> tags_from(s@, from as int) == all.skip(ret@.len() as int),
                !done ==> (max_nr_tags == 0 || ret@.len() < max_nr_tags),
                done ==> ret@.len() == limited(all.len(), max_nr_tags),
                forall|i: int|
                    0 <= i < ret@.len() ==> (#[trigger] ret@[i] matches Ok(tag) && occurrence(
                        tag,
                        s@,
                        all[i],
                        filename@,
                    )),
            decreases s@.len() - from + (if done { 0int } else { 1int }),
        {
            match find_next(&s, from) {
                None => {
                    proof {
                        lemma_tags_from_none(s@, from as int, all, ret@.len() as int);
                    }
                    done = true;
                },
                Some(t) => {
                    proof {
                        lemma_tag_bounds(s@, span_of(t));
                        lemma_tags_from_step(s@, from as int, span_of(t), all, ret@.len() as int);
                    }
                    let start = advance(&s, from, at_byte, t.0);
                    let end = advance(&s, t.0, start, t.5);
                    let tag = Self::from_span(filename, unparsed, t, start, end);
                    ret.push(Ok(tag));
                    from = t.5;
                    at_byte = end;
                    if max_nr_tags != 0 && ret.len() >= max_nr_tags {
                        done = true;
                    }
                },
            }
        }
        ret
    }

    /// The first tag of `unparsed`.
    pub fn tokenize_one(filename: &str, unparsed: &str) -> (r: Result<Self, String>)
        requires
            utf8_len(unparsed@) <= usize::MAX,
        ensures
            r.is_ok() == (tags_of(unparsed@).len() > 0),
            r matches Err(m) ==> m@ == "no match was found"@,
            r matches Ok(tag) ==> occurrence(tag, unparsed@, tags_of(unparsed@)[0], filename@),
    {
        let mut vec = Self::tokenize_all(filename, unparsed, 1);
        if vec.len() < 1 {
            return Err("no match was found".to_owned());
        }
        vec.remove(0)
    }
}

/// First index at or after `from` where `s` holds `c`, or the length.
pub open spec fn first_index(s: Seq<char>, c: char, from: int) -> int
    decreases s.len() - from,
{
    if from < 0 || from >= s.len() {
        s.len() as int
    } else if s[from] == c {
        from
    } else {
        first_index(s, c, from + 1)
    }
}

/// Last index in `(lo, hi)` where `s` holds `c`, or `lo` if there is none.
pub open spec fn last_index_within(s: Seq<char>, c: char, lo: int, hi: int) -> int
    decreases hi - lo,
{
    if hi - 1 <= lo {
        lo
    } else if s[hi - 1] == c {
        hi - 1
    } else {
        last_index_within(s, c, lo, hi - 1)
    }
}

/// Where the kind of a source reference ends: at the first `(`.
pub open spec fn source_kind_end(s: Seq<char>) -> int {
    first_index(s, '(', 0)
}

/// The arguments of a source reference: after the first `(`, up to the last
/// `)` of that line, with at least one character; empty where there is no
/// such `)`.
pub open spec fn source_args(s: Seq<char>) -> Seq<char> {
    let k = source_kind_end(s);
    if k >= s.len() {
        seq![]
    } else {
        let e = last_index_within(s, ')', k + 1, first_index(s, '\n', k + 1));
        if e > k + 1 {
            s.subrange(k + 1, e)
        } else {
            seq![]
        }
    }
}

/// The kinds of failure of a source reference, as values.
pub enum SourceFault {
    Unparsable,
    MissingFilename,
    UnknownSourceKind(Seq<char>),
}

/// What a source reference `kind` or `kind(arguments)` denotes: for the kind
/// `file`, the file named by the arguments.
pub open spec fn source_parse(s: Seq<char>) -> Result<Seq<char>, SourceFault> {
    let k = source_kind_end(s);
    if k == 0 {
        Err(SourceFault::Unparsable)
    } else if s.subrange(0, k) == seq!['f', 'i', 'l', 'e'] {
        if source_args(s).len() == 0 {
            Err(SourceFault::MissingFilename)
        } else {
            Ok(source_args(s))
        }
    } else {
        Err(SourceFault::UnknownSourceKind(s.subrange(0, k)))
    }
}

/// Why a source reference was refused.
#[derive(Debug, PartialEq, Eq)]
pub enum SourceError {
    /// The text has no kind: it is empty or begins with `(`.
    Unparsable,
    /// A `file` reference without a filename.
    MissingFilename,
    /// A kind other than `file`.
    UnknownSourceKind(String),
}

impl View for SourceError {
    type V = SourceFault;

    open spec fn view(&self) -> SourceFault {
        match self {
            SourceError::Unparsable => SourceFault::Unparsable,
            SourceError::MissingFilename => SourceFault::MissingFilename,
            SourceError::UnknownSourceKind(k) => SourceFault::UnknownSourceKind(k@),
        }
    }
}

/// A reference to a catalog file, relative to the file holding the tag.
#[derive(Debug, PartialEq, Eq)]
pub struct FileSourceTag {
    pub filename: String,
}

impl FileSourceTag {
    /// A file reference needs a non-empty filename.
    pub fn parse(unparsed_arguments: &str) -> (r: Result<Self, SourceError>)
        ensures
            unparsed_arguments@.len() == 0 ==> r matches Err(SourceError::MissingFilename),
            unparsed_arguments@.len() != 0 ==> (r matches Ok(f) && f.filename@
                == unparsed_arguments@),
    {
        if unparsed_arguments.is_empty() {
            Err(SourceError::MissingFilename)
        } else {
            Ok(FileSourceTag { filename: unparsed_arguments.to_owned() })
        }
    }
}

/// Where a tag's catalog is to be found.
#[derive(Debug, PartialEq, Eq)]
pub enum SourceTag {
    File(FileSourceTag),
}

impl View for SourceTag {
    type V = Seq<char>;

    open spec fn view(&self) -> Seq<char> {
        match self {
            SourceTag::File(f) => f.filename@,
        }
    }
}

pub open spec fn source_result_view(r: Result<SourceTag, SourceError>) -> Result<
    Seq<char>,
    SourceFault,
> {
    match r {
        Ok(t) => Ok(t@),
        Err(e) => Err(e@),
    }
}

fn first_index_of(s: &Vec<char>, c: char, from: usize) -> (r: usize)
    requires
        from <= s@.len(),
    ensures
        r == first_index(s@, c, from as int),
        from <= r <= s@.len(),
{
    let mut i: usize = from;
    while i < s.len() && s[i] != c
        invariant
            from <= i <= s@.len(),
            first_index(s@, c, i as int) == first_index(s@, c, from as int),
        decreases s@.len() - i,
    {
        i = i + 1;
    }
    i
}

fn last_index_within_of(s: &Vec<char>, c: char, lo: usize, hi: usize) -> (r: usize)
    requires
        lo <= hi <= s@.len(),
    ensures
        r == last_index_within(s@, c, lo as int, hi as int),
        lo <= r,
        r > lo ==> r < hi,
{
    let mut h: usize = hi;
    while h - lo > 1 && s[h - 1] != c
        invariant
            lo <= h <= hi <= s@.len(),
            last_index_within(s@, c, lo as int, h as int) == last_index_within(
                s@,
                c,
                lo as int,
                hi as int,
            ),
        decreases h,
    {
        h = h - 1;
    }
    if h - lo > 1 {
        h - 1
    } else {
        lo
    }
}

impl SourceTag {
    /// Parses `kind` or `kind(arguments)`; `file` is the one kind known.
    pub fn parse(unparsed: &str) -> (r: Result<Self, SourceError>)
        ensures
            source_result_view(r) == source_parse(unparsed@),
    {
        let s = chars_of(unparsed);
        let k = first_index_of(&s, '(', 0);
        if k == 0 {
            return Err(SourceError::Unparsable);
        }
        let args: &str = if k < s.len() {
            let n = first_index_of(&s, '\n', k + 1);
            let e = last_index_within_of(&s, ')', k + 1, n);
            if e > k + 1 {
                unparsed.substring_char(k + 1, e)
            } else {
                ""
            }
        } else {
            ""
        };
        proof {
            reveal_strlit("");
            assert(args@ == source_args(s@));
        }
        let is_file = k == 4 && s[0] == 'f' && s[1] == 'i' && s[2] == 'l' && s[3] == 'e';
        proof {
            let w = s@.subrange(0, k as int);
            if is_file {
                assert(w =~= seq!['f', 'i', 'l', 'e']);
            } else if w == seq!['f', 'i', 'l', 'e'] {
                assert(w.len() == 4);
                assert(w[0] == 'f' && w[1] == 'i' && w[2] == 'l' && w[3] == 'e');
            }
        }
        if is_file {
            match FileSourceTag::parse(args) {
                Ok(f) => Ok(SourceTag::File(f)),
                Err(e) => Err(e),
            }
        } else {
            Err(SourceError::UnknownSourceKind(unparsed.substring_char(0, k).to_owned()))
        }
    }
}

/// Why a tag's fields were refused.
#[derive(Debug)]
pub enum TagError {
    /// The constraint is not a semver range; `semver`'s explanation.
    InvalidConstraint(String),
    /// The source reference is refused.
    InvalidSource(SourceError),
    /// The declared version is not a semver version; `semver`'s explanation.
    InvalidVersion(String),
}

/// `a` and `b` hold the same fields.
pub open spec fn same_tokens(a: TokenizedTag, b: TokenizedTag) -> bool {
    &&& a.version_req@ == b.version_req@
    &&& a.version_source@ == b.version_source@
    &&& a.identifier@ == b.identifier@
    &&& a.current_version@ == b.current_version@
    &&& a.timestamp@ == b.timestamp@
    &&& a.idx_start == b.idx_start
    &&& a.idx_end == b.idx_end
    &&& a.origin_filename@ == b.origin_filename@
}

/// A tag whose fields are validated: a version range, a catalog reference, an
/// identifier, the version last stamped into the file and a timestamp.
#[derive(Debug)]
pub struct DemverTag {
    pub tokenized_tag: TokenizedTag,
    pub semver: VersionConstraint,
    pub version_source: SourceTag,
    pub identifier: String,
    pub current_version: ConcreteVersion,
    pub timestamp: String,
}

/// The kinds of failure of a tag's fields, as values.
pub enum TagFault {
    InvalidConstraint,
    InvalidSource(SourceFault),
    InvalidVersion,
}

impl View for TagError {
    type V = TagFault;

    open spec fn view(&self) -> TagFault {
        match self {
            TagError::InvalidConstraint(_) => TagFault::InvalidConstraint,
            TagError::InvalidSource(e) => TagFault::InvalidSource(e@),
            TagError::InvalidVersion(_) => TagFault::InvalidVersion,
        }
    }
}

/// The first of a tag's fields that is refused, checked in the order
/// constraint, source reference, declared version; `None` where all parse.
pub open spec fn tag_fault(req: Seq<char>, src: Seq<char>, ver: Seq<char>) -> Option<TagFault> {
    if !constraint_parses(req) {
        Some(TagFault::InvalidConstraint)
    } else {
        match source_parse(src) {
            Err(f) => Some(TagFault::InvalidSource(f)),
            Ok(_) => if !version_parses(ver) {
                Some(TagFault::InvalidVersion)
            } else {
                None
            },
        }
    }
}

/// `tag` is the validated form of the fields: the constraint, the source
/// reference and the declared version read from their texts, the identifier
/// and the timestamp taken as they are.
pub open spec fn tag_holds(
    tag: DemverTag,
    req: Seq<char>,
    src: Seq<char>,
    ident: Seq<char>,
    ver: Seq<char>,
    ts: Seq<char>,
) -> bool {
    &&& tag.semver@ == req
    &&& source_parse(src) == Ok::<Seq<char>, SourceFault>(tag.version_source@)
    &&& tag.identifier@ == ident
    &&& tag.current_version@ == ver
    &&& tag.timestamp@ == ts
}

/// `r` is what parsing a tag with these fields gives: the validated tag where
/// no field is refused, else the failure of the first refused field.
pub open spec fn parse_outcome(
    r: Result<DemverTag, TagError>,
    req: Seq<char>,
    src: Seq<char>,
    ident: Seq<char>,
    ver: Seq<char>,
    ts: Seq<char>,
) -> bool {
    match r {
        Ok(tag) => tag_fault(req, src, ver) is None && tag_holds(tag, req, src, ident, ver, ts),
        Err(e) => tag_fault(req, src, ver) == Some(e@),
    }
}

impl DemverTag {
    /// Validates the fields of `unparsed` in turn: the constraint, the source
    /// reference, then the declared version. The identifier and timestamp are
    /// taken as they are.
    pub fn parse(unparsed: &TokenizedTag) -> (r: Result<Self, TagError>)
        ensures
            parse_outcome(
                r,
                unparsed.version_req@,
                unparsed.version_source@,
                unparsed.identifier@,
                unparsed.current_version@,
                unparsed.timestamp@,
            ),
            r matches Ok(tag) ==> same_tokens(tag.tokenized_tag, *unparsed),
    {
        let semver = match VersionConstraint::parse(&unparsed.version_req) {
            Ok(v) => v,
            Err(e) => return Err(TagError::InvalidConstraint(e)),
        };
        let version_source = match SourceTag::parse(&unparsed.version_source) {
            Ok(v) => v,
            Err(e) => return Err(TagError::InvalidSource(e)),
        };
        let current_version = match ConcreteVersion::parse(&unparsed.current_version) {
            Ok(v) => v,
            Err(e) => return Err(TagError::InvalidVersion(e)),
        };
        let tokenized_tag = TokenizedTag::new(
            &unparsed.version_req,
            &unparsed.version_source,
            &unparsed.identifier,
            &unparsed.current_version,
            &unparsed.timestamp,
            unparsed.idx_start,
            unparsed.idx_end,
            &unparsed.origin_filename,
        );
        Ok(DemverTag {
            tokenized_tag,
            semver,
            version_source,
            identifier: unparsed.identifier.clone(),
            current_version,
            timestamp: unparsed.timestamp.clone(),
        })
    }

    pub fn get_raw_version_req(&self) -> (r: &String)
        ensures
            r@ == self.tokenized_tag.version_req@,
    {
        &self.tokenized_tag.version_req
    }

    pub fn get_raw_source(&self) -> (r: &String)
        ensures
            r@ == self.tokenized_tag.version_source@,
    {
        &self.tokenized_tag.version_source
    }

    pub fn get_origin_filename(&self) -> (r: &String)
        ensures
            r@ == self.tokenized_tag.origin_filename@,
    {
        &self.tokenized_tag.origin_filename
    }

    pub fn get_current_version(&self) -> (r: &ConcreteVersion)
        ensures
            r@ == self.current_version@,
    {
        &self.current_version
    }

    pub fn get_timestamp(&self) -> (r: &String)
        ensures
            r@ == self.timestamp@,
    {
        &self.timestamp
    }
}

} // verus!
