//! The file-backed version source: an ini catalog whose sections are
//! identifiers, whose keys are versions and whose values are hashes, and the
//! best-match selection over one section.
use vstd::prelude::*;
use vstd::string::*;
use crate::source::VersionSource;
use crate::version::{
    ConcreteVersion,
    FixedVersion,
    VersionConstraint,
    constraint_admits,
    precedes,
    version_parses,
};

verus! {

#[verifier::external_type_specification]
#[verifier::external_body]
pub struct ExIni(ini::Ini);

/// The entries of one catalog section as text: (key, value), in file order.
pub type Entries = Seq<(Seq<char>, Seq<char>)>;

/// The sections of a parsed ini document: for each name (`None` for the
/// general section), the entries of the section that `ini::Ini::section`
/// finds under it.
pub uninterp spec fn ini_sections(c: ini::Ini) -> Map<Option<Seq<char>>, Entries>;

/// What `ini::Ini::load_from_str` makes of a text: `None` where it refuses it.
pub uninterp spec fn catalog_of(text: Seq<char>) -> Option<Map<Option<Seq<char>>, Entries>>;

pub open spec fn entries_view(v: Seq<(String, String)>) -> Entries {
    v.map_values(|e: (String, String)| (e.0@, e.1@))
}

pub open spec fn name_view(name: Option<&str>) -> Option<Seq<char>> {
    match name {
        Some(n) => Some(n@),
        None => None,
    }
}

/// Relies on ini::Ini::load_from_str: the document parsed from the text, or
/// its parse error rendered through `Display`.
#[verifier::external_body]
fn load_catalog(text: &str) -> (r: Result<ini::Ini, String>)
    ensures
        match r {
            Ok(c) => catalog_of(text@) == Some(ini_sections(c)),
            Err(_) => catalog_of(text@) is None,
        },
{
    ini::Ini::load_from_str(text).map_err(|e| e.to_string())
}

/// Relies on ini::Ini::section and ini::Properties::iter: the entries of the
/// named section, in file order, each copied out as a pair of strings.
#[verifier::external_body]
fn section_entries(c: &ini::Ini, name: Option<&str>) -> (r: Option<Vec<(String, String)>>)
    ensures
        match r {
            Some(v) => ini_sections(*c).contains_key(name_view(name)) && entries_view(v@)
                == ini_sections(*c)[name_view(name)],
            None => !ini_sections(*c).contains_key(name_view(name)),
        },
{
    c.section(name).map(|p| p.iter().map(|(k, v)| (k.to_string(), v.to_string())).collect())
}

/// A key is a candidate for `req` when it is a version that `req` admits.
pub open spec fn candidate(req: Seq<char>, key: Seq<char>) -> bool {
    version_parses(key) && constraint_admits(req, key)
}

/// Index of the best candidate among the first `n` entries: a later candidate
/// replaces the best so far only when it has strictly higher precedence, so
/// among equals the first one stays.
pub open spec fn best_upto(req: Seq<char>, es: Entries, n: int) -> Option<int>
    decreases n,
{
    if n <= 0 {
        None
    } else {
        let b = best_upto(req, es, n - 1);
        if candidate(req, es[n - 1].0) && (b is None || precedes(es[b->0].0, es[n - 1].0)) {
            Some(n - 1)
        } else {
            b
        }
    }
}

/// The entry of the best candidate of a section, if any.
pub open spec fn best_entry(req: Seq<char>, es: Entries) -> Option<(Seq<char>, Seq<char>)> {
    match best_upto(req, es, es.len() as int) {
        Some(i) => Some(es[i]),
        None => None,
    }
}

proof fn lemma_best_upto_bounded(req: Seq<char>, es: Entries, n: int)
    ensures
        best_upto(req, es, n) matches Some(i) ==> 0 <= i < n,
    decreases n,
{
    if n > 0 {
        lemma_best_upto_bounded(req, es, n - 1);
    }
}

/// The entries of a section whose keys are versions, in order.
pub open spec fn version_entries(es: Entries) -> Entries {
    es.filter(|e: (Seq<char>, Seq<char>)| version_parses(e.0))
}

proof fn lemma_best_upto_prefix(req: Seq<char>, es: Entries, x: (Seq<char>, Seq<char>), k: int)
    requires
        0 <= k <= es.len(),
    ensures
        best_upto(req, es.push(x), k) == best_upto(req, es, k),
    decreases k,
{
    if k > 0 {
        lemma_best_upto_prefix(req, es, x, k - 1);
        lemma_best_upto_bounded(req, es, k - 1);
        assert(es.push(x)[k - 1] == es[k - 1]);
        if let Some(j) = best_upto(req, es, k - 1) {
            assert(es.push(x)[j] == es[j]);
        }
    }
}

proof fn lemma_best_entry_push(req: Seq<char>, es: Entries, x: (Seq<char>, Seq<char>))
    ensures
        best_entry(req, es.push(x)) == (if candidate(req, x.0) && match best_entry(req, es) {
            None => true,
            Some(b) => precedes(b.0, x.0),
        } {
            Some(x)
        } else {
            best_entry(req, es)
        }),
{
    let n = es.len() as int;
    lemma_best_upto_prefix(req, es, x, n);
    lemma_best_upto_bounded(req, es, n);
    assert(es.push(x)[n] == x);
    if let Some(j) = best_upto(req, es, n) {
        assert(es.push(x)[j] == es[j]);
    }
}

/// Entries whose keys are not versions, however many and wherever they stand
/// in a section, leave its best candidate as it was: it is that of the
/// section's version entries alone.
pub proof fn lemma_non_version_keys_ignored(req: Seq<char>, es: Entries)
    ensures
        best_entry(req, es) == best_entry(req, version_entries(es)),
    decreases es.len(),
{
    reveal(Seq::filter);
    if es.len() > 0 {
        let init = es.drop_last();
        let x = es.last();
        lemma_non_version_keys_ignored(req, init);
        assert(es =~= init.push(x));
        lemma_best_entry_push(req, init, x);
        if version_parses(x.0) {
            assert(version_entries(es) == version_entries(init).push(x));
            lemma_best_entry_push(req, version_entries(init), x);
        } else {
            assert(version_entries(es) == version_entries(init));
        }
    } else {
        assert(version_entries(es) == es);
    }
}

proof fn lemma_best_upto_highest(req: Seq<char>, es: Entries, n: int)
    requires
        0 <= n <= es.len(),
        forall|a: Seq<char>, b: Seq<char>, c: Seq<char>|
            #[trigger] precedes(a, b) && #[trigger] precedes(b, c) ==> precedes(a, c),
        forall|a: Seq<char>| !#[trigger] precedes(a, a),
    ensures
        best_upto(req, es, n) is None <==> (forall|i: int|
            0 <= i < n ==> !#[trigger] candidate(req, es[i].0)),
        best_upto(req, es, n) matches Some(j) ==> 0 <= j < n && candidate(req, es[j].0) && (
        forall|i: int| 0 <= i < n && #[trigger] candidate(req, es[i].0) ==> !precedes(es[j].0, es[i].0)),
    decreases n,
{
    if n > 0 {
        lemma_best_upto_highest(req, es, n - 1);
        let c = es[n - 1].0;
        if let Some(j) = best_upto(req, es, n - 1) {
            assert(candidate(req, es[j].0));
            if candidate(req, c) && precedes(es[j].0, c) {
                assert forall|i: int|
                    0 <= i < n && #[trigger] candidate(req, es[i].0) implies !precedes(
                    c,
                    es[i].0,
                ) by {
                    if i < n - 1 && precedes(c, es[i].0) {
                        assert(precedes(es[j].0, es[i].0));
                    }
                    if i == n - 1 {
                        assert(!precedes(c, c));
                    }
                }
            }
        } else if candidate(req, c) {
            assert(!precedes(c, c));
        }
    }
}

/// Where precedence is a strict order (transitive and irreflexive), as that
/// of `semver` is, the best candidate of a section has the highest precedence
/// among its candidates, and there is one exactly when some key of the
/// section is a candidate.
pub proof fn lemma_best_is_highest(req: Seq<char>, es: Entries)
    requires
        forall|a: Seq<char>, b: Seq<char>, c: Seq<char>|
            #[trigger] precedes(a, b) && #[trigger] precedes(b, c) ==> precedes(a, c),
        forall|a: Seq<char>| !#[trigger] precedes(a, a),
    ensures
        best_entry(req, es) is None <==> (forall|i: int|
            0 <= i < es.len() ==> !#[trigger] candidate(req, es[i].0)),
        best_entry(req, es) matches Some(e) ==> candidate(req, e.0) && (forall|i: int|
            0 <= i < es.len() && #[trigger] candidate(req, es[i].0) ==> !precedes(e.0, es[i].0)),
{
    lemma_best_upto_highest(req, es, es.len() as int);
}

/// Why no version came out of a catalog.
#[derive(Debug, PartialEq, Eq)]
pub enum ResolveError {
    /// The catalog could not be read or parsed; the cause.
    CatalogUnreadable(String),
    /// The catalog has no section for the identifier.
    NoSection,
    /// The section has no version that satisfies the constraint.
    NoMatch,
}

/// The expected outcome of a resolution, as values: the winning key and hash.
pub enum Resolution {
    Found(Seq<char>, Seq<char>),
    CatalogUnreadable,
    NoSection,
    NoMatch,
}

/// The text of a catalog file without its leading byte-order mark, if it has
/// one: a catalog file is read as `ini::Ini::load_from_file` reads it.
pub open spec fn catalog_body(text: Seq<char>) -> Seq<char> {
    if text.len() > 0 && text[0] == '\u{feff}' {
        text.drop_first()
    } else {
        text
    }
}

fn strip_bom(text: &str) -> (r: &str)
    ensures
        r@ == catalog_body(text@),
{
    let n = text.unicode_len();
    if n > 0 && text.get_char(0) == '\u{feff}' {
        text.substring_char(1, n)
    } else {
        text
    }
}

/// What resolving `req` for section `name` of the catalog file text `text`
/// gives.
pub open spec fn resolution(text: Seq<char>, req: Seq<char>, name: Option<Seq<char>>) -> Resolution {
    match catalog_of(catalog_body(text)) {
        None => Resolution::CatalogUnreadable,
        Some(m) => if !m.contains_key(name) {
            Resolution::NoSection
        } else {
            match best_entry(req, m[name]) {
                Some(e) => Resolution::Found(e.0, e.1),
                None => Resolution::NoMatch,
            }
        },
    }
}

pub open spec fn resolution_of(r: Result<FixedVersion, ResolveError>) -> Resolution {
    match r {
        Ok(v) => Resolution::Found(v.raw_version_spec(), v.hash_spec()),
        Err(ResolveError::CatalogUnreadable(_)) => Resolution::CatalogUnreadable,
        Err(ResolveError::NoSection) => Resolution::NoSection,
        Err(ResolveError::NoMatch) => Resolution::NoMatch,
    }
}

/// A catalog held in a file.
pub struct FileSource {
    filename: String,
}

impl FileSource {
    pub fn new(filename: String) -> (r: FileSource)
        ensures
            r.filename_spec() == filename@,
    {
        FileSource { filename }
    }

    pub closed spec fn filename_spec(&self) -> Seq<char> {
        self.filename@
    }

    pub fn filename(&self) -> (r: &str)
        ensures
            r@ == self.filename_spec(),
    {
        self.filename.as_str()
    }
}

/// A version source backed by an ini catalog file.
pub struct IniSource {
    file_source: FileSource,
}

impl IniSource {
    pub fn new(filename: &str) -> (r: IniSource)
        ensures
            r.filename_spec() == filename@,
    {
        IniSource { file_source: FileSource { filename: filename.to_owned() } }
    }

    pub closed spec fn filename_spec(&self) -> Seq<char> {
        self.file_source.filename_spec()
    }

    /// The catalog file this source reads.
    pub fn filename(&self) -> (r: &str)
        ensures
            r@ == self.filename_spec(),
    {
        self.file_source.filename()
    }
}

impl VersionSource for IniSource {
    open spec fn resolves_to(
        &self,
        catalog_text: Seq<char>,
        requested_version: Seq<char>,
        identifier: Option<Seq<char>>,
    ) -> Resolution {
        resolution(catalog_text, requested_version, identifier)
    }

    /// The best candidate of the section named `identifier` in the catalog
    /// text read from this source's file.
    fn get_fixed_version(
        &self,
        catalog_text: &str,
        requested_version: &VersionConstraint,
        identifier: Option<&str>,
    ) -> (r: Result<FixedVersion, ResolveError>) {
        let conf = match load_catalog(strip_bom(catalog_text)) {
            Ok(c) => c,
            Err(e) => return Err(ResolveError::CatalogUnreadable(e)),
        };
        let entries = match section_entries(&conf, identifier) {
            Some(v) => v,
            None => return Err(ResolveError::NoSection),
        };
        best_match(requested_version, &entries)
    }
}

/// The best candidate among `entries` for `requested`: the version of highest
/// precedence that `requested` admits, the first of equals; keys that are not
/// versions are passed over.
pub fn best_match(requested: &VersionConstraint, entries: &Vec<(String, String)>) -> (r: Result<
    FixedVersion,
    ResolveError,
>)
    ensures
        match best_entry(requested@, entries_view(entries@)) {
            Some(e) => r matches Ok(v) && v.raw_version_spec() == e.0 && v.hash_spec() == e.1,
            None => r matches Err(ResolveError::NoMatch),
        },
{
    let ghost es = entries_view(entries@);
    let mut best: Option<FixedVersion> = None;
    let mut i: usize = 0;
    while i < entries.len()
        invariant
            es == entries_view(entries@),
            i <= entries@.len(),
            match best_upto(requested@, es, i as int) {
                Some(j) => 0 <= j < i && (best matches Some(v) && v.raw_version_spec() == es[j].0
                    && v.hash_spec() == es[j].1),
                None => best is None,
            },
        decreases entries@.len() - i,
    {
        let (key, value) = &entries[i];
        match ConcreteVersion::parse(key) {
            Ok(v) => {
                if requested.matches(&v) {
                    let better = match &best {
                        Some(b) => match b.get_version().cmp_precedence(&v) {
                            std::cmp::Ordering::Less => true,
                            _ => false,
                        },
                        None => true,
                    };
                    if better {
                        best = Some(FixedVersion::new(v, value.clone()));
                    }
                }
            },
            Err(_) => {},
        }
        i = i + 1;
    }
    match best {
        Some(m) => Ok(m),
        None => Err(ResolveError::NoMatch),
    }
}

/// Index of the newest of the first `n` versions that `req` admits: a later
/// one replaces the newest so far unless it has strictly lower precedence,
/// so among equals the last one stays.
pub open spec fn newest_upto(req: Seq<char>, vs: Seq<FixedVersion>, n: int) -> Option<int>
    decreases n,
{
    if n <= 0 {
        None
    } else {
        let b = newest_upto(req, vs, n - 1);
        if constraint_admits(req, vs[n - 1].raw_version_spec()) && (b is None || !precedes(
            vs[n - 1].raw_version_spec(),
            vs[b->0].raw_version_spec(),
        )) {
            Some(n - 1)
        } else {
            b
        }
    }
}

/// The newest of `versions` that `version_range` admits, the last of equals;
/// `NoMatch` where it admits none.
pub fn get_newest_version<'a>(version_range: &VersionConstraint, versions: &'a Vec<FixedVersion>) -> (r: Result<
    &'a FixedVersion,
    ResolveError,
>)
    ensures
        match newest_upto(version_range@, versions@, versions@.len() as int) {
            Some(i) => r matches Ok(v) && *v == versions@[i],
            None => r matches Err(ResolveError::NoMatch),
        },
{
    let mut newest: Option<usize> = None;
    let mut i: usize = 0;
    while i < versions.len()
        invariant
            i <= versions@.len(),
            match newest_upto(version_range@, versions@, i as int) {
                Some(j) => newest == Some(j as usize) && 0 <= j < i,
                None => newest is None,
            },
        decreases versions@.len() - i,
    {
        let v = &versions[i];
        if version_range.matches(v.get_version()) {
            let replace = match newest {
                Some(b) => match v.cmp_precedence(&versions[b]) {
                    std::cmp::Ordering::Less => false,
                    _ => true,
                },
                None => true,
            };
            if replace {
                newest = Some(i);
            }
        }
        i = i + 1;
    }
    match newest {
        Some(b) => Ok(&versions[b]),
        None => Err(ResolveError::NoMatch),
    }
}

proof fn lemma_newest_upto_highest(req: Seq<char>, vs: Seq<FixedVersion>, n: int)
    requires
        0 <= n <= vs.len(),
        forall|a: Seq<char>, b: Seq<char>, c: Seq<char>|
            #![trigger precedes(a, c), precedes(a, b)]
            precedes(a, c) ==> precedes(a, b) || precedes(b, c),
        forall|a: Seq<char>| !#[trigger] precedes(a, a),
        forall|a: Seq<char>, b: Seq<char>, c: Seq<char>|
            #[trigger] precedes(a, b) && #[trigger] precedes(b, c) ==> precedes(a, c),
    ensures
        newest_upto(req, vs, n) is None <==> (forall|i: int|
            0 <= i < n ==> !#[trigger] constraint_admits(req, vs[i].raw_version_spec())),
        newest_upto(req, vs, n) matches Some(j) ==> 0 <= j < n && constraint_admits(
            req,
            vs[j].raw_version_spec(),
        ) && (forall|i: int|
            0 <= i < n && #[trigger] constraint_admits(req, vs[i].raw_version_spec()) ==> !precedes(
                vs[j].raw_version_spec(),
                vs[i].raw_version_spec(),
            )),
    decreases n,
{
    if n > 0 {
        lemma_newest_upto_highest(req, vs, n - 1);
        let c = vs[n - 1].raw_version_spec();
        if let Some(j) = newest_upto(req, vs, n - 1) {
            let b = vs[j].raw_version_spec();
            assert(constraint_admits(req, b));
            if constraint_admits(req, c) {
                if !precedes(c, b) {
                    assert forall|i: int|
                        0 <= i < n && #[trigger] constraint_admits(
                            req,
                            vs[i].raw_version_spec(),
                        ) implies !precedes(c, vs[i].raw_version_spec()) by {
                        let x = vs[i].raw_version_spec();
                        if i < n - 1 && precedes(c, x) {
                            assert(precedes(c, b) || precedes(b, x));
                        }
                        if i == n - 1 {
                            assert(!precedes(c, c));
                        }
                    }
                } else {
                    if precedes(b, c) {
                        assert(precedes(b, b));
                    }
                }
            }
        } else if constraint_admits(req, c) {
            assert(!precedes(c, c));
        }
    }
}

/// Where precedence is a strict weak order, as that of `semver` is (a total
/// order on precedence), `get_newest_version`'s choice has the highest
/// precedence among the admitted versions, and there is one exactly when the
/// range admits some version.
pub proof fn lemma_newest_is_highest(req: Seq<char>, vs: Seq<FixedVersion>)
    requires
        forall|a: Seq<char>, b: Seq<char>, c: Seq<char>|
            #![trigger precedes(a, c), precedes(a, b)]
            precedes(a, c) ==> precedes(a, b) || precedes(b, c),
        forall|a: Seq<char>| !#[trigger] precedes(a, a),
        forall|a: Seq<char>, b: Seq<char>, c: Seq<char>|
            #[trigger] precedes(a, b) && #[trigger] precedes(b, c) ==> precedes(a, c),
    ensures
        newest_upto(req, vs, vs.len() as int) is None <==> (forall|i: int|
            0 <= i < vs.len() ==> !#[trigger] constraint_admits(req, vs[i].raw_version_spec())),
        newest_upto(req, vs, vs.len() as int) matches Some(j) ==> constraint_admits(
            req,
            vs[j].raw_version_spec(),
        ) && (forall|i: int|
            0 <= i < vs.len() && #[trigger] constraint_admits(req, vs[i].raw_version_spec())
                ==> !precedes(vs[j].raw_version_spec(), vs[i].raw_version_spec())),
{
    lemma_newest_upto_highest(req, vs, vs.len() as int);
}

} // verus!
