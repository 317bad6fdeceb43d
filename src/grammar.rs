//! The tag grammar as a specification, and a verified scanner for it:
//! where tags begin and end in a text, leftmost first, and the byte offsets
//! of those positions.
use vstd::prelude::*;

verus! {

/// Unicode `White_Space`, the characters that separate the version and the
/// timestamp of a tag.
pub open spec fn is_ws(c: char) -> bool {
    let n = c as u32;
    (0x09 <= n && n <= 0x0d) || n == 0x20 || n == 0x85 || n == 0xa0 || n == 0x1680
        || (0x2000 <= n && n <= 0x200a) || n == 0x2028 || n == 0x2029 || n == 0x202f
        || n == 0x205f || n == 0x3000
}

/// Number of bytes of `c` in UTF-8.
pub open spec fn char_width(c: char) -> nat {
    let n = c as u32;
    if n < 0x80 {
        1
    } else if n < 0x800 {
        2
    } else if n < 0x10000 {
        3
    } else {
        4
    }
}

/// Number of bytes of `s` in UTF-8.
pub open spec fn utf8_len(s: Seq<char>) -> nat
    decreases s.len(),
{
    if s.len() == 0 {
        0
    } else {
        utf8_len(s.drop_last()) + char_width(s.last())
    }
}

/// Byte offset of the character at index `i` of `s`.
pub open spec fn byte_offset(s: Seq<char>, i: int) -> nat {
    utf8_len(s.subrange(0, i))
}

/// No character of `s` in `[from, to)` is `stop` or a line break.
pub open spec fn run_avoids(s: Seq<char>, from: int, to: int, stop: char) -> bool {
    forall|q: int| from <= q < to ==> s[q] != stop && s[q] != '\n'
}

/// No character of `s` in `[from, to)` is whitespace.
pub open spec fn run_solid(s: Seq<char>, from: int, to: int) -> bool {
    forall|q: int| from <= q < to ==> !is_ws(s[q])
}

/// The opening `[demver(` of a tag.
pub open spec fn opener() -> Seq<char> {
    seq!['[', 'd', 'e', 'm', 'v', 'e', 'r', '(']
}

/// Character positions of one tag within a text: where it starts, where the
/// constraint, source, identifier and version end, and where the timestamp
/// (and so the whole tag) ends.
pub type Span = (int, int, int, int, int, int);

/// `t` locates a tag in `s`: `[demver(C)|S|I]`, one whitespace character,
/// `V`, whitespace, `@`, whitespace, `T`. `C`, `S` and `I` are non-empty and
/// hold neither their closing delimiter nor a line break; `V` and `T` are
/// non-empty runs without whitespace, and `T` runs as far as it can.
#[verifier::opaque]
pub open spec fn tag_at(s: Seq<char>, t: Span) -> bool {
    let (p, ce, se, ie, ve, te) = t;
    &&& 0 <= p
    &&& p + 8 < ce
    &&& ce + 2 < se
    &&& se + 1 < ie
    &&& ie + 2 < ve
    &&& ve + 3 < te
    &&& te <= s.len()
    &&& s.subrange(p, p + 8) == opener()
    &&& run_avoids(s, p + 8, ce, ')')
    &&& s[ce] == ')'
    &&& s[ce + 1] == '|'
    &&& run_avoids(s, ce + 2, se, '|')
    &&& s[se] == '|'
    &&& run_avoids(s, se + 1, ie, ']')
    &&& s[ie] == ']'
    &&& is_ws(s[ie + 1])
    &&& run_solid(s, ie + 2, ve)
    &&& is_ws(s[ve])
    &&& s[ve + 1] == '@'
    &&& is_ws(s[ve + 2])
    &&& run_solid(s, ve + 3, te)
    &&& (te == s.len() || is_ws(s[te]))
}

/// A tag begins at position `p` of `s`.
pub open spec fn tag_starts_at(s: Seq<char>, p: int) -> bool {
    exists|t: Span| t.0 == p && #[trigger] tag_at(s, t)
}

/// `t` is the leftmost tag of `s` that begins at `from` or later.
pub open spec fn first_tag_from(s: Seq<char>, from: int, t: Span) -> bool {
    &&& from <= t.0
    &&& tag_at(s, t)
    &&& forall|q: int| from <= q < t.0 ==> !#[trigger] tag_starts_at(s, q)
}

/// The leftmost tag of `s` at `from` or later, if there is one.
pub open spec fn next_tag(s: Seq<char>, from: int) -> Option<Span> {
    if exists|t: Span| #[trigger] first_tag_from(s, from, t) {
        Some(choose|t: Span| #[trigger] first_tag_from(s, from, t))
    } else {
        None
    }
}

/// The tags of `s` from position `from` on, leftmost first, each search
/// resuming where the previous tag ended.
pub open spec fn tags_from(s: Seq<char>, from: int) -> Seq<Span>
    decreases s.len() - from,
{
    if from < 0 || from > s.len() {
        seq![]
    } else {
        match next_tag(s, from) {
            Some(t) => if from < t.5 <= s.len() {
                seq![t] + tags_from(s, t.5)
            } else {
                seq![]
            },
            None => seq![],
        }
    }
}

/// All the tags of `s`, leftmost first.
pub open spec fn tags_of(s: Seq<char>) -> Seq<Span> {
    tags_from(s, 0)
}

pub open spec fn span_of(t: (usize, usize, usize, usize, usize, usize)) -> Span {
    (t.0 as int, t.1 as int, t.2 as int, t.3 as int, t.4 as int, t.5 as int)
}

pub(crate) proof fn lemma_tag_bounds(s: Seq<char>, t: Span)
    requires
        tag_at(s, t),
    ensures
        0 <= t.0 < t.0 + 8 < t.1 < t.1 + 2 < t.2 < t.2 + 1 < t.3 < t.3 + 2 < t.4 < t.4 + 3 < t.5 <= s.len(),
{
    reveal(tag_at);
}

proof fn lemma_runs_end_alike(s: Seq<char>, t1: Span, t2: Span)
    requires
        tag_at(s, t1),
        tag_at(s, t2),
        t1.0 == t2.0,
    ensures
        t1 == t2,
{
    reveal(tag_at);
    let (p, ce1, se1, ie1, ve1, te1) = t1;
    let (_, ce2, se2, ie2, ve2, te2) = t2;
    if ce1 < ce2 {
        assert(s[ce1] != ')');
    }
    if ce2 < ce1 {
        assert(s[ce2] != ')');
    }
    if se1 < se2 {
        assert(s[se1] != '|');
    }
    if se2 < se1 {
        assert(s[se2] != '|');
    }
    if ie1 < ie2 {
        assert(s[ie1] != ']');
    }
    if ie2 < ie1 {
        assert(s[ie2] != ']');
    }
    if ve1 < ve2 {
        assert(!is_ws(s[ve1]));
    }
    if ve2 < ve1 {
        assert(!is_ws(s[ve2]));
    }
    if te1 < te2 {
        assert(!is_ws(s[te1]));
    }
    if te2 < te1 {
        assert(!is_ws(s[te2]));
    }
}

proof fn lemma_first_tag_unique(s: Seq<char>, from: int, t1: Span, t2: Span)
    requires
        first_tag_from(s, from, t1),
        first_tag_from(s, from, t2),
    ensures
        t1 == t2,
{
    if t1.0 < t2.0 {
        assert(tag_starts_at(s, t1.0));
    } else if t2.0 < t1.0 {
        assert(tag_starts_at(s, t2.0));
    }
    lemma_runs_end_alike(s, t1, t2);
}

proof fn lemma_next_tag_is(s: Seq<char>, from: int, t: Span)
    requires
        first_tag_from(s, from, t),
    ensures
        next_tag(s, from) == Some(t),
{
    let c = choose|t: Span| #[trigger] first_tag_from(s, from, t);
    lemma_first_tag_unique(s, from, t, c);
}

/// First index at or after `from` whose character is `stop` or a line break,
/// or the length.
fn run_end(s: &Vec<char>, from: usize, stop: char) -> (r: usize)
    requires
        from <= s@.len(),
    ensures
        from <= r <= s@.len(),
        run_avoids(s@, from as int, r as int, stop),
        r < s@.len() ==> (s@[r as int] == stop || s@[r as int] == '\n'),
{
    let mut i: usize = from;
    while i < s.len() && s[i] != stop && s[i] != '\n'
        invariant
            from <= i <= s@.len(),
            run_avoids(s@, from as int, i as int, stop),
        decreases s@.len() - i,
    {
        i = i + 1;
    }
    i
}

fn is_ws_char(c: char) -> (r: bool)
    ensures
        r == is_ws(c),
{
    let n = c as u32;
    (0x09 <= n && n <= 0x0d) || n == 0x20 || n == 0x85 || n == 0xa0 || n == 0x1680 || (0x2000
        <= n && n <= 0x200a) || n == 0x2028 || n == 0x2029 || n == 0x202f || n == 0x205f || n
        == 0x3000
}

/// First index at or after `from` whose character is whitespace, or the length.
fn solid_end(s: &Vec<char>, from: usize) -> (r: usize)
    requires
        from <= s@.len(),
    ensures
        from <= r <= s@.len(),
        run_solid(s@, from as int, r as int),
        r < s@.len() ==> is_ws(s@[r as int]),
{
    let mut i: usize = from;
    while i < s.len() && !is_ws_char(s[i])
        invariant
            from <= i <= s@.len(),
            run_solid(s@, from as int, i as int),
        decreases s@.len() - i,
    {
        i = i + 1;
    }
    i
}

fn opener_at(s: &Vec<char>, p: usize) -> (r: bool)
    requires
        p <= s@.len(),
    ensures
        r == (p + 8 <= s@.len() && s@.subrange(p as int, p + 8) == opener()),
{
    if s.len() - p < 8 {
        return false;
    }
    let r = s[p] == '[' && s[p + 1] == 'd' && s[p + 2] == 'e' && s[p + 3] == 'm' && s[p + 4]
        == 'v' && s[p + 5] == 'e' && s[p + 6] == 'r' && s[p + 7] == '(';
    proof {
        let w = s@.subrange(p as int, p + 8);
        if r {
            assert(w =~= opener());
        } else {
            if w == opener() {
                assert(w[0] == opener()[0]);
                assert(w[1] == opener()[1]);
                assert(w[2] == opener()[2]);
                assert(w[3] == opener()[3]);
                assert(w[4] == opener()[4]);
                assert(w[5] == opener()[5]);
                assert(w[6] == opener()[6]);
                assert(w[7] == opener()[7]);
            }
        }
    }
    r
}

/// The tag that begins at `p`, if one does.
fn match_at(s: &Vec<char>, p: usize) -> (r: Option<(usize, usize, usize, usize, usize, usize)>)
    requires
        p <= s@.len(),
    ensures
        r matches Some(t) ==> t.0 == p && tag_at(s@, span_of(t)),
        r is None ==> !tag_starts_at(s@, p as int),
{
    proof {
        reveal(tag_at);
    }
    let n = s.len();
    if !opener_at(s, p) {
        proof {
            assert forall|t: Span| t.0 == p implies !#[trigger] tag_at(s@, t) by {
                if tag_at(s@, t) {
                    assert(s@.subrange(p as int, p + 8) == opener());
                }
            }
        }
        return None;
    }
    let ce = run_end(s, p + 8, ')');
    if !(ce > p + 8 && n - ce > 1 && s[ce] == ')' && s[ce + 1] == '|') {
        proof {
            assert forall|t: Span| t.0 == p implies !#[trigger] tag_at(s@, t) by {
                if tag_at(s@, t) {
                    if t.1 < ce {
                        assert(s@[t.1] != ')');
                    }
                    if ce < t.1 {
                        assert(s@[ce as int] != ')' && s@[ce as int] != '\n');
                    }
                }
            }
        }
        return None;
    }
    let se = run_end(s, ce + 2, '|');
    if !(se > ce + 2 && se < n && s[se] == '|') {
        proof {
            assert forall|t: Span| t.0 == p implies !#[trigger] tag_at(s@, t) by {
                if tag_at(s@, t) {
                    lemma_cut(s@, t, ce as int, se as int, 0, 0, 0, 1);
                }
            }
        }
        return None;
    }
    let ie = run_end(s, se + 1, ']');
    if !(ie > se + 1 && n - ie > 1 && s[ie] == ']' && is_ws_char(s[ie + 1])) {
        proof {
            assert forall|t: Span| t.0 == p implies !#[trigger] tag_at(s@, t) by {
                if tag_at(s@, t) {
                    lemma_cut(s@, t, ce as int, se as int, ie as int, 0, 0, 2);
                }
            }
        }
        return None;
    }
    let ve = solid_end(s, ie + 2);
    if !(ve > ie + 2 && n - ve > 2 && s[ve + 1] == '@' && is_ws_char(s[ve + 2])) {
        proof {
            assert forall|t: Span| t.0 == p implies !#[trigger] tag_at(s@, t) by {
                if tag_at(s@, t) {
                    lemma_cut(s@, t, ce as int, se as int, ie as int, ve as int, 0, 3);
                }
            }
        }
        return None;
    }
    let te = solid_end(s, ve + 3);
    if !(te > ve + 3) {
        proof {
            assert forall|t: Span| t.0 == p implies !#[trigger] tag_at(s@, t) by {
                if tag_at(s@, t) {
                    lemma_cut(s@, t, ce as int, se as int, ie as int, ve as int, te as int, 4);
                }
            }
        }
        return None;
    }
    Some((p, ce, se, ie, ve, te))
}

/// Where the scan of a tag's runs stops, each run ends where the tag says:
/// the helper behind `match_at`'s rejections. `stage` says how many runs were
/// found as the tag has them.
proof fn lemma_cut(s: Seq<char>, t: Span, ce: int, se: int, ie: int, ve: int, te: int, stage: int)
    requires
        tag_at(s, t),
        t.0 + 8 <= ce <= s.len(),
        ce < s.len() ==> (s[ce] == ')' || s[ce] == '\n'),
        run_avoids(s, t.0 + 8, ce, ')'),
        stage >= 1 ==> {
            &&& ce + 2 <= se <= s.len()
            &&& (se < s.len() ==> (s[se] == '|' || s[se] == '\n'))
            &&& run_avoids(s, ce + 2, se, '|')
        },
        stage >= 2 ==> {
            &&& se + 1 <= ie <= s.len()
            &&& (ie < s.len() ==> (s[ie] == ']' || s[ie] == '\n'))
            &&& run_avoids(s, se + 1, ie, ']')
        },
        stage >= 3 ==> {
            &&& ie + 2 <= ve <= s.len()
            &&& (ve < s.len() ==> is_ws(s[ve]))
            &&& run_solid(s, ie + 2, ve)
        },
        stage >= 4 ==> {
            &&& ve + 3 <= te <= s.len()
            &&& (te < s.len() ==> is_ws(s[te]))
            &&& run_solid(s, ve + 3, te)
        },
    ensures
        ce == t.1,
        stage >= 1 ==> se == t.2,
        stage >= 2 ==> ie == t.3,
        stage >= 3 ==> ve == t.4,
        stage >= 4 ==> te == t.5,
{
    reveal(tag_at);
    if t.1 < ce {
        assert(s[t.1] != ')');
    }
    if ce < t.1 {
        assert(s[ce] != ')' && s[ce] != '\n');
    }
    if stage >= 1 {
        if t.2 < se {
            assert(s[t.2] != '|');
        }
        if se < t.2 {
            assert(s[se] != '|' && s[se] != '\n');
        }
    }
    if stage >= 2 {
        if t.3 < ie {
            assert(s[t.3] != ']');
        }
        if ie < t.3 {
            assert(s[ie] != ']' && s[ie] != '\n');
        }
    }
    if stage >= 3 {
        if t.4 < ve {
            assert(!is_ws(s[t.4]));
        }
        if ve < t.4 {
            assert(!is_ws(s[ve]));
        }
    }
    if stage >= 4 {
        if t.5 < te {
            assert(!is_ws(s[t.5]));
        }
        if te < t.5 {
            assert(!is_ws(s[te]));
        }
    }
}

/// The leftmost tag that begins at `from` or later.
pub(crate) fn find_next(s: &Vec<char>, from: usize) -> (r: Option<(usize, usize, usize, usize, usize, usize)>)
    requires
        from <= s@.len(),
    ensures
        r matches Some(t) ==> from <= t.0 && tag_at(s@, span_of(t)) && next_tag(s@, from as int)
            == Some(span_of(t)),
        r is None ==> next_tag(s@, from as int) is None,
{
    let mut q: usize = from;
    while q < s.len()
        invariant
            from <= q <= s@.len(),
            forall|k: int| from <= k < q ==> !#[trigger] tag_starts_at(s@, k),
        decreases s@.len() - q,
    {
        match match_at(s, q) {
            Some(t) => {
                proof {
                    assert(first_tag_from(s@, from as int, span_of(t)));
                    lemma_next_tag_is(s@, from as int, span_of(t));
                }
                return Some(t);
            },
            None => {},
        }
        q = q + 1;
    }
    proof {
        assert forall|t: Span| !#[trigger] first_tag_from(s@, from as int, t) by {
            if first_tag_from(s@, from as int, t) {
                lemma_tag_bounds(s@, t);
                assert(tag_starts_at(s@, t.0));
            }
        }
    }
    None
}

pub(crate) proof fn lemma_tags_from_none(s: Seq<char>, from: int, all: Seq<Span>, k: int)
    requires
        0 <= from <= s.len(),
        0 <= k <= all.len(),
        next_tag(s, from) is None,
        tags_from(s, from) == all.skip(k),
    ensures
        k == all.len(),
{
    assert(all.skip(k).len() == 0);
}

pub(crate) proof fn lemma_tags_from_step(s: Seq<char>, from: int, t: Span, all: Seq<Span>, k: int)
    requires
        0 <= from < t.5 <= s.len(),
        0 <= k <= all.len(),
        next_tag(s, from) == Some(t),
        tags_from(s, from) == all.skip(k),
    ensures
        k < all.len(),
        all[k] == t,
        tags_from(s, t.5) == all.skip(k + 1),
{
    assert(tags_from(s, from) == seq![t] + tags_from(s, t.5));
    assert(all.skip(k)[0] == t);
    assert(all.skip(k + 1) =~= all.skip(k).drop_first());
    assert(all.skip(k).drop_first() =~= tags_from(s, t.5));
}

proof fn lemma_byte_offset_step(s: Seq<char>, i: int)
    requires
        0 <= i < s.len(),
    ensures
        byte_offset(s, i + 1) == byte_offset(s, i) + char_width(s[i]),
{
    assert(s.subrange(0, i + 1).drop_last() =~= s.subrange(0, i));
}

proof fn lemma_byte_offset_grows(s: Seq<char>, i: int, j: int)
    requires
        0 <= i <= j <= s.len(),
    ensures
        byte_offset(s, i) <= byte_offset(s, j),
        byte_offset(s, j) <= utf8_len(s),
    decreases s.len() - i,
{
    if i < s.len() {
        lemma_byte_offset_step(s, i);
        if i < j {
            lemma_byte_offset_grows(s, i + 1, j);
        } else {
            lemma_byte_offset_grows(s, i + 1, s.len() as int);
        }
    } else {
        assert(s.subrange(0, s.len() as int) =~= s);
    }
}

fn char_width_of(c: char) -> (r: usize)
    ensures
        r == char_width(c),
{
    let n = c as u32;
    if n < 0x80 {
        1
    } else if n < 0x800 {
        2
    } else if n < 0x10000 {
        3
    } else {
        4
    }
}

/// Byte offset of index `to`, counted on from the byte offset `b` of index `from`.
pub(crate) fn advance(s: &Vec<char>, from: usize, b: usize, to: usize) -> (r: usize)
    requires
        from <= to <= s@.len(),
        b == byte_offset(s@, from as int),
        utf8_len(s@) <= usize::MAX,
    ensures
        r == byte_offset(s@, to as int),
{
    let mut i: usize = from;
    let mut b: usize = b;
    while i < to
        invariant
            from <= i <= to <= s@.len(),
            b == byte_offset(s@, i as int),
            utf8_len(s@) <= usize::MAX,
        decreases to - i,
    {
        proof {
            lemma_byte_offset_step(s@, i as int);
            lemma_byte_offset_grows(s@, i + 1, s@.len() as int);
        }
        b = b + char_width_of(s[i]);
        i = i + 1;
    }
    b
}

/// Relies on str::chars: the characters of the text, in order.
#[verifier::external_body]
pub(crate) fn chars_of(text: &str) -> (r: Vec<char>)
    ensures
        r@ == text@,
{
    text.chars().collect()
}

/// The text of a tag written with single spaces: `[demver(c)|s|i] v @ t`.
pub open spec fn tag_text(
    c: Seq<char>,
    s: Seq<char>,
    i: Seq<char>,
    v: Seq<char>,
    t: Seq<char>,
) -> Seq<char> {
    opener() + c + seq![')', '|'] + s + seq!['|'] + i + seq![']', ' '] + v + seq![' ', '@', ' ']
        + t
}

/// Fields that the grammar accepts: `c`, `s` and `i` non-empty and free of
/// their closing delimiter and of line breaks, `v` and `t` non-empty and free
/// of whitespace.
pub open spec fn fields_well_formed(
    c: Seq<char>,
    s: Seq<char>,
    i: Seq<char>,
    v: Seq<char>,
    t: Seq<char>,
) -> bool {
    &&& c.len() > 0 && run_avoids(c, 0, c.len() as int, ')')
    &&& s.len() > 0 && run_avoids(s, 0, s.len() as int, '|')
    &&& i.len() > 0 && run_avoids(i, 0, i.len() as int, ']')
    &&& v.len() > 0 && run_solid(v, 0, v.len() as int)
    &&& t.len() > 0 && run_solid(t, 0, t.len() as int)
}

proof fn lemma_no_tag_from_end(x: Seq<char>, from: int)
    requires
        0 <= from,
        forall|q: int| from <= q ==> !#[trigger] tag_starts_at(x, q),
    ensures
        next_tag(x, from) is None,
{
    assert forall|t: Span| !#[trigger] first_tag_from(x, from, t) by {
        if first_tag_from(x, from, t) {
            assert(tag_starts_at(x, t.0));
        }
    }
}

/// Where the tag text of these fields has its fields.
pub open spec fn text_span(c: Seq<char>, s: Seq<char>, i: Seq<char>, v: Seq<char>, t: Seq<char>) -> Span {
    let ce: int = 8 + c.len() as int;
    let se: int = ce + 2 + s.len();
    let ie: int = se + 1 + i.len();
    let ve: int = ie + 2 + v.len();
    (0, ce, se, ie, ve, ve + 3 + t.len())
}

/// `sp` moved `o` characters to the right.
pub open spec fn shifted(sp: Span, o: int) -> Span {
    (sp.0 + o, sp.1 + o, sp.2 + o, sp.3 + o, sp.4 + o, sp.5 + o)
}

proof fn lemma_tag_text_at(c: Seq<char>, s: Seq<char>, i: Seq<char>, v: Seq<char>, t: Seq<char>)
    requires
        fields_well_formed(c, s, i, v, t),
    ensures
        ({
            let x = tag_text(c, s, i, v, t);
            let sp = text_span(c, s, i, v, t);
            &&& tag_at(x, sp)
            &&& sp.5 == x.len()
            &&& x.subrange(sp.0 + 8, sp.1) == c
            &&& x.subrange(sp.1 + 2, sp.2) == s
            &&& x.subrange(sp.2 + 1, sp.3) == i
            &&& x.subrange(sp.3 + 2, sp.4) == v
            &&& x.subrange(sp.4 + 3, sp.5) == t
        }),
{
    reveal(tag_at);
    let x = tag_text(c, s, i, v, t);
    let sp = text_span(c, s, i, v, t);
    let (_, ce, se, ie, ve, te) = sp;
    assert(x.len() == te);
    assert(x.subrange(0, 8) =~= opener());
    assert(x.subrange(8, ce) =~= c);
    assert(x.subrange(ce + 2, se) =~= s);
    assert(x.subrange(se + 1, ie) =~= i);
    assert(x.subrange(ie + 2, ve) =~= v);
    assert(x.subrange(ve + 3, te) =~= t);
    assert(x[ce] == ')' && x[ce + 1] == '|' && x[se] == '|' && x[ie] == ']' && x[ie + 1] == ' ');
    assert(x[ve] == ' ' && x[ve + 1] == '@' && x[ve + 2] == ' ');
    assert forall|q: int| 8 <= q < ce implies x[q] != ')' && x[q] != '\n' by {
        assert(x[q] == c[q - 8]);
    }
    assert forall|q: int| ce + 2 <= q < se implies x[q] != '|' && x[q] != '\n' by {
        assert(x[q] == s[q - ce - 2]);
    }
    assert forall|q: int| se + 1 <= q < ie implies x[q] != ']' && x[q] != '\n' by {
        assert(x[q] == i[q - se - 1]);
    }
    assert forall|q: int| ie + 2 <= q < ve implies !is_ws(x[q]) by {
        assert(x[q] == v[q - ie - 2]);
    }
    assert forall|q: int| ve + 3 <= q < te implies !is_ws(x[q]) by {
        assert(x[q] == t[q - ve - 3]);
    }
}

/// Tokenizing the text of one well-formed tag gives back exactly its five
/// fields, and the tag spans the whole text.
pub proof fn lemma_tag_text_round_trip(
    c: Seq<char>,
    s: Seq<char>,
    i: Seq<char>,
    v: Seq<char>,
    t: Seq<char>,
)
    requires
        fields_well_formed(c, s, i, v, t),
    ensures
        ({
            let x = tag_text(c, s, i, v, t);
            let found = tags_of(x);
            &&& found.len() == 1
            &&& found[0].0 == 0
            &&& found[0].5 == x.len()
            &&& x.subrange(found[0].0 + 8, found[0].1) == c
            &&& x.subrange(found[0].1 + 2, found[0].2) == s
            &&& x.subrange(found[0].2 + 1, found[0].3) == i
            &&& x.subrange(found[0].3 + 2, found[0].4) == v
            &&& x.subrange(found[0].4 + 3, found[0].5) == t
        }),
{
    let x = tag_text(c, s, i, v, t);
    let sp = text_span(c, s, i, v, t);
    lemma_tag_text_at(c, s, i, v, t);
    assert(first_tag_from(x, 0, sp));
    lemma_next_tag_is(x, 0, sp);
    assert forall|q: int| sp.5 <= q implies !#[trigger] tag_starts_at(x, q) by {
        if tag_starts_at(x, q) {
            let w = choose|w: Span| w.0 == q && #[trigger] tag_at(x, w);
            lemma_tag_bounds(x, w);
        }
    }
    lemma_no_tag_from_end(x, sp.5);
    assert(tags_from(x, sp.5) =~= seq![]);
    assert(tags_of(x) =~= seq![sp]);
}

proof fn lemma_tag_shift(pre: Seq<char>, tt: Seq<char>, post: Seq<char>, sp: Span)
    requires
        tag_at(tt, sp),
        sp.0 == 0,
        sp.5 == tt.len(),
        post.len() == 0 || is_ws(post[0]),
    ensures
        tag_at(pre + tt + post, shifted(sp, pre.len() as int)),
{
    reveal(tag_at);
    let x = pre + tt + post;
    let o = pre.len() as int;
    assert forall|q: int| o <= q < o + tt.len() implies x[q] == tt[q - o] by {}
    assert(x.subrange(o, o + 8) =~= tt.subrange(0, 8));
    if o + tt.len() < x.len() {
        assert(x[o + tt.len()] == post[0]);
    }
}

proof fn lemma_plain_prefix(x: Seq<char>, o: int)
    requires
        0 <= o <= x.len(),
        forall|k: int| 0 <= k < o ==> x[k] != '[',
    ensures
        forall|q: int| 0 <= q < o ==> !#[trigger] tag_starts_at(x, q),
{
    reveal(tag_at);
    assert forall|q: int| 0 <= q < o implies !#[trigger] tag_starts_at(x, q) by {
        if tag_starts_at(x, q) {
            let w = choose|w: Span| w.0 == q && #[trigger] tag_at(x, w);
            assert(x.subrange(q, q + 8)[0] == x[q]);
        }
    }
}

/// A well-formed tag preceded by text without `[` and followed by nothing or
/// by whitespace is the first tag found: tokenizing gives back its five
/// fields, and its span covers exactly the tag, from the byte length of the
/// text before it.
pub proof fn lemma_tag_in_text(
    pre: Seq<char>,
    c: Seq<char>,
    s: Seq<char>,
    i: Seq<char>,
    v: Seq<char>,
    t: Seq<char>,
    post: Seq<char>,
)
    requires
        fields_well_formed(c, s, i, v, t),
        forall|k: int| 0 <= k < pre.len() ==> pre[k] != '[',
        post.len() == 0 || is_ws(post[0]),
    ensures
        ({
            let x = pre + tag_text(c, s, i, v, t) + post;
            let found = tags_of(x);
            &&& found.len() >= 1
            &&& found[0].0 == pre.len()
            &&& x.subrange(found[0].0, found[0].5) == tag_text(c, s, i, v, t)
            &&& x.subrange(found[0].0 + 8, found[0].1) == c
            &&& x.subrange(found[0].1 + 2, found[0].2) == s
            &&& x.subrange(found[0].2 + 1, found[0].3) == i
            &&& x.subrange(found[0].3 + 2, found[0].4) == v
            &&& x.subrange(found[0].4 + 3, found[0].5) == t
            &&& byte_offset(x, found[0].0) == utf8_len(pre)
        }),
{
    let tt = tag_text(c, s, i, v, t);
    let x = pre + tt + post;
    let o = pre.len() as int;
    let sp0 = text_span(c, s, i, v, t);
    let sp = shifted(sp0, o);
    lemma_tag_text_at(c, s, i, v, t);
    lemma_tag_shift(pre, tt, post, sp0);
    lemma_tag_bounds(x, sp);
    assert forall|k: int| 0 <= k < o implies x[k] != '[' by {
        assert(x[k] == pre[k]);
    }
    lemma_plain_prefix(x, o);
    assert(first_tag_from(x, 0, sp));
    lemma_next_tag_is(x, 0, sp);
    assert(tags_from(x, 0) == seq![sp] + tags_from(x, sp.5));
    assert forall|q: int| o <= q < o + tt.len() implies x[q] == tt[q - o] by {}
    assert(x.subrange(0, o) =~= pre);
    assert(x.subrange(o, sp.5) =~= tt);
    assert(x.subrange(sp.0 + 8, sp.1) =~= tt.subrange(sp0.0 + 8, sp0.1));
    assert(x.subrange(sp.1 + 2, sp.2) =~= tt.subrange(sp0.1 + 2, sp0.2));
    assert(x.subrange(sp.2 + 1, sp.3) =~= tt.subrange(sp0.2 + 1, sp0.3));
    assert(x.subrange(sp.3 + 2, sp.4) =~= tt.subrange(sp0.3 + 2, sp0.4));
    assert(x.subrange(sp.4 + 3, sp.5) =~= tt.subrange(sp0.4 + 3, sp0.5));
}

/// A text in which no tag begins anywhere tokenizes to nothing.
pub proof fn lemma_no_tags(x: Seq<char>)
    requires
        forall|q: int| !#[trigger] tag_starts_at(x, q),
    ensures
        tags_of(x).len() == 0,
{
    lemma_no_tag_from_end(x, 0);
}

/// A text that holds exactly the non-overlapping tags `ts`, in order, and no
/// other place where a tag begins, tokenizes to exactly those tags.
pub proof fn lemma_tags_found_in_order(x: Seq<char>, ts: Seq<Span>)
    requires
        forall|k: int| 0 <= k < ts.len() ==> tag_at(x, #[trigger] ts[k]),
        forall|a: int, b: int| 0 <= a < b < ts.len() ==> (#[trigger] ts[a]).5 <= (#[trigger] ts[b]).0,
        forall|q: int| #[trigger] tag_starts_at(x, q) ==> exists|k: int| 0 <= k < ts.len() && ts[k].0 == q,
    ensures
        tags_of(x) == ts,
{
    if ts.len() > 0 {
        lemma_tag_bounds(x, ts[0]);
    }
    lemma_tags_found_from(x, ts, 0, 0);
    assert(ts.skip(0) =~= ts);
}

proof fn lemma_tags_found_from(x: Seq<char>, ts: Seq<Span>, k: int, from: int)
    requires
        forall|k: int| 0 <= k < ts.len() ==> tag_at(x, #[trigger] ts[k]),
        forall|a: int, b: int| 0 <= a < b < ts.len() ==> (#[trigger] ts[a]).5 <= (#[trigger] ts[b]).0,
        forall|q: int| #[trigger] tag_starts_at(x, q) ==> exists|k: int| 0 <= k < ts.len() && ts[k].0 == q,
        0 <= k <= ts.len(),
        0 <= from <= x.len(),
        k < ts.len() ==> from <= ts[k].0,
        k > 0 ==> ts[k - 1].5 <= from,
    ensures
        tags_from(x, from) == ts.skip(k),
    decreases ts.len() - k,
{
    if k == ts.len() {
        assert forall|t: Span| !#[trigger] first_tag_from(x, from, t) by {
            if first_tag_from(x, from, t) {
                assert(tag_starts_at(x, t.0));
                let m = choose|m: int| 0 <= m < ts.len() && ts[m].0 == t.0;
                lemma_tag_bounds(x, ts[m]);
                lemma_tag_bounds(x, ts[k - 1]);
                if m < k - 1 {
                    assert(ts[m].5 <= ts[k - 1].0);
                }
            }
        }
        assert(ts.skip(k) =~= seq![]);
    } else {
        let tk = ts[k];
        lemma_tag_bounds(x, tk);
        assert forall|q: int| from <= q < tk.0 implies !#[trigger] tag_starts_at(x, q) by {
            if tag_starts_at(x, q) {
                let m = choose|m: int| 0 <= m < ts.len() && ts[m].0 == q;
                lemma_tag_bounds(x, ts[m]);
                if m < k {
                    lemma_tag_bounds(x, ts[k - 1]);
                    if m < k - 1 {
                        assert(ts[m].5 <= ts[k - 1].0);
                    }
                } else if m > k {
                    assert(tk.5 <= ts[m].0);
                }
            }
        }
        assert(first_tag_from(x, from, tk));
        lemma_next_tag_is(x, from, tk);
        lemma_tags_found_from(x, ts, k + 1, tk.5);
        assert(ts.skip(k) =~= seq![tk] + ts.skip(k + 1));
    }
}

} // verus!
