//! Pages of a book: which form of a page a client gets, and the files inside an EPUB.
use vstd::prelude::*;

use crate::error::{status_error, ApiError};
use crate::sorting::{stable_order, SortKey};
use crate::text::{
    chars_lt, chars_of, eq_ignore_case, find_char, has_text, lowercase, push_decimal_i64, split_at,
    string_of, text_eq, trim,
};

verus! {

// ---- what a client accepts ----

/// A media range that a client accepts.
#[derive(Debug, PartialEq, Eq)]
pub struct Mime {
    pub type_: String,
    pub subtype: String,
    pub specificity_rank: u8,
    pub param_count: usize,
}

/// A [`Mime`] by its texts.
#[verifier::ext_equal]
pub struct MimeView {
    pub type_: Seq<char>,
    pub subtype: Seq<char>,
    pub specificity_rank: u8,
    pub param_count: nat,
}

impl DeepView for Mime {
    type V = MimeView;

    open spec fn deep_view(&self) -> MimeView {
        MimeView {
            type_: self.type_@,
            subtype: self.subtype@,
            specificity_rank: self.specificity_rank,
            param_count: self.param_count as nat,
        }
    }
}

/// How far down a media range goes when the most specific come first.
pub open spec fn rank_of(type_: Seq<char>, subtype: Seq<char>) -> u8 {
    if type_ == "*"@ {
        2
    } else if subtype == "*"@ {
        1
    } else {
        0
    }
}

/// The media range in one part of a header, with the number of its parameters.
pub open spec fn accept_part(part: Seq<char>) -> Option<MimeView> {
    let p = crate::text::trimmed(part);
    let semicolon = crate::text::first_at(p, ';');
    let mime = crate::text::trimmed(p.take(semicolon));
    let params = p.skip(semicolon + 1);
    let slash = crate::text::first_at(mime, '/');
    let type_ = crate::text::trimmed(mime.take(slash));
    let subtype = crate::text::trimmed(mime.skip(slash + 1));
    if slash >= mime.len() || type_.len() == 0 || subtype.len() == 0 {
        None
    } else {
        Some(
            MimeView {
                type_,
                subtype,
                specificity_rank: rank_of(type_, subtype),
                param_count: if semicolon >= p.len() || params.len() == 0 {
                    0
                } else {
                    crate::text::split(params, ';').len()
                },
            },
        )
    }
}

/// The media ranges in the parts of a header, without what is none.
pub open spec fn accept_parts(parts: Seq<Seq<char>>) -> Seq<MimeView>
    decreases parts.len(),
{
    if parts.len() == 0 {
        Seq::empty()
    } else {
        match accept_part(parts.last()) {
            Some(m) => accept_parts(parts.drop_last()).push(m),
            None => accept_parts(parts.drop_last()),
        }
    }
}

/// The media ranges that a header names.
pub open spec fn accepted(header: Seq<char>) -> Seq<MimeView> {
    accept_parts(crate::text::split(header, ','))
}

/// Whether this can be the type or the subtype of a media range: there is something of it, without
/// white space and without the characters that end it.
pub open spec fn is_range_name(s: Seq<char>) -> bool {
    s.len() > 0 && forall|k: int|
        0 <= k < s.len() ==> !crate::text::is_space(#[trigger] s[k]) && s[k] != '/' && s[k] != ';'
}

proof fn lemma_untrimmed(s: Seq<char>)
    requires
        s.len() > 0,
        !crate::text::is_space(s[0]),
        !crate::text::is_space(s.last()),
    ensures
        crate::text::trimmed(s) == s,
{
    let none = Seq::<char>::empty();
    crate::text::trimming_keeps_the_text(none, s, none);
    assert(none + s + none =~= s);
}

proof fn lemma_range_parts(type_: Seq<char>, subtype: Seq<char>)
    requires
        is_range_name(type_),
        is_range_name(subtype),
    ensures
        ({
            let mime = type_ + seq!['/'] + subtype;
            &&& mime.len() == type_.len() + 1 + subtype.len()
            &&& mime[0] == type_[0]
            &&& crate::text::trimmed(mime) == mime
            &&& forall|k: int| 0 <= k < mime.len() ==> #[trigger] mime[k] != ';'
            &&& crate::text::first_at(mime, '/') == type_.len()
            &&& crate::text::trimmed(mime.take(type_.len() as int)) == type_
            &&& crate::text::trimmed(mime.skip(type_.len() as int + 1)) == subtype
        }),
{
    let mime = type_ + seq!['/'] + subtype;
    assert(mime[0] == type_[0]);
    assert(mime.last() == subtype[subtype.len() - 1]);
    lemma_untrimmed(mime);
    assert(type_.last() == type_[type_.len() - 1]);
    lemma_untrimmed(type_);
    lemma_untrimmed(subtype);
    assert forall|k: int| 0 <= k < mime.len() implies #[trigger] mime[k] != ';' by {
        if k < type_.len() {
            assert(mime[k] == type_[k]);
        } else if k > type_.len() {
            assert(mime[k] == subtype[k - type_.len() - 1]);
        }
    }
    assert forall|k: int| 0 <= k < type_.len() implies #[trigger] mime[k] != '/' by {
        assert(mime[k] == type_[k]);
    }
    crate::text::lemma_first_at_is(mime, '/', type_.len() as int);
    assert(mime.take(type_.len() as int) =~= type_);
    assert(mime.skip(type_.len() as int + 1) =~= subtype);
}

/// A media range is read as it is written: its type and its subtype, without parameters.
pub proof fn written_range_is_read(type_: Seq<char>, subtype: Seq<char>)
    requires
        is_range_name(type_),
        is_range_name(subtype),
    ensures
        accept_part(type_ + seq!['/'] + subtype) is Some,
        accept_part(type_ + seq!['/'] + subtype)->0.type_ == type_,
        accept_part(type_ + seq!['/'] + subtype)->0.subtype == subtype,
        accept_part(type_ + seq!['/'] + subtype)->0.param_count == 0,
        accept_part(type_) is None,
{
    let mime = type_ + seq!['/'] + subtype;
    lemma_range_parts(type_, subtype);
    crate::text::lemma_first_at_is(mime, ';', mime.len() as int);
    assert(mime.take(mime.len() as int) =~= mime);
    assert(type_.last() == type_[type_.len() - 1]);
    lemma_untrimmed(type_);
    crate::text::lemma_first_at_is(type_, ';', type_.len() as int);
    crate::text::lemma_first_at_is(type_, '/', type_.len() as int);
    assert(type_.take(type_.len() as int) =~= type_);
}

/// What follows a semicolon in a media range are parameters: they are counted, and change nothing else.
pub proof fn parameters_are_counted(type_: Seq<char>, subtype: Seq<char>, params: Seq<char>)
    requires
        is_range_name(type_),
        is_range_name(subtype),
        params.len() > 0,
        !crate::text::is_space(params.last()),
    ensures
        accept_part(type_ + seq!['/'] + subtype + seq![';'] + params) == Some(
            MimeView {
                param_count: crate::text::split(params, ';').len(),
                ..accept_part(type_ + seq!['/'] + subtype)->0
            },
        ),
{
    written_range_is_read(type_, subtype);
    let mime = type_ + seq!['/'] + subtype;
    lemma_range_parts(type_, subtype);
    let n = mime.len() as int;
    let whole = mime + seq![';'] + params;
    assert(whole[0] == mime[0]);
    assert(whole.last() == params.last());
    lemma_untrimmed(whole);
    assert forall|k: int| 0 <= k < n implies #[trigger] whole[k] != ';' by {
        assert(whole[k] == mime[k]);
    }
    crate::text::lemma_first_at_is(whole, ';', n);
    assert(whole.take(n) =~= mime);
    assert(whole.skip(n + 1) =~= params);
}

proof fn lemma_accept_parts_first(first: Seq<char>, rest: Seq<Seq<char>>)
    ensures
        accept_parts(seq![first] + rest) == accept_parts(seq![first]) + accept_parts(rest),
    decreases rest.len(),
{
    let all = seq![first] + rest;
    if rest.len() == 0 {
        assert(all =~= seq![first]);
        assert(accept_parts(all) =~= accept_parts(seq![first]) + accept_parts(rest));
    } else {
        lemma_accept_parts_first(first, rest.drop_last());
        assert(all.drop_last() =~= seq![first] + rest.drop_last());
        assert(all.last() == rest.last());
        assert(accept_parts(all) =~= accept_parts(seq![first]) + accept_parts(rest));
    }
}

/// A header is read range by range, in its order. What is no range is passed over.
pub proof fn header_is_read_range_by_range(part: Seq<char>, rest: Seq<char>)
    requires
        !part.contains(','),
    ensures
        accept_part(part) is Some ==> accepted(part) == seq![accept_part(part)->0],
        accept_part(part) is None ==> accepted(part) == Seq::<MimeView>::empty(),
        accept_part(part) is Some ==> accepted(part + seq![','] + rest) == seq![accept_part(part)->0]
            + accepted(rest),
        accept_part(part) is None ==> accepted(part + seq![','] + rest) == accepted(rest),
{
    crate::text::parts_stand_between_separators(part, ',', rest);
    lemma_accept_parts_first(part, crate::text::split(rest, ','));
    let one = seq![part];
    assert(one.drop_last() =~= Seq::<Seq<char>>::empty());
    assert(one.last() == part);
    assert(accept_parts(one.drop_last()) =~= Seq::<MimeView>::empty());
    if accept_part(part) is Some {
        assert(accept_parts(one) =~= seq![accept_part(part)->0]);
    } else {
        assert(accept_parts(one) =~= Seq::<MimeView>::empty());
        assert(Seq::<MimeView>::empty() + accepted(rest) =~= accepted(rest));
    }
}

fn parse_accept_part(part: &str) -> (r: Option<Mime>)
    ensures
        r.deep_view() == accept_part(part@),
{
    let p: Vec<char> = chars_of(trim(part).as_str());
    let semicolon: usize = find_char(&p, 0, ';');
    assert(p@.skip(0) =~= p@);
    assert(p@.subrange(0, semicolon as int) =~= p@.take(semicolon as int));
    let mime: Vec<char> = chars_of(trim(string_of(&p, 0, semicolon).as_str()).as_str());
    let slash: usize = find_char(&mime, 0, '/');
    assert(mime@.skip(0) =~= mime@);
    if slash >= mime.len() {
        return None;
    }
    assert(mime@.subrange(0, slash as int) =~= mime@.take(slash as int));
    assert(mime@.subrange(slash as int + 1, mime@.len() as int) =~= mime@.skip(slash as int + 1));
    let type_: String = trim(string_of(&mime, 0, slash).as_str());
    let subtype: String = trim(string_of(&mime, slash + 1, mime.len()).as_str());
    if type_.as_str().is_empty() || subtype.as_str().is_empty() {
        return None;
    }
    let param_count: usize = if p.len() - semicolon <= 1 {
        0
    } else {
        assert(p@.subrange(semicolon as int + 1, p@.len() as int) =~= p@.skip(semicolon as int + 1));
        let params: Vec<String> = split_at(string_of(&p, semicolon + 1, p.len()).as_str(), ';');
        assert(params.deep_view().len() == params.len());
        params.len()
    };
    let specificity_rank: u8 = if text_eq(type_.as_str(), "*") {
        2
    } else if text_eq(subtype.as_str(), "*") {
        1
    } else {
        0
    };
    Some(Mime { type_, subtype, specificity_rank, param_count })
}

/// Reads the header in which a client names what it accepts.
pub fn parse_accept(header: &str) -> (r: Vec<Mime>)
    ensures
        r.deep_view() == accepted(header@),
{
    let parts: Vec<String> = split_at(header, ',');
    let ghost all = parts.deep_view();
    let mut r: Vec<Mime> = Vec::new();
    let mut i: usize = 0;
    assert(r.deep_view() =~= accept_parts(all.take(0)));
    while i < parts.len()
        invariant
            i <= parts.len(),
            all == parts.deep_view(),
            r.deep_view() == accept_parts(all.take(i as int)),
        decreases parts.len() - i,
    {
        assert(all.take(i as int + 1).drop_last() =~= all.take(i as int));
        assert(all.take(i as int + 1).last() == parts@[i as int]@);
        let ghost before = r.deep_view();
        match parse_accept_part(parts[i].as_str()) {
            Some(m) => {
                r.push(m);
                assert(r.deep_view() =~= before.push(m.deep_view()));
            },
            None => {},
        }
        i += 1;
    }
    assert(all.take(all.len() as int) =~= all);
    r
}

/// Whether a media range covers a media type, which may be a range itself.
pub open spec fn is_compatible(m: MimeView, type_: Seq<char>, subtype: Seq<char>) -> bool {
    m.type_ == "*"@ || (m.type_ == type_ && (m.subtype == "*"@ || subtype == "*"@ || m.subtype
        == subtype))
}

/// Tells whether a media range covers a media type.
pub fn compatible(mime: &Mime, type_: &str, subtype: &str) -> (r: bool)
    ensures
        r == is_compatible(mime.deep_view(), type_@, subtype@),
{
    text_eq(mime.type_.as_str(), "*") || (text_eq(mime.type_.as_str(), type_) && (text_eq(
        mime.subtype.as_str(),
        "*",
    ) || text_eq(subtype, "*") || text_eq(mime.subtype.as_str(), subtype)))
}

/// Whether a media range is more specific than another: a type without a wildcard before a type
/// with any subtype before any type, then by type and subtype, then the one with more parameters.
pub open spec fn more_specific(a: MimeView, b: MimeView) -> bool {
    if a.specificity_rank != b.specificity_rank {
        a.specificity_rank < b.specificity_rank
    } else if a.type_ != b.type_ {
        crate::text::lex_lt(a.type_, b.type_)
    } else if a.subtype != b.subtype {
        crate::text::lex_lt(a.subtype, b.subtype)
    } else {
        a.param_count > b.param_count
    }
}

/// A range that names its subtype is more specific than one that leaves it open, and that one than one
/// that leaves all open; of two that go as far the one with the lesser name comes first, and of two with
/// the same names the one with more parameters.
pub proof fn narrower_range_is_more_specific(
    a: Seq<char>,
    b: Seq<char>,
    c: Seq<char>,
    d: Seq<char>,
    m: MimeView,
    n: nat,
)
    requires
        a != "*"@,
        b != "*"@,
        c != "*"@,
    ensures
        rank_of(a, b) < rank_of(c, "*"@) < rank_of("*"@, d),
        rank_of(a, b) == rank_of(c, b),
        forall|x: MimeView, y: MimeView|
            x.specificity_rank < y.specificity_rank ==> #[trigger] more_specific(x, y)
                && !more_specific(y, x),
        forall|x: MimeView, y: MimeView|
            x.specificity_rank == y.specificity_rank && crate::text::lex_lt(x.type_, y.type_)
                ==> #[trigger] more_specific(x, y),
        forall|x: MimeView, y: MimeView|
            x.specificity_rank == y.specificity_rank && x.type_ == y.type_ && crate::text::lex_lt(
                x.subtype,
                y.subtype,
            ) ==> #[trigger] more_specific(x, y),
        more_specific(MimeView { param_count: n, ..m }, m) <==> n > m.param_count,
{
    assert forall|x: MimeView, y: MimeView|
        x.specificity_rank == y.specificity_rank && crate::text::lex_lt(
            x.type_,
            y.type_,
        ) implies #[trigger] more_specific(x, y) by {
        crate::sorting::lemma_lex_irreflexive(x.type_);
    }
    assert forall|x: MimeView, y: MimeView|
        x.specificity_rank == y.specificity_rank && x.type_ == y.type_ && crate::text::lex_lt(
            x.subtype,
            y.subtype,
        ) implies #[trigger] more_specific(x, y) by {
        crate::sorting::lemma_lex_irreflexive(x.subtype);
    }
}

/// A range covers what it names, and a range with an open end all that it leaves open; a range that is
/// asked about with an open subtype is covered by any of its type.
pub proof fn range_covers_what_it_leaves_open(m: MimeView, type_: Seq<char>, subtype: Seq<char>)
    ensures
        m.type_ == "*"@ ==> is_compatible(m, type_, subtype),
        m.type_ != "*"@ && m.type_ != type_ ==> !is_compatible(m, type_, subtype),
        m.type_ == type_ && (m.subtype == "*"@ || m.subtype == subtype) ==> is_compatible(
            m,
            type_,
            subtype,
        ),
        m.type_ == type_ ==> is_compatible(m, type_, "*"@),
        m.type_ != "*"@ && m.subtype != "*"@ && subtype != "*"@ && m.subtype != subtype
            ==> !is_compatible(m, type_, subtype),
{
}

impl SortKey for Mime {
    open spec fn key_lt(self, other: Mime) -> bool {
        more_specific(self.deep_view(), other.deep_view())
    }

    proof fn irreflexive(a: Mime) {
    }

    proof fn transitive(a: Mime, b: Mime, c: Mime) {
        let (x, y, z) = (a.deep_view(), b.deep_view(), c.deep_view());
        if x.specificity_rank == y.specificity_rank && y.specificity_rank == z.specificity_rank {
            if x.type_ != y.type_ && y.type_ != z.type_ {
                crate::sorting::lemma_lex_transitive(x.type_, y.type_, z.type_);
                crate::sorting::lemma_lex_irreflexive(x.type_);
            } else if x.type_ == y.type_ && y.type_ == z.type_ {
                if x.subtype != y.subtype && y.subtype != z.subtype {
                    crate::sorting::lemma_lex_transitive(x.subtype, y.subtype, z.subtype);
                    crate::sorting::lemma_lex_irreflexive(x.subtype);
                }
            }
        }
    }

    proof fn negatively_transitive(a: Mime, b: Mime, c: Mime) {
        let (x, y, z) = (a.deep_view(), b.deep_view(), c.deep_view());
        if x.specificity_rank == y.specificity_rank && y.specificity_rank == z.specificity_rank {
            crate::sorting::lex_is_total(x.type_, y.type_);
            crate::sorting::lex_is_total(y.type_, z.type_);
            crate::sorting::lex_is_total(x.subtype, y.subtype);
            crate::sorting::lex_is_total(y.subtype, z.subtype);
            if !crate::text::lex_lt(x.type_, y.type_) && !crate::text::lex_lt(y.type_, z.type_) {
                crate::sorting::lemma_lex_negatively_transitive(x.type_, y.type_, z.type_);
            }
            if x.type_ != y.type_ && y.type_ != z.type_ {
                crate::sorting::lemma_lex_transitive(z.type_, y.type_, x.type_);
                crate::sorting::lemma_lex_irreflexive(x.type_);
            }
            if !crate::text::lex_lt(x.subtype, y.subtype) && !crate::text::lex_lt(
                y.subtype,
                z.subtype,
            ) {
                crate::sorting::lemma_lex_negatively_transitive(x.subtype, y.subtype, z.subtype);
            }
            if x.type_ == y.type_ && y.type_ == z.type_ && x.subtype != y.subtype && y.subtype
                != z.subtype {
                crate::sorting::lemma_lex_transitive(z.subtype, y.subtype, x.subtype);
                crate::sorting::lemma_lex_irreflexive(x.subtype);
            }
            crate::sorting::lemma_lex_irreflexive(x.type_);
            crate::sorting::lemma_lex_irreflexive(x.subtype);
        }
    }

    fn less(&self, other: &Mime) -> (r: bool) {
        if self.specificity_rank != other.specificity_rank {
            self.specificity_rank < other.specificity_rank
        } else if !text_eq(self.type_.as_str(), other.type_.as_str()) {
            chars_lt(&chars_of(self.type_.as_str()), &chars_of(other.type_.as_str()))
        } else if !text_eq(self.subtype.as_str(), other.subtype.as_str()) {
            chars_lt(&chars_of(self.subtype.as_str()), &chars_of(other.subtype.as_str()))
        } else {
            self.param_count > other.param_count
        }
    }
}

/// Puts the most specific media ranges first, and leaves equally specific ones in place.
pub fn sort_by_specificity(mimes: &Vec<Mime>) -> (r: Vec<Mime>)
    ensures
        exists|order: Seq<usize>|
            crate::sorting::is_sorting(mimes@, order) && r.deep_view() == crate::sorting::arranged(
                mimes.deep_view(),
                order,
            ),
{
    let order: Vec<usize> = stable_order(mimes);
    let mut r: Vec<Mime> = Vec::new();
    let mut i: usize = 0;
    let ghost all = crate::sorting::arranged(mimes.deep_view(), order@);
    assert(r.deep_view() =~= all.take(0));
    while i < order.len()
        invariant
            i <= order.len(),
            crate::sorting::is_sorting(mimes@, order@),
            all == crate::sorting::arranged(mimes.deep_view(), order@),
            r.deep_view() == all.take(i as int),
        decreases order.len() - i,
    {
        assert(order@[i as int] < mimes.len());
        let m: &Mime = &mimes[order[i]];
        let ghost before = r.deep_view();
        r.push(
            Mime {
                type_: m.type_.clone(),
                subtype: m.subtype.clone(),
                specificity_rank: m.specificity_rank,
                param_count: m.param_count,
            },
        );
        assert(r.deep_view() =~= before.push(m.deep_view()));
        assert(r.deep_view() =~= all.take(i as int + 1));
        i += 1;
    }
    assert(all.take(all.len() as int) =~= all);
    r
}

// ---- the form of a page ----

/// Whether a media range speaks of a PDF page or of its image.
pub open spec fn speaks_of_page(m: MimeView) -> bool {
    is_compatible(m, "application"@, "pdf"@) || is_compatible(m, "image"@, "*"@)
}

/// Whether the range at `k` is the most specific, the first of those that are equally specific.
pub open spec fn is_most_specific(ms: Seq<MimeView>, k: int) -> bool {
    &&& 0 <= k < ms.len()
    &&& forall|j: int|
        0 <= j < ms.len() && j != k ==> more_specific(ms[k], #[trigger] ms[j]) || (!more_specific(
            ms[j],
            ms[k],
        ) && k < j)
}

/// Whether a client that accepts these ranges would rather have a page as PDF than as an image:
/// the most specific range that speaks of the page covers PDF.
pub open spec fn prefers_pdf(ms: Seq<MimeView>) -> bool {
    let about = ms.filter(|m: MimeView| speaks_of_page(m));
    exists|k: int|
        #[trigger] is_most_specific(about, k) && is_compatible(about[k], "application"@, "pdf"@)
}

fn keep_page_ranges(ms: Vec<Mime>) -> (r: Vec<Mime>)
    ensures
        r.deep_view() == ms.deep_view().filter(|m: MimeView| speaks_of_page(m)),
{
    let ghost all = ms.deep_view();
    let ghost keep = |m: MimeView| speaks_of_page(m);
    let mut r: Vec<Mime> = Vec::new();
    proof {
        reveal(Seq::filter);
        assert(r.deep_view() =~= all.take(0).filter(keep));
    }
    for m in it: ms
        invariant
            it.seq() == ms@,
            all == ms.deep_view(),
            keep == (|m: MimeView| speaks_of_page(m)),
            r.deep_view() == all.take(it.index()).filter(keep),
    {
        let ghost before = r.deep_view();
        proof {
            assert(all.take(it.index() + 1) =~= all.take(it.index()).push(m.deep_view()));
            all.take(it.index()).lemma_filter_push(m.deep_view(), keep);
        }
        if compatible(&m, "application", "pdf") || compatible(&m, "image", "*") {
            r.push(m);
            assert(r.deep_view() =~= before.push(m.deep_view()));
        }
    }
    assert(all.take(all.len() as int) =~= all);
    r
}

/// Decides whether a page is sent as it is in a PDF file: only an unresized page of a PDF is, and
/// only to a client that prefers it.
pub fn sends_raw_pdf(is_pdf: bool, resized: bool, accept: &Option<String>) -> (r: bool)
    ensures
        r == (is_pdf && !resized && accept is Some && prefers_pdf(
            accepted(accept.deep_view()->0),
        )),
{
    if !is_pdf || resized {
        return false;
    }
    match accept {
        Some(header) => {
            let about: Vec<Mime> = keep_page_ranges(parse_accept(header.as_str()));
            let ghost ms = about.deep_view();
            if about.len() == 0 {
                return false;
            }
            let order: Vec<usize> = stable_order(&about);
            proof {
                crate::sorting::sorting_is_a_rearrangement(about@, order@);
                assert(order@[0] < about@.len());
            }
            let first: usize = order[0];
            proof {
                assert forall|j: int| 0 <= j < ms.len() && j != first implies more_specific(
                    ms[first as int],
                    #[trigger] ms[j],
                ) || (!more_specific(ms[j], ms[first as int]) && first < j) by {
                    assert(order@.contains(j as usize));
                    let i = choose|i: int| 0 <= i < order@.len() && order@[i] == j as usize;
                    assert(crate::sorting::goes_before(
                        about@,
                        order@[0] as int,
                        order@[i] as int,
                    ));
                    assert(about@[j].key_lt(about@[first as int]) == more_specific(
                        ms[j],
                        ms[first as int],
                    ));
                    assert(about@[first as int].key_lt(about@[j]) == more_specific(
                        ms[first as int],
                        ms[j],
                    ));
                }
                assert(is_most_specific(ms, first as int));
                assert forall|k: int| #[trigger] is_most_specific(ms, k) implies k == first by {
                    if k != first {
                        assert(more_specific(ms[k], ms[first as int]) || (!more_specific(
                            ms[first as int],
                            ms[k],
                        ) && k < first));
                        assert(more_specific(ms[first as int], ms[k]) || (!more_specific(
                            ms[k],
                            ms[first as int],
                        ) && first < k));
                        lemma_more_specific_one_way(ms[k], ms[first as int]);
                    }
                }
            }
            compatible(&about[first], "application", "pdf")
        },
        None => false,
    }
}

proof fn lemma_more_specific_one_way(a: MimeView, b: MimeView)
    ensures
        !(more_specific(a, b) && more_specific(b, a)),
{
    if more_specific(a, b) && more_specific(b, a) {
        if a.type_ != b.type_ {
            crate::sorting::lemma_lex_transitive(a.type_, b.type_, a.type_);
            crate::sorting::lemma_lex_irreflexive(a.type_);
        } else if a.subtype != b.subtype {
            crate::sorting::lemma_lex_transitive(a.subtype, b.subtype, a.subtype);
            crate::sorting::lemma_lex_irreflexive(a.subtype);
        }
    }
}

proof fn lemma_some_most_specific(ms: Seq<MimeView>)
    requires
        ms.len() > 0,
    ensures
        exists|k: int| is_most_specific(ms, k),
    decreases ms.len(),
{
    if ms.len() == 1 {
        assert(is_most_specific(ms, 0));
    } else {
        let init = ms.drop_last();
        lemma_some_most_specific(init);
        let k = choose|k: int| is_most_specific(init, k);
        let last = ms.len() - 1;
        assert(init[k] == ms[k]);
        if more_specific(ms[last], ms[k]) {
            assert forall|j: int| 0 <= j < ms.len() && j != last implies more_specific(
                ms[last],
                #[trigger] ms[j],
            ) by {
                if j != k {
                    assert(init[j] == ms[j]);
                    assert(more_specific(ms[k], ms[j]) || !more_specific(ms[j], ms[k]));
                    lemma_more_specific_is_an_order(ms[last], ms[k], ms[j]);
                }
            }
            assert(is_most_specific(ms, last));
        } else {
            assert forall|j: int| 0 <= j < ms.len() && j != k implies more_specific(
                ms[k],
                #[trigger] ms[j],
            ) || (!more_specific(ms[j], ms[k]) && k < j) by {
                if j < last {
                    assert(init[j] == ms[j]);
                }
            }
            assert(is_most_specific(ms, k));
        }
    }
}

proof fn lemma_more_specific_is_an_order(a: MimeView, b: MimeView, c: MimeView)
    requires
        more_specific(a, b),
        more_specific(b, c) || !more_specific(c, b),
    ensures
        more_specific(a, c),
{
    crate::sorting::lex_is_total(b.type_, c.type_);
    crate::sorting::lex_is_total(b.subtype, c.subtype);
    crate::sorting::lemma_lex_irreflexive(a.type_);
    crate::sorting::lemma_lex_irreflexive(a.subtype);
    if crate::text::lex_lt(a.type_, b.type_) && crate::text::lex_lt(b.type_, c.type_) {
        crate::sorting::lemma_lex_transitive(a.type_, b.type_, c.type_);
    }
    if crate::text::lex_lt(a.subtype, b.subtype) && crate::text::lex_lt(b.subtype, c.subtype) {
        crate::sorting::lemma_lex_transitive(a.subtype, b.subtype, c.subtype);
    }
}

/// The names of media ranges that are told apart here.
proof fn lemma_range_names()
    ensures
        "application"@ != "image"@,
        "application"@ != "*"@,
        "image"@ != "*"@,
        "pdf"@ != "*"@,
        crate::text::lex_lt("application"@, "image"@),
{
    reveal_strlit("application");
    reveal_strlit("image");
    reveal_strlit("*");
    reveal_strlit("pdf");
    assert("application"@[0] == 'a' && "image"@[0] == 'i');
    assert("application"@.len() == 11 && "image"@.len() == 5 && "*"@.len() == 1 && "pdf"@.len() == 3);
}

/// Whether a range has the rank that belongs to its names.
pub open spec fn is_ranked(m: MimeView) -> bool {
    m.specificity_rank == (if m.type_ == "*"@ {
        2u8
    } else if m.subtype == "*"@ {
        1u8
    } else {
        0u8
    })
}

/// Every range that is read from a header has the rank that belongs to its names.
pub proof fn read_ranges_are_ranked(parts: Seq<Seq<char>>, i: int)
    requires
        0 <= i < accept_parts(parts).len(),
    ensures
        is_ranked(accept_parts(parts)[i]),
    decreases parts.len(),
{
    if parts.len() > 0 {
        let init = accept_parts(parts.drop_last());
        if i < init.len() {
            read_ranges_are_ranked(parts.drop_last(), i);
        }
    }
}

/// A client that names PDF gets a page as PDF, whatever else it accepts.
pub proof fn client_that_names_pdf_gets_pdf(ms: Seq<MimeView>, i: int)
    requires
        forall|j: int| 0 <= j < ms.len() ==> is_ranked(#[trigger] ms[j]),
        0 <= i < ms.len(),
        ms[i].type_ == "application"@,
        ms[i].subtype == "pdf"@,
    ensures
        prefers_pdf(ms),
{
    lemma_range_names();
    let keep = |m: MimeView| speaks_of_page(m);
    let about = ms.filter(keep);
    ms.lemma_filter_contains(keep, i);
    let p = choose|p: int| 0 <= p < about.len() && about[p] == ms[i];
    lemma_some_most_specific(about);
    let k = choose|k: int| is_most_specific(about, k);
    ms.lemma_filter_pred(keep, k);
    assert(about.contains(about[k]));
    ms.lemma_filter_contains_rev(keep, about[k]);
    let j = choose|j: int| 0 <= j < ms.len() && ms[j] == about[k];
    assert(is_ranked(ms[j]));
    assert(is_ranked(ms[i]));
    if k != p {
        assert(more_specific(about[k], about[p]) || !more_specific(about[p], about[k]));
        crate::sorting::lemma_lex_irreflexive("application"@);
        if about[k].type_ == "image"@ {
            if crate::text::lex_lt("image"@, "application"@) {
                crate::sorting::lemma_lex_transitive("application"@, "image"@, "application"@);
            }
        }
    }
    assert(is_compatible(about[k], "application"@, "pdf"@));
}

/// A client that names a kind of image, and not PDF, gets no PDF; nor does one that accepts no range
/// with PDF in it.
pub proof fn client_that_names_an_image_gets_no_pdf(ms: Seq<MimeView>, i: int)
    requires
        forall|j: int| 0 <= j < ms.len() ==> is_ranked(#[trigger] ms[j]),
    ensures
        0 <= i < ms.len() && ms[i].type_ == "image"@ && ms[i].subtype != "*"@ && (forall|j: int|
            0 <= j < ms.len() ==> (#[trigger] ms[j]).type_ != "application"@ || ms[j].subtype
                != "pdf"@) ==> !prefers_pdf(ms),
        (forall|j: int|
            0 <= j < ms.len() ==> (#[trigger] ms[j]).type_ != "application"@ && ms[j].type_ != "*"@)
            ==> !prefers_pdf(ms),
{
    lemma_range_names();
    let keep = |m: MimeView| speaks_of_page(m);
    let about = ms.filter(keep);
    if prefers_pdf(ms) {
        let k = choose|k: int| #[trigger]
            is_most_specific(about, k) && is_compatible(about[k], "application"@, "pdf"@);
        assert(about.contains(about[k]));
        ms.lemma_filter_contains_rev(keep, about[k]);
        let j = choose|j: int| 0 <= j < ms.len() && ms[j] == about[k];
        assert(is_ranked(ms[j]));
        assert(ms[j].type_ == "*"@ || ms[j].type_ == "application"@);
        if 0 <= i < ms.len() && ms[i].type_ == "image"@ && ms[i].subtype != "*"@ {
            assert(is_ranked(ms[i]));
            ms.lemma_filter_contains(keep, i);
            let p = choose|p: int| 0 <= p < about.len() && about[p] == ms[i];
            assert(more_specific(about[k], about[p]) || !more_specific(about[p], about[k]));
        }
    }
}

/// The image formats that a page can be converted to.
#[derive(Clone, Copy, Debug, PartialEq, Eq, Structural)]
pub enum ImageType {
    Jpeg,
    Png,
}

/// The parameters of a request for a page.
#[derive(Debug, PartialEq, Eq)]
pub struct PageRequestParams {
    pub convert: Option<String>,
    pub zero_based: bool,
    pub content_negotiation: bool,
}

/// Whether the pages of a request are counted from zero: only if it says so.
pub open spec fn counts_from_zero(zero_based: Option<bool>) -> bool {
    zero_based == Some(true)
}

/// Whether a request lets the form of a page be negotiated: unless it says no.
pub open spec fn negotiates(content_negotiation: Option<bool>) -> bool {
    content_negotiation != Some(false)
}

/// The page that a request means, counted from one.
pub open spec fn meant_page(page_number: int, zero_based: bool) -> int {
    if zero_based {
        page_number + 1
    } else {
        page_number
    }
}

/// A request that does not say how it counts counts from one, and negotiates. The page after the `n`th
/// is the same however pages are counted.
pub proof fn pages_are_counted_from_one(said: bool, n: int)
    ensures
        counts_from_zero(Some(said)) == said,
        !counts_from_zero(None),
        negotiates(Some(said)) == said,
        negotiates(None),
        meant_page(n, true) == meant_page(n + 1, false),
        meant_page(n, false) == n,
{
}

/// The format that a request converts a page to, if it names one.
pub open spec fn conversion(convert: Option<Seq<char>>) -> Result<Option<ImageType>, crate::error::ErrorView> {
    match convert {
        None => Ok(None),
        Some(c) => if c.len() == 0 {
            Ok(None)
        } else if crate::text::ascii_lowered(c) == crate::text::ascii_lowered("jpeg"@) {
            Ok(Some(ImageType::Jpeg))
        } else if crate::text::ascii_lowered(c) == crate::text::ascii_lowered("png"@) {
            Ok(Some(ImageType::Png))
        } else {
            Err(status_error(400, "Invalid conversion format: "@ + c))
        },
    }
}

/// A page is converted to the format whose name is given, in any case, and to none without a name; any
/// other name is told to be wrong.
pub proof fn page_is_converted_to_the_named_format(c: Seq<char>)
    ensures
        conversion(Some("jpeg"@)) == Ok::<Option<ImageType>, crate::error::ErrorView>(
            Some(ImageType::Jpeg),
        ),
        conversion(Some("png"@)) == Ok::<Option<ImageType>, crate::error::ErrorView>(
            Some(ImageType::Png),
        ),
        crate::text::ascii_lowered(c) == crate::text::ascii_lowered("jpeg"@) || crate::text::ascii_lowered(
            c,
        ) == crate::text::ascii_lowered("png"@) ==> conversion(Some(c)) == conversion(
            Some(crate::text::ascii_lowered(c)),
        ),
        conversion(None) == Ok::<Option<ImageType>, crate::error::ErrorView>(None),
        conversion(Some(Seq::empty())) == Ok::<Option<ImageType>, crate::error::ErrorView>(None),
        c.len() > 0 && crate::text::ascii_lowered(c) != crate::text::ascii_lowered("jpeg"@)
            && crate::text::ascii_lowered(c) != crate::text::ascii_lowered("png"@) ==> conversion(Some(c))
            == Err::<Option<ImageType>, crate::error::ErrorView>(
            status_error(400, "Invalid conversion format: "@ + c),
        ),
{
    reveal_strlit("jpeg");
    reveal_strlit("png");
    assert(crate::text::ascii_lowered("jpeg"@) =~= "jpeg"@);
    assert(crate::text::ascii_lowered("png"@) =~= "png"@);
    assert("jpeg"@.len() == 4 && "png"@.len() == 3);
    let low = crate::text::ascii_lowered(c);
    assert(crate::text::ascii_lowered(low) =~= low);
}

/// The parameters of a request for a page: pages count from one and the client's preferences
/// matter, unless the request says otherwise.
pub fn page_params(
    convert: Option<String>,
    zero_based: Option<bool>,
    content_negotiation: Option<bool>,
) -> (r: PageRequestParams)
    ensures
        r.convert == convert,
        r.zero_based == counts_from_zero(zero_based),
        r.content_negotiation == negotiates(content_negotiation),
{
    PageRequestParams {
        convert,
        zero_based: match zero_based {
            Some(b) => b,
            None => false,
        },
        content_negotiation: match content_negotiation {
            Some(b) => b,
            None => true,
        },
    }
}

/// Reads the format that a page is to be converted to.
pub fn parse_convert(convert: &Option<String>) -> (r: Result<Option<ImageType>, ApiError>)
    ensures
        match (r, conversion(convert.deep_view())) {
            (Ok(t), Ok(v)) => t == v,
            (Err(e), Err(v)) => e.deep_view() == v,
            _ => false,
        },
{
    match convert {
        None => Ok(None),
        Some(c) => {
            if c.as_str().is_empty() {
                Ok(None)
            } else if eq_ignore_case(c.as_str(), "jpeg") {
                Ok(Some(ImageType::Jpeg))
            } else if eq_ignore_case(c.as_str(), "png") {
                Ok(Some(ImageType::Png))
            } else {
                let mut m: String = "Invalid conversion format: ".to_owned();
                m.append(c.as_str());
                Err(ApiError::bad_request(m.as_str()))
            }
        },
    }
}

/// The number of the page that a request asks for, counted from one.
pub fn requested_page(page_number: i32, zero_based: bool) -> (r: i32)
    requires
        zero_based ==> page_number < i32::MAX,
    ensures
        r == meant_page(page_number as int, zero_based),
{
    if zero_based {
        page_number + 1
    } else {
        page_number
    }
}

/// The number of a page as a count; a number below zero is beyond every book.
pub fn page_index(page_number: i32) -> (r: usize)
    ensures
        r == (if page_number < 0 {
            usize::MAX as int
        } else {
            page_number as int
        }),
{
    if page_number < 0 {
        usize::MAX
    } else {
        page_number as usize
    }
}

/// The name under which a page is sent.
pub fn page_file_name(book_name: &str, page_number: i32, extension: &str) -> (r: String)
    ensures
        r@ == book_name@ + "-"@ + crate::text::decimal_int(page_number as int) + extension@,
{
    let mut r: String = book_name.to_owned();
    r.append("-");
    push_decimal_i64(&mut r, page_number as i64);
    r.append(extension);
    r
}

// ---- the files inside an EPUB ----

/// A path without the slash that it starts with.
pub open spec fn without_leading_slash(path: Seq<char>) -> Seq<char> {
    if path.len() > 0 && path[0] == '/' {
        path.skip(1)
    } else {
        path
    }
}

/// The name of the resource that a path asks for.
pub fn resource_name(path: &str) -> (r: String)
    ensures
        r@ == without_leading_slash(path@),
{
    let v: Vec<char> = chars_of(path);
    let from: usize = if v.len() > 0 && v[0] == '/' { 1 } else { 0 };
    assert(v@.subrange(0, v@.len() as int) =~= v@);
    assert(v@.len() > 0 ==> v@.subrange(1, v@.len() as int) =~= v@.skip(1));
    string_of(&v, from, v.len())
}

/// The index behind the last of several separators, or zero if there is none.
pub open spec fn after_last(s: Seq<char>, a: char, b: char) -> int
    decreases s.len(),
{
    if s.len() == 0 || s.last() == a || s.last() == b {
        s.len() as int
    } else {
        after_last(s.drop_last(), a, b)
    }
}

/// Finds the index behind the last of several separators.
pub fn find_after_last(v: &Vec<char>, a: char, b: char) -> (r: usize)
    ensures
        r == after_last(v@, a, b),
        r <= v.len(),
{
    let mut i: usize = v.len();
    assert(v@.take(v@.len() as int) =~= v@);
    while i > 0 && v[i - 1] != a && v[i - 1] != b
        invariant
            i <= v.len(),
            after_last(v@, a, b) == after_last(v@.take(i as int), a, b),
        decreases i,
    {
        assert(v@.take(i as int).drop_last() =~= v@.take(i as int - 1));
        i -= 1;
    }
    assert(i > 0 ==> v@.take(i as int).last() == v@[i as int - 1]);
    i
}

/// What follows the last dot of a name; nothing without a dot.
pub open spec fn extension_part(name: Seq<char>) -> Seq<char> {
    if after_last(name, '.', '.') == 0 {
        Seq::empty()
    } else {
        name.skip(after_last(name, '.', '.'))
    }
}

/// What follows the last slash or backslash of a name.
pub open spec fn base_part(name: Seq<char>) -> Seq<char> {
    name.skip(after_last(name, '/', '\\'))
}

/// The extension of a resource's name, in lower case.
pub fn resource_extension(name: &str) -> (r: String)
    ensures
        r@ == (if after_last(name@, '.', '.') == 0 {
            Seq::empty()
        } else {
            crate::text::lowercased(extension_part(name@))
        }),
{
    let v: Vec<char> = chars_of(name);
    let i: usize = find_after_last(&v, '.', '.');
    if i == 0 {
        return String::new();
    }
    assert(v@.subrange(i as int, v@.len() as int) =~= v@.skip(i as int));
    lowercase(string_of(&v, i, v.len()).as_str())
}

/// The name of a resource without its directories.
pub fn resource_basename(name: &str) -> (r: String)
    ensures
        r@ == base_part(name@),
{
    let v: Vec<char> = chars_of(name);
    let i: usize = find_after_last(&v, '/', '\\');
    assert(v@.subrange(i as int, v@.len() as int) =~= v@.skip(i as int));
    string_of(&v, i, v.len())
}

pub(crate) proof fn lemma_after_last_is(s: Seq<char>, a: char, b: char, i: int)
    requires
        0 <= i <= s.len(),
        i > 0 ==> s[i - 1] == a || s[i - 1] == b,
        forall|k: int| i <= k < s.len() ==> #[trigger] s[k] != a && s[k] != b,
    ensures
        after_last(s, a, b) == i,
    decreases s.len(),
{
    if s.len() > 0 && i < s.len() {
        assert(s[s.len() - 1] != a && s[s.len() - 1] != b);
        assert forall|k: int| i <= k < s.len() - 1 implies #[trigger] s.drop_last()[k] != a
            && s.drop_last()[k] != b by {
            assert(s.drop_last()[k] == s[k]);
        }
        lemma_after_last_is(s.drop_last(), a, b, i);
    }
}

/// The extension of a resource is what follows its last point, and its own name what follows the last
/// mark between directories.
pub proof fn resource_is_named_by_its_end(before: Seq<char>, end: Seq<char>)
    ensures
        !end.contains('.') ==> extension_part(before + seq!['.'] + end) == end,
        !end.contains('.') ==> extension_part(end) == Seq::<char>::empty(),
        !end.contains('/') && !end.contains('\\') ==> base_part(before + seq!['/'] + end) == end,
        !end.contains('/') && !end.contains('\\') ==> base_part(before + seq!['\\'] + end) == end,
        !end.contains('/') && !end.contains('\\') ==> base_part(end) == end,
        without_leading_slash(seq!['/'] + before) == before,
        before.len() > 0 && before[0] != '/' ==> without_leading_slash(before) == before,
{
    let n = before.len() as int;
    assert((seq!['/'] + before).skip(1) =~= before);
    assert forall|k: int| 0 <= k < end.len() implies end.contains(#[trigger] end[k]) by {}
    if !end.contains('.') {
        let s = before + seq!['.'] + end;
        assert forall|k: int| n + 1 <= k < s.len() implies #[trigger] s[k] != '.' by {
            assert(s[k] == end[k - n - 1]);
        }
        lemma_after_last_is(s, '.', '.', n + 1);
        assert(s.skip(n + 1) =~= end);
        lemma_after_last_is(end, '.', '.', 0);
    }
    if !end.contains('/') && !end.contains('\\') {
        let s = before + seq!['/'] + end;
        assert forall|k: int| n + 1 <= k < s.len() implies #[trigger] s[k] != '/' && s[k] != '\\' by {
            assert(s[k] == end[k - n - 1]);
        }
        lemma_after_last_is(s, '/', '\\', n + 1);
        assert(s.skip(n + 1) =~= end);
        let t = before + seq!['\\'] + end;
        assert forall|k: int| n + 1 <= k < t.len() implies #[trigger] t[k] != '/' && t[k] != '\\' by {
            assert(t[k] == end[k - n - 1]);
        }
        lemma_after_last_is(t, '/', '\\', n + 1);
        assert(t.skip(n + 1) =~= end);
        lemma_after_last_is(end, '/', '\\', 0);
        assert(end.skip(0) =~= end);
    }
}

/// The extensions of font files.
pub open spec fn is_font_extension(ext: Seq<char>) -> bool {
    ext == "otf"@ || ext == "woff"@ || ext == "woff2"@ || ext == "eot"@ || ext == "ttf"@ || ext
        == "svg"@
}

/// Whether a resource with this extension is a font.
pub fn is_font(extension: &str) -> (r: bool)
    ensures
        r == is_font_extension(extension@),
{
    text_eq(extension, "otf") || text_eq(extension, "woff") || text_eq(extension, "woff2")
        || text_eq(extension, "eot") || text_eq(extension, "ttf") || text_eq(extension, "svg")
}

/// Fonts are for everyone, any other resource for users only.
pub fn check_resource_access(font: bool, authenticated: bool) -> (r: Result<(), ApiError>)
    ensures
        match r {
            Ok(_) => font || authenticated,
            Err(e) => !font && !authenticated && e.deep_view() == status_error(401, ""@),
        },
{
    if !font && !authenticated {
        Err(ApiError::status(401, ""))
    } else {
        Ok(())
    }
}

/// Refuses a resource that the book does not hold.
pub fn check_resource_exists(name: &str, files: &Vec<String>) -> (r: Result<(), ApiError>)
    ensures
        match r {
            Ok(_) => files.deep_view().contains(name@),
            Err(e) => !files.deep_view().contains(name@) && e.deep_view() == status_error(404, ""@),
        },
{
    if has_text(files, name) {
        Ok(())
    } else {
        Err(ApiError::not_found(""))
    }
}

} // verus!
